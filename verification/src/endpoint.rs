//! Which service a policy asks, and under what address.

use crate::text::{
    self, append, chars_of, copy_text, ends_with, first_index, has_part, is_text, join, push_all,
    slice_of, split_at, string_of, trim_trailing,
};
use vstd::prelude::*;

verus! {

/// The interface of the service that is asked.
#[derive(Clone, Copy, Debug, Eq, PartialEq, Structural)]
pub enum ApiKind {
    ChatCompletions,
    Responses,
}

/// What is needed to ask a service.
#[derive(Clone, Debug)]
pub struct PolicyEndpoint {
    pub url: String,
    pub api_key: String,
    pub kind: ApiKind,
}

/// What stands before the first of a character, and the whole text where it does not
/// occur.
pub open spec fn before_first(text: Seq<char>, letter: char) -> Seq<char> {
    match text.index_of_first(letter) {
        Some(at) => text.take(at),
        None => text,
    }
}

/// What stands behind the first of a character, and nothing where it does not occur.
pub open spec fn behind_first(text: Seq<char>, letter: char) -> Seq<char> {
    match text.index_of_first(letter) {
        Some(at) => text.skip(at + 1),
        None => Seq::empty(),
    }
}

/// The address of the interface under a base address.
pub open spec fn responses_path(base: Seq<char>) -> Seq<char> {
    let trimmed = text::without_trailing(base, '/');
    if text::ends(trimmed, "/responses"@) {
        trimmed
    } else if text::occurs(trimmed, "/api/projects/"@) {
        trimmed + "/openai/v1/responses"@
    } else {
        trimmed + "/responses"@
    }
}

/// Whether a parameter stays: one that is empty does not, nor a version for an interface
/// that has its version in its address.
pub open spec fn stays(parameter: Seq<char>, versioned: bool) -> bool {
    parameter.len() > 0 && !(versioned && before_first(parameter, '=') == "api-version"@)
}

/// The parameters that stay.
pub open spec fn kept_parameters(query: Seq<char>, versioned: bool) -> Seq<Seq<char>> {
    text::split(query, '&').filter(|parameter: Seq<char>| stays(parameter, versioned))
}

/// The address of the interface for an endpoint, with the parameters that stay.
pub open spec fn responses_address(endpoint: Seq<char>) -> Seq<char> {
    let address = responses_path(before_first(endpoint, '?'));
    let query = text::joined(
        kept_parameters(behind_first(endpoint, '?'), text::occurs(address, "/v1/"@)),
        '&',
    );
    if query.len() == 0 {
        address
    } else {
        address + seq!['?'] + query
    }
}

/// The key of a parameter, and what is behind it.
fn split_once(letters: &[char], letter: char) -> (parts: (Vec<char>, Vec<char>))
    ensures
        parts.0@ == before_first(letters@, letter),
        parts.1@ == behind_first(letters@, letter),
{
    proof {
        letters@.index_of_first_ensures(letter);
    }
    let size: usize = letters.len();
    match first_index(letters, letter) {
        Some(at) => {
            assert(letters@.take(at as int) == letters@.subrange(0, at as int));
            assert(letters@.skip(at + 1) == letters@.subrange(at + 1, letters@.len() as int));
            (slice_of(letters, 0, at), slice_of(letters, at + 1, size))
        },
        None => {
            assert(letters@.subrange(0, letters@.len() as int) == letters@);
            (slice_of(letters, 0, letters.len()), Vec::new())
        },
    }
}

/// The parameters that stay.
fn keep_parameters(query: &[char], versioned: bool) -> (kept: Vec<Vec<char>>)
    ensures
        text::views(kept@) == kept_parameters(query@, versioned),
{
    let fields: Vec<Vec<char>> = split_at(query, '&');
    let ghost all = text::split(query@, '&');
    let ghost test = |parameter: Seq<char>| stays(parameter, versioned);
    let mut kept: Vec<Vec<char>> = Vec::new();
    let mut index: usize = 0;
    proof {
        reveal(Seq::filter);
    }
    assert(all.take(0).filter(test) == Seq::<Seq<char>>::empty());
    assert(text::views(kept@) == Seq::<Seq<char>>::empty());
    while index < fields.len()
        invariant
            index <= fields.len(),
            all == text::views(fields@),
            test == (|parameter: Seq<char>| stays(parameter, versioned)),
            text::views(kept@) == all.take(index as int).filter(test),
        decreases fields.len() - index,
    {
        proof {
            reveal(Seq::filter);
            assert(all.take(index + 1).drop_last() == all.take(index as int));
            assert(all.take(index + 1).last() == fields@[index as int]@);
        }
        let (key, _): (Vec<char>, Vec<char>) = split_once(&fields[index], '=');
        if fields[index].len() > 0 && !(versioned && is_text(&key, "api-version")) {
            let ghost earlier = kept@;
            let copy: Vec<char> = slice_of(&fields[index], 0, fields[index].len());
            assert(copy@ == fields@[index as int]@);
            kept.push(copy);
            assert(text::views(kept@) == text::views(earlier).push(copy@));
        }
        index += 1;
    }
    assert(all.take(index as int) == all);
    kept
}

/// The address of the Responses interface for an endpoint of Azure: for a project that of
/// its OpenAI interface, for another endpoint the one below it.
pub fn azure_responses_endpoint(endpoint: &str) -> (address: String)
    ensures
        address@ == responses_address(endpoint@),
{
    let letters: Vec<char> = chars_of(endpoint);
    let (base, query): (Vec<char>, Vec<char>) = split_once(&letters, '?');
    let mut address: Vec<char> = trim_trailing(&base, '/');
    if !ends_with(&address, "/responses") {
        if has_part(&address, "/api/projects/") {
            push_all(&mut address, &chars_of("/openai/v1/responses"));
        } else {
            push_all(&mut address, &chars_of("/responses"));
        }
    }
    assert(address@ == responses_path(before_first(endpoint@, '?')));
    let versioned: bool = has_part(&address, "/v1/");
    let kept: Vec<Vec<char>> = keep_parameters(&query, versioned);
    let rest: Vec<char> = join(&kept, '&');
    if rest.len() > 0 {
        address.push('?');
        push_all(&mut address, &rest);
    }
    assert(address@ =~= responses_address(endpoint@));
    string_of(&address)
}

/// The address of the Chat Completions interface under a base address.
pub open spec fn chat_address(base: Seq<char>) -> Seq<char> {
    text::without_trailing(base, '/') + "/chat/completions"@
}

/// Chooses the service by what is configured: that of Azure where there is an endpoint of
/// Azure, else that of OpenAI, at the address that is given or its own.
pub fn choose_endpoint(
    azure_endpoint: Option<String>,
    azure_key: Option<String>,
    openai_key: Option<String>,
    openai_base: Option<String>,
) -> (endpoint: Result<PolicyEndpoint, String>)
    ensures
        match (azure_endpoint, azure_key, openai_key) {
            (Some(address), Some(key), _) => {
                &&& endpoint matches Ok(found)
                &&& found.kind is Responses
                &&& found.url@ == responses_address(address@)
                &&& found.api_key == key
            },
            (Some(_), None, _) => {
                endpoint matches Err(message) && message@
                    == "AZURE_OPENAI_API_KEY is required when AZURE_OPENAI_ENDPOINT is set"@
            },
            (None, _, Some(key)) => {
                &&& endpoint matches Ok(found)
                &&& found.kind is ChatCompletions
                &&& found.url@ == chat_address(
                    match openai_base {
                        Some(base) => base@,
                        None => "https://api.openai.com/v1"@,
                    },
                )
                &&& found.api_key == key
            },
            (None, _, None) => {
                endpoint matches Err(message) && message@
                    == "OPENAI_API_KEY or AZURE_OPENAI_API_KEY is required for the agent command"@
            },
        },
{
    match azure_endpoint {
        Some(address) => match azure_key {
            Some(api_key) => Ok(
                PolicyEndpoint {
                    url: azure_responses_endpoint(address.as_str()),
                    api_key,
                    kind: ApiKind::Responses,
                },
            ),
            None => Err(
                copy_text("AZURE_OPENAI_API_KEY is required when AZURE_OPENAI_ENDPOINT is set"),
            ),
        },
        None => match openai_key {
            Some(api_key) => {
                let base: String = match openai_base {
                    Some(base) => base,
                    None => copy_text("https://api.openai.com/v1"),
                };
                let letters: Vec<char> = chars_of(base.as_str());
                let trimmed: Vec<char> = trim_trailing(&letters, '/');
                Ok(
                    PolicyEndpoint {
                        url: append(string_of(&trimmed), "/chat/completions"),
                        api_key,
                        kind: ApiKind::ChatCompletions,
                    },
                )
            },
            None => Err(
                copy_text(
                    "OPENAI_API_KEY or AZURE_OPENAI_API_KEY is required for the agent command",
                ),
            ),
        },
    }
}

/// What stands before and behind a character is found again.
proof fn lemma_split_once(head: Seq<char>, tail: Seq<char>, letter: char)
    requires
        !head.contains(letter),
    ensures
        before_first(head, letter) == head,
        behind_first(head, letter) == Seq::<char>::empty(),
        before_first(head + seq![letter] + tail, letter) == head,
        behind_first(head + seq![letter] + tail, letter) == tail,
{
    head.index_of_first_ensures(letter);
    let whole = head + seq![letter] + tail;
    whole.index_of_first_ensures(letter);
    assert(whole[head.len() as int] == letter);
    assert(whole.contains(letter));
    let at = whole.index_of_first(letter)->0;
    if at < head.len() {
        assert(whole[at] == head[at]);
    }
    assert(at == head.len());
    assert(whole.take(at) == head);
    assert(whole.skip(at + 1) == tail);
}

/// Dropping trailing characters adds none.
proof fn lemma_without_trailing(text: Seq<char>, letter: char, other: char)
    requires
        !text.contains(other),
    ensures
        !text::without_trailing(text, letter).contains(other),
    decreases text.len(),
{
    if text.len() > 0 && text.last() == letter {
        assert forall|index: int| 0 <= index < text.drop_last().len() implies text.drop_last()[index]
            != other by {
            assert(text.drop_last()[index] == text[index]);
        }
        lemma_without_trailing(text.drop_last(), letter, other);
    }
}

/// The address of the interface has no parameters, and is its own address.
proof fn lemma_responses_path(base: Seq<char>)
    requires
        !base.contains('?'),
    ensures
        !responses_path(base).contains('?'),
        responses_path(responses_path(base)) == responses_path(base),
{
    reveal_strlit("/responses");
    reveal_strlit("/openai/v1/responses");
    lemma_without_trailing(base, '/', '?');
    let trimmed = text::without_trailing(base, '/');
    let address = responses_path(base);
    assert forall|index: int| 0 <= index < address.len() implies address[index] != '?' by {
        if index < trimmed.len() {
            assert(address[index] == trimmed[index]);
        } else if text::occurs(trimmed, "/api/projects/"@) {
            assert(address[index] == "/openai/v1/responses"@[index - trimmed.len()]);
        } else {
            assert(address[index] == "/responses"@[index - trimmed.len()]);
        }
    }
    let end = "/responses"@;
    assert(end.len() == 10 && end[9] == 's');
    assert(text::ends(address, end)) by {
        if !text::ends(trimmed, end) {
            if text::occurs(trimmed, "/api/projects/"@) {
                assert("/openai/v1/responses"@.skip(10) == end);
                assert(address.skip(address.len() - 10) == end);
            } else {
                assert(address.skip(address.len() - 10) == end);
            }
        }
    }
    assert(address.skip(address.len() - 10)[9] == 's');
    assert(address.last() == 's');
    assert(text::without_trailing(address, '/') == address);
}

/// Parameters that stay are found again.
proof fn lemma_parameters(query: Seq<char>, versioned: bool)
    ensures
        ({
            let kept = kept_parameters(query, versioned);
            let rest = text::joined(kept, '&');
            &&& kept.len() > 0 ==> kept_parameters(rest, versioned) == kept
            &&& kept.len() > 0 ==> rest.len() > 0
            &&& kept.len() == 0 ==> rest.len() == 0
        }),
{
    let test = |parameter: Seq<char>| stays(parameter, versioned);
    let all = text::split(query, '&');
    let kept = all.filter(test);
    text::law_split_then_join(query, '&');
    assert forall|index: int| 0 <= index < kept.len() implies test(#[trigger] kept[index])
        && !kept[index].contains('&') by {
        all.lemma_filter_pred(test, index);
        assert(kept.contains(kept[index]));
        all.lemma_filter_contains_rev(test, kept[index]);
        let at = all.index_of(kept[index]);
        assert(!all[at].contains('&'));
    }
    if kept.len() > 0 {
        text::law_join_then_split(kept, '&');
        lemma_all_stay(kept, test);
        assert(kept[kept.len() - 1].len() > 0);
    }
}

/// Everything stays where everything passes.
proof fn lemma_all_stay(items: Seq<Seq<char>>, test: spec_fn(Seq<char>) -> bool)
    requires
        forall|index: int| 0 <= index < items.len() ==> test(#[trigger] items[index]),
    ensures
        items.filter(test) == items,
    decreases items.len(),
{
    reveal(Seq::filter);
    if items.len() > 0 {
        assert(test(items[items.len() - 1]));
        lemma_all_stay(items.drop_last(), test);
        assert(items.drop_last().push(items.last()) == items);
    }
}

/// An address that was routed stays as it is when it is routed again.
pub proof fn law_routing_settles(endpoint: Seq<char>)
    ensures
        responses_address(responses_address(endpoint)) == responses_address(endpoint),
{
    let base = before_first(endpoint, '?');
    let query = behind_first(endpoint, '?');
    endpoint.index_of_first_ensures('?');
    assert(!base.contains('?'));
    lemma_responses_path(base);
    let address = responses_path(base);
    let versioned = text::occurs(address, "/v1/"@);
    lemma_parameters(query, versioned);
    let kept = kept_parameters(query, versioned);
    let rest = text::joined(kept, '&');
    lemma_split_once(address, rest, '?');
    if kept.len() == 0 {
        let none = Seq::<char>::empty();
        assert(kept_parameters(none, versioned).len() == 0) by {
            let test = |parameter: Seq<char>| stays(parameter, versioned);
            let all = text::split(none, '&');
            let found = all.filter(test);
            assert(all == seq![Seq::<char>::empty()]);
            if found.len() > 0 {
                all.lemma_filter_pred(test, 0);
                assert(found.contains(found[0]));
                all.lemma_filter_contains_rev(test, found[0]);
            }
        }
    }
}

/// A parameter other than a version, and a version for an interface that has none in its
/// address, is never lost.
pub proof fn law_parameters_are_preserved(query: Seq<char>, versioned: bool, parameter: Seq<char>)
    requires
        text::split(query, '&').contains(parameter),
        stays(parameter, versioned),
    ensures
        kept_parameters(query, versioned).contains(parameter),
{
    let all = text::split(query, '&');
    let at = all.index_of(parameter);
    all.lemma_filter_contains(|other: Seq<char>| stays(other, versioned), at);
}

/// A text is taken apart at the first of a character, and stays whole where it does not
/// occur.
pub proof fn law_text_is_parted_at_the_first(before: Seq<char>, behind: Seq<char>, letter: char)
    requires
        !before.contains(letter),
    ensures
        before_first(before.push(letter) + behind, letter) == before,
        behind_first(before.push(letter) + behind, letter) == behind,
        before_first(before, letter) == before,
        behind_first(before, letter) == Seq::<char>::empty(),
{
    let whole = before.push(letter) + behind;
    let at = before.len() as int;
    whole.index_of_first_ensures(letter);
    before.index_of_first_ensures(letter);
    assert(whole[at] == letter);
    assert(whole.contains(letter));
    let found = whole.index_of_first(letter)->0;
    if found < at {
        assert(whole[found] == before[found]);
    }
    assert(whole.take(at) =~= before);
    assert(whole.skip(at + 1) =~= behind);
}

/// The interface stands under the base address: where that names it already it is the
/// address itself, for a project it has a part of its own before it, and else it follows
/// at once. A slash at the end makes no difference.
pub proof fn law_interface_stands_under_the_base(base: Seq<char>)
    requires
        base.len() > 0 ==> base.last() != '/',
    ensures
        responses_path(base.push('/')) == responses_path(base),
        text::ends(base, "/responses"@) ==> responses_path(base) == base,
        !text::ends(base, "/responses"@) && text::occurs(base, "/api/projects/"@)
            ==> responses_path(base) == base + "/openai/v1/responses"@,
        !text::ends(base, "/responses"@) && !text::occurs(base, "/api/projects/"@)
            ==> responses_path(base) == base + "/responses"@,
        text::ends(responses_path(base), "/responses"@),
        chat_address(base) == base + "/chat/completions"@,
        chat_address(base.push('/')) == base + "/chat/completions"@,
{
    assert(base.push('/').drop_last() =~= base);
    assert(text::without_trailing(base, '/') == base);
    assert(text::without_trailing(base.push('/'), '/') == base);
    reveal_strlit("/responses");
    reveal_strlit("/openai/v1/responses");
    let long = base + "/openai/v1/responses"@;
    assert(long.skip(long.len() - "/responses"@.len()) =~= "/responses"@);
    let short = base + "/responses"@;
    assert(short.skip(short.len() - "/responses"@.len()) =~= "/responses"@);
}

/// A parameter is dropped where it is empty, and where it gives a version to an interface
/// that has its version in its address; any other stays.
pub proof fn law_versions_are_dropped(key: Seq<char>, value: Seq<char>, versioned: bool)
    requires
        !key.contains('='),
    ensures
        stays(key.push('=') + value, versioned) <==> !(versioned && key == "api-version"@),
        !stays(Seq::empty(), versioned),
{
    law_text_is_parted_at_the_first(key, value, '=');
}

/// The parameters of an endpoint come behind its address, those that stay, in the order in
/// which they stood; without any of them there is the address alone.
pub proof fn law_parameters_come_behind_the_address(base: Seq<char>, query: Seq<char>)
    requires
        !base.contains('?'),
    ensures
        responses_address(base) == responses_path(base),
        ({
            let address = responses_path(base);
            let kept = text::split(query, '&').filter(
                |parameter: Seq<char>| stays(parameter, text::occurs(address, "/v1/"@)),
            );
            let whole = responses_address(base.push('?') + query);
            &&& kept.len() == 0 ==> whole == address
            &&& kept.len() > 0 ==> whole == address.push('?') + text::joined(kept, '&')
        }),
{
    law_text_is_parted_at_the_first(base, query, '?');
    let address = responses_path(base);
    let versioned = text::occurs(address, "/v1/"@);
    let test = |parameter: Seq<char>| stays(parameter, versioned);
    let kept = kept_parameters(query, versioned);
    lemma_nothing_is_kept(versioned);
    if kept.len() > 0 {
        let all = text::split(query, '&');
        let last = kept.len() - 1;
        all.lemma_filter_pred(test, last);
        assert(kept[last].len() > 0);
        assert(text::joined(kept, '&').len() > 0) by {
            if kept.len() > 1 {
                assert(text::joined(kept, '&') == text::joined(kept.drop_last(), '&').push('&')
                    + kept.last());
            }
        }
        assert(address + seq!['?'] =~= address.push('?'));
    }
}

/// Of no parameters none is kept.
proof fn lemma_nothing_is_kept(versioned: bool)
    ensures
        kept_parameters(Seq::empty(), versioned).len() == 0,
{
    let none = Seq::<char>::empty();
    let test = |parameter: Seq<char>| stays(parameter, versioned);
    let all = text::split(none, '&');
    let found = all.filter(test);
    assert(all == seq![Seq::<char>::empty()]);
    if found.len() > 0 {
        all.lemma_filter_pred(test, 0);
        assert(found.contains(found[0]));
        all.lemma_filter_contains_rev(test, found[0]);
    }
}

} // verus!
