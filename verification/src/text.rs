//! Text as sequences of characters: the operations that names, addresses and
//! messages are parsed and put together with.

use vstd::prelude::*;

verus! {

/// `String::push` appends the given character and keeps what was there.
pub assume_specification[ String::push ](this: &mut String, character: char)
    ensures
        final(this)@ == old(this)@.push(character),
;

/// The characters of a string.
pub fn chars_of(text: &str) -> (letters: Vec<char>)
    ensures
        letters@ == text@,
{
    let mut letters: Vec<char> = Vec::new();
    for letter in iter: text.chars()
        invariant
            iter.seq() == text@,
            letters@ == iter.seq().take(iter.index()),
    {
        letters.push(letter);
    }
    letters
}

/// The string made of the given characters.
pub fn string_of(letters: &[char]) -> (text: String)
    ensures
        text@ == letters@,
{
    let mut text = String::new();
    let mut index: usize = 0;
    while index < letters.len()
        invariant
            index <= letters.len(),
            text@ == letters@.take(index as int),
        decreases letters.len() - index,
    {
        text.push(letters[index]);
        index += 1;
    }
    text
}

/// Whether two character sequences are the same.
pub fn same(left: &[char], right: &[char]) -> (equal: bool)
    ensures
        equal == (left@ == right@),
{
    if left.len() != right.len() {
        return false;
    }
    let mut index: usize = 0;
    while index < left.len()
        invariant
            index <= left.len(),
            left.len() == right.len(),
            left@.take(index as int) == right@.take(index as int),
        decreases left.len() - index,
    {
        if left[index] != right[index] {
            return false;
        }
        assert(left@.take(index + 1) == left@.take(index as int).push(left@[index as int]));
        assert(right@.take(index + 1) == right@.take(index as int).push(right@[index as int]));
        index += 1;
    }
    assert(left@.take(index as int) == left@);
    assert(right@.take(index as int) == right@);
    true
}

/// Whether two strings hold the same characters.
pub fn same_text(left: &str, right: &str) -> (equal: bool)
    ensures
        equal == (left@ == right@),
{
    let left: Vec<char> = chars_of(left);
    let right: Vec<char> = chars_of(right);
    same(&left, &right)
}

/// Whether characters are those of a string.
pub fn is_text(letters: &[char], text: &str) -> (equal: bool)
    ensures
        equal == (letters@ == text@),
{
    let text: Vec<char> = chars_of(text);
    same(letters, &text)
}

/// A copy of a string.
pub fn copy_text(text: &str) -> (copy: String)
    ensures
        copy@ == text@,
{
    text.to_owned()
}

/// One string after another.
pub fn append(left: String, right: &str) -> (text: String)
    ensures
        text@ == left@ + right@,
{
    let mut text = left;
    text.append(right);
    text
}

/// Whether `text` begins with `prefix`.
pub open spec fn begins(text: Seq<char>, prefix: Seq<char>) -> bool {
    prefix.len() <= text.len() && text.take(prefix.len() as int) == prefix
}

/// Whether `text` ends with `suffix`.
pub open spec fn ends(text: Seq<char>, suffix: Seq<char>) -> bool {
    suffix.len() <= text.len() && text.skip(text.len() - suffix.len()) == suffix
}

/// Whether `part` occurs in `text` without a gap.
pub open spec fn occurs(text: Seq<char>, part: Seq<char>) -> bool {
    exists|at: int| 0 <= at && begins(#[trigger] text.skip(at), part) && at <= text.len()
}

/// Decides whether `letters` begin with `prefix`.
pub fn begins_with(letters: &[char], prefix: &str) -> (yes: bool)
    ensures
        yes == begins(letters@, prefix@),
{
    let prefix: Vec<char> = chars_of(prefix);
    if letters.len() < prefix.len() {
        return false;
    }
    let head = &letters[0..prefix.len()];
    assert(head@ == letters@.take(prefix@.len() as int));
    same(head, &prefix)
}

/// Decides whether `letters` end with `suffix`.
pub fn ends_with(letters: &[char], suffix: &str) -> (yes: bool)
    ensures
        yes == ends(letters@, suffix@),
{
    let suffix: Vec<char> = chars_of(suffix);
    if letters.len() < suffix.len() {
        return false;
    }
    let tail = &letters[letters.len() - suffix.len()..letters.len()];
    assert(tail@ == letters@.skip(letters@.len() - suffix@.len()));
    same(tail, &suffix)
}

/// Decides whether `part` occurs in `letters`.
pub fn has_part(letters: &[char], part: &str) -> (yes: bool)
    ensures
        yes == occurs(letters@, part@),
{
    let mut at: usize = 0;
    let size: usize = letters.len();
    loop
        invariant
            at <= size,
            size == letters@.len(),
            forall|earlier: int|
                0 <= earlier < at ==> !begins(#[trigger] letters@.skip(earlier), part@),
        decreases size - at,
    {
        let rest = &letters[at..size];
        assert(rest@ == letters@.skip(at as int));
        if begins_with(rest, part) {
            return true;
        }
        if at == size {
            return false;
        }
        at += 1;
    }
}

/// The characters with every trailing `letter` removed.
pub open spec fn without_trailing(text: Seq<char>, letter: char) -> Seq<char>
    decreases text.len(),
{
    if text.len() > 0 && text.last() == letter {
        without_trailing(text.drop_last(), letter)
    } else {
        text
    }
}

/// Removes every trailing `letter`.
pub fn trim_trailing(letters: &[char], letter: char) -> (kept: Vec<char>)
    ensures
        kept@ == without_trailing(letters@, letter),
{
    let mut end: usize = letters.len();
    assert(letters@.take(end as int) == letters@);
    while end > 0 && letters[end - 1] == letter
        invariant
            end <= letters.len(),
            without_trailing(letters@.take(end as int), letter) == without_trailing(
                letters@,
                letter,
            ),
        decreases end,
    {
        assert(letters@.take(end as int).drop_last() == letters@.take(end - 1));
        end -= 1;
    }
    slice_of(letters, 0, end)
}

/// A copy of part of a character sequence.
pub fn slice_of(letters: &[char], from: usize, to: usize) -> (part: Vec<char>)
    requires
        from <= to <= letters@.len(),
    ensures
        part@ == letters@.subrange(from as int, to as int),
{
    let mut part: Vec<char> = Vec::new();
    let mut index: usize = from;
    while index < to
        invariant
            from <= index <= to <= letters@.len(),
            part@ == letters@.subrange(from as int, index as int),
        decreases to - index,
    {
        part.push(letters[index]);
        index += 1;
    }
    part
}

/// Whether a character is Unicode white space.
pub open spec fn white_space(letter: char) -> bool {
    ||| '\u{9}' <= letter <= '\u{d}'
    ||| letter == ' '
    ||| letter == '\u{85}'
    ||| letter == '\u{a0}'
    ||| letter == '\u{1680}'
    ||| '\u{2000}' <= letter <= '\u{200a}'
    ||| letter == '\u{2028}'
    ||| letter == '\u{2029}'
    ||| letter == '\u{202f}'
    ||| letter == '\u{205f}'
    ||| letter == '\u{3000}'
}

/// Decides whether a character is Unicode white space.
pub fn is_white_space(letter: char) -> (yes: bool)
    ensures
        yes == white_space(letter),
{
    ('\u{9}' <= letter && letter <= '\u{d}') || letter == ' ' || letter == '\u{85}' || letter
        == '\u{a0}' || letter == '\u{1680}' || ('\u{2000}' <= letter && letter <= '\u{200a}')
        || letter == '\u{2028}' || letter == '\u{2029}' || letter == '\u{202f}' || letter
        == '\u{205f}' || letter == '\u{3000}'
}

/// The text without white space at its end.
pub open spec fn trimmed_end(text: Seq<char>) -> Seq<char>
    decreases text.len(),
{
    if text.len() > 0 && white_space(text.last()) {
        trimmed_end(text.drop_last())
    } else {
        text
    }
}

/// The text without white space at its beginning.
pub open spec fn trimmed_start(text: Seq<char>) -> Seq<char>
    decreases text.len(),
{
    if text.len() > 0 && white_space(text[0]) {
        trimmed_start(text.drop_first())
    } else {
        text
    }
}

/// The text without white space at either end.
pub open spec fn trimmed(text: Seq<char>) -> Seq<char> {
    trimmed_end(trimmed_start(text))
}

/// Removes white space at both ends.
pub fn trim(letters: &[char]) -> (kept: Vec<char>)
    ensures
        kept@ == trimmed(letters@),
{
    let mut start: usize = 0;
    let size: usize = letters.len();
    assert(letters@.skip(0) == letters@);
    while start < size && is_white_space(letters[start])
        invariant
            start <= size,
            size == letters@.len(),
            trimmed_start(letters@.skip(start as int)) == trimmed_start(letters@),
        decreases size - start,
    {
        assert(letters@.skip(start as int).drop_first() == letters@.skip(start + 1));
        start += 1;
    }
    let ghost tail = letters@.skip(start as int);
    assert(tail == trimmed_start(letters@));
    let mut end: usize = size;
    assert(letters@.subrange(start as int, end as int) == tail);
    while end > start && is_white_space(letters[end - 1])
        invariant
            start <= end <= size,
            size == letters@.len(),
            trimmed_end(letters@.subrange(start as int, end as int)) == trimmed_end(tail),
        decreases end,
    {
        assert(letters@.subrange(start as int, end as int).drop_last() == letters@.subrange(
            start as int,
            end - 1,
        ));
        end -= 1;
    }
    slice_of(letters, start, end)
}

/// An ASCII capital letter as a small one, any other character as it is.
pub open spec fn lower(letter: char) -> char {
    if 'A' <= letter <= 'Z' {
        ((letter as u32) + 32) as char
    } else {
        letter
    }
}

/// The text with its ASCII capital letters made small.
pub open spec fn lowered(text: Seq<char>) -> Seq<char> {
    text.map_values(|letter: char| lower(letter))
}

/// Makes an ASCII capital letter small.
pub fn to_lower(letter: char) -> (small: char)
    ensures
        small == lower(letter),
{
    if 'A' <= letter && letter <= 'Z' {
        (((letter as u32) as u8) + 32) as char
    } else {
        letter
    }
}

/// Makes the ASCII capital letters small.
pub fn to_lowered(letters: &[char]) -> (small: Vec<char>)
    ensures
        small@ == lowered(letters@),
{
    let mut small: Vec<char> = Vec::new();
    let mut index: usize = 0;
    while index < letters.len()
        invariant
            index <= letters.len(),
            small@ == lowered(letters@.take(index as int)),
        decreases letters.len() - index,
    {
        small.push(to_lower(letters[index]));
        index += 1;
    }
    assert(letters@.take(index as int) == letters@);
    small
}

/// The fields between separators. A text without a separator is one field.
pub open spec fn split<T>(text: Seq<T>, separator: T) -> Seq<Seq<T>>
    decreases text.len(),
{
    if text.len() == 0 {
        seq![Seq::empty()]
    } else {
        let fields = split(text.drop_last(), separator);
        if text.last() == separator {
            fields.push(Seq::empty())
        } else {
            fields.drop_last().push(fields.last().push(text.last()))
        }
    }
}

/// The fields with a separator between each two.
pub open spec fn joined<T>(fields: Seq<Seq<T>>, separator: T) -> Seq<T>
    decreases fields.len(),
{
    if fields.len() == 0 {
        Seq::empty()
    } else if fields.len() == 1 {
        fields[0]
    } else {
        joined(fields.drop_last(), separator).push(separator) + fields.last()
    }
}

/// There is at least one field.
pub proof fn lemma_split_nonempty<T>(text: Seq<T>, separator: T)
    ensures
        split(text, separator).len() >= 1,
    decreases text.len(),
{
    if text.len() > 0 {
        lemma_split_nonempty(text.drop_last(), separator);
    }
}

/// Joining what was split gives the text back, and no field holds the separator.
pub proof fn law_split_then_join<T>(text: Seq<T>, separator: T)
    ensures
        joined(split(text, separator), separator) == text,
        forall|index: int|
            0 <= index < split(text, separator).len() ==> !(#[trigger] split(
                text,
                separator,
            )[index]).contains(separator),
    decreases text.len(),
{
    if text.len() > 0 {
        let head = text.drop_last();
        law_split_then_join(head, separator);
        lemma_split_nonempty(head, separator);
        let before = split(head, separator);
        let after = split(text, separator);
        assert(head.push(text.last()) == text);
        if text.last() == separator {
            assert(after.drop_last() == before);
            assert(joined(after, separator) == joined(before, separator).push(separator)
                + Seq::<T>::empty());
            assert(joined(after, separator) == text);
        } else {
            assert(after.drop_last() == before.drop_last());
            assert(after.last() == before.last().push(text.last()));
            if before.len() == 1 {
                assert(joined(after, separator) == text);
            } else {
                assert(joined(after, separator) == joined(before, separator).push(text.last()));
            }
            assert forall|index: int| 0 <= index < after.len() implies !(
            #[trigger] after[index]).contains(separator) by {
                if index < before.len() - 1 {
                    assert(after[index] == before[index]);
                } else {
                    assert(!before[before.len() - 1].contains(separator));
                    assert(after[index] == before.last().push(text.last()));
                }
            }
        }
    }
}

/// One more field is one more field when the text is split.
pub proof fn lemma_split_push<T>(head: Seq<T>, tail: Seq<T>, separator: T)
    requires
        !tail.contains(separator),
    ensures
        split(head.push(separator) + tail, separator) == split(head, separator).push(tail),
    decreases tail.len(),
{
    let whole = head.push(separator) + tail;
    if tail.len() == 0 {
        assert(whole == head.push(separator));
        assert(whole.drop_last() == head);
        assert(tail == Seq::<T>::empty());
    } else {
        assert(whole.drop_last() == head.push(separator) + tail.drop_last());
        assert(whole.last() == tail.last());
        assert(tail[tail.len() - 1] != separator);
        assert forall|index: int| 0 <= index < tail.drop_last().len() implies tail.drop_last()[index]
            != separator by {
            assert(tail.drop_last()[index] == tail[index]);
        }
        lemma_split_push(head, tail.drop_last(), separator);
        let fields = split(whole.drop_last(), separator);
        assert(fields.drop_last() == split(head, separator));
        assert(tail.drop_last().push(tail.last()) == tail);
    }
}

/// A text without a separator is one field.
pub proof fn lemma_split_one<T>(text: Seq<T>, separator: T)
    requires
        !text.contains(separator),
    ensures
        split(text, separator) == seq![text],
    decreases text.len(),
{
    if text.len() > 0 {
        assert(text[text.len() - 1] != separator);
        assert forall|index: int| 0 <= index < text.drop_last().len() implies text.drop_last()[index]
            != separator by {
            assert(text.drop_last()[index] == text[index]);
        }
        lemma_split_one(text.drop_last(), separator);
        assert(text.drop_last().push(text.last()) == text);
        assert(seq![text.drop_last()].drop_last().push(text) == seq![text]);
    } else {
        assert(text == Seq::<T>::empty());
    }
}

/// Splitting what was joined gives the fields back, where there is one and none holds the
/// separator.
pub proof fn law_join_then_split<T>(fields: Seq<Seq<T>>, separator: T)
    requires
        fields.len() > 0,
        forall|index: int| 0 <= index < fields.len() ==> !(#[trigger] fields[index]).contains(separator),
    ensures
        split(joined(fields, separator), separator) == fields,
    decreases fields.len(),
{
    if fields.len() == 1 {
        lemma_split_one(fields[0], separator);
        assert(seq![fields[0]] == fields);
    } else {
        let head = fields.drop_last();
        assert forall|index: int| 0 <= index < head.len() implies !(
        #[trigger] head[index]).contains(separator) by {
            assert(head[index] == fields[index]);
        }
        law_join_then_split(head, separator);
        assert(!fields[fields.len() - 1].contains(separator));
        lemma_split_push(joined(head, separator), fields.last(), separator);
        assert(head.push(fields.last()) == fields);
    }
}

/// The character vectors as sequences.
pub open spec fn views(fields: Seq<Vec<char>>) -> Seq<Seq<char>> {
    fields.map_values(|field: Vec<char>| field@)
}

/// Splits characters at a separator.
pub fn split_at(letters: &[char], separator: char) -> (fields: Vec<Vec<char>>)
    ensures
        views(fields@) == split(letters@, separator),
        fields@.len() >= 1,
{
    let mut fields: Vec<Vec<char>> = Vec::new();
    let mut field: Vec<char> = Vec::new();
    let mut index: usize = 0;
    assert(views(fields@).push(field@) == seq![Seq::<char>::empty()]);
    while index < letters.len()
        invariant
            index <= letters.len(),
            views(fields@).push(field@) == split(letters@.take(index as int), separator),
        decreases letters.len() - index,
    {
        let ghost head = letters@.take(index as int);
        let ghost before = views(fields@).push(field@);
        let letter: char = letters[index];
        assert(letters@.take(index + 1).drop_last() == head);
        if letter == separator {
            let ghost done = field@;
            let ghost earlier = fields@;
            fields.push(field);
            field = Vec::new();
            assert(views(fields@) == views(earlier).push(done));
        } else {
            assert(before.drop_last() == views(fields@));
            field.push(letter);
        }
        index += 1;
    }
    assert(letters@.take(index as int) == letters@);
    let ghost done = field@;
    let ghost earlier = fields@;
    fields.push(field);
    assert(views(fields@) == views(earlier).push(done));
    fields
}

/// Joins fields with a separator.
pub fn join(fields: &Vec<Vec<char>>, separator: char) -> (letters: Vec<char>)
    ensures
        letters@ == joined(views(fields@), separator),
{
    let mut letters: Vec<char> = Vec::new();
    let mut index: usize = 0;
    while index < fields.len()
        invariant
            index <= fields.len(),
            letters@ == joined(views(fields@).take(index as int), separator),
        decreases fields.len() - index,
    {
        assert(views(fields@).take(index + 1).drop_last() == views(fields@).take(index as int));
        if index > 0 {
            letters.push(separator);
        }
        push_all(&mut letters, &fields[index]);
        index += 1;
    }
    assert(views(fields@).take(index as int) == views(fields@));
    letters
}

/// Appends characters.
pub fn push_all(letters: &mut Vec<char>, more: &[char])
    ensures
        final(letters)@ == old(letters)@ + more@,
{
    let mut index: usize = 0;
    while index < more.len()
        invariant
            index <= more.len(),
            letters@ == old(letters)@ + more@.take(index as int),
        decreases more.len() - index,
    {
        letters.push(more[index]);
        index += 1;
    }
    assert(more@.take(index as int) == more@);
}

/// Where a character first occurs.
pub fn first_index(letters: &[char], letter: char) -> (found: Option<usize>)
    ensures
        match found {
            Some(at) => at < letters@.len() && letters@.index_of_first(letter) == Some(at as int),
            None => letters@.index_of_first(letter) is None,
        },
{
    proof {
        letters@.index_of_first_ensures(letter);
    }
    let mut index: usize = 0;
    while index < letters.len()
        invariant
            index <= letters.len(),
            forall|earlier: int| 0 <= earlier < index ==> letters@[earlier] != letter,
            match letters@.index_of_first(letter) {
                Some(at) => 0 <= at < letters@.len() && letters@[at] == letter && forall|j: int|
                    0 <= j < at ==> letters@[j] != letter,
                None => !letters@.contains(letter),
            },
        decreases letters.len() - index,
    {
        if letters[index] == letter {
            return Some(index);
        }
        index += 1;
    }
    None
}

/// How a text is shown between quotation marks.
pub uninterp spec fn quoted_text(text: Seq<char>) -> Seq<char>;

/// The debug format of `str` shows a text between quotation marks, with escapes for some
/// characters: a function of the text alone.
#[verifier::external_body]
pub(crate) fn quoted(text: &str) -> (shown: String)
    ensures
        shown@ == quoted_text(text@),
{
    format!("{text:?}")
}

/// A text begins with its own beginning, ends with its own end and holds its own parts, and
/// begins, ends or holds nothing else.
pub proof fn law_text_is_made_of_parts(text: Seq<char>, part: Seq<char>)
    ensures
        begins(text, part) <==> exists|rest: Seq<char>| text == #[trigger] (part + rest),
        ends(text, part) <==> exists|rest: Seq<char>| text == #[trigger] (rest + part),
        occurs(text, part) <==> exists|before: Seq<char>, after: Seq<char>|
            text == #[trigger] (before + part + after),
{
    let size = part.len() as int;
    if begins(text, part) {
        assert(text =~= part + text.skip(size));
    }
    assert forall|rest: Seq<char>| text == #[trigger] (part + rest) implies begins(text, part) by {
        assert(text.take(size) =~= part);
    }
    if ends(text, part) {
        assert(text =~= text.take(text.len() - size) + part);
    }
    assert forall|rest: Seq<char>| text == #[trigger] (rest + part) implies ends(text, part) by {
        assert(text.skip(text.len() - size) =~= part);
    }
    if occurs(text, part) {
        let at = choose|at: int|
            0 <= at && begins(#[trigger] text.skip(at), part) && at <= text.len();
        let rest = text.skip(at);
        assert(rest.take(size) == part);
        assert(text =~= text.take(at) + part + rest.skip(size)) by {
            assert(rest =~= rest.take(size) + rest.skip(size));
            assert(text =~= text.take(at) + rest);
        }
    }
    assert forall|before: Seq<char>, after: Seq<char>|
        text == #[trigger] (before + part + after) implies occurs(text, part) by {
        let at = before.len() as int;
        assert(text.skip(at).take(size) =~= part);
        assert(begins(text.skip(at), part));
    }
}

/// Trimming takes white space away at both ends and nothing else: what is left has none
/// at its ends, and all that went was white space.
pub proof fn law_trimming_takes_white_space(text: Seq<char>)
    ensures
        trimmed(text).len() > 0 ==> !white_space(trimmed(text)[0]) && !white_space(
            trimmed(text).last(),
        ),
        exists|before: Seq<char>, after: Seq<char>|
            {
                &&& text == #[trigger] (before + trimmed(text) + after)
                &&& forall|index: int|
                    0 <= index < before.len() ==> white_space(#[trigger] before[index])
                &&& forall|index: int|
                    0 <= index < after.len() ==> white_space(#[trigger] after[index])
            },
        trimmed(trimmed(text)) == trimmed(text),
{
    let started = trimmed_start(text);
    let before = lemma_trimmed_start(text);
    let after = lemma_trimmed_end(started);
    assert(text =~= before + trimmed(text) + after);
    if trimmed(text).len() > 0 {
        assert(trimmed(text)[0] == started[0]);
    }
}

/// What is taken away at the beginning is white space.
proof fn lemma_trimmed_start(text: Seq<char>) -> (before: Seq<char>)
    ensures
        text == before + trimmed_start(text),
        forall|index: int| 0 <= index < before.len() ==> white_space(#[trigger] before[index]),
        trimmed_start(text).len() > 0 ==> !white_space(trimmed_start(text)[0]),
    decreases text.len(),
{
    if text.len() > 0 && white_space(text[0]) {
        let rest = lemma_trimmed_start(text.drop_first());
        let before = seq![text[0]] + rest;
        assert(text =~= seq![text[0]] + text.drop_first());
        assert(text =~= before + trimmed_start(text));
        before
    } else {
        assert(text =~= Seq::<char>::empty() + text);
        Seq::empty()
    }
}

/// What is taken away at the end is white space.
proof fn lemma_trimmed_end(text: Seq<char>) -> (after: Seq<char>)
    ensures
        text == trimmed_end(text) + after,
        forall|index: int| 0 <= index < after.len() ==> white_space(#[trigger] after[index]),
        trimmed_end(text).len() > 0 ==> !white_space(trimmed_end(text).last()),
        trimmed_end(text).len() > 0 ==> trimmed_end(text)[0] == text[0],
    decreases text.len(),
{
    if text.len() > 0 && white_space(text.last()) {
        let rest = lemma_trimmed_end(text.drop_last());
        let after = rest.push(text.last());
        assert(text =~= text.drop_last().push(text.last()));
        assert(text =~= trimmed_end(text) + after);
        after
    } else {
        assert(text =~= text + Seq::<char>::empty());
        Seq::empty()
    }
}

/// Of the ASCII characters the space and five control characters are white space; no
/// letter, digit or mark is.
pub proof fn law_ascii_white_space(letter: char)
    requires
        letter <= '\u{7f}',
    ensures
        white_space(letter) <==> letter == ' ' || letter == '\t' || letter == '\n' || letter
            == '\u{b}' || letter == '\u{c}' || letter == '\r',
{
}

/// Small letters take the place of the capital ones, the n-th for the n-th, and every
/// other character stays; there is nothing more to be made small then.
pub proof fn law_small_letters_take_the_place(text: Seq<char>, index: int)
    requires
        0 <= index < text.len(),
    ensures
        lowered(text).len() == text.len(),
        'A' <= text[index] <= 'Z' ==> lowered(text)[index] as int - 'a' as int == text[index] as int
            - 'A' as int,
        !('A' <= text[index] <= 'Z') ==> lowered(text)[index] == text[index],
        lowered(lowered(text)) == lowered(text),
{
    assert(lowered(lowered(text)) =~= lowered(text));
}

/// What is left without a trailing letter does not end with it, and only that letter went.
pub proof fn law_trailing_letters_go(text: Seq<char>, letter: char)
    ensures
        without_trailing(text, letter).len() > 0 ==> without_trailing(text, letter).last()
            != letter,
        without_trailing(text, letter).len() <= text.len(),
        text.take(without_trailing(text, letter).len() as int) == without_trailing(text, letter),
        forall|index: int|
            without_trailing(text, letter).len() <= index < text.len() ==> #[trigger] text[index]
                == letter,
    decreases text.len(),
{
    if text.len() > 0 && text.last() == letter {
        let head = text.drop_last();
        law_trailing_letters_go(head, letter);
        let kept = without_trailing(head, letter);
        assert(text.take(kept.len() as int) =~= head.take(kept.len() as int));
        assert forall|index: int| kept.len() <= index < text.len() implies #[trigger] text[index]
            == letter by {
            if index < head.len() {
                assert(head[index] == text[index]);
            }
        }
    } else {
        assert(text.take(text.len() as int) =~= text);
    }
}

/// A part of a text occurs in it, and its last part ends it.
pub proof fn lemma_part_occurs(before: Seq<char>, part: Seq<char>, after: Seq<char>)
    ensures
        occurs(before + part + after, part),
        ends(before + part, part),
{
    let whole = before + part + after;
    let at = before.len() as int;
    assert(whole.skip(at).take(part.len() as int) =~= part);
    assert(begins(whole.skip(at), part));
    let short = before + part;
    assert(short.skip(short.len() - part.len()) =~= part);
}

} // verus!
