//! What a policy service is asked, and what its answer means.

use crate::endpoint::ApiKind;
use crate::frame::{self, Frame};
use crate::json::{self, field, find_field, parse_json, reread_json, Field, Json};
use crate::number::{self, append_number};
use crate::path::{self, lossy};
use crate::text::{
    self, append, begins_with, chars_of, copy_text, ends_with, same_text, slice_of, string_of,
    trim,
};
use std::collections::VecDeque;
use vstd::prelude::*;

verus! {

/// What the service is told about its part.
pub const SYSTEM_PROMPT: &'static str =
    "Act as a cautious GUI policy. Infer state changes from the ordered frames and return JSON only. Use normalized 0..65535 coordinates for mouse_move_to. Prefer small, reversible actions. For a visible click target, put mouse_move_to and mouse_click in one decision; observe first where a target depends on hovering, and after navigation or a change of focus before choosing new targets or typing. When the instructions ask to type a known URL or query and press Enter, put enter last in the same key_sequence. Do not use routine fixed waits; when executed keys are not visible yet, wait for feedback rather than retype them. Never invent an action type. Set completed only when the latest frame visibly proves the instructions are complete. Output: {\"rationale\":string,\"actions\":[action],\"completed\":bool,\"progress\":number}. Every action must be a flat object with a required \"type\" field, for example {\"type\":\"mouse_move_to\",\"x\":1800,\"y\":800}; do not use {\"mouse_move_to\":{...}}. Valid type/field sets: mouse_move(dx,dy), mouse_move_to(x,y), mouse_click(button), scroll(delta,horizontal), key_tap(key), hotkey(keys), key_sequence(keys), wait(milliseconds). Buttons: left, right, middle, side, extra. Named keys and hotkeys use forms such as enter, tab, escape, ctrl+shift+a. A key_sequence has 1 to 256 named keys or hotkeys, for example [\"h\",\"i\",\"enter\"]. Relative movement is limited to +/-32767, scrolling to +/-100, and waits to 30000 milliseconds.";

/// What the service is asked.
pub open spec fn prompt(instructions: Seq<char>, transitions: Seq<char>) -> Seq<char> {
    "Return the policy decision as JSON.\n\nGUI instructions:\n"@ + instructions
        + "\n\nPrevious transitions:\n"@ + transitions
}

/// A named value.
pub open spec fn member(name: Seq<char>, value: json::Tree) -> json::Member {
    json::Member { name, value }
}

/// A text among the contents of a request.
pub open spec fn text_part(kind: ApiKind, text: Seq<char>) -> json::Tree {
    json::Tree::Fields(
        seq![
            member(
                "type"@,
                json::Tree::Text(
                    match kind {
                        ApiKind::ChatCompletions => "text"@,
                        ApiKind::Responses => "input_text"@,
                    },
                ),
            ),
            member("text"@, json::Tree::Text(text)),
        ],
    )
}

/// An image among the contents of a request.
pub open spec fn image_part(kind: ApiKind, url: Seq<char>) -> json::Tree {
    match kind {
        ApiKind::ChatCompletions => json::Tree::Fields(
            seq![
                member("type"@, json::Tree::Text("image_url"@)),
                member(
                    "image_url"@,
                    json::Tree::Fields(
                        seq![
                            member("url"@, json::Tree::Text(url)),
                            member("detail"@, json::Tree::Text("high"@)),
                        ],
                    ),
                ),
            ],
        ),
        ApiKind::Responses => json::Tree::Fields(
            seq![
                member("type"@, json::Tree::Text("input_image"@)),
                member("image_url"@, json::Tree::Text(url)),
                member("detail"@, json::Tree::Text("high"@)),
            ],
        ),
    }
}

/// The caption of a frame.
pub open spec fn caption(index: nat, path: Seq<u8>) -> Seq<char> {
    "Trajectory frame "@ + number::decimal(index) + ": "@ + path::lossy_text(path)
}

/// The contents of a request: the question, then each frame behind its caption.
pub open spec fn contents(kind: ApiKind, question: Seq<char>, frames: Seq<Frame>) -> Seq<json::Tree>
    decreases frames.len(),
{
    if frames.len() == 0 {
        seq![text_part(kind, question)]
    } else {
        let last = frames.last();
        contents(kind, question, frames.drop_last()) + seq![
            text_part(kind, caption((frames.len() - 1) as nat, last.path@)),
            image_part(kind, last.address()),
        ]
    }
}

/// A message of a user.
pub open spec fn message(role: Seq<char>, content: json::Tree) -> json::Tree {
    json::Tree::Fields(
        seq![member("role"@, json::Tree::Text(role)), member("content"@, content)],
    )
}

/// A request for an answer in JSON.
pub open spec fn json_format() -> json::Tree {
    json::Tree::Fields(seq![member("type"@, json::Tree::Text("json_object"@))])
}

/// What is sent to the service.
pub open spec fn request(
    kind: ApiKind,
    model: Seq<char>,
    question: Seq<char>,
    frames: Seq<Frame>,
) -> json::Tree {
    let content = json::Tree::Items(contents(kind, question, frames));
    match kind {
        ApiKind::ChatCompletions => json::Tree::Fields(
            seq![
                member("model"@, json::Tree::Text(model)),
                member(
                    "messages"@,
                    json::Tree::Items(
                        seq![
                            message("system"@, json::Tree::Text(SYSTEM_PROMPT@)),
                            message("user"@, content),
                        ],
                    ),
                ),
                member("response_format"@, json_format()),
                member("temperature"@, json::Tree::Number("0.1"@)),
            ],
        ),
        ApiKind::Responses => json::Tree::Fields(
            seq![
                member("model"@, json::Tree::Text(model)),
                member("instructions"@, json::Tree::Text(SYSTEM_PROMPT@)),
                member("input"@, json::Tree::Items(seq![message("user"@, content)])),
                member("text"@, json::Tree::Fields(seq![member("format"@, json_format())])),
            ],
        ),
    }
}

/// An object with one named value.
fn object_1(first: Field) -> (object: Json)
    ensures
        object@ == json::Tree::Fields(seq![member(first.name@, first.value@)]),
{
    let mut fields: Vec<Field> = Vec::new();
    fields.push(first);
    assert(json::pairs(fields@) =~= seq![member(first.name@, first.value@)]);
    Json::fields(fields)
}

/// An object with two named values.
fn object_2(first: Field, second: Field) -> (object: Json)
    ensures
        object@ == json::Tree::Fields(
            seq![member(first.name@, first.value@), member(second.name@, second.value@)],
        ),
{
    let mut fields: Vec<Field> = Vec::new();
    fields.push(first);
    fields.push(second);
    assert(json::pairs(fields@) =~= seq![
        member(first.name@, first.value@),
        member(second.name@, second.value@),
    ]);
    Json::fields(fields)
}

/// A text among the contents of a request.
fn make_text_part(kind: ApiKind, text: &str) -> (part: Json)
    ensures
        part@ == text_part(kind, text@),
{
    let name: Json = match kind {
        ApiKind::ChatCompletions => Json::text("text"),
        ApiKind::Responses => Json::text("input_text"),
    };
    object_2(field("type", name), field("text", Json::text(text)))
}

/// An image among the contents of a request.
fn make_image_part(kind: ApiKind, url: &str) -> (part: Json)
    ensures
        part@ == image_part(kind, url@),
{
    match kind {
        ApiKind::ChatCompletions => {
            let image: Json = object_2(
                field("url", Json::text(url)),
                field("detail", Json::text("high")),
            );
            object_2(field("type", Json::text("image_url")), field("image_url", image))
        },
        ApiKind::Responses => {
            let mut fields: Vec<Field> = Vec::new();
            fields.push(field("type", Json::text("input_image")));
            fields.push(field("image_url", Json::text(url)));
            fields.push(field("detail", Json::text("high")));
            assert(json::pairs(fields@) =~= seq![
                member("type"@, json::Tree::Text("input_image"@)),
                member("image_url"@, json::Tree::Text(url@)),
                member("detail"@, json::Tree::Text("high"@)),
            ]);
            Json::fields(fields)
        },
    }
}

/// Adds a value to an array.
fn add_item(items: &mut Vec<Json>, item: Json)
    ensures
        json::trees(final(items)@) == json::trees(old(items)@).push(item@),
{
    let ghost earlier = items@;
    items.push(item);
    assert(json::trees(items@) =~= json::trees(earlier).push(item@));
}

/// The contents of a request.
fn make_contents(kind: ApiKind, question: &str, frames: &VecDeque<Frame>) -> (items: Vec<Json>)
    requires
        forall|index: int| 0 <= index < frames@.len() ==> (#[trigger] frames@[index]).encodable(),
    ensures
        json::trees(items@) == contents(kind, question@, frames@),
{
    let mut items: Vec<Json> = Vec::new();
    add_item(&mut items, make_text_part(kind, question));
    assert(frames@.take(0) == Seq::<Frame>::empty());
    assert(json::trees(items@) =~= contents(kind, question@, frames@.take(0)));
    let mut index: usize = 0;
    while index < frames.len()
        invariant
            index <= frames@.len(),
            forall|at: int| 0 <= at < frames@.len() ==> (#[trigger] frames@[at]).encodable(),
            json::trees(items@) == contents(kind, question@, frames@.take(index as int)),
        decreases frames@.len() - index,
    {
        let frame: &Frame = &frames[index];
        let title: String = append_number(copy_text("Trajectory frame "), index as u128);
        let title: String = append(append(title, ": "), lossy(&frame.path).as_str());
        assert(title@ == caption(index as nat, frame.path@));
        add_item(&mut items, make_text_part(kind, title.as_str()));
        add_item(&mut items, make_image_part(kind, frame.data_url().as_str()));
        assert(frames@.take(index + 1).drop_last() == frames@.take(index as int));
        assert(json::trees(items@) =~= contents(kind, question@, frames@.take(index + 1)));
        index += 1;
    }
    assert(frames@.take(index as int) == frames@);
    items
}

/// What is sent to the service: the instructions, the previous transitions as JSON text,
/// and the frames.
pub fn request_body(
    kind: ApiKind,
    model: &str,
    instructions: &str,
    transitions: &str,
    frames: &VecDeque<Frame>,
) -> (body: Json)
    requires
        forall|index: int| 0 <= index < frames@.len() ==> (#[trigger] frames@[index]).encodable(),
    ensures
        body@ == request(kind, model@, prompt(instructions@, transitions@), frames@),
{
    let question: String = append(
        copy_text("Return the policy decision as JSON.\n\nGUI instructions:\n"),
        instructions,
    );
    let question: String = append(append(question, "\n\nPrevious transitions:\n"), transitions);
    let content: Json = Json::items(make_contents(kind, question.as_str(), frames));
    let user: Json = object_2(field("role", Json::text("user")), field("content", content));
    let format: Json = object_1(field("type", Json::text("json_object")));
    let mut fields: Vec<Field> = Vec::new();
    fields.push(field("model", Json::text(model)));
    let mut items: Vec<Json> = Vec::new();
    match kind {
        ApiKind::ChatCompletions => {
            let system: Json = object_2(
                field("role", Json::text("system")),
                field("content", Json::text(SYSTEM_PROMPT)),
            );
            add_item(&mut items, system);
            add_item(&mut items, user);
            assert(json::trees(items@) =~= seq![system@, user@]);
            fields.push(field("messages", Json::items(items)));
            fields.push(field("response_format", format));
            fields.push(field("temperature", Json::Number(copy_text("0.1"))));
        },
        ApiKind::Responses => {
            add_item(&mut items, user);
            assert(json::trees(items@) =~= seq![user@]);
            fields.push(field("instructions", Json::text(SYSTEM_PROMPT)));
            fields.push(field("input", Json::items(items)));
            fields.push(field("text", object_1(field("format", format))));
        },
    }
    let ghost whole = request(kind, model@, prompt(instructions@, transitions@), frames@);
    assert(json::pairs(fields@) =~= whole->Fields_0);
    Json::fields(fields)
}

/// The first text among content parts.
pub open spec fn first_text(parts: Seq<json::Tree>) -> Option<Seq<char>>
    decreases parts.len(),
{
    if parts.len() == 0 {
        None
    } else if first_text(parts.drop_last()) is Some {
        first_text(parts.drop_last())
    } else {
        part_text(parts.last())
    }
}

/// The text of a content part.
pub open spec fn part_text(part: json::Tree) -> Option<Seq<char>> {
    match part.field("text"@) {
        Some(value) => value.string(),
        None => None,
    }
}

/// The first text among the contents of an output.
pub open spec fn output_text(output: json::Tree) -> Option<Seq<char>> {
    match output.field("content"@) {
        Some(value) => match value.elements() {
            Some(parts) => first_text(parts),
            None => None,
        },
        None => None,
    }
}

/// The first text among outputs.
pub open spec fn first_output(outputs: Seq<json::Tree>) -> Option<Seq<char>>
    decreases outputs.len(),
{
    if outputs.len() == 0 {
        None
    } else if first_output(outputs.drop_last()) is Some {
        first_output(outputs.drop_last())
    } else {
        output_text(outputs.last())
    }
}

/// The value at the first place of an array, or under the name 0 in an object.
pub open spec fn zeroth(value: json::Tree) -> Option<json::Tree> {
    match value {
        json::Tree::Items(items) => if items.len() > 0 {
            Some(items[0])
        } else {
            None
        },
        _ => value.field("0"@),
    }
}

/// The text of the first choice.
pub open spec fn choice_text(answer: json::Tree) -> Option<Seq<char>> {
    match answer.field("choices"@) {
        None => None,
        Some(choices) => match zeroth(choices) {
            None => None,
            Some(choice) => match choice.field("message"@) {
                None => None,
                Some(found) => match found.field("content"@) {
                    None => None,
                    Some(content) => content.string(),
                },
            },
        },
    }
}

/// What the model wrote.
pub open spec fn model_text(kind: ApiKind, answer: json::Tree) -> Option<Seq<char>> {
    match kind {
        ApiKind::ChatCompletions => choice_text(answer),
        ApiKind::Responses => match answer.field("output"@) {
            Some(value) => match value.elements() {
                Some(outputs) => first_output(outputs),
                None => None,
            },
            None => None,
        },
    }
}

/// Once a text was found, more parts do not change it.
proof fn lemma_first_text(parts: Seq<json::Tree>, size: int)
    requires
        0 <= size <= parts.len(),
        first_text(parts.take(size)) is Some,
    ensures
        first_text(parts) == first_text(parts.take(size)),
    decreases parts.len() - size,
{
    if size < parts.len() {
        assert(parts.take(size + 1).drop_last() == parts.take(size));
        lemma_first_text(parts, size + 1);
    } else {
        assert(parts.take(size) == parts);
    }
}

/// Once a text was found, more outputs do not change it.
proof fn lemma_first_output(outputs: Seq<json::Tree>, size: int)
    requires
        0 <= size <= outputs.len(),
        first_output(outputs.take(size)) is Some,
    ensures
        first_output(outputs) == first_output(outputs.take(size)),
    decreases outputs.len() - size,
{
    if size < outputs.len() {
        assert(outputs.take(size + 1).drop_last() == outputs.take(size));
        lemma_first_output(outputs, size + 1);
    } else {
        assert(outputs.take(size) == outputs);
    }
}

/// Finds the first text among content parts.
fn find_text(parts: &Vec<Json>) -> (found: Option<String>)
    ensures
        match found {
            Some(text) => first_text(json::trees(parts@)) == Some(text@),
            None => first_text(json::trees(parts@)) is None,
        },
{
    let ghost all = json::trees(parts@);
    let mut index: usize = 0;
    assert(all.take(0) == Seq::<json::Tree>::empty());
    while index < parts.len()
        invariant
            index <= parts.len(),
            all == json::trees(parts@),
            first_text(all.take(index as int)) is None,
        decreases parts.len() - index,
    {
        assert(all.take(index + 1).drop_last() == all.take(index as int));
        assert(all.take(index + 1).last() == parts@[index as int]@);
        if let Some(value) = parts[index].get("text") {
            if let Some(text) = value.as_text() {
                proof {
                    lemma_first_text(all, index + 1);
                }
                return Some(copy_text(text.as_str()));
            }
        }
        index += 1;
    }
    assert(all.take(index as int) == all);
    None
}

/// Finds the first text among outputs.
fn find_output(outputs: &Vec<Json>) -> (found: Option<String>)
    ensures
        match found {
            Some(text) => first_output(json::trees(outputs@)) == Some(text@),
            None => first_output(json::trees(outputs@)) is None,
        },
{
    let ghost all = json::trees(outputs@);
    let mut index: usize = 0;
    assert(all.take(0) == Seq::<json::Tree>::empty());
    while index < outputs.len()
        invariant
            index <= outputs.len(),
            all == json::trees(outputs@),
            first_output(all.take(index as int)) is None,
        decreases outputs.len() - index,
    {
        assert(all.take(index + 1).drop_last() == all.take(index as int));
        assert(all.take(index + 1).last() == outputs@[index as int]@);
        if let Some(value) = outputs[index].get("content") {
            if let Some(parts) = value.as_items() {
                if let Some(text) = find_text(parts) {
                    proof {
                        lemma_first_output(all, index + 1);
                    }
                    return Some(text);
                }
            }
        }
        index += 1;
    }
    assert(all.take(index as int) == all);
    None
}

/// Finds the value at the first place of an array, or under the name 0 in an object.
fn find_zeroth(value: &Json) -> (found: Option<&Json>)
    ensures
        match found {
            Some(first) => zeroth(value@) == Some(first@),
            None => zeroth(value@) is None,
        },
{
    match value.as_items() {
        Some(items) => {
            assert(value@ is Items);
            if items.len() > 0 {
                assert(json::trees(items@)[0] == items@[0]@);
                Some(&items[0])
            } else {
                None
            }
        },
        None => value.get("0"),
    }
}

/// Finds the text of the first choice.
fn find_choice(answer: &Json) -> (found: Option<String>)
    ensures
        match found {
            Some(text) => choice_text(answer@) == Some(text@),
            None => choice_text(answer@) is None,
        },
{
    let choices: &Json = match answer.get("choices") {
        Some(choices) => choices,
        None => {
            return None;
        },
    };
    let choice: &Json = match find_zeroth(choices) {
        Some(choice) => choice,
        None => {
            return None;
        },
    };
    let said: &Json = match choice.get("message") {
        Some(said) => said,
        None => {
            return None;
        },
    };
    match said.get("content") {
        Some(content) => match content.as_text() {
            Some(text) => Some(copy_text(text.as_str())),
            None => None,
        },
        None => None,
    }
}

/// Finds what the model wrote in an answer.
pub fn find_model_text(kind: ApiKind, answer: &Json) -> (found: Option<String>)
    ensures
        match found {
            Some(text) => model_text(kind, answer@) == Some(text@),
            None => model_text(kind, answer@) is None,
        },
{
    match kind {
        ApiKind::ChatCompletions => find_choice(answer),
        ApiKind::Responses => match answer.get("output") {
            Some(value) => match value.as_items() {
                Some(outputs) => find_output(outputs),
                None => None,
            },
            None => None,
        },
    }
}

/// Why an answer of the service holds no text.
#[derive(Debug)]
pub enum ReplyError {
    /// The answer is not JSON.
    NotJson(serde_json::Error),
    /// The service refused the request, or the model wrote nothing.
    Refused(String),
}

/// Reads an answer of the service: whether the request succeeded, its status as text, and
/// its body.
pub fn read_reply(kind: ApiKind, success: bool, status: &str, body: &str) -> (reply: Result<
    String,
    ReplyError,
>)
    ensures
        match json::json_text(body@) {
            None => reply matches Err(ReplyError::NotJson(_)),
            Some(answer) => if !success {
                reply matches Err(ReplyError::Refused(message)) && message@
                    == "policy request returned "@ + status@ + ": "@ + json::shown_tree(answer)
            } else {
                match model_text(kind, answer) {
                    Some(text) => reply matches Ok(found) && found@ == text,
                    None => reply matches Err(ReplyError::Refused(message)) && message@
                        == "policy response did not contain model output text"@,
                }
            },
        },
{
    match reread_json(body) {
        Err(error) => Err(ReplyError::NotJson(error)),
        Ok((answer, shown)) => {
            if !success {
                let message: String = append(copy_text("policy request returned "), status);
                return Err(ReplyError::Refused(append(append(message, ": "), shown.as_str())));
            }
            match find_model_text(kind, &answer) {
                Some(text) => Ok(text),
                None => Err(
                    ReplyError::Refused(
                        copy_text("policy response did not contain model output text"),
                    ),
                ),
            }
        },
    }
}

/// What a model wrote, without the fence around it.
pub open spec fn unfenced(content: Seq<char>) -> Seq<char> {
    let trimmed = text::trimmed(content);
    if text::begins(trimmed, "```"@) {
        let inner = if text::begins(trimmed, "```json"@) || text::begins(trimmed, "```JSON"@) {
            trimmed.skip(7)
        } else {
            trimmed.skip(3)
        };
        text::trimmed(
            if text::ends(inner, "```"@) {
                inner.take(inner.len() - 3)
            } else {
                inner
            },
        )
    } else {
        trimmed
    }
}

/// What a model wrote, without the fence around it.
pub fn strip_fence(content: &str) -> (inner: String)
    ensures
        inner@ == unfenced(content@),
{
    proof {
        reveal_strlit("```");
        reveal_strlit("```json");
        reveal_strlit("```JSON");
    }
    let letters: Vec<char> = chars_of(content);
    let trimmed: Vec<char> = trim(&letters);
    if !begins_with(&trimmed, "```") {
        return string_of(&trimmed);
    }
    let size: usize = trimmed.len();
    let start: usize = if begins_with(&trimmed, "```json") || begins_with(&trimmed, "```JSON") {
        7
    } else {
        3
    };
    let inner: Vec<char> = slice_of(&trimmed, start, size);
    assert(inner@ == trimmed@.skip(start as int));
    let end: usize = if ends_with(&inner, "```") {
        inner.len() - 3
    } else {
        inner.len()
    };
    let bare: Vec<char> = slice_of(&inner, 0, end);
    assert(inner@.subrange(0, inner@.len() as int) == inner@);
    assert(inner@.subrange(0, end as int) == inner@.take(end as int));
    string_of(&trim(&bare))
}

/// Whether a name is that of an action.
pub open spec fn action_type(name: Seq<char>) -> bool {
    ||| name == "mouse_move"@
    ||| name == "mouse_move_to"@
    ||| name == "mouse_click"@
    ||| name == "scroll"@
    ||| name == "key_tap"@
    ||| name == "hotkey"@
    ||| name == "key_sequence"@
    ||| name == "wait"@
}

/// Named values with one more; it takes the place of one with the same name.
pub open spec fn with_member(fields: Seq<json::Member>, one: json::Member) -> Seq<json::Member> {
    match json::place_of(fields, one.name) {
        Some(at) => fields.update(at, one),
        None => fields.push(one),
    }
}

/// Named values with more.
pub open spec fn with_members(fields: Seq<json::Member>, more: Seq<json::Member>) -> Seq<
    json::Member,
>
    decreases more.len(),
{
    if more.len() == 0 {
        fields
    } else {
        with_member(with_members(fields, more.drop_last()), more.last())
    }
}

/// An action whose type stands outside its fields, with its type among them.
pub open spec fn flat_action(action: json::Tree) -> json::Tree {
    match action {
        json::Tree::Fields(fields) => if fields.len() == 1 && fields[0].name != "type"@
            && action_type(fields[0].name) && fields[0].value is Fields {
            json::Tree::Fields(
                with_members(
                    seq![member("type"@, json::Tree::Text(fields[0].name))],
                    fields[0].value->Fields_0,
                ),
            )
        } else {
            action
        },
        _ => action,
    }
}

/// A decision with the type of each action among its fields.
pub open spec fn flat_decision(decision: json::Tree) -> json::Tree {
    match decision {
        json::Tree::Fields(fields) => match json::place_of(fields, "actions"@) {
            Some(at) => match fields[at].value {
                json::Tree::Items(actions) => json::Tree::Fields(
                    fields.update(
                        at,
                        member(
                            "actions"@,
                            json::Tree::Items(
                                actions.map_values(|action: json::Tree| flat_action(action)),
                            ),
                        ),
                    ),
                ),
                _ => decision,
            },
            None => decision,
        },
        _ => decision,
    }
}

/// Decides whether a name is that of an action.
fn is_action_type(name: &str) -> (yes: bool)
    ensures
        yes == action_type(name@),
{
    same_text(name, "mouse_move") || same_text(name, "mouse_move_to") || same_text(
        name,
        "mouse_click",
    ) || same_text(name, "scroll") || same_text(name, "key_tap") || same_text(name, "hotkey")
        || same_text(name, "key_sequence") || same_text(name, "wait")
}

/// Adds a named value; it takes the place of one with the same name.
fn put_field(fields: &mut Vec<Field>, one: Field)
    ensures
        json::pairs(final(fields)@) == with_member(
            json::pairs(old(fields)@),
            member(one.name@, one.value@),
        ),
{
    let ghost before = json::pairs(fields@);
    let ghost added = member(one.name@, one.value@);
    match find_field(fields, one.name.as_str()) {
        Some(at) => {
            fields[at] = one;
            assert(json::pairs(fields@) =~= before.update(at as int, added));
        },
        None => {
            fields.push(one);
            assert(json::pairs(fields@) =~= before.push(added));
        },
    }
}

/// Puts the type of an action among its fields.
fn flatten_action(action: Json) -> (flat: Json)
    ensures
        flat@ == flat_action(action@),
{
    proof {
        json::lemma_view(action);
    }
    match action {
        Json::Fields(fields) => {
            let ghost given = json::pairs(fields@);
            let nested: bool = fields.len() == 1 && !same_text(fields[0].name.as_str(), "type")
                && is_action_type(fields[0].name.as_str()) && matches!(
                fields[0].value,
                Json::Fields(_)
            );
            if !nested {
                assert(fields@.len() == 1 ==> given[0] == member(
                    fields@[0].name@,
                    fields@[0].value@,
                ));
                return Json::fields(fields);
            }
            assert(given[0] == member(fields@[0].name@, fields@[0].value@));
            let mut fields: Vec<Field> = fields;
            let Field { name, value }: Field = fields.remove(0);
            proof {
                json::lemma_view(value);
            }
            match value {
                Json::Fields(inner) => {
                    let ghost more = json::pairs(inner@);
                    let ghost parts = inner@;
                    let ghost start = seq![member("type"@, json::Tree::Text(name@))];
                    let mut flat: Vec<Field> = Vec::new();
                    flat.push(field("type", Json::Text(name)));
                    assert(json::pairs(flat@) =~= start);
                    assert(more.take(0) == Seq::<json::Member>::empty());
                    for one in iter: inner
                        invariant
                            iter.seq() == parts,
                            more == json::pairs(parts),
                            json::pairs(flat@) == with_members(start, more.take(iter.index())),
                    {
                        assert(more.take(iter.index() + 1).drop_last() == more.take(iter.index()));
                        assert(more[iter.index()] == member(one.name@, one.value@));
                        put_field(&mut flat, one);
                    }
                    assert(more.take(more.len() as int) == more);
                    Json::fields(flat)
                },
                other => other,
            }
        },
        other => other,
    }
}

/// Puts the type of each action of a decision among its fields, where it stands outside
/// them.
pub fn normalize_externally_tagged_actions(decision: Json) -> (flat: Json)
    ensures
        flat@ == flat_decision(decision@),
{
    proof {
        json::lemma_view(decision);
    }
    match decision {
        Json::Fields(fields) => {
            let ghost given = json::pairs(fields@);
            let at: usize = match find_field(&fields, "actions") {
                Some(at) => at,
                None => {
                    return Json::fields(fields);
                },
            };
            assert(given[at as int] == member(
                fields@[at as int].name@,
                fields@[at as int].value@,
            ));
            proof {
                json::lemma_view(fields@[at as int].value);
            }
            if !matches!(fields[at].value, Json::Items(_)) {
                return Json::fields(fields);
            }
            let ghost listed = fields@[at as int].value@->Items_0;
            let ghost parts = fields@;
            let total: usize = fields.len();
            let ghost changed = member(
                "actions"@,
                json::Tree::Items(listed.map_values(|action: json::Tree| flat_action(action))),
            );
            let ghost wanted = given.update(at as int, changed);
            let mut flat: Vec<Field> = Vec::new();
            let mut count: usize = 0;
            assert(json::pairs(flat@) =~= wanted.take(0));
            for one in iter: fields
                invariant
                    iter.seq() == parts,
                    count == iter.index(),
                    parts.len() == total,
                    at < total,
                    given == json::pairs(parts),
                    wanted == given.update(at as int, changed),
                    parts[at as int].value is Items,
                    listed == parts[at as int].value@->Items_0,
                    changed == member(
                        "actions"@,
                        json::Tree::Items(
                            listed.map_values(|action: json::Tree| flat_action(action)),
                        ),
                    ),
                    json::pairs(flat@) == wanted.take(count as int),
            {
                let ghost earlier = flat@;
                assert(given[count as int] == member(one.name@, one.value@));
                assert(wanted.take(count + 1) == wanted.take(count as int).push(
                    wanted[count as int],
                ));
                if count == at {
                    proof {
                        json::lemma_view(one.value);
                    }
                    match one.value {
                        Json::Items(actions) => {
                            let items: Vec<Json> = flatten_actions(actions);
                            flat.push(field("actions", Json::items(items)));
                        },
                        other => {
                            flat.push(field("actions", other));
                        },
                    }
                } else {
                    flat.push(one);
                }
                assert(json::pairs(flat@) =~= json::pairs(earlier).push(wanted[count as int]));
                count += 1;
            }
            assert(wanted.take(total as int) == wanted);
            Json::fields(flat)
        },
        other => other,
    }
}

/// Puts the type of each action among its fields.
fn flatten_actions(actions: Vec<Json>) -> (flat: Vec<Json>)
    ensures
        json::trees(flat@) == json::trees(actions@).map_values(
            |action: json::Tree| flat_action(action),
        ),
{
    let ghost given = actions@;
    let ghost wanted = json::trees(given).map_values(|action: json::Tree| flat_action(action));
    let mut flat: Vec<Json> = Vec::new();
    assert(json::trees(flat@) =~= wanted.take(0));
    for action in iter: actions
        invariant
            iter.seq() == given,
            wanted == json::trees(given).map_values(|action: json::Tree| flat_action(action)),
            json::trees(flat@) == wanted.take(iter.index()),
    {
        assert(wanted[iter.index()] == flat_action(action@));
        assert(wanted.take(iter.index() + 1) == wanted.take(iter.index()).push(
            wanted[iter.index()],
        ));
        add_item(&mut flat, flatten_action(action));
    }
    assert(wanted.take(wanted.len() as int) == wanted);
    flat
}

/// Reads what a model wrote as a decision: JSON, with or without a fence around it, with
/// the type of each action among its fields.
pub fn parse_decision(content: &str) -> (decision: Result<Json, serde_json::Error>)
    ensures
        match json::json_text(unfenced(content@)) {
            Some(written) => decision matches Ok(found) && found@ == flat_decision(written),
            None => decision is Err,
        },
{
    let inner: String = strip_fence(content);
    match parse_json(inner.as_str()) {
        Ok(written) => Ok(normalize_externally_tagged_actions(written)),
        Err(error) => Err(error),
    }
}

/// What is said of a decision that could not be read.
pub fn invalid_decision(content: &str) -> (message: String)
    ensures
        message@ == "policy returned an invalid decision: "@ + content@,
{
    append(copy_text("policy returned an invalid decision: "), content)
}

/// An action that is flat stays as it is, and so does one that is no action of a known
/// type.
pub proof fn law_flat_actions_stay(fields: Seq<json::Member>)
    requires
        fields.len() != 1 || json::place_of(fields, "type"@) is Some || !action_type(fields[0].name),
    ensures
        flat_action(json::Tree::Fields(fields)) == json::Tree::Fields(fields),
{
    if fields.len() == 1 && fields[0].name != "type"@ {
        assert(json::place_of(fields.drop_last(), "type"@) is None);
    }
}

/// Flattening an action gives it a type.
pub proof fn law_flattening_adds_the_type(name: Seq<char>, inner: Seq<json::Member>)
    requires
        action_type(name),
        json::place_of(inner, "type"@) is None,
    ensures
        flat_action(
            json::Tree::Fields(seq![member(name, json::Tree::Fields(inner))]),
        ).field("type"@) == Some(json::Tree::Text(name)),
{
    reveal_strlit("type");
    reveal_strlit("mouse_move");
    reveal_strlit("mouse_move_to");
    reveal_strlit("mouse_click");
    reveal_strlit("scroll");
    reveal_strlit("key_tap");
    reveal_strlit("hotkey");
    reveal_strlit("key_sequence");
    reveal_strlit("wait");
    assert("type"@[0] == 't');
    assert("mouse_move"@[0] == 'm' && "mouse_move_to"@[0] == 'm' && "mouse_click"@[0] == 'm');
    assert("scroll"@[0] == 's' && "key_tap"@[0] == 'k' && "hotkey"@[0] == 'h');
    assert("key_sequence"@[0] == 'k' && "wait"@[0] == 'w');
    let start = seq![member("type"@, json::Tree::Text(name))];
    lemma_type_stays(start, inner);
}

/// The type keeps its place while other named values are added.
proof fn lemma_type_stays(start: Seq<json::Member>, more: Seq<json::Member>)
    requires
        start.len() == 1,
        start[0].name == "type"@,
        json::place_of(more, "type"@) is None,
    ensures
        with_members(start, more).len() >= 1,
        with_members(start, more)[0] == start[0],
        json::place_of(with_members(start, more), "type"@) == Some(0int),
    decreases more.len(),
{
    if more.len() == 0 {
        json::lemma_place(start, "type"@, 0);
    } else {
        lemma_type_stays(start, more.drop_last());
        let before = with_members(start, more.drop_last());
        let after = with_members(start, more);
        assert(more.last().name != "type"@);
        json::lemma_place_found(before, more.last().name);
        json::lemma_place(after, "type"@, 0);
    }
}

/// Each frame stands behind its own caption, in order: behind the question there are two
/// parts for each frame, its caption with its number and path, and its image.
pub proof fn law_frames_stand_behind_their_captions(
    kind: ApiKind,
    question: Seq<char>,
    frames: Seq<Frame>,
    index: int,
)
    requires
        0 <= index < frames.len(),
    ensures
        contents(kind, question, frames).len() == 2 * frames.len() + 1,
        contents(kind, question, frames)[0] == text_part(kind, question),
        contents(kind, question, frames)[2 * index + 1] == text_part(
            kind,
            caption(index as nat, frames[index].path@),
        ),
        contents(kind, question, frames)[2 * index + 2] == image_part(
            kind,
            frames[index].address(),
        ),
        part_text(contents(kind, question, frames)[0]) == Some(question),
        part_text(contents(kind, question, frames)[2 * index + 1]) == Some(
            "Trajectory frame "@ + number::decimal(index as nat) + ": "@ + path::lossy_text(
                frames[index].path@,
            ),
        ),
        image_of(kind, contents(kind, question, frames)[2 * index + 2]) == Some(
            "data:"@ + frames[index].media_type@ + ";base64,"@ + frame::base64(
                frames[index].bytes@,
            ),
        ),
    decreases frames.len(),
{
    lemma_part_texts(kind, question);
    lemma_contents_len(kind, question, frames);
    let head = frames.drop_last();
    let all = contents(kind, question, frames);
    let earlier = contents(kind, question, head);
    lemma_contents_len(kind, question, head);
    lemma_part_texts(kind, caption(index as nat, frames[index].path@));
    lemma_image_parts(kind, frames[index].address());
    lemma_contents_first(kind, question, frames);
    if index < head.len() {
        law_frames_stand_behind_their_captions(kind, question, head, index);
        assert(all[2 * index + 1] == earlier[2 * index + 1]);
        assert(all[2 * index + 2] == earlier[2 * index + 2]);
        assert(all[0] == earlier[0]);
    } else {
        assert(all[2 * index + 1] == text_part(kind, caption(index as nat, frames[index].path@)));
        assert(all[2 * index + 2] == image_part(kind, frames[index].address()));
    }
}

/// The address of the image in a part of a request.
pub open spec fn image_of(kind: ApiKind, part: json::Tree) -> Option<Seq<char>> {
    match part.field("image_url"@) {
        None => None,
        Some(image) => match kind {
            ApiKind::Responses => image.string(),
            ApiKind::ChatCompletions => match image.field("url"@) {
                Some(url) => url.string(),
                None => None,
            },
        },
    }
}

/// How many contents there are.
proof fn lemma_contents_len(kind: ApiKind, question: Seq<char>, frames: Seq<Frame>)
    ensures
        contents(kind, question, frames).len() == 2 * frames.len() + 1,
    decreases frames.len(),
{
    if frames.len() > 0 {
        lemma_contents_len(kind, question, frames.drop_last());
    }
}

/// The question comes first.
proof fn lemma_contents_first(kind: ApiKind, question: Seq<char>, frames: Seq<Frame>)
    ensures
        contents(kind, question, frames).len() > 0,
        contents(kind, question, frames)[0] == text_part(kind, question),
    decreases frames.len(),
{
    if frames.len() > 0 {
        lemma_contents_first(kind, question, frames.drop_last());
    }
}

/// The names in requests are different.
proof fn lemma_names()
    ensures
        "type"@ != "text"@,
        "type"@ != "image_url"@,
        "url"@ != "detail"@,
        "role"@ != "content"@,
        "model"@ != "messages"@,
        "model"@ != "response_format"@,
        "model"@ != "temperature"@,
        "messages"@ != "response_format"@,
        "messages"@ != "temperature"@,
        "response_format"@ != "temperature"@,
        "model"@ != "instructions"@,
        "model"@ != "input"@,
        "model"@ != "text"@,
        "instructions"@ != "input"@,
        "instructions"@ != "text"@,
        "input"@ != "text"@,
{
    reveal_strlit("type");
    reveal_strlit("text");
    reveal_strlit("image_url");
    reveal_strlit("url");
    reveal_strlit("detail");
    reveal_strlit("role");
    reveal_strlit("content");
    reveal_strlit("model");
    reveal_strlit("messages");
    reveal_strlit("response_format");
    reveal_strlit("temperature");
    reveal_strlit("instructions");
    reveal_strlit("input");
    assert("type"@[1] == 'y' && "text"@[1] == 'e');
    assert("model"@[0] == 'm' && "model"@[1] == 'o' && "input"@[0] == 'i');
    assert("url"@.len() == 3 && "detail"@.len() == 6);
    assert("instructions"@.len() == 12 && "input"@.len() == 5);
    assert("role"@.len() == 4 && "content"@.len() == 7);
    assert("messages"@.len() == 8 && "response_format"@.len() == 15);
}

/// A named value is found where the names before it are different.
proof fn lemma_field(fields: Seq<json::Member>, at: int)
    requires
        0 <= at < fields.len(),
        forall|earlier: int|
            0 <= earlier < at ==> (#[trigger] fields[earlier]).name != fields[at].name,
    ensures
        json::Tree::Fields(fields).field(fields[at].name) == Some(fields[at].value),
{
    json::lemma_place(fields, fields[at].name, at);
}

/// The text of a text part.
proof fn lemma_part_texts(kind: ApiKind, text: Seq<char>)
    ensures
        part_text(text_part(kind, text)) == Some(text),
{
    lemma_names();
    lemma_field(text_part(kind, text)->Fields_0, 1);
}

/// The address of an image part.
proof fn lemma_image_parts(kind: ApiKind, url: Seq<char>)
    ensures
        image_of(kind, image_part(kind, url)) == Some(url),
{
    lemma_names();
    let part = image_part(kind, url);
    lemma_field(part->Fields_0, 1);
    if kind is ChatCompletions {
        lemma_field(part->Fields_0[1].value->Fields_0, 0);
    }
}

/// What is sent names the model, tells it its part, and holds the question with the frames:
/// for one interface as the messages of a system and of a user, for the other as
/// instructions and input.
pub proof fn law_request_holds_its_parts(
    kind: ApiKind,
    model: Seq<char>,
    question: Seq<char>,
    frames: Seq<Frame>,
)
    ensures
        ({
            let sent = request(kind, model, question, frames);
            let asked = Some(json::Tree::Items(contents(kind, question, frames)));
            &&& sent.field("model"@) == Some(json::Tree::Text(model))
            &&& match kind {
                ApiKind::ChatCompletions => {
                    &&& sent.field("messages"@) matches Some(list)
                    &&& list.elements() matches Some(said)
                    &&& said.len() == 2
                    &&& said[0].field("role"@) == Some(json::Tree::Text("system"@))
                    &&& said[0].field("content"@) == Some(json::Tree::Text(SYSTEM_PROMPT@))
                    &&& said[1].field("role"@) == Some(json::Tree::Text("user"@))
                    &&& said[1].field("content"@) == asked
                    &&& sent.field("temperature"@) == Some(json::Tree::Number("0.1"@))
                    &&& sent.field("response_format"@) matches Some(format)
                    &&& format.field("type"@) == Some(json::Tree::Text("json_object"@))
                },
                ApiKind::Responses => {
                    &&& sent.field("instructions"@) == Some(json::Tree::Text(SYSTEM_PROMPT@))
                    &&& sent.field("input"@) matches Some(list)
                    &&& list.elements() matches Some(said)
                    &&& said.len() == 1
                    &&& said[0].field("role"@) == Some(json::Tree::Text("user"@))
                    &&& said[0].field("content"@) == asked
                    &&& sent.field("text"@) matches Some(text)
                    &&& text.field("format"@) matches Some(format)
                    &&& format.field("type"@) == Some(json::Tree::Text("json_object"@))
                },
            }
        }),
{
    lemma_names();
    let sent = request(kind, model, question, frames);
    let fields = sent->Fields_0;
    let content = json::Tree::Items(contents(kind, question, frames));
    lemma_field(fields, 0);
    lemma_field(fields, 1);
    lemma_field(fields, 2);
    lemma_field(fields, 3);
    lemma_field(json_format()->Fields_0, 0);
    let user = message("user"@, content);
    lemma_field(user->Fields_0, 0);
    lemma_field(user->Fields_0, 1);
    let system = message("system"@, json::Tree::Text(SYSTEM_PROMPT@));
    lemma_field(system->Fields_0, 0);
    lemma_field(system->Fields_0, 1);
    if kind is Responses {
        lemma_field(fields[3].value->Fields_0, 0);
    }
}

/// The question holds the instructions, and behind them what came of the decisions before.
pub proof fn law_question_holds_the_task(instructions: Seq<char>, transitions: Seq<char>)
    ensures
        ({
            let question = prompt(instructions, transitions);
            let start = "Return the policy decision as JSON.\n\nGUI instructions:\n"@.len() as int;
            let middle = start + instructions.len();
            let end = middle + "\n\nPrevious transitions:\n"@.len();
            &&& question.subrange(start, middle) == instructions
            &&& question.len() == end + transitions.len()
            &&& question.skip(end) == transitions
        }),
{
    let question = prompt(instructions, transitions);
    let start = "Return the policy decision as JSON.\n\nGUI instructions:\n"@.len() as int;
    let middle = start + instructions.len();
    let end = middle + "\n\nPrevious transitions:\n"@.len();
    assert(question.subrange(start, middle) =~= instructions);
    assert(question.skip(end) =~= transitions);
}

/// What the model wrote is the first text of all: no part before it has one.
pub proof fn law_first_text_is_taken(parts: Seq<json::Tree>, at: int)
    requires
        0 <= at < parts.len(),
        part_text(parts[at]) is Some,
        forall|earlier: int| 0 <= earlier < at ==> part_text(#[trigger] parts[earlier]) is None,
    ensures
        first_text(parts) == part_text(parts[at]),
    decreases parts.len(),
{
    let head = parts.drop_last();
    if at < head.len() {
        assert forall|earlier: int| 0 <= earlier < at implies part_text(
            #[trigger] head[earlier],
        ) is None by {
            assert(head[earlier] == parts[earlier]);
        }
        law_first_text_is_taken(head, at);
    } else {
        lemma_no_text(head);
    }
}

/// There is no text where no part has one.
proof fn lemma_no_text(parts: Seq<json::Tree>)
    requires
        forall|index: int| 0 <= index < parts.len() ==> part_text(#[trigger] parts[index]) is None,
    ensures
        first_text(parts) is None,
    decreases parts.len(),
{
    if parts.len() > 0 {
        let head = parts.drop_last();
        assert forall|index: int| 0 <= index < head.len() implies part_text(
            #[trigger] head[index],
        ) is None by {
            assert(head[index] == parts[index]);
        }
        lemma_no_text(head);
        assert(part_text(parts[parts.len() - 1]) is None);
    }
}

/// There is no output with a text where none has one.
proof fn lemma_no_output(outputs: Seq<json::Tree>)
    requires
        forall|index: int|
            0 <= index < outputs.len() ==> output_text(#[trigger] outputs[index]) is None,
    ensures
        first_output(outputs) is None,
    decreases outputs.len(),
{
    if outputs.len() > 0 {
        let head = outputs.drop_last();
        assert forall|index: int| 0 <= index < head.len() implies output_text(
            #[trigger] head[index],
        ) is None by {
            assert(head[index] == outputs[index]);
        }
        lemma_no_output(head);
        assert(output_text(outputs[outputs.len() - 1]) is None);
    }
}

/// The first output with a text is taken.
proof fn lemma_first_output_taken(outputs: Seq<json::Tree>, at: int)
    requires
        0 <= at < outputs.len(),
        output_text(outputs[at]) is Some,
        forall|earlier: int|
            0 <= earlier < at ==> output_text(#[trigger] outputs[earlier]) is None,
    ensures
        first_output(outputs) == output_text(outputs[at]),
    decreases outputs.len(),
{
    let head = outputs.drop_last();
    if at < head.len() {
        assert forall|earlier: int| 0 <= earlier < at implies output_text(
            #[trigger] head[earlier],
        ) is None by {
            assert(head[earlier] == outputs[earlier]);
        }
        lemma_first_output_taken(head, at);
    } else {
        lemma_no_output(head);
    }
}

/// In an answer with outputs the model's text is that of the first output which has one.
pub proof fn law_answer_with_outputs(answer: json::Tree, outputs: Seq<json::Tree>, at: int)
    requires
        answer.field("output"@) == Some(json::Tree::Items(outputs)),
        0 <= at < outputs.len(),
        output_text(outputs[at]) is Some,
        forall|earlier: int|
            0 <= earlier < at ==> output_text(#[trigger] outputs[earlier]) is None,
    ensures
        model_text(ApiKind::Responses, answer) == output_text(outputs[at]),
{
    lemma_first_output_taken(outputs, at);
}

/// An output whose contents hold a text tells the first of them.
pub proof fn law_output_tells_its_text(output: json::Tree, parts: Seq<json::Tree>, at: int)
    requires
        output.field("content"@) == Some(json::Tree::Items(parts)),
        0 <= at < parts.len(),
        parts[at].field("text"@) matches Some(json::Tree::Text(_)),
        forall|earlier: int|
            0 <= earlier < at ==> !((#[trigger] parts[earlier]).field("text"@) matches Some(
                json::Tree::Text(_),
            )),
    ensures
        output_text(output) == Some(parts[at].field("text"@)->0->Text_0),
{
    law_first_text_is_taken(parts, at);
}

/// In an answer with choices the model's text is the content of the message of the first.
pub proof fn law_answer_with_choices(
    answer: json::Tree,
    choices: Seq<json::Tree>,
    said: json::Tree,
    text: Seq<char>,
)
    requires
        answer.field("choices"@) == Some(json::Tree::Items(choices)),
        choices.len() > 0,
        choices[0].field("message"@) == Some(said),
        said.field("content"@) == Some(json::Tree::Text(text)),
    ensures
        model_text(ApiKind::ChatCompletions, answer) == Some(text),
{
}

/// Flattening an action keeps its fields.
pub proof fn law_flattening_keeps_the_fields(
    name: Seq<char>,
    inner: Seq<json::Member>,
    at: int,
)
    requires
        action_type(name),
        0 <= at < inner.len(),
        forall|left: int, right: int|
            0 <= left < right < inner.len() ==> (#[trigger] inner[left]).name != (
            #[trigger] inner[right]).name,
    ensures
        flat_action(
            json::Tree::Fields(seq![member(name, json::Tree::Fields(inner))]),
        ).field(inner[at].name) == Some(inner[at].value),
{
    lemma_action_is_no_type(name);
    let start = seq![member("type"@, json::Tree::Text(name))];
    lemma_member_kept(start, inner, at);
}

/// No action is named like the type.
proof fn lemma_action_is_no_type(name: Seq<char>)
    requires
        action_type(name),
    ensures
        name != "type"@,
{
    reveal_strlit("type");
    reveal_strlit("mouse_move");
    reveal_strlit("mouse_move_to");
    reveal_strlit("mouse_click");
    reveal_strlit("scroll");
    reveal_strlit("key_tap");
    reveal_strlit("hotkey");
    reveal_strlit("key_sequence");
    reveal_strlit("wait");
    assert("type"@[0] == 't');
    assert("mouse_move"@[0] == 'm' && "mouse_move_to"@[0] == 'm' && "mouse_click"@[0] == 'm');
    assert("scroll"@[0] == 's' && "key_tap"@[0] == 'k' && "hotkey"@[0] == 'h');
    assert("key_sequence"@[0] == 'k' && "wait"@[0] == 'w');
}

/// A value that was put under a name is there, and other names keep theirs.
proof fn lemma_with_member(fields: Seq<json::Member>, one: json::Member, name: Seq<char>)
    ensures
        json::Tree::Fields(with_member(fields, one)).field(name) == if name == one.name {
            Some(one.value)
        } else {
            json::Tree::Fields(fields).field(name)
        },
{
    json::lemma_place_found(fields, one.name);
    json::lemma_place_found(fields, name);
    let after = with_member(fields, one);
    match json::place_of(fields, one.name) {
        Some(at) => {
            lemma_first_place(fields, one.name, at);
            if name == one.name {
                assert forall|earlier: int| 0 <= earlier < at implies (
                #[trigger] after[earlier]).name != name by {
                    assert(after[earlier] == fields[earlier]);
                }
                json::lemma_place(after, name, at);
            } else {
                lemma_same_names(fields, after, name);
            }
        },
        None => {
            assert(after.drop_last() == fields);
            if name == one.name {
            } else {
                assert(after.last().name != name);
            }
        },
    }
}

/// No name before its first place is the same.
proof fn lemma_first_place(fields: Seq<json::Member>, name: Seq<char>, at: int)
    requires
        json::place_of(fields, name) == Some(at),
    ensures
        0 <= at < fields.len(),
        fields[at].name == name,
        forall|earlier: int| 0 <= earlier < at ==> (#[trigger] fields[earlier]).name != name,
    decreases fields.len(),
{
    if fields.len() > 0 {
        let head = fields.drop_last();
        if json::place_of(head, name) is Some {
            lemma_first_place(head, name, at);
            assert forall|earlier: int| 0 <= earlier < at implies (
            #[trigger] fields[earlier]).name != name by {
                assert(head[earlier] == fields[earlier]);
            }
        } else {
            lemma_no_place(head, name);
            assert forall|earlier: int| 0 <= earlier < at implies (
            #[trigger] fields[earlier]).name != name by {
                assert(head[earlier] == fields[earlier]);
            }
        }
    }
}

/// A name without a place stands nowhere.
proof fn lemma_no_place(fields: Seq<json::Member>, name: Seq<char>)
    requires
        json::place_of(fields, name) is None,
    ensures
        forall|index: int| 0 <= index < fields.len() ==> (#[trigger] fields[index]).name != name,
    decreases fields.len(),
{
    if fields.len() > 0 {
        lemma_no_place(fields.drop_last(), name);
        assert forall|index: int| 0 <= index < fields.len() implies (#[trigger] fields[index]).name
            != name by {
            if index < fields.len() - 1 {
                assert(fields.drop_last()[index] == fields[index]);
            }
        }
    }
}

/// Where the names are the same, the places are.
proof fn lemma_same_names(left: Seq<json::Member>, right: Seq<json::Member>, name: Seq<char>)
    requires
        left.len() == right.len(),
        forall|index: int|
            0 <= index < left.len() ==> (#[trigger] left[index]).name == right[index].name,
    ensures
        json::place_of(left, name) == json::place_of(right, name),
    decreases left.len(),
{
    if left.len() > 0 {
        let head = left.drop_last();
        let other = right.drop_last();
        assert forall|index: int| 0 <= index < head.len() implies (#[trigger] head[index]).name
            == other[index].name by {
            assert(head[index] == left[index]);
        }
        lemma_same_names(head, other, name);
        assert(left[left.len() - 1].name == right[left.len() - 1].name);
    }
}

/// Each of some values with different names is kept.
proof fn lemma_member_kept(start: Seq<json::Member>, more: Seq<json::Member>, at: int)
    requires
        0 <= at < more.len(),
        forall|left: int, right: int|
            0 <= left < right < more.len() ==> (#[trigger] more[left]).name != (
            #[trigger] more[right]).name,
    ensures
        json::Tree::Fields(with_members(start, more)).field(more[at].name) == Some(more[at].value),
    decreases more.len(),
{
    let head = more.drop_last();
    lemma_with_member(with_members(start, head), more.last(), more[at].name);
    if at < head.len() {
        assert forall|left: int, right: int| 0 <= left < right < head.len() implies (
        #[trigger] head[left]).name != (#[trigger] head[right]).name by {
            assert(head[left] == more[left] && head[right] == more[right]);
        }
        lemma_member_kept(start, head, at);
        assert(more[at].name != more[more.len() - 1].name);
    }
}

/// A decision keeps all that it holds but for its actions, and has as many actions as
/// before, each flat and in its place.
pub proof fn law_decision_keeps_the_rest(
    fields: Seq<json::Member>,
    actions: Seq<json::Tree>,
    name: Seq<char>,
)
    requires
        json::Tree::Fields(fields).field("actions"@) == Some(json::Tree::Items(actions)),
    ensures
        ({
            let flat = flat_decision(json::Tree::Fields(fields));
            &&& name != "actions"@ ==> flat.field(name) == json::Tree::Fields(fields).field(name)
            &&& flat.field("actions"@) matches Some(list)
            &&& list.elements() matches Some(now)
            &&& now.len() == actions.len()
            &&& forall|index: int|
                0 <= index < actions.len() ==> #[trigger] now[index] == flat_action(actions[index])
        }),
{
    let at = json::place_of(fields, "actions"@)->0;
    lemma_first_place(fields, "actions"@, at);
    let flat = flat_decision(json::Tree::Fields(fields));
    let after = flat->Fields_0;
    lemma_same_names(fields, after, name);
    lemma_same_names(fields, after, "actions"@);
    json::lemma_place_found(fields, name);
}

/// What stands in a fence is what is read, with or without the name of the format, in
/// whatever white space.
pub proof fn law_fence_is_stripped(inner: Seq<char>)
    ensures
        unfenced("```json"@ + inner + "```"@) == text::trimmed(inner),
        unfenced("```JSON"@ + inner + "```"@) == text::trimmed(inner),
        !text::begins(inner + "```"@, "json"@) && !text::begins(inner + "```"@, "JSON"@)
            ==> unfenced("```"@ + inner + "```"@) == text::trimmed(inner),
{
    reveal_strlit("```");
    reveal_strlit("```json");
    reveal_strlit("```JSON");
    reveal_strlit("json");
    reveal_strlit("JSON");
    lemma_fence("```json"@, inner);
    lemma_fence("```JSON"@, inner);
    lemma_fence("```"@, inner);
    let named = "```json"@ + inner + "```"@;
    assert(named.take(7) =~= "```json"@);
    assert(named.take(3) =~= "```"@);
    assert(named.skip(7) =~= inner + "```"@);
    let loud = "```JSON"@ + inner + "```"@;
    assert(loud.take(7) =~= "```JSON"@);
    assert(loud.take(3) =~= "```"@);
    assert(loud.skip(7) =~= inner + "```"@);
    let closed = inner + "```"@;
    assert(closed.skip(closed.len() - 3) =~= "```"@);
    assert(closed.take(closed.len() - 3) =~= inner);
    let bare = "```"@ + inner + "```"@;
    assert(bare.take(3) =~= "```"@);
    assert(bare.skip(3) =~= closed);
    if !text::begins(closed, "json"@) && text::begins(bare, "```json"@) {
        assert(bare.take(7).skip(3) =~= closed.take(4));
        assert("```json"@.skip(3) =~= "json"@);
    }
    if !text::begins(closed, "JSON"@) && text::begins(bare, "```JSON"@) {
        assert(bare.take(7).skip(3) =~= closed.take(4));
        assert("```JSON"@.skip(3) =~= "JSON"@);
    }
}

/// A text that begins and ends with a mark has no white space at its ends.
proof fn lemma_fence(start: Seq<char>, inner: Seq<char>)
    requires
        start.len() > 0,
        start[0] == '`',
    ensures
        text::trimmed(start + inner + "```"@) == start + inner + "```"@,
{
    reveal_strlit("```");
    let whole = start + inner + "```"@;
    assert(whole[0] == '`' && whole.last() == '`');
    assert(!text::white_space('`'));
}

/// What is written without a fence is read as it is, but for white space around it.
pub proof fn law_bare_decision_stays(content: Seq<char>)
    requires
        !text::begins(text::trimmed(content), "```"@),
    ensures
        unfenced(content) == text::trimmed(content),
{
}

/// A text and an image are named as what they are, each in the words of its interface, and
/// an image is to be seen in detail.
pub proof fn law_parts_are_named(kind: ApiKind, text: Seq<char>, url: Seq<char>)
    ensures
        text_part(kind, text).field("type"@) == Some(
            json::Tree::Text(
                if kind is Responses {
                    "input_text"@
                } else {
                    "text"@
                },
            ),
        ),
        image_part(kind, url).field("type"@) == Some(
            json::Tree::Text(
                if kind is Responses {
                    "input_image"@
                } else {
                    "image_url"@
                },
            ),
        ),
        match kind {
            ApiKind::Responses => image_part(kind, url).field("detail"@) == Some(
                json::Tree::Text("high"@),
            ),
            ApiKind::ChatCompletions => image_part(kind, url).field("image_url"@) matches Some(
                image,
            ) && image.field("detail"@) == Some(json::Tree::Text("high"@)),
        },
{
    lemma_names();
    reveal_strlit("detail");
    reveal_strlit("image_url");
    reveal_strlit("type");
    assert("detail"@.len() == 6 && "image_url"@.len() == 9 && "type"@.len() == 4);
    lemma_field(text_part(kind, text)->Fields_0, 0);
    let part = image_part(kind, url);
    lemma_field(part->Fields_0, 0);
    lemma_field(part->Fields_0, 1);
    if kind is Responses {
        lemma_field(part->Fields_0, 2);
    } else {
        lemma_field(part->Fields_0[1].value->Fields_0, 1);
    }
}

/// An answer without the part in which the model writes holds no text of it, nor one in
/// which no output has a text.
pub proof fn law_answer_without_text(answer: json::Tree)
    ensures
        answer.field("choices"@) is None ==> model_text(ApiKind::ChatCompletions, answer) is None,
        answer.field("choices"@) == Some(json::Tree::Items(Seq::empty())) ==> model_text(
            ApiKind::ChatCompletions,
            answer,
        ) is None,
        answer.field("output"@) is None ==> model_text(ApiKind::Responses, answer) is None,
        answer.field("output"@) matches Some(json::Tree::Items(outputs)) && (forall|index: int|
            0 <= index < outputs.len() ==> output_text(#[trigger] outputs[index]) is None)
            ==> model_text(ApiKind::Responses, answer) is None,
{
    if let Some(json::Tree::Items(outputs)) = answer.field("output"@) {
        if forall|index: int|
            0 <= index < outputs.len() ==> output_text(#[trigger] outputs[index]) is None {
            lemma_no_output(outputs);
        }
    }
}

/// These are the names of actions, and there are no others.
pub proof fn law_names_of_actions(name: Seq<char>)
    ensures
        action_type(name) <==> seq![
            "mouse_move"@,
            "mouse_move_to"@,
            "mouse_click"@,
            "scroll"@,
            "key_tap"@,
            "hotkey"@,
            "key_sequence"@,
            "wait"@,
        ].contains(name),
{
    let names = seq![
        "mouse_move"@,
        "mouse_move_to"@,
        "mouse_click"@,
        "scroll"@,
        "key_tap"@,
        "hotkey"@,
        "key_sequence"@,
        "wait"@,
    ];
    assert(names[0] == "mouse_move"@ && names[1] == "mouse_move_to"@ && names[2] == "mouse_click"@);
    assert(names[3] == "scroll"@ && names[4] == "key_tap"@ && names[5] == "hotkey"@);
    assert(names[6] == "key_sequence"@ && names[7] == "wait"@);
}

/// What is no object stays as it is, and so does an action whose fields are none; a decision
/// stays as it is where its actions are no array.
pub proof fn law_other_values_stay(value: json::Tree, name: Seq<char>, inner: json::Tree)
    ensures
        value !is Fields ==> flat_action(value) == value && flat_decision(value) == value,
        inner !is Fields ==> flat_action(json::Tree::Fields(seq![member(name, inner)]))
            == json::Tree::Fields(seq![member(name, inner)]),
        value.field("actions"@) is None ==> flat_decision(value) == value,
        value.field("actions"@) matches Some(actions) && actions !is Items ==> flat_decision(value)
            == value,
{
}

/// White space around what the model wrote makes no difference.
pub proof fn law_white_space_makes_no_difference(content: Seq<char>)
    ensures
        unfenced(text::trimmed(content)) == unfenced(content),
{
    text::law_trimming_takes_white_space(content);
}

/// The first choice is the first of an array, and what is named 0 where the choices are an
/// object.
pub proof fn law_first_choice(items: Seq<json::Tree>, fields: Seq<json::Member>)
    ensures
        items.len() > 0 ==> zeroth(json::Tree::Items(items)) == Some(items[0]),
        items.len() == 0 ==> zeroth(json::Tree::Items(items)) is None,
        zeroth(json::Tree::Fields(fields)) == json::Tree::Fields(fields).field("0"@),
{
}

} // verus!
