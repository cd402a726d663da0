//! What a policy may ask for, and what is refused.

use crate::event::Button;
use crate::key_names;
use crate::keyboard::{self, Key};
use crate::linux::{self, LinuxKeyboard};
use crate::text::{self, append, chars_of, copy_text, split_at, string_of};
use vstd::prelude::*;

verus! {

/// How many actions a policy may ask for at once.
pub const MAX_ACTIONS: usize = 16;

/// How far a relative movement may go on each axis.
pub const MAX_MOVEMENT: i32 = 32_767;

/// How far a wheel may be turned.
pub const MAX_SCROLL: i32 = 100;

/// How many keys a sequence may have.
pub const MAX_SEQUENCE: usize = 256;

/// How long a wait may last, in milliseconds.
pub const MAX_WAIT: u64 = 30_000;

/// Something that a policy asks for.
#[derive(Clone, Debug)]
pub enum Action {
    MouseMove { dx: i32, dy: i32 },
    MouseMoveTo { x: u16, y: u16 },
    MouseClick { button: Button },
    Scroll { delta: i32, horizontal: bool },
    KeyTap { key: String },
    Hotkey { keys: String },
    KeySequence { keys: Vec<String> },
    Wait { milliseconds: u64 },
}

/// What is wrong with a key: no key has the name, or a keyboard does not have the key.
pub open spec fn key_complaint(value: Seq<char>) -> Option<Seq<char>> {
    match key_names::key_code(key_names::normalized(value)) {
        None => Some(keyboard::unknown_key(value)),
        Some(code) => if linux::keyboard_code(code) {
            None
        } else {
            Some("policy key is not injectable on Linux: "@ + key_names::normalized(value))
        },
    }
}

/// What is wrong with the first bad key among some.
pub open spec fn parts_complaint(parts: Seq<Seq<char>>) -> Option<Seq<char>>
    decreases parts.len(),
{
    if parts.len() == 0 {
        None
    } else if parts_complaint(parts.drop_last()) is Some {
        parts_complaint(parts.drop_last())
    } else {
        key_complaint(parts.last())
    }
}

/// What is wrong with a hotkey.
pub open spec fn hotkey_complaint(value: Seq<char>) -> Option<Seq<char>> {
    parts_complaint(text::split(value, '+'))
}

/// What is wrong with the first bad hotkey among some.
pub open spec fn hotkeys_complaint(keys: Seq<String>) -> Option<Seq<char>>
    decreases keys.len(),
{
    if keys.len() == 0 {
        None
    } else if hotkeys_complaint(keys.drop_last()) is Some {
        hotkeys_complaint(keys.drop_last())
    } else {
        hotkey_complaint(keys.last()@)
    }
}

/// Whether a number is between two bounds that differ in sign only.
pub open spec fn within(value: i32, bound: i32) -> bool {
    -bound <= value <= bound
}

/// What is wrong with an action.
pub open spec fn complaint(action: Action) -> Option<Seq<char>> {
    match action {
        Action::MouseMove { dx, dy } => if within(dx, MAX_MOVEMENT) && within(dy, MAX_MOVEMENT) {
            None
        } else {
            Some("policy relative mouse movement exceeds +/-32767"@)
        },
        Action::MouseMoveTo { .. } => None,
        Action::MouseClick { .. } => None,
        Action::Scroll { delta, .. } => if within(delta, MAX_SCROLL) {
            None
        } else {
            Some("policy scroll action exceeds +/-100"@)
        },
        Action::KeyTap { key } => key_complaint(key@),
        Action::Hotkey { keys } => hotkey_complaint(keys@),
        Action::KeySequence { keys } => if 1 <= keys@.len() <= MAX_SEQUENCE {
            hotkeys_complaint(keys@)
        } else {
            Some("policy key sequence must contain 1..256 keys"@)
        },
        Action::Wait { milliseconds } => if milliseconds <= MAX_WAIT {
            None
        } else {
            Some("policy wait action exceeds 30 seconds"@)
        },
    }
}

/// What is wrong with the first bad action among some.
pub open spec fn first_complaint(actions: Seq<Action>) -> Option<Seq<char>>
    decreases actions.len(),
{
    if actions.len() == 0 {
        None
    } else if first_complaint(actions.drop_last()) is Some {
        first_complaint(actions.drop_last())
    } else {
        complaint(actions.last())
    }
}

/// What is wrong with the actions that a policy asks for at once.
pub open spec fn batch_complaint(actions: Seq<Action>) -> Option<Seq<char>> {
    if actions.len() > MAX_ACTIONS {
        Some("policy proposed more than 16 actions in one step"@)
    } else {
        first_complaint(actions)
    }
}

/// Once something is wrong, more actions do not mend it.
proof fn lemma_complaint_stays(actions: Seq<Action>, size: int)
    requires
        0 <= size <= actions.len(),
        first_complaint(actions.take(size)) is Some,
    ensures
        first_complaint(actions) == first_complaint(actions.take(size)),
    decreases actions.len() - size,
{
    if size < actions.len() {
        assert(actions.take(size + 1).drop_last() == actions.take(size));
        lemma_complaint_stays(actions, size + 1);
    } else {
        assert(actions.take(size) == actions);
    }
}

/// Once a key is bad, more keys do not mend it.
proof fn lemma_parts_complaint_stays(parts: Seq<Seq<char>>, size: int)
    requires
        0 <= size <= parts.len(),
        parts_complaint(parts.take(size)) is Some,
    ensures
        parts_complaint(parts) == parts_complaint(parts.take(size)),
    decreases parts.len() - size,
{
    if size < parts.len() {
        assert(parts.take(size + 1).drop_last() == parts.take(size));
        lemma_parts_complaint_stays(parts, size + 1);
    } else {
        assert(parts.take(size) == parts);
    }
}

/// Once a hotkey is bad, more hotkeys do not mend it.
proof fn lemma_hotkeys_complaint_stays(keys: Seq<String>, size: int)
    requires
        0 <= size <= keys.len(),
        hotkeys_complaint(keys.take(size)) is Some,
    ensures
        hotkeys_complaint(keys) == hotkeys_complaint(keys.take(size)),
    decreases keys.len() - size,
{
    if size < keys.len() {
        assert(keys.take(size + 1).drop_last() == keys.take(size));
        lemma_hotkeys_complaint_stays(keys, size + 1);
    } else {
        assert(keys.take(size) == keys);
    }
}

/// Reads the name of a key that a keyboard has.
pub fn validate_policy_key(value: &str) -> (key: Result<Key, String>)
    ensures
        match key {
            Ok(found) => key_complaint(value@) is None && found.meant_by(value@),
            Err(message) => key_complaint(value@) == Some(message@),
        },
{
    match Key::parse(value) {
        Err(message) => Err(message),
        Ok(key) => {
            if LinuxKeyboard::supports_scan_code(key.scan_code) {
                Ok(key)
            } else {
                Err(
                    append(
                        copy_text("policy key is not injectable on Linux: "),
                        key.name.as_str(),
                    ),
                )
            }
        },
    }
}

/// Accepts a hotkey whose keys a keyboard has.
pub fn validate_policy_hotkey(value: &str) -> (outcome: Result<(), String>)
    ensures
        match outcome {
            Ok(_) => hotkey_complaint(value@) is None,
            Err(message) => hotkey_complaint(value@) == Some(message@),
        },
{
    let letters: Vec<char> = chars_of(value);
    let parts: Vec<Vec<char>> = split_at(&letters, '+');
    let ghost fields = text::split(value@, '+');
    let mut index: usize = 0;
    assert(fields.take(0) == Seq::<Seq<char>>::empty());
    while index < parts.len()
        invariant
            index <= parts.len(),
            fields == text::split(value@, '+'),
            fields == text::views(parts@),
            parts_complaint(fields.take(index as int)) is None,
        decreases parts.len() - index,
    {
        let part: String = string_of(&parts[index]);
        assert(fields[index as int] == part@);
        assert(fields.take(index + 1).drop_last() == fields.take(index as int));
        match validate_policy_key(part.as_str()) {
            Ok(_) => {},
            Err(message) => {
                proof {
                    lemma_parts_complaint_stays(fields, index + 1);
                }
                return Err(message);
            },
        }
        index += 1;
    }
    assert(fields.take(index as int) == fields);
    Ok(())
}

/// Accepts hotkeys whose keys a keyboard has.
fn validate_hotkeys(keys: &Vec<String>) -> (outcome: Result<(), String>)
    ensures
        match outcome {
            Ok(_) => hotkeys_complaint(keys@) is None,
            Err(message) => hotkeys_complaint(keys@) == Some(message@),
        },
{
    let mut index: usize = 0;
    assert(keys@.take(0) == Seq::<String>::empty());
    while index < keys.len()
        invariant
            index <= keys.len(),
            hotkeys_complaint(keys@.take(index as int)) is None,
        decreases keys.len() - index,
    {
        assert(keys@.take(index + 1).drop_last() == keys@.take(index as int));
        match validate_policy_hotkey(keys[index].as_str()) {
            Ok(_) => {},
            Err(message) => {
                proof {
                    lemma_hotkeys_complaint_stays(keys@, index + 1);
                }
                return Err(message);
            },
        }
        index += 1;
    }
    assert(keys@.take(index as int) == keys@);
    Ok(())
}

/// Accepts an action that may be executed.
pub fn validate_action(action: &Action) -> (outcome: Result<(), String>)
    ensures
        match outcome {
            Ok(_) => complaint(*action) is None,
            Err(message) => complaint(*action) == Some(message@),
        },
{
    match action {
        Action::MouseMove { dx, dy } => {
            if *dx < -MAX_MOVEMENT || *dx > MAX_MOVEMENT || *dy < -MAX_MOVEMENT || *dy
                > MAX_MOVEMENT {
                Err(copy_text("policy relative mouse movement exceeds +/-32767"))
            } else {
                Ok(())
            }
        },
        Action::Scroll { delta, .. } => {
            if *delta < -MAX_SCROLL || *delta > MAX_SCROLL {
                Err(copy_text("policy scroll action exceeds +/-100"))
            } else {
                Ok(())
            }
        },
        Action::KeyTap { key } => match validate_policy_key(key.as_str()) {
            Ok(_) => Ok(()),
            Err(message) => Err(message),
        },
        Action::Hotkey { keys } => validate_policy_hotkey(keys.as_str()),
        Action::KeySequence { keys } => {
            if keys.len() == 0 || keys.len() > MAX_SEQUENCE {
                Err(copy_text("policy key sequence must contain 1..256 keys"))
            } else {
                validate_hotkeys(keys)
            }
        },
        Action::Wait { milliseconds } => {
            if *milliseconds > MAX_WAIT {
                Err(copy_text("policy wait action exceeds 30 seconds"))
            } else {
                Ok(())
            }
        },
        _ => Ok(()),
    }
}

/// Accepts actions that may be executed at once. What is wrong with the first bad one is
/// the error.
pub fn validate_actions(actions: &[Action]) -> (outcome: Result<(), String>)
    ensures
        match outcome {
            Ok(_) => batch_complaint(actions@) is None,
            Err(message) => batch_complaint(actions@) == Some(message@),
        },
{
    if actions.len() > MAX_ACTIONS {
        return Err(copy_text("policy proposed more than 16 actions in one step"));
    }
    let mut index: usize = 0;
    assert(actions@.take(0) == Seq::<Action>::empty());
    while index < actions.len()
        invariant
            index <= actions.len(),
            actions@.len() <= MAX_ACTIONS,
            first_complaint(actions@.take(index as int)) is None,
        decreases actions.len() - index,
    {
        assert(actions@.take(index + 1).drop_last() == actions@.take(index as int));
        match validate_action(&actions[index]) {
            Ok(_) => {},
            Err(message) => {
                proof {
                    lemma_complaint_stays(actions@, index + 1);
                }
                return Err(message);
            },
        }
        index += 1;
    }
    assert(actions@.take(index as int) == actions@);
    Ok(())
}

/// Actions are accepted where there are not too many of them and nothing is wrong with
/// any one, wherever it stands.
pub proof fn law_every_action_is_checked(actions: Seq<Action>)
    ensures
        batch_complaint(actions) is None <==> actions.len() <= 16 && forall|index: int|
            0 <= index < actions.len() ==> complaint(#[trigger] actions[index]) is None,
{
    lemma_first_complaint(actions);
}

/// Nothing is wrong where nothing is wrong with any one.
proof fn lemma_first_complaint(actions: Seq<Action>)
    ensures
        first_complaint(actions) is None <==> forall|index: int|
            0 <= index < actions.len() ==> complaint(#[trigger] actions[index]) is None,
    decreases actions.len(),
{
    if actions.len() > 0 {
        let head = actions.drop_last();
        lemma_first_complaint(head);
        if first_complaint(actions) is None {
            assert forall|index: int| 0 <= index < actions.len() implies complaint(
                #[trigger] actions[index],
            ) is None by {
                if index < head.len() {
                    assert(head[index] == actions[index]);
                }
            }
        }
        if forall|index: int|
            0 <= index < actions.len() ==> complaint(#[trigger] actions[index]) is None {
            assert forall|index: int| 0 <= index < head.len() implies complaint(
                #[trigger] head[index],
            ) is None by {
                assert(head[index] == actions[index]);
            }
            assert(complaint(actions[actions.len() - 1]) is None);
        }
    }
}

/// A hotkey that is accepted has keys only that a keyboard has.
pub proof fn law_accepted_hotkeys_are_known(value: Seq<char>)
    requires
        hotkey_complaint(value) is None,
    ensures
        keyboard::hotkey_known(value),
        forall|index: int|
            0 <= index < keyboard::hotkey_codes(value).len() ==> linux::keyboard_code(
                #[trigger] keyboard::hotkey_codes(value)[index],
            ),
{
    let parts = text::split(value, '+');
    assert forall|index: int| 0 <= index < parts.len() implies key_complaint(
        #[trigger] parts[index],
    ) is None by {
        lemma_part_complaint(parts, index);
    }
    assert forall|index: int| 0 <= index < keyboard::hotkey_codes(value).len() implies linux::keyboard_code(
        #[trigger] keyboard::hotkey_codes(value)[index],
    ) by {
        assert(key_complaint(parts[index]) is None);
    }
}

/// Where nothing is wrong with some keys, nothing is wrong with any one.
proof fn lemma_part_complaint(parts: Seq<Seq<char>>, index: int)
    requires
        parts_complaint(parts) is None,
        0 <= index < parts.len(),
    ensures
        key_complaint(parts[index]) is None,
    decreases parts.len(),
{
    if index < parts.len() - 1 {
        lemma_part_complaint(parts.drop_last(), index);
    }
}

/// A movement is accepted up to 32767 either way on each axis, scrolling up to 100 either
/// way and a wait up to 30 seconds, and nothing beyond. A movement to a place and a click
/// are always accepted.
pub proof fn law_bounds_of_actions(
    first: i32,
    second: i32,
    horizontal: bool,
    button: Button,
    x: u16,
    y: u16,
    milliseconds: u64,
)
    ensures
        complaint(Action::MouseMove { dx: first, dy: second }) is None <==> -32767 <= first <= 32767
            && -32767 <= second <= 32767,
        complaint(Action::Scroll { delta: first, horizontal }) is None <==> -100 <= first <= 100,
        complaint(Action::Wait { milliseconds }) is None <==> milliseconds <= 30 * 1000,
        complaint(Action::MouseMoveTo { x, y }) is None,
        complaint(Action::MouseClick { button }) is None,
{
}

/// A key is accepted where it has a name and a keyboard has it. A hotkey is accepted where
/// each of its keys is, and a sequence where it has between 1 and 256 hotkeys and each of
/// them is accepted.
pub proof fn law_accepted_keys(key: String, keys: Vec<String>)
    ensures
        complaint(Action::KeyTap { key }) is None <==> (key_names::key_code(
            key_names::normalized(key@),
        ) matches Some(code) && linux::keyboard_code(code)),
        complaint(Action::Hotkey { keys: key }) is None <==> forall|index: int|
            0 <= index < text::split(key@, '+').len() ==> (key_names::key_code(
                key_names::normalized(#[trigger] text::split(key@, '+')[index]),
            ) matches Some(code) && linux::keyboard_code(code)),
        complaint(Action::KeySequence { keys }) is None <==> 1 <= keys@.len() <= 256 && forall|
            index: int,
        |
            0 <= index < keys@.len() ==> complaint(
                Action::Hotkey { keys: #[trigger] keys@[index] },
            ) is None,
{
    let parts = text::split(key@, '+');
    lemma_parts_accepted(parts);
    lemma_hotkeys_accepted(keys@);
    if forall|index: int|
        0 <= index < parts.len() ==> (key_names::key_code(
            key_names::normalized(#[trigger] parts[index]),
        ) matches Some(code) && linux::keyboard_code(code)) {
        assert forall|index: int| 0 <= index < parts.len() implies key_complaint(
            #[trigger] parts[index],
        ) is None by {}
    }
    if hotkey_complaint(key@) is None {
        assert forall|index: int| 0 <= index < parts.len() implies (key_names::key_code(
            key_names::normalized(#[trigger] parts[index]),
        ) matches Some(code) && linux::keyboard_code(code)) by {
            assert(key_complaint(parts[index]) is None);
        }
    }
    if forall|index: int|
        0 <= index < keys@.len() ==> complaint(
            Action::Hotkey { keys: #[trigger] keys@[index] },
        ) is None {
        assert forall|index: int| 0 <= index < keys@.len() implies hotkey_complaint(
            (#[trigger] keys@[index])@,
        ) is None by {
            assert(complaint(Action::Hotkey { keys: keys@[index] }) is None);
        }
    }
}

/// Nothing is wrong with some keys where nothing is wrong with any one.
proof fn lemma_parts_accepted(parts: Seq<Seq<char>>)
    ensures
        parts_complaint(parts) is None <==> forall|index: int|
            0 <= index < parts.len() ==> key_complaint(#[trigger] parts[index]) is None,
    decreases parts.len(),
{
    if parts.len() > 0 {
        let head = parts.drop_last();
        lemma_parts_accepted(head);
        if parts_complaint(parts) is None {
            assert forall|index: int| 0 <= index < parts.len() implies key_complaint(
                #[trigger] parts[index],
            ) is None by {
                lemma_part_complaint(parts, index);
            }
        }
        if forall|index: int|
            0 <= index < parts.len() ==> key_complaint(#[trigger] parts[index]) is None {
            assert forall|index: int| 0 <= index < head.len() implies key_complaint(
                #[trigger] head[index],
            ) is None by {
                assert(head[index] == parts[index]);
            }
            assert(key_complaint(parts[parts.len() - 1]) is None);
        }
    }
}

/// Nothing is wrong with some hotkeys where nothing is wrong with any one.
proof fn lemma_hotkeys_accepted(keys: Seq<String>)
    ensures
        hotkeys_complaint(keys) is None <==> forall|index: int|
            0 <= index < keys.len() ==> hotkey_complaint((#[trigger] keys[index])@) is None,
    decreases keys.len(),
{
    if keys.len() > 0 {
        let head = keys.drop_last();
        lemma_hotkeys_accepted(head);
        if hotkeys_complaint(keys) is None {
            assert forall|index: int| 0 <= index < keys.len() implies hotkey_complaint(
                (#[trigger] keys[index])@,
            ) is None by {
                if index < head.len() {
                    assert(head[index] == keys[index]);
                }
            }
        }
        if forall|index: int|
            0 <= index < keys.len() ==> hotkey_complaint((#[trigger] keys[index])@) is None {
            assert forall|index: int| 0 <= index < head.len() implies hotkey_complaint(
                (#[trigger] head[index])@,
            ) is None by {
                assert(head[index] == keys[index]);
            }
            assert(hotkey_complaint(keys[keys.len() - 1]@) is None);
        }
    }
}

/// What is said of actions is what is wrong with the first bad one.
pub proof fn law_first_bad_action_is_told(actions: Seq<Action>, at: int)
    requires
        actions.len() <= 16,
        0 <= at < actions.len(),
        complaint(actions[at]) is Some,
        forall|earlier: int|
            0 <= earlier < at ==> complaint(#[trigger] actions[earlier]) is None,
    ensures
        batch_complaint(actions) == complaint(actions[at]),
{
    let head = actions.take(at);
    lemma_first_complaint(head);
    assert forall|index: int| 0 <= index < head.len() implies complaint(
        #[trigger] head[index],
    ) is None by {
        assert(head[index] == actions[index]);
    }
    assert(actions.take(at + 1).drop_last() =~= head);
    assert(actions.take(at + 1).last() == actions[at]);
    lemma_complaint_stays(actions, at + 1);
}

/// What is said of a hotkey is what is wrong with the first bad key.
pub proof fn law_first_bad_key_is_told(value: Seq<char>, at: int)
    requires
        0 <= at < text::split(value, '+').len(),
        key_complaint(text::split(value, '+')[at]) is Some,
        forall|earlier: int|
            0 <= earlier < at ==> key_complaint(
                #[trigger] text::split(value, '+')[earlier],
            ) is None,
    ensures
        hotkey_complaint(value) == key_complaint(text::split(value, '+')[at]),
{
    let parts = text::split(value, '+');
    let head = parts.take(at);
    lemma_parts_accepted(head);
    assert forall|index: int| 0 <= index < head.len() implies key_complaint(
        #[trigger] head[index],
    ) is None by {
        assert(head[index] == parts[index]);
    }
    assert(parts.take(at + 1).drop_last() =~= head);
    assert(parts.take(at + 1).last() == parts[at]);
    lemma_parts_complaint_stays(parts, at + 1);
}

/// What is said of a sequence is what is wrong with the first bad hotkey.
pub proof fn law_first_bad_hotkey_is_told(keys: Vec<String>, at: int)
    requires
        keys@.len() <= 256,
        0 <= at < keys@.len(),
        hotkey_complaint(keys@[at]@) is Some,
        forall|earlier: int|
            0 <= earlier < at ==> hotkey_complaint((#[trigger] keys@[earlier])@) is None,
    ensures
        complaint(Action::KeySequence { keys }) == hotkey_complaint(keys@[at]@),
{
    let head = keys@.take(at);
    lemma_hotkeys_accepted(head);
    assert forall|index: int| 0 <= index < head.len() implies hotkey_complaint(
        (#[trigger] head[index])@,
    ) is None by {
        assert(head[index] == keys@[index]);
    }
    assert(keys@.take(at + 1).drop_last() =~= head);
    assert(keys@.take(at + 1).last() == keys@[at]);
    lemma_hotkeys_complaint_stays(keys@, at + 1);
}

/// What is said of a key holds its name, as it was given where no key has it.
pub proof fn law_bad_key_is_named(value: Seq<char>)
    requires
        key_complaint(value) is Some,
    ensures
        key_names::key_code(key_names::normalized(value)) is None ==> text::occurs(
            key_complaint(value)->0,
            value,
        ),
        key_names::key_code(key_names::normalized(value)) is Some ==> text::ends(
            key_complaint(value)->0,
            key_names::normalized(value),
        ),
{
    let said = key_complaint(value)->0;
    if key_names::key_code(key_names::normalized(value)) is None {
        text::law_text_is_made_of_parts(said, value);
        assert(said == "unknown key: "@ + value + "; use a key name or code:<number>"@);
    } else {
        text::law_text_is_made_of_parts(said, key_names::normalized(value));
    }
}

} // verus!
