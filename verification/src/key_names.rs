//! Key names and the Linux scan codes that they stand for.

use crate::number::{self, parse_u16, to_decimal};
use crate::text::{
    self, begins_with, chars_of, is_text, push_all, slice_of, to_lowered, trim,
};
use vstd::prelude::*;

verus! {

/// The scan codes of the letters `a` to `z`.
pub const LETTER_CODES: [u16; 26] = [
    30, 48, 46, 32, 18, 33, 34, 35, 23, 36, 37, 38, 50, 49, 24, 25, 16, 19, 31, 20, 22, 47, 17, 45,
    21, 44,
];

/// The scan code of a key that has a word for a name.
pub open spec fn word_code(name: Seq<char>) -> Option<u16> {
    if name == "escape"@ || name == "esc"@ {
        Some(1u16)
    } else if name == "minus"@ {
        Some(12u16)
    } else if name == "equal"@ {
        Some(13u16)
    } else if name == "backspace"@ {
        Some(14u16)
    } else if name == "tab"@ {
        Some(15u16)
    } else if name == "left_brace"@ || name == "left_bracket"@ {
        Some(26u16)
    } else if name == "right_brace"@ || name == "right_bracket"@ {
        Some(27u16)
    } else if name == "enter"@ || name == "return"@ {
        Some(28u16)
    } else if name == "left_ctrl"@ || name == "ctrl"@ || name == "control"@ {
        Some(29u16)
    } else if name == "semicolon"@ {
        Some(39u16)
    } else if name == "apostrophe"@ || name == "quote"@ {
        Some(40u16)
    } else if name == "grave"@ || name == "backtick"@ {
        Some(41u16)
    } else if name == "left_shift"@ || name == "shift"@ {
        Some(42u16)
    } else if name == "backslash"@ {
        Some(43u16)
    } else if name == "comma"@ {
        Some(51u16)
    } else if name == "dot"@ || name == "period"@ || name == "."@ {
        Some(52u16)
    } else if name == "slash"@ {
        Some(53u16)
    } else if name == "right_shift"@ {
        Some(54u16)
    } else if name == "left_alt"@ || name == "alt"@ {
        Some(56u16)
    } else if name == "space"@ {
        Some(57u16)
    } else if name == "caps_lock"@ {
        Some(58u16)
    } else if name == "num_lock"@ {
        Some(69u16)
    } else if name == "scroll_lock"@ {
        Some(70u16)
    } else if name == "f11"@ {
        Some(87u16)
    } else if name == "f12"@ {
        Some(88u16)
    } else if name == "right_ctrl"@ {
        Some(97u16)
    } else if name == "right_alt"@ || name == "alt_gr"@ {
        Some(100u16)
    } else if name == "home"@ {
        Some(102u16)
    } else if name == "up"@ {
        Some(103u16)
    } else if name == "page_up"@ {
        Some(104u16)
    } else if name == "left"@ {
        Some(105u16)
    } else if name == "right"@ {
        Some(106u16)
    } else if name == "end"@ {
        Some(107u16)
    } else if name == "down"@ {
        Some(108u16)
    } else if name == "page_down"@ {
        Some(109u16)
    } else if name == "insert"@ {
        Some(110u16)
    } else if name == "delete"@ {
        Some(111u16)
    } else if name == "mute"@ {
        Some(113u16)
    } else if name == "volume_down"@ {
        Some(114u16)
    } else if name == "volume_up"@ {
        Some(115u16)
    } else if name == "left_meta"@ || name == "meta"@ || name == "super"@ || name == "windows"@ {
        Some(125u16)
    } else if name == "right_meta"@ {
        Some(126u16)
    } else if name == "menu"@ {
        Some(139u16)
    } else {
        None
    }
}

/// The scan code that a key name stands for: `code:` and a number, a letter, a
/// digit, `f` and a number from 1 to 10, or a word.
pub open spec fn key_code(name: Seq<char>) -> Option<u16> {
    if text::begins(name, "code:"@) {
        match number::parsed(name.skip("code:"@.len() as int), 65535) {
            Some(code) => Some(code as u16),
            None => None,
        }
    } else if name.len() == 1 && 'a' <= name[0] <= 'z' {
        Some(LETTER_CODES@[name[0] as int - 'a' as int])
    } else if name.len() == 1 && '0' <= name[0] <= '9' {
        Some(if name[0] == '0' { 11u16 } else { (name[0] as u16 - '1' as u16 + 2) as u16 })
    } else if name.len() > 0 && name[0] == 'f' && number::parsed(name.drop_first(), 65535) is Some && 1
        <= number::parsed(name.drop_first(), 65535)->0 <= 10 {
        Some((58 + number::parsed(name.drop_first(), 65535)->0) as u16)
    } else {
        word_code(name)
    }
}

/// Finds the scan code of a key that has a word for a name.
fn find_word_code(name: &[char]) -> (code: Option<u16>)
    ensures
        code == word_code(name@),
{
    if is_text(name, "escape") || is_text(name, "esc") {
        return Some(1);
    }
    if is_text(name, "minus") {
        return Some(12);
    }
    if is_text(name, "equal") {
        return Some(13);
    }
    if is_text(name, "backspace") {
        return Some(14);
    }
    if is_text(name, "tab") {
        return Some(15);
    }
    if is_text(name, "left_brace") || is_text(name, "left_bracket") {
        return Some(26);
    }
    if is_text(name, "right_brace") || is_text(name, "right_bracket") {
        return Some(27);
    }
    if is_text(name, "enter") || is_text(name, "return") {
        return Some(28);
    }
    if is_text(name, "left_ctrl") || is_text(name, "ctrl") || is_text(name, "control") {
        return Some(29);
    }
    if is_text(name, "semicolon") {
        return Some(39);
    }
    if is_text(name, "apostrophe") || is_text(name, "quote") {
        return Some(40);
    }
    if is_text(name, "grave") || is_text(name, "backtick") {
        return Some(41);
    }
    if is_text(name, "left_shift") || is_text(name, "shift") {
        return Some(42);
    }
    if is_text(name, "backslash") {
        return Some(43);
    }
    if is_text(name, "comma") {
        return Some(51);
    }
    if is_text(name, "dot") || is_text(name, "period") || is_text(name, ".") {
        return Some(52);
    }
    if is_text(name, "slash") {
        return Some(53);
    }
    if is_text(name, "right_shift") {
        return Some(54);
    }
    if is_text(name, "left_alt") || is_text(name, "alt") {
        return Some(56);
    }
    if is_text(name, "space") {
        return Some(57);
    }
    if is_text(name, "caps_lock") {
        return Some(58);
    }
    if is_text(name, "num_lock") {
        return Some(69);
    }
    if is_text(name, "scroll_lock") {
        return Some(70);
    }
    if is_text(name, "f11") {
        return Some(87);
    }
    if is_text(name, "f12") {
        return Some(88);
    }
    if is_text(name, "right_ctrl") {
        return Some(97);
    }
    if is_text(name, "right_alt") || is_text(name, "alt_gr") {
        return Some(100);
    }
    if is_text(name, "home") {
        return Some(102);
    }
    if is_text(name, "up") {
        return Some(103);
    }
    if is_text(name, "page_up") {
        return Some(104);
    }
    if is_text(name, "left") {
        return Some(105);
    }
    if is_text(name, "right") {
        return Some(106);
    }
    if is_text(name, "end") {
        return Some(107);
    }
    if is_text(name, "down") {
        return Some(108);
    }
    if is_text(name, "page_down") {
        return Some(109);
    }
    if is_text(name, "insert") {
        return Some(110);
    }
    if is_text(name, "delete") {
        return Some(111);
    }
    if is_text(name, "mute") {
        return Some(113);
    }
    if is_text(name, "volume_down") {
        return Some(114);
    }
    if is_text(name, "volume_up") {
        return Some(115);
    }
    if is_text(name, "left_meta") || is_text(name, "meta") || is_text(name, "super") || is_text(name, "windows") {
        return Some(125);
    }
    if is_text(name, "right_meta") {
        return Some(126);
    }
    if is_text(name, "menu") {
        return Some(139);
    }
    None
}

/// Finds the scan code that a key name stands for.
pub fn parse_key_code(name: &[char]) -> (code: Option<u16>)
    ensures
        code == key_code(name@),
{
    if begins_with(name, "code:") {
        let prefix: Vec<char> = chars_of("code:");
        let rest: Vec<char> = slice_of(name, prefix.len(), name.len());
        assert(rest@ == name@.skip("code:"@.len() as int));
        return parse_u16(&rest);
    }
    if name.len() == 1 {
        let letter: char = name[0];
        if 'a' <= letter && letter <= 'z' {
            let index: usize = (letter as u32 - 97) as usize;
            return Some(LETTER_CODES[index]);
        }
        if '0' <= letter && letter <= '9' {
            if letter == '0' {
                return Some(11);
            }
            return Some((letter as u32 - 49 + 2) as u16);
        }
    }
    if name.len() > 0 && name[0] == 'f' {
        let rest: Vec<char> = slice_of(name, 1, name.len());
        assert(rest@ == name@.drop_first());
        if let Some(figure) = parse_u16(&rest) {
            if 1 <= figure && figure <= 10 {
                return Some(58 + figure);
            }
        }
    }
    find_word_code(name)
}

/// The words that keys are shown by, in the order in which they are tried.
pub open spec fn shown_words() -> Seq<Seq<char>> {
    seq![
        "escape"@, "backspace"@, "tab"@, "enter"@, "left_ctrl"@, "left_shift"@, "right_shift"@,
        "left_alt"@, "space"@, "caps_lock"@, "f1"@, "f2"@, "f3"@, "f4"@, "f5"@, "f6"@, "f7"@,
        "f8"@, "f9"@, "f10"@, "f11"@, "f12"@, "right_ctrl"@, "right_alt"@, "home"@, "up"@,
        "page_up"@, "left"@, "right"@, "end"@, "down"@, "page_down"@, "insert"@, "delete"@,
        "left_meta"@, "right_meta"@, "menu"@,
    ]
}

/// The words that keys are shown by.
fn show_words() -> (words: Vec<&'static str>)
    ensures
        words@.len() == shown_words().len(),
        forall|index: int|
            0 <= index < words@.len() ==> (#[trigger] words@[index])@ == shown_words()[index],
{
    vec![
        "escape", "backspace", "tab", "enter", "left_ctrl", "left_shift", "right_shift",
        "left_alt", "space", "caps_lock", "f1", "f2", "f3", "f4", "f5", "f6", "f7", "f8", "f9",
        "f10", "f11", "f12", "right_ctrl", "right_alt", "home", "up", "page_up", "left",
        "right", "end", "down", "page_down", "insert", "delete", "left_meta", "right_meta",
        "menu",
    ]
}

/// The names that keys are shown by, in the order in which they are tried: the
/// words, then the letters, then the digits.
pub open spec fn shown_names() -> Seq<Seq<char>> {
    shown_words() + Seq::new(26, |index: int| seq![(97 + index) as char]) + Seq::new(
        10,
        |index: int| seq![(48 + index) as char],
    )
}

/// The first of the names that stands for the scan code.
pub open spec fn first_named(names: Seq<Seq<char>>, code: u16) -> Option<Seq<char>>
    decreases names.len(),
{
    if names.len() == 0 {
        None
    } else if first_named(names.drop_last(), code) is Some {
        first_named(names.drop_last(), code)
    } else if key_code(names.last()) == Some(code) {
        Some(names.last())
    } else {
        None
    }
}

/// The name of a scan code: the first name that stands for it, or `code:` and
/// the number.
pub open spec fn code_name(code: u16) -> Seq<char> {
    match first_named(shown_names(), code) {
        Some(name) => name,
        None => "code:"@ + number::decimal(code as nat),
    }
}

/// What comes first among some names comes first among them and others behind.
proof fn lemma_first_named_extends(names: Seq<Seq<char>>, size: int, code: u16)
    requires
        0 <= size <= names.len(),
        first_named(names.take(size), code) is Some,
    ensures
        first_named(names, code) == first_named(names.take(size), code),
    decreases names.len() - size,
{
    if size < names.len() {
        assert(names.take(size + 1).drop_last() == names.take(size));
        lemma_first_named_extends(names, size + 1, code);
    } else {
        assert(names.take(size) == names);
    }
}

/// Names a scan code.
pub fn key_name(scan_code: u16) -> (name: Vec<char>)
    ensures
        name@ == code_name(scan_code),
{
    let ghost names = shown_names();
    let words: Vec<&'static str> = show_words();
    let ghost count = words@.len() as int;
    let mut index: usize = 0;
    while index < words.len()
        invariant
            index <= words.len(),
            count == words@.len(),
            count == shown_words().len(),
            names == shown_names(),
            forall|at: int|
                0 <= at < words@.len() ==> (#[trigger] words@[at])@ == shown_words()[at],
            first_named(names.take(index as int), scan_code) is None,
        decreases words.len() - index,
    {
        let name: Vec<char> = chars_of(words[index]);
        assert(names.take(index + 1).drop_last() == names.take(index as int));
        assert(names.take(index + 1).last() == name@);
        if parse_key_code(&name) == Some(scan_code) {
            proof {
                lemma_first_named_extends(names, index + 1, scan_code);
            }
            return name;
        }
        index += 1;
    }
    let mut letter: u8 = 97;
    while letter <= 122
        invariant
            97 <= letter <= 123,
            count == shown_words().len(),
            names == shown_names(),
            first_named(names.take(count + (letter - 97)), scan_code) is None,
        decreases 123 - letter,
    {
        let mut name: Vec<char> = Vec::new();
        name.push(letter as char);
        assert(names.take(count + (letter - 97) + 1).drop_last() == names.take(
            count + (letter - 97),
        ));
        assert(names.take(count + (letter - 97) + 1).last() == name@);
        if parse_key_code(&name) == Some(scan_code) {
            proof {
                lemma_first_named_extends(names, count + (letter - 97) + 1, scan_code);
            }
            return name;
        }
        letter += 1;
    }
    let mut figure: u8 = 48;
    while figure <= 57
        invariant
            48 <= figure <= 58,
            count == shown_words().len(),
            names == shown_names(),
            first_named(names.take(count + 26 + (figure - 48)), scan_code) is None,
        decreases 58 - figure,
    {
        let mut name: Vec<char> = Vec::new();
        name.push(figure as char);
        assert(names.take(count + 26 + (figure - 48) + 1).drop_last() == names.take(
            count + 26 + (figure - 48),
        ));
        assert(names.take(count + 26 + (figure - 48) + 1).last() == name@);
        if parse_key_code(&name) == Some(scan_code) {
            proof {
                lemma_first_named_extends(names, count + 26 + (figure - 48) + 1, scan_code);
            }
            return name;
        }
        figure += 1;
    }
    assert(names.take(count + 36) == names);
    let mut name: Vec<char> = chars_of("code:");
    let digits: Vec<char> = to_decimal(scan_code as u128);
    push_all(&mut name, &digits);
    name
}

/// A key name as it is looked up: without white space around it, in small
/// letters, with spaces and hyphens made underscores.
pub open spec fn normalized(value: Seq<char>) -> Seq<char> {
    text::lowered(text::trimmed(value)).map_values(
        |letter: char| if letter == ' ' || letter == '-' { '_' } else { letter },
    )
}

/// Prepares a key name for being looked up.
pub fn normalize(value: &str) -> (name: Vec<char>)
    ensures
        name@ == normalized(value@),
{
    let letters: Vec<char> = chars_of(value);
    let kept: Vec<char> = trim(&letters);
    let small: Vec<char> = to_lowered(&kept);
    let mut name: Vec<char> = Vec::new();
    let mut index: usize = 0;
    while index < small.len()
        invariant
            index <= small.len(),
            name@ == small@.take(index as int).map_values(
                |letter: char| if letter == ' ' || letter == '-' { '_' } else { letter },
            ),
        decreases small.len() - index,
    {
        let letter: char = small[index];
        name.push(if letter == ' ' || letter == '-' { '_' } else { letter });
        index += 1;
    }
    assert(small@.take(index as int) == small@);
    name
}

/// The characters that names of keys are made of.
pub open spec fn plain(letter: char) -> bool {
    'a' <= letter <= 'z' || '0' <= letter <= '9' || letter == '_' || letter == ':'
}

/// Whether a text is made of such characters.
pub open spec fn all_plain(text: Seq<char>) -> bool {
    forall|index: int| 0 <= index < text.len() ==> plain(#[trigger] text[index])
}

/// Preparing a plain name changes nothing.
proof fn lemma_plain_is_normalized(text: Seq<char>)
    requires
        all_plain(text),
    ensures
        normalized(text) == text,
{
    if text.len() > 0 {
        assert(plain(text[0]));
        assert(plain(text.last()));
    }
    assert(text::trimmed(text) == text);
    assert(text::lowered(text) == text);
}

/// The words that keys are shown by are plain.
proof fn lemma_words_are_plain()
    ensures
        forall|index: int|
            0 <= index < shown_words().len() ==> all_plain(#[trigger] shown_words()[index]),
{
    reveal_strlit("escape");
    reveal_strlit("backspace");
    reveal_strlit("tab");
    reveal_strlit("enter");
    reveal_strlit("left_ctrl");
    reveal_strlit("left_shift");
    reveal_strlit("right_shift");
    reveal_strlit("left_alt");
    reveal_strlit("space");
    reveal_strlit("caps_lock");
    reveal_strlit("f1");
    reveal_strlit("f2");
    reveal_strlit("f3");
    reveal_strlit("f4");
    reveal_strlit("f5");
    reveal_strlit("f6");
    reveal_strlit("f7");
    reveal_strlit("f8");
    reveal_strlit("f9");
    reveal_strlit("f10");
    reveal_strlit("f11");
    reveal_strlit("f12");
    reveal_strlit("right_ctrl");
    reveal_strlit("right_alt");
    reveal_strlit("home");
    reveal_strlit("up");
    reveal_strlit("page_up");
    reveal_strlit("left");
    reveal_strlit("right");
    reveal_strlit("end");
    reveal_strlit("down");
    reveal_strlit("page_down");
    reveal_strlit("insert");
    reveal_strlit("delete");
    reveal_strlit("left_meta");
    reveal_strlit("right_meta");
    reveal_strlit("menu");
    assert(all_plain("escape"@));
    assert(all_plain("backspace"@));
    assert(all_plain("tab"@));
    assert(all_plain("enter"@));
    assert(all_plain("left_ctrl"@));
    assert(all_plain("left_shift"@));
    assert(all_plain("right_shift"@));
    assert(all_plain("left_alt"@));
    assert(all_plain("space"@));
    assert(all_plain("caps_lock"@));
    assert(all_plain("f1"@));
    assert(all_plain("f2"@));
    assert(all_plain("f3"@));
    assert(all_plain("f4"@));
    assert(all_plain("f5"@));
    assert(all_plain("f6"@));
    assert(all_plain("f7"@));
    assert(all_plain("f8"@));
    assert(all_plain("f9"@));
    assert(all_plain("f10"@));
    assert(all_plain("f11"@));
    assert(all_plain("f12"@));
    assert(all_plain("right_ctrl"@));
    assert(all_plain("right_alt"@));
    assert(all_plain("home"@));
    assert(all_plain("up"@));
    assert(all_plain("page_up"@));
    assert(all_plain("left"@));
    assert(all_plain("right"@));
    assert(all_plain("end"@));
    assert(all_plain("down"@));
    assert(all_plain("page_down"@));
    assert(all_plain("insert"@));
    assert(all_plain("delete"@));
    assert(all_plain("left_meta"@));
    assert(all_plain("right_meta"@));
    assert(all_plain("menu"@));
}

/// What comes first is one of the names and stands for the scan code.
proof fn lemma_first_named_is_named(names: Seq<Seq<char>>, code: u16)
    ensures
        first_named(names, code) matches Some(name) ==> key_code(name) == Some(code)
            && names.contains(name),
    decreases names.len(),
{
    if names.len() > 0 {
        lemma_first_named_is_named(names.drop_last(), code);
        if first_named(names.drop_last(), code) is Some {
            let name = first_named(names.drop_last(), code)->0;
            let at = choose|at: int|
                0 <= at < names.drop_last().len() && names.drop_last()[at] == name;
            assert(names[at] == name);
        } else {
            assert(names[names.len() - 1] == names.last());
        }
    }
}

/// The name of a scan code stands for that scan code, and looking it up needs
/// no preparation: every key can be addressed by the name that it is shown by.
pub proof fn law_key_name_reads_back(code: u16)
    ensures
        key_code(code_name(code)) == Some(code),
        normalized(code_name(code)) == code_name(code),
{
    reveal_strlit("code:");
    lemma_first_named_is_named(shown_names(), code);
    let name = code_name(code);
    if first_named(shown_names(), code) is Some {
        lemma_words_are_plain();
        let at = choose|at: int| 0 <= at < shown_names().len() && shown_names()[at] == name;
        if at < shown_words().len() {
            assert(shown_words()[at] == name);
        }
        assert(all_plain(name));
    } else {
        number::law_decimal_reads_back(code as nat);
        assert(name.take(5) == "code:"@);
        assert(name.skip(5) == number::decimal(code as nat));
        assert forall|index: int| 0 <= index < name.len() implies plain(
            #[trigger] name[index],
        ) by {
            if index >= 5 {
                assert(number::is_digit(number::decimal(code as nat)[index - 5]));
            }
        }
    }
    lemma_plain_is_normalized(name);
}

/// The words that stand for keys.
pub open spec fn words() -> Seq<Seq<char>> {
    seq![
        "escape"@, "esc"@, "minus"@, "equal"@, "backspace"@, "tab"@, "left_brace"@,
        "left_bracket"@, "right_brace"@, "right_bracket"@, "enter"@, "return"@,
        "left_ctrl"@, "ctrl"@, "control"@, "semicolon"@, "apostrophe"@, "quote"@, "grave"@,
        "backtick"@, "left_shift"@, "shift"@, "backslash"@, "comma"@, "dot"@, "period"@,
        "."@, "slash"@, "right_shift"@, "left_alt"@, "alt"@, "space"@, "caps_lock"@,
        "num_lock"@, "scroll_lock"@, "f11"@, "f12"@, "right_ctrl"@, "right_alt"@,
        "alt_gr"@, "home"@, "up"@, "page_up"@, "left"@, "right"@, "end"@, "down"@,
        "page_down"@, "insert"@, "delete"@, "mute"@, "volume_down"@, "volume_up"@,
        "left_meta"@, "meta"@, "super"@, "windows"@, "right_meta"@, "menu"@,
    ]
}

/// Each word stands for its own key on a keyboard, and no other text is such a word.
pub proof fn law_words_stand_for_keys(name: Seq<char>)
    ensures
        word_code(name) is Some ==> words().contains(name),
        match word_code(name) {
            Some(1u16) => name == "escape"@ || name == "esc"@,
            Some(12u16) => name == "minus"@,
            Some(13u16) => name == "equal"@,
            Some(14u16) => name == "backspace"@,
            Some(15u16) => name == "tab"@,
            Some(26u16) => name == "left_brace"@ || name == "left_bracket"@,
            Some(27u16) => name == "right_brace"@ || name == "right_bracket"@,
            Some(28u16) => name == "enter"@ || name == "return"@,
            Some(29u16) => name == "left_ctrl"@ || name == "ctrl"@ || name == "control"@,
            Some(39u16) => name == "semicolon"@,
            Some(40u16) => name == "apostrophe"@ || name == "quote"@,
            Some(41u16) => name == "grave"@ || name == "backtick"@,
            Some(42u16) => name == "left_shift"@ || name == "shift"@,
            Some(43u16) => name == "backslash"@,
            Some(51u16) => name == "comma"@,
            Some(52u16) => name == "dot"@ || name == "period"@ || name == "."@,
            Some(53u16) => name == "slash"@,
            Some(54u16) => name == "right_shift"@,
            Some(56u16) => name == "left_alt"@ || name == "alt"@,
            Some(57u16) => name == "space"@,
            Some(58u16) => name == "caps_lock"@,
            Some(69u16) => name == "num_lock"@,
            Some(70u16) => name == "scroll_lock"@,
            Some(87u16) => name == "f11"@,
            Some(88u16) => name == "f12"@,
            Some(97u16) => name == "right_ctrl"@,
            Some(100u16) => name == "right_alt"@ || name == "alt_gr"@,
            Some(102u16) => name == "home"@,
            Some(103u16) => name == "up"@,
            Some(104u16) => name == "page_up"@,
            Some(105u16) => name == "left"@,
            Some(106u16) => name == "right"@,
            Some(107u16) => name == "end"@,
            Some(108u16) => name == "down"@,
            Some(109u16) => name == "page_down"@,
            Some(110u16) => name == "insert"@,
            Some(111u16) => name == "delete"@,
            Some(113u16) => name == "mute"@,
            Some(114u16) => name == "volume_down"@,
            Some(115u16) => name == "volume_up"@,
            Some(125u16) => name == "left_meta"@ || name == "meta"@ || name == "super"@ || name == "windows"@,
            Some(126u16) => name == "right_meta"@,
            Some(139u16) => name == "menu"@,
            Some(_) => false,
            None => name != "escape"@
                && name != "esc"@
                && name != "minus"@
                && name != "equal"@
                && name != "backspace"@
                && name != "tab"@
                && name != "left_brace"@
                && name != "left_bracket"@
                && name != "right_brace"@
                && name != "right_bracket"@
                && name != "enter"@
                && name != "return"@
                && name != "left_ctrl"@
                && name != "ctrl"@
                && name != "control"@
                && name != "semicolon"@
                && name != "apostrophe"@
                && name != "quote"@
                && name != "grave"@
                && name != "backtick"@
                && name != "left_shift"@
                && name != "shift"@
                && name != "backslash"@
                && name != "comma"@
                && name != "dot"@
                && name != "period"@
                && name != "."@
                && name != "slash"@
                && name != "right_shift"@
                && name != "left_alt"@
                && name != "alt"@
                && name != "space"@
                && name != "caps_lock"@
                && name != "num_lock"@
                && name != "scroll_lock"@
                && name != "f11"@
                && name != "f12"@
                && name != "right_ctrl"@
                && name != "right_alt"@
                && name != "alt_gr"@
                && name != "home"@
                && name != "up"@
                && name != "page_up"@
                && name != "left"@
                && name != "right"@
                && name != "end"@
                && name != "down"@
                && name != "page_down"@
                && name != "insert"@
                && name != "delete"@
                && name != "mute"@
                && name != "volume_down"@
                && name != "volume_up"@
                && name != "left_meta"@
                && name != "meta"@
                && name != "super"@
                && name != "windows"@
                && name != "right_meta"@
                && name != "menu"@,
        },
{
    let known = words();
    assert(known[0] == "escape"@);
    assert(known[1] == "esc"@);
    assert(known[2] == "minus"@);
    assert(known[3] == "equal"@);
    assert(known[4] == "backspace"@);
    assert(known[5] == "tab"@);
    assert(known[6] == "left_brace"@);
    assert(known[7] == "left_bracket"@);
    assert(known[8] == "right_brace"@);
    assert(known[9] == "right_bracket"@);
    assert(known[10] == "enter"@);
    assert(known[11] == "return"@);
    assert(known[12] == "left_ctrl"@);
    assert(known[13] == "ctrl"@);
    assert(known[14] == "control"@);
    assert(known[15] == "semicolon"@);
    assert(known[16] == "apostrophe"@);
    assert(known[17] == "quote"@);
    assert(known[18] == "grave"@);
    assert(known[19] == "backtick"@);
    assert(known[20] == "left_shift"@);
    assert(known[21] == "shift"@);
    assert(known[22] == "backslash"@);
    assert(known[23] == "comma"@);
    assert(known[24] == "dot"@);
    assert(known[25] == "period"@);
    assert(known[26] == "."@);
    assert(known[27] == "slash"@);
    assert(known[28] == "right_shift"@);
    assert(known[29] == "left_alt"@);
    assert(known[30] == "alt"@);
    assert(known[31] == "space"@);
    assert(known[32] == "caps_lock"@);
    assert(known[33] == "num_lock"@);
    assert(known[34] == "scroll_lock"@);
    assert(known[35] == "f11"@);
    assert(known[36] == "f12"@);
    assert(known[37] == "right_ctrl"@);
    assert(known[38] == "right_alt"@);
    assert(known[39] == "alt_gr"@);
    assert(known[40] == "home"@);
    assert(known[41] == "up"@);
    assert(known[42] == "page_up"@);
    assert(known[43] == "left"@);
    assert(known[44] == "right"@);
    assert(known[45] == "end"@);
    assert(known[46] == "down"@);
    assert(known[47] == "page_down"@);
    assert(known[48] == "insert"@);
    assert(known[49] == "delete"@);
    assert(known[50] == "mute"@);
    assert(known[51] == "volume_down"@);
    assert(known[52] == "volume_up"@);
    assert(known[53] == "left_meta"@);
    assert(known[54] == "meta"@);
    assert(known[55] == "super"@);
    assert(known[56] == "windows"@);
    assert(known[57] == "right_meta"@);
    assert(known[58] == "menu"@);
}

/// Letters stand for the keys of the three rows of a keyboard, from left to right, and
/// digits for those of the row above, which ends with zero.
pub proof fn law_letters_stand_in_rows(place: int)
    ensures
        0 <= place < 10 ==> key_code(seq!["qwertyuiop"@[place]]) == Some((16 + place) as u16),
        0 <= place < 9 ==> key_code(seq!["asdfghjkl"@[place]]) == Some((30 + place) as u16),
        0 <= place < 7 ==> key_code(seq!["zxcvbnm"@[place]]) == Some((44 + place) as u16),
        0 <= place < 10 ==> key_code(seq!["1234567890"@[place]]) == Some((2 + place) as u16),
{
    reveal_strlit("qwertyuiop");
    reveal_strlit("asdfghjkl");
    reveal_strlit("zxcvbnm");
    reveal_strlit("1234567890");
    reveal_strlit("code:");
    if 0 <= place < 10 {
        lemma_letter_code("qwertyuiop"@[place]);
        assert(!text::begins(seq!["1234567890"@[place]], "code:"@));
    }
    if 0 <= place < 9 {
        lemma_letter_code("asdfghjkl"@[place]);
    }
    if 0 <= place < 7 {
        lemma_letter_code("zxcvbnm"@[place]);
    }
}

/// The code of a letter stands in the list at its place in the alphabet.
proof fn lemma_letter_code(letter: char)
    requires
        'a' <= letter <= 'z',
    ensures
        key_code(seq![letter]) == Some(LETTER_CODES@[letter as int - 97]),
        LETTER_CODES@ == seq![
            30u16, 48, 46, 32, 18, 33, 34, 35, 23, 36, 37, 38, 50, 49, 24, 25, 16, 19, 31, 20, 22,
            47, 17, 45, 21, 44,
        ],
{
    reveal_strlit("code:");
    assert(!text::begins(seq![letter], "code:"@));
}

/// The first ten function keys stand in a row.
pub proof fn law_function_keys_stand_in_a_row(figure: nat)
    requires
        1 <= figure <= 10,
    ensures
        key_code(seq!['f'] + number::decimal(figure)) == Some((58 + figure) as u16),
{
    reveal_strlit("code:");
    let name = seq!['f'] + number::decimal(figure);
    number::law_decimal_reads_back(figure);
    assert(name.drop_first() =~= number::decimal(figure));
    assert(name.len() > 1);
    if text::begins(name, "code:"@) {
        assert(name.take(5)[0] == 'f');
    }
}

/// Any key can be named by the number of its scan code.
pub proof fn law_keys_are_named_by_number(code: u16)
    ensures
        key_code("code:"@ + number::decimal(code as nat)) == Some(code),
{
    reveal_strlit("code:");
    let name = "code:"@ + number::decimal(code as nat);
    number::law_decimal_reads_back(code as nat);
    assert(name.take(5) =~= "code:"@);
    assert(name.skip(5) =~= number::decimal(code as nat));
}

/// A key is shown by a word, a letter or a digit where one stands for it, and else by its
/// number.
pub proof fn law_shown_name_is_a_word_if_there_is_one(code: u16, name: Seq<char>)
    requires
        shown_names().contains(name),
        key_code(name) == Some(code),
    ensures
        shown_names().contains(code_name(code)),
{
    lemma_first_named_found(shown_names(), code, name);
    lemma_first_named_is_named(shown_names(), code);
}

/// Where a name stands for a scan code, one is found.
proof fn lemma_first_named_found(names: Seq<Seq<char>>, code: u16, name: Seq<char>)
    requires
        names.contains(name),
        key_code(name) == Some(code),
    ensures
        first_named(names, code) is Some,
    decreases names.len(),
{
    let at = names.index_of(name);
    if at < names.len() - 1 {
        assert(names.drop_last()[at] == name);
        lemma_first_named_found(names.drop_last(), code, name);
    }
}

/// White space around a name, the case of its letters and the choice between spaces,
/// hyphens and underscores make no difference, and nothing else is changed.
pub proof fn law_names_are_looked_up_loosely(value: Seq<char>, index: int)
    requires
        0 <= index < text::trimmed(value).len(),
    ensures
        normalized(value).len() == text::trimmed(value).len(),
        ({
            let letter = text::trimmed(value)[index];
            let kept = normalized(value)[index];
            &&& letter == ' ' || letter == '-' ==> kept == '_'
            &&& 'A' <= letter <= 'Z' ==> kept as int == letter as int + 32
            &&& letter != ' ' && letter != '-' && !('A' <= letter <= 'Z') ==> kept == letter
        }),
{
}

} // verus!
