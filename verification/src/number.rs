//! Decimal numbers as text, and square roots.

use crate::text::{append, string_of};
use vstd::prelude::*;

verus! {

/// The character of a decimal digit.
pub open spec fn digit(value: nat) -> char
    recommends
        value < 10,
{
    (48 + value) as char
}

/// Whether a character is a decimal digit.
pub open spec fn is_digit(letter: char) -> bool {
    '0' <= letter <= '9'
}

/// A number in decimal, without leading zeros.
pub open spec fn decimal(value: nat) -> Seq<char>
    decreases value,
{
    if value < 10 {
        seq![digit(value)]
    } else {
        decimal(value / 10).push(digit(value % 10))
    }
}

/// Whether a text is made of decimal digits only.
pub open spec fn all_digits(text: Seq<char>) -> bool {
    forall|index: int| 0 <= index < text.len() ==> is_digit(#[trigger] text[index])
}

/// The number that decimal digits stand for.
pub open spec fn digits_value(text: Seq<char>) -> nat
    decreases text.len(),
{
    if text.len() == 0 {
        0
    } else {
        digits_value(text.drop_last()) * 10 + (text.last() as nat - 48) as nat
    }
}

/// The number that a text stands for, at most `limit`: digits, behind an
/// optional plus sign.
pub open spec fn parsed(text: Seq<char>, limit: nat) -> Option<nat> {
    let digits = if text.len() > 0 && text[0] == '+' {
        text.drop_first()
    } else {
        text
    };
    if digits.len() > 0 && all_digits(digits) && digits_value(digits) <= limit {
        Some(digits_value(digits))
    } else {
        None
    }
}

/// Writes a number in decimal.
pub fn to_decimal(value: u128) -> (text: Vec<char>)
    ensures
        text@ == decimal(value as nat),
    decreases value,
{
    let last: char = ((48 + value % 10) as u8) as char;
    if value < 10 {
        let mut text: Vec<char> = Vec::new();
        text.push(last);
        text
    } else {
        let mut text: Vec<char> = to_decimal(value / 10);
        text.push(last);
        text
    }
}

/// The value of more digits is no smaller.
proof fn lemma_digits_value_grows(text: Seq<char>, size: int)
    requires
        0 <= size <= text.len(),
        all_digits(text),
    ensures
        digits_value(text.take(size)) <= digits_value(text),
    decreases text.len() - size,
{
    if size < text.len() {
        lemma_digits_value_grows(text, size + 1);
        assert(text.take(size + 1).drop_last() == text.take(size));
    } else {
        assert(text.take(size) == text);
    }
}

/// Reads a 16-bit number.
pub fn parse_u16(letters: &[char]) -> (value: Option<u16>)
    ensures
        match value {
            Some(found) => parsed(letters@, 65535) == Some(found as nat),
            None => parsed(letters@, 65535) is None,
        },
{
    let mut index: usize = 0;
    if letters.len() > 0 && letters[0] == '+' {
        index = 1;
    }
    let start: usize = index;
    let ghost digits = letters@.skip(start as int);
    assert(digits == if letters@.len() > 0 && letters@[0] == '+' {
        letters@.drop_first()
    } else {
        letters@
    });
    if start == letters.len() {
        return None;
    }
    let mut value: u32 = 0;
    while index < letters.len()
        invariant
            start <= index <= letters.len(),
            digits == letters@.skip(start as int),
            digits == if letters@.len() > 0 && letters@[0] == '+' {
                letters@.drop_first()
            } else {
                letters@
            },
            all_digits(digits.take(index - start)),
            value == digits_value(digits.take(index - start)),
            value <= 65535,
        decreases letters.len() - index,
    {
        let letter: char = letters[index];
        assert(digits[index - start] == letter);
        if letter < '0' || letter > '9' {
            assert(!is_digit(digits[index - start]));
            return None;
        }
        let figure: u32 = letter as u32 - 48;
        assert(digits.take(index - start + 1).drop_last() == digits.take(index - start));
        value = value * 10 + figure;
        if value > 65535 {
            proof {
                if all_digits(digits) {
                    lemma_digits_value_grows(digits, index - start + 1);
                }
            }
            return None;
        }
        index += 1;
    }
    assert(digits.take(index - start) == digits);
    Some(value as u16)
}

/// Whether bytes are decimal digits only.
pub open spec fn all_digit_bytes(bytes: Seq<u8>) -> bool {
    forall|index: int| 0 <= index < bytes.len() ==> 48 <= #[trigger] bytes[index] <= 57
}

/// The number that decimal digits in bytes stand for.
pub open spec fn digit_bytes_value(bytes: Seq<u8>) -> nat
    decreases bytes.len(),
{
    if bytes.len() == 0 {
        0
    } else {
        digit_bytes_value(bytes.drop_last()) * 10 + (bytes.last() - 48) as nat
    }
}

/// The value of more digits is no smaller.
proof fn lemma_digit_bytes_grow(bytes: Seq<u8>, size: int)
    requires
        0 <= size <= bytes.len(),
        all_digit_bytes(bytes),
    ensures
        digit_bytes_value(bytes.take(size)) <= digit_bytes_value(bytes),
    decreases bytes.len() - size,
{
    if size < bytes.len() {
        lemma_digit_bytes_grow(bytes, size + 1);
        assert(bytes.take(size + 1).drop_last() == bytes.take(size));
    } else {
        assert(bytes.take(size) == bytes);
    }
}

/// The number that bytes stand for: digits, at least one, of at most 64 bits.
pub open spec fn parsed_digits(bytes: Seq<u8>) -> Option<nat> {
    if bytes.len() > 0 && all_digit_bytes(bytes) && digit_bytes_value(bytes) <= u64::MAX {
        Some(digit_bytes_value(bytes))
    } else {
        None
    }
}

/// Reads decimal digits.
pub fn parse_digits(bytes: &[u8]) -> (value: Option<u64>)
    ensures
        match value {
            Some(found) => parsed_digits(bytes@) == Some(found as nat),
            None => parsed_digits(bytes@) is None,
        },
{
    if bytes.len() == 0 {
        return None;
    }
    let mut value: u64 = 0;
    let mut index: usize = 0;
    while index < bytes.len()
        invariant
            index <= bytes.len(),
            all_digit_bytes(bytes@.take(index as int)),
            value == digit_bytes_value(bytes@.take(index as int)),
        decreases bytes.len() - index,
    {
        let byte: u8 = bytes[index];
        if byte < 48 || byte > 57 {
            assert(!(48 <= bytes@[index as int] <= 57));
            return None;
        }
        assert(bytes@.take(index + 1).drop_last() == bytes@.take(index as int));
        let longer: u128 = (value as u128) * 10 + (byte - 48) as u128;
        if longer > 0xffff_ffff_ffff_ffff {
            proof {
                if all_digit_bytes(bytes@) {
                    lemma_digit_bytes_grow(bytes@, index + 1);
                }
            }
            return None;
        }
        value = longer as u64;
        index += 1;
    }
    assert(bytes@.take(index as int) == bytes@);
    Some(value)
}

/// A decimal number is made of digits, has at least one and stands for the
/// number that was written.
pub proof fn law_decimal_reads_back(value: nat)
    ensures
        decimal(value).len() > 0,
        all_digits(decimal(value)),
        digits_value(decimal(value)) == value,
        forall|limit: nat| value <= limit ==> parsed(decimal(value), limit) == Some(value),
    decreases value,
{
    if value < 10 {
        assert(decimal(value).drop_last() == Seq::<char>::empty());
        assert(digits_value(Seq::<char>::empty()) == 0);
        assert(digit(value) as nat == 48 + value);
    } else {
        law_decimal_reads_back(value / 10);
        assert(decimal(value).drop_last() == decimal(value / 10));
        assert(digit(value % 10) as nat == 48 + value % 10);
    }
    assert(is_digit(decimal(value)[0]));
}

/// A number in decimal, with a minus sign where it is negative.
pub open spec fn signed(value: int) -> Seq<char> {
    if value < 0 {
        seq!['-'] + decimal((-value) as nat)
    } else {
        decimal(value as nat)
    }
}

/// A number of hundredths in decimal, with two places after the point.
pub open spec fn hundredths(value: nat) -> Seq<char> {
    decimal(value / 100) + seq!['.', digit(value / 10 % 10), digit(value % 10)]
}

/// The character of a hexadecimal digit, a small letter above nine.
pub open spec fn hex_digit(value: nat) -> char {
    if value < 10 {
        (48 + value) as char
    } else {
        (87 + value) as char
    }
}

/// A number in hexadecimal, without leading zeros.
pub open spec fn hexadecimal(value: nat) -> Seq<char>
    decreases value,
{
    if value < 16 {
        seq![hex_digit(value)]
    } else {
        hexadecimal(value / 16).push(hex_digit(value % 16))
    }
}

/// Writes a number in hexadecimal.
fn to_hexadecimal(value: u64) -> (text: Vec<char>)
    ensures
        text@ == hexadecimal(value as nat),
    decreases value,
{
    let rest: u8 = (value % 16) as u8;
    let last: char = if rest < 10 {
        (48 + rest) as char
    } else {
        (87 + rest) as char
    };
    if value < 16 {
        let mut text: Vec<char> = Vec::new();
        text.push(last);
        text
    } else {
        let mut text: Vec<char> = to_hexadecimal(value / 16);
        text.push(last);
        text
    }
}

/// Writes a number in hexadecimal behind a text.
pub fn append_hexadecimal(text: String, value: u64) -> (longer: String)
    ensures
        longer@ == text@ + hexadecimal(value as nat),
{
    let digits: Vec<char> = to_hexadecimal(value);
    append(text, string_of(&digits).as_str())
}

/// Writes a number behind a text.
pub fn append_number(text: String, value: u128) -> (longer: String)
    ensures
        longer@ == text@ + decimal(value as nat),
{
    let digits: Vec<char> = to_decimal(value);
    append(text, string_of(&digits).as_str())
}

/// Writes a number behind a text, with a minus sign where it is negative.
pub fn append_signed(text: String, value: i64) -> (longer: String)
    ensures
        longer@ == text@ + signed(value as int),
{
    if value < 0 {
        let sign: String = append(text, "-");
        proof {
            reveal_strlit("-");
        }
        assert("-"@ == seq!['-']);
        let longer: String = append_number(sign, (-(value as i128)) as u128);
        assert(longer@ == text@ + (seq!['-'] + decimal((-value) as nat)));
        longer
    } else {
        append_number(text, value as u128)
    }
}

/// Writes a number of hundredths behind a text.
pub fn append_hundredths(text: String, value: u64) -> (longer: String)
    ensures
        longer@ == text@ + hundredths(value as nat),
{
    let mut digits: Vec<char> = to_decimal((value / 100) as u128);
    digits.push('.');
    digits.push(((48 + value / 10 % 10) as u8) as char);
    digits.push(((48 + value % 10) as u8) as char);
    assert(digits@ == hundredths(value as nat));
    append(text, string_of(&digits).as_str())
}

/// Whether a number is the square root of another, rounded down.
pub open spec fn is_root(value: int, root: int) -> bool {
    &&& 0 <= root
    &&& root * root <= value
    &&& value < (root + 1) * (root + 1)
}

/// Whether a number is the whole number nearest to the square root of another: no
/// more than a half away from it.
pub open spec fn is_nearest_root(value: int, root: int) -> bool {
    &&& 0 <= root
    &&& root > 0 ==> (2 * root - 1) * (2 * root - 1) < 4 * value
    &&& 4 * value < (2 * root + 1) * (2 * root + 1)
}

/// The square root of a number, rounded down.
pub fn square_root(value: u64) -> (root: u64)
    requires
        value < 0x4000_0000_0000_0000,
    ensures
        is_root(value as int, root as int),
        root < 0x8000_0000,
{
    let mut low: u64 = 0;
    let mut high: u64 = 0x8000_0000;
    assert(0x8000_0000 * 0x8000_0000 == 0x4000_0000_0000_0000);
    while high - low > 1
        invariant
            low < high <= 0x8000_0000,
            low * low <= value,
            value < high * high,
        decreases high - low,
    {
        let middle: u64 = low + (high - low) / 2;
        assert(middle * middle <= 0x8000_0000 * 0x8000_0000) by (nonlinear_arith)
            requires
                0 <= middle <= 0x8000_0000,
        ;
        if middle * middle <= value {
            low = middle;
        } else {
            high = middle;
        }
    }
    assert(high == low + 1);
    low
}

/// The whole number nearest to the square root of a number.
pub fn nearest_root(value: u64) -> (root: u64)
    requires
        value < 0x4000_0000_0000_0000,
    ensures
        is_nearest_root(value as int, root as int),
        root <= 0x8000_0000,
{
    let below: u64 = square_root(value);
    let ghost r = below as int;
    assert(r * r <= 0x4000_0000_0000_0000) by (nonlinear_arith)
        requires
            0 <= r < 0x8000_0000,
    ;
    assert((r + 1) * (r + 1) == r * r + 2 * r + 1) by (nonlinear_arith);
    assert((2 * r + 1) * (2 * r + 1) == 4 * (r * r) + 4 * r + 1) by (nonlinear_arith);
    assert((2 * r - 1) * (2 * r - 1) == 4 * (r * r) - 4 * r + 1) by (nonlinear_arith);
    assert((2 * (r + 1) + 1) * (2 * (r + 1) + 1) == 4 * (r * r) + 12 * r + 9) by (nonlinear_arith);
    assert((2 * (r + 1) - 1) * (2 * (r + 1) - 1) == 4 * (r * r) + 4 * r + 1) by (nonlinear_arith);
    if value > below * below + below {
        below + 1
    } else {
        below
    }
}

/// A number with a sign is its magnitude in decimal, behind a minus sign where it is below
/// zero.
pub proof fn law_sign_is_written(value: int)
    ensures
        value < 0 ==> {
            &&& signed(value)[0] == '-'
            &&& digits_value(signed(value).drop_first()) == -value
        },
        value >= 0 ==> all_digits(signed(value)) && digits_value(signed(value)) == value,
{
    if value < 0 {
        law_decimal_reads_back((-value) as nat);
        assert(signed(value).drop_first() =~= decimal((-value) as nat));
    } else {
        law_decimal_reads_back(value as nat);
    }
}

/// A number of hundredths is written with a point before its last two digits.
pub proof fn law_hundredths_have_two_places(value: nat)
    ensures
        ({
            let written = hundredths(value);
            let point = written.len() - 3;
            &&& written.len() >= 4
            &&& written[point] == '.'
            &&& all_digits(written.take(point))
            &&& all_digits(written.skip(point + 1))
            &&& digits_value(written.take(point)) * 100 + digits_value(written.skip(point + 1))
                == value
        }),
{
    let written = hundredths(value);
    let point = written.len() - 3;
    law_decimal_reads_back(value / 100);
    assert(written.take(point) =~= decimal(value / 100));
    let places = written.skip(point + 1);
    assert(places =~= seq![digit(value / 10 % 10), digit(value % 10)]);
    assert(places.drop_last() =~= seq![digit(value / 10 % 10)]);
    assert(places.drop_last().drop_last() =~= Seq::empty());
    assert(digits_value(places.drop_last().drop_last()) == 0);
    assert(digits_value(places.drop_last()) == value / 10 % 10);
    assert(digits_value(places) == value / 10 % 10 * 10 + value % 10);
}

/// The number that a hexadecimal digit stands for.
pub open spec fn hex_value(letter: char) -> int {
    if '0' <= letter <= '9' {
        letter as int - '0' as int
    } else {
        letter as int - 'a' as int + 10
    }
}

/// The number that hexadecimal digits stand for.
pub open spec fn hex_digits_value(text: Seq<char>) -> int
    decreases text.len(),
{
    if text.len() == 0 {
        0
    } else {
        hex_digits_value(text.drop_last()) * 16 + hex_value(text.last())
    }
}

/// A number in hexadecimal reads back, and is made of digits and of the letters up to `f`.
pub proof fn law_hexadecimal_reads_back(value: nat)
    ensures
        hex_digits_value(hexadecimal(value)) == value,
        forall|index: int|
            0 <= index < hexadecimal(value).len() ==> ('0' <= #[trigger] hexadecimal(value)[index]
                <= '9' || 'a' <= hexadecimal(value)[index] <= 'f'),
    decreases value,
{
    if value < 16 {
        assert(hexadecimal(value).drop_last() =~= Seq::empty());
        assert(hex_digits_value(Seq::empty()) == 0);
        assert(hex_value(hex_digit(value)) == value);
    } else {
        law_hexadecimal_reads_back(value / 16);
        assert(hexadecimal(value).drop_last() =~= hexadecimal(value / 16));
        assert(hex_value(hex_digit(value % 16)) == value % 16);
    }
}

/// A number does not begin with a zero, but for zero itself.
pub proof fn law_no_leading_zero(value: nat)
    ensures
        value > 0 ==> decimal(value)[0] != '0',
        value == 0 ==> decimal(value) == seq!['0'],
    decreases value,
{
    if value >= 10 {
        law_no_leading_zero(value / 10);
        law_decimal_reads_back(value / 10);
        assert(decimal(value)[0] == decimal(value / 10)[0]);
    }
}

/// Digits stand for the same number as bytes and as characters, and are read as that
/// number where it is not too large.
pub proof fn law_digits_are_read(text: Seq<char>, bytes: Seq<u8>)
    requires
        text.len() == bytes.len(),
        all_digits(text),
        forall|index: int| 0 <= index < text.len() ==> #[trigger] text[index] as int == bytes[index],
    ensures
        digit_bytes_value(bytes) == digits_value(text),
        parsed_digits(bytes) == if text.len() > 0 && digits_value(text) <= 0xffff_ffff_ffff_ffff {
            Some(digits_value(text))
        } else {
            None
        },
    decreases text.len(),
{
    assert forall|index: int| 0 <= index < bytes.len() implies 48 <= #[trigger] bytes[index]
        <= 57 by {
        assert(is_digit(text[index]));
    }
    if text.len() > 0 {
        let head = text.drop_last();
        let start = bytes.drop_last();
        assert forall|index: int| 0 <= index < head.len() implies is_digit(
            #[trigger] head[index],
        ) && head[index] as int == start[index] by {
            assert(head[index] == text[index]);
            assert(is_digit(text[index]));
        }
        law_digits_are_read(head, start);
        assert(is_digit(text[text.len() - 1]));
        assert(text[text.len() - 1] as int == bytes[text.len() - 1]);
    }
}

/// A number is read from one digit or more, behind a plus sign or none, up to a limit; from
/// nothing else.
pub proof fn law_numbers_are_read(digits: Seq<char>, text: Seq<char>, limit: nat)
    requires
        digits.len() > 0,
        all_digits(digits),
    ensures
        parsed(digits, limit) == if digits_value(digits) <= limit {
            Some(digits_value(digits))
        } else {
            None
        },
        parsed(seq!['+'] + digits, limit) == parsed(digits, limit),
        parsed(Seq::empty(), limit) is None,
        parsed(seq!['+'], limit) is None,
        parsed(text, limit) is Some ==> forall|index: int|
            0 <= index < text.len() ==> ('0' <= #[trigger] text[index] <= '9' || index == 0
                && text[index] == '+'),
        parsed(text, limit) matches Some(value) ==> value <= limit,
{
    assert(is_digit(digits[0]));
    assert((seq!['+'] + digits).drop_first() =~= digits);
    assert(seq!['+'].drop_first() =~= Seq::empty());
    if parsed(text, limit) is Some {
        assert forall|index: int| 0 <= index < text.len() implies ('0' <= #[trigger] text[index]
            <= '9' || index == 0 && text[index] == '+') by {
            if text[0] == '+' {
                if index > 0 {
                    assert(is_digit(text.drop_first()[index - 1]));
                }
            } else {
                assert(is_digit(text[index]));
            }
        }
    }
}

/// Bytes that are not all digits, and no bytes, are no number.
pub proof fn law_other_bytes_are_no_number(bytes: Seq<u8>)
    requires
        parsed_digits(bytes) is Some,
    ensures
        bytes.len() > 0,
        forall|index: int|
            0 <= index < bytes.len() ==> '0' as u8 <= #[trigger] bytes[index] <= '9' as u8,
        parsed_digits(bytes)->0 == digit_bytes_value(bytes) <= u64::MAX,
{
}

/// A digit more counts for itself, and makes all digits before it count ten times as much.
pub proof fn law_digits_count_by_tens(text: Seq<char>, digit: char)
    requires
        '0' <= digit <= '9',
    ensures
        digits_value(text.push(digit)) == 10 * digits_value(text) + (digit as int - '0' as int),
        digits_value(Seq::empty()) == 0,
{
    assert(text.push(digit).drop_last() =~= text);
}

} // verus!
