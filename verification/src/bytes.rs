//! Byte sequences: comparing them, taking them apart and putting them in order.

use crate::text;
use vstd::prelude::*;

verus! {

/// The bytes of a text in UTF-8.
pub open spec fn encoded(text: Seq<char>) -> Seq<u8> {
    vstd::utf8::encode_utf8(text)
}

/// Whether bytes start with others.
pub open spec fn starts(bytes: Seq<u8>, prefix: Seq<u8>) -> bool {
    prefix.len() <= bytes.len() && bytes.take(prefix.len() as int) == prefix
}

/// Whether bytes end with others.
pub open spec fn finishes(bytes: Seq<u8>, suffix: Seq<u8>) -> bool {
    suffix.len() <= bytes.len() && bytes.skip(bytes.len() - suffix.len()) == suffix
}

/// The byte vectors as sequences.
pub open spec fn views(fields: Seq<Vec<u8>>) -> Seq<Seq<u8>> {
    fields.map_values(|field: Vec<u8>| field@)
}

/// Decides whether bytes are the same from a place on.
pub fn stands_at(bytes: &[u8], from: usize, part: &[u8]) -> (yes: bool)
    requires
        from <= bytes@.len(),
    ensures
        yes == (part@.len() <= bytes@.len() - from && bytes@.subrange(
            from as int,
            from + part@.len(),
        ) == part@),
{
    if part.len() > bytes.len() - from {
        return false;
    }
    let mut index: usize = 0;
    while index < part.len()
        invariant
            index <= part.len(),
            part.len() <= bytes.len() - from,
            from <= bytes@.len(),
            forall|at: int| 0 <= at < index ==> #[trigger] part@[at] == bytes@[from + at],
        decreases part.len() - index,
    {
        if part[index] != bytes[from + index] {
            assert(bytes@.subrange(from as int, from + part@.len())[index as int] == bytes@[from
                + index]);
            return false;
        }
        index += 1;
    }
    assert(bytes@.subrange(from as int, from + part@.len()) =~= part@);
    true
}

/// Decides whether bytes are the same.
pub fn same_bytes(left: &[u8], right: &[u8]) -> (yes: bool)
    ensures
        yes == (left@ == right@),
{
    if left.len() != right.len() {
        return false;
    }
    assert(left@.subrange(0, right@.len() as int) == left@);
    stands_at(left, 0, right)
}

/// Decides whether bytes are those of a text.
pub fn is_encoded(bytes: &[u8], text: &str) -> (yes: bool)
    ensures
        yes == (bytes@ == encoded(text@)),
{
    same_bytes(bytes, text.as_bytes())
}

/// Decides whether bytes start with others.
pub fn has_prefix(bytes: &[u8], prefix: &[u8]) -> (yes: bool)
    ensures
        yes == starts(bytes@, prefix@),
{
    stands_at(bytes, 0, prefix)
}

/// Decides whether bytes end with others.
pub fn has_suffix(bytes: &[u8], suffix: &[u8]) -> (yes: bool)
    ensures
        yes == finishes(bytes@, suffix@),
{
    if suffix.len() > bytes.len() {
        return false;
    }
    let from: usize = bytes.len() - suffix.len();
    assert(bytes@.skip(from as int) == bytes@.subrange(from as int, from + suffix@.len()));
    stands_at(bytes, from, suffix)
}

/// A part of bytes.
pub fn part_of(bytes: &[u8], from: usize, to: usize) -> (part: Vec<u8>)
    requires
        from <= to <= bytes@.len(),
    ensures
        part@ == bytes@.subrange(from as int, to as int),
{
    let mut part: Vec<u8> = Vec::new();
    let mut index: usize = from;
    while index < to
        invariant
            from <= index <= to <= bytes@.len(),
            part@ == bytes@.subrange(from as int, index as int),
        decreases to - index,
    {
        part.push(bytes[index]);
        index += 1;
    }
    part
}

/// A copy of bytes.
pub fn copy_bytes(bytes: &[u8]) -> (copy: Vec<u8>)
    ensures
        copy@ == bytes@,
{
    let copy: Vec<u8> = part_of(bytes, 0, bytes.len());
    assert(bytes@.subrange(0, bytes@.len() as int) == bytes@);
    copy
}

/// The small letter for a capital ASCII letter; every other byte itself.
pub open spec fn lower(byte: u8) -> u8 {
    if 65 <= byte <= 90 {
        (byte + 32) as u8
    } else {
        byte
    }
}

/// Bytes with small letters for capital ASCII letters.
pub open spec fn lowered(bytes: Seq<u8>) -> Seq<u8> {
    bytes.map_values(|byte: u8| lower(byte))
}

/// Puts small letters for capital ASCII letters.
pub fn to_lowered(bytes: &[u8]) -> (small: Vec<u8>)
    ensures
        small@ == lowered(bytes@),
{
    let mut small: Vec<u8> = Vec::new();
    let mut index: usize = 0;
    while index < bytes.len()
        invariant
            index <= bytes.len(),
            small@ == lowered(bytes@.take(index as int)),
        decreases bytes.len() - index,
    {
        let byte: u8 = bytes[index];
        small.push(
            if 65 <= byte && byte <= 90 {
                byte + 32
            } else {
                byte
            },
        );
        assert(bytes@.take(index + 1) == bytes@.take(index as int).push(byte));
        assert(small@ == lowered(bytes@.take(index + 1)));
        index += 1;
    }
    assert(bytes@.take(index as int) == bytes@);
    small
}

/// Splits bytes at a separator.
pub fn split_bytes(bytes: &[u8], separator: u8) -> (fields: Vec<Vec<u8>>)
    ensures
        views(fields@) == text::split(bytes@, separator),
        fields@.len() >= 1,
{
    let mut fields: Vec<Vec<u8>> = Vec::new();
    let mut field: Vec<u8> = Vec::new();
    let mut index: usize = 0;
    assert(views(fields@).push(field@) == seq![Seq::<u8>::empty()]);
    while index < bytes.len()
        invariant
            index <= bytes.len(),
            views(fields@).push(field@) == text::split(bytes@.take(index as int), separator),
        decreases bytes.len() - index,
    {
        let ghost head = bytes@.take(index as int);
        let ghost before = views(fields@).push(field@);
        let byte: u8 = bytes[index];
        assert(bytes@.take(index + 1).drop_last() == head);
        if byte == separator {
            let ghost done = field@;
            let ghost earlier = fields@;
            fields.push(field);
            field = Vec::new();
            assert(views(fields@) == views(earlier).push(done));
        } else {
            assert(before.drop_last() == views(fields@));
            field.push(byte);
        }
        index += 1;
    }
    assert(bytes@.take(index as int) == bytes@);
    let ghost done = field@;
    let ghost earlier = fields@;
    fields.push(field);
    assert(views(fields@) == views(earlier).push(done));
    fields
}

/// Whether bytes do not come after others: the first byte in which they differ
/// decides, and where one is the start of the other, the shorter comes first.
pub open spec fn not_behind(left: Seq<u8>, right: Seq<u8>) -> bool
    decreases left.len(),
{
    if left.len() == 0 {
        true
    } else if right.len() == 0 {
        false
    } else if left[0] == right[0] {
        not_behind(left.drop_first(), right.drop_first())
    } else {
        left[0] < right[0]
    }
}

/// Of two byte sequences, one does not come after the other.
pub proof fn lemma_total(left: Seq<u8>, right: Seq<u8>)
    ensures
        not_behind(left, right) || not_behind(right, left),
    decreases left.len(),
{
    if left.len() > 0 && right.len() > 0 && left[0] == right[0] {
        lemma_total(left.drop_first(), right.drop_first());
    }
}

/// The order of byte sequences carries over.
pub proof fn lemma_transitive(first: Seq<u8>, second: Seq<u8>, third: Seq<u8>)
    requires
        not_behind(first, second),
        not_behind(second, third),
    ensures
        not_behind(first, third),
    decreases first.len(),
{
    if first.len() > 0 && first[0] == second[0] && second[0] == third[0] {
        lemma_transitive(first.drop_first(), second.drop_first(), third.drop_first());
    }
}

/// Byte sequences of which neither comes after the other are the same.
pub proof fn lemma_antisymmetric(left: Seq<u8>, right: Seq<u8>)
    requires
        not_behind(left, right),
        not_behind(right, left),
    ensures
        left == right,
    decreases left.len(),
{
    if left.len() > 0 {
        lemma_antisymmetric(left.drop_first(), right.drop_first());
        assert(left == seq![left[0]] + left.drop_first());
        assert(right == seq![right[0]] + right.drop_first());
    }
}

/// Decides whether bytes do not come after others.
pub fn is_not_behind(left: &[u8], right: &[u8]) -> (yes: bool)
    ensures
        yes == not_behind(left@, right@),
{
    let mut index: usize = 0;
    assert(left@.skip(0) == left@ && right@.skip(0) == right@);
    while index < left.len()
        invariant
            index <= left@.len(),
            index <= right@.len(),
            not_behind(left@, right@) == not_behind(
                left@.skip(index as int),
                right@.skip(index as int),
            ),
        decreases left.len() - index,
    {
        if index >= right.len() {
            return false;
        }
        assert(left@.skip(index as int).drop_first() == left@.skip(index + 1));
        assert(right@.skip(index as int).drop_first() == right@.skip(index + 1));
        if left[index] != right[index] {
            return left[index] < right[index];
        }
        index += 1;
    }
    true
}

/// The first byte in which two sequences differ decides which comes first.
pub proof fn law_first_difference_decides(
    start: Seq<u8>,
    lower: u8,
    higher: u8,
    left: Seq<u8>,
    right: Seq<u8>,
)
    requires
        lower < higher,
    ensures
        not_behind(start.push(lower) + left, start.push(higher) + right),
        !not_behind(start.push(higher) + right, start.push(lower) + left),
    decreases start.len(),
{
    let first = start.push(lower) + left;
    let second = start.push(higher) + right;
    if start.len() == 0 {
        assert(first[0] == lower && second[0] == higher);
    } else {
        let rest = start.drop_first();
        law_first_difference_decides(rest, lower, higher, left, right);
        assert(first[0] == start[0] && second[0] == start[0]);
        assert(first.drop_first() =~= rest.push(lower) + left);
        assert(second.drop_first() =~= rest.push(higher) + right);
    }
}

/// What begins with other bytes comes after them.
pub proof fn law_shorter_comes_first(start: Seq<u8>, rest: Seq<u8>)
    ensures
        not_behind(start, start + rest),
        rest.len() > 0 ==> !not_behind(start + rest, start),
    decreases start.len(),
{
    if start.len() > 0 {
        law_shorter_comes_first(start.drop_first(), rest);
        assert((start + rest)[0] == start[0]);
        assert((start + rest).drop_first() =~= start.drop_first() + rest);
    }
}

/// Bytes start with others where they are those and a rest, and end with others where they
/// are a rest and those.
pub proof fn law_bytes_are_made_of_parts(bytes: Seq<u8>, part: Seq<u8>)
    ensures
        starts(bytes, part) <==> exists|rest: Seq<u8>| bytes == #[trigger] (part + rest),
        finishes(bytes, part) <==> exists|rest: Seq<u8>| bytes == #[trigger] (rest + part),
{
    let size = part.len() as int;
    if starts(bytes, part) {
        assert(bytes =~= part + bytes.skip(size));
    }
    assert forall|rest: Seq<u8>| bytes == #[trigger] (part + rest) implies starts(bytes, part) by {
        assert(bytes.take(size) =~= part);
    }
    if finishes(bytes, part) {
        assert(bytes =~= bytes.take(bytes.len() - size) + part);
    }
    assert forall|rest: Seq<u8>| bytes == #[trigger] (rest + part) implies finishes(
        bytes,
        part,
    ) by {
        assert(bytes.skip(bytes.len() - size) =~= part);
    }
}

/// Small letters take the place of the capital ones, the n-th for the n-th, and every
/// other byte stays.
pub proof fn law_small_bytes_take_the_place(bytes: Seq<u8>, index: int)
    requires
        0 <= index < bytes.len(),
    ensures
        lowered(bytes).len() == bytes.len(),
        'A' as u8 <= bytes[index] <= 'Z' as u8 ==> lowered(bytes)[index] - 'a' as u8
            == bytes[index] - 'A' as u8,
        !('A' as u8 <= bytes[index] <= 'Z' as u8) ==> lowered(bytes)[index] == bytes[index],
{
}

} // verus!
