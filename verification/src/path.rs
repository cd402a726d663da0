//! File paths as bytes: their parts, their names and their order.

use crate::bytes::{self, copy_bytes, is_not_behind, part_of, same_bytes, split_bytes};
use crate::sort::{self, sort, Ranked};
use crate::text;
use vstd::prelude::*;

verus! {

/// Whether a field between slashes is a part of the path: one that is empty or a
/// dot is not.
pub open spec fn counts(field: Seq<u8>) -> bool {
    field.len() > 0 && field != seq![46u8]
}

/// A part of a path, with a mark in front by which parts are ordered: the parent
/// directory comes before every name.
pub open spec fn marked(field: Seq<u8>) -> Seq<u8> {
    if field == seq![46u8, 46u8] {
        seq![2u8]
    } else {
        seq![3u8] + field
    }
}

/// The marked parts among fields.
pub open spec fn marked_parts(fields: Seq<Seq<u8>>) -> Seq<Seq<u8>>
    decreases fields.len(),
{
    if fields.len() == 0 {
        Seq::empty()
    } else if counts(fields.last()) {
        marked_parts(fields.drop_last()).push(marked(fields.last()))
    } else {
        marked_parts(fields.drop_last())
    }
}

/// The mark of where a path starts: at the root, or explicitly at the current
/// directory, or at neither.
pub open spec fn origin(path: Seq<u8>) -> Seq<Seq<u8>> {
    if path.len() > 0 && path[0] == 47 {
        seq![seq![0u8]]
    } else if text::split(path, 47u8)[0] == seq![46u8] {
        seq![seq![1u8]]
    } else {
        Seq::empty()
    }
}

/// The parts of a path, marked. Paths that differ in repeated or trailing slashes
/// or in dots between them have the same parts.
pub open spec fn components(path: Seq<u8>) -> Seq<Seq<u8>> {
    origin(path) + marked_parts(text::split(path, 47u8))
}

/// Whether two paths are the same.
pub open spec fn same_path(left: Seq<u8>, right: Seq<u8>) -> bool {
    components(left) == components(right)
}

/// The last field that counts.
pub open spec fn last_part(fields: Seq<Seq<u8>>) -> Option<Seq<u8>>
    decreases fields.len(),
{
    if fields.len() == 0 {
        None
    } else if counts(fields.last()) {
        Some(fields.last())
    } else {
        last_part(fields.drop_last())
    }
}

/// The name that a path ends in, unless it ends in the root or in a directory that
/// is only pointed at.
pub open spec fn name_of(path: Seq<u8>) -> Option<Seq<u8>> {
    match last_part(text::split(path, 47u8)) {
        Some(part) => if part == seq![46u8, 46u8] {
            None
        } else {
            Some(part)
        },
        None => None,
    }
}

/// What stands behind the last dot of a name. A dot in front does not count.
pub open spec fn ending_of(name: Seq<u8>) -> Option<Seq<u8>> {
    match name.index_of_last(46u8) {
        Some(at) => if at > 0 {
            Some(name.skip(at + 1))
        } else {
            None
        },
        None => None,
    }
}

/// The extension of the file that a path names.
pub open spec fn extension_of(path: Seq<u8>) -> Option<Seq<u8>> {
    match name_of(path) {
        Some(name) => ending_of(name),
        None => None,
    }
}

/// Whether marked parts do not come after others: the first in which they differ
/// decides.
pub open spec fn parts_not_behind(left: Seq<Seq<u8>>, right: Seq<Seq<u8>>) -> bool
    decreases left.len(),
{
    if left.len() == 0 {
        true
    } else if right.len() == 0 {
        false
    } else if left[0] == right[0] {
        parts_not_behind(left.drop_first(), right.drop_first())
    } else {
        bytes::not_behind(left[0], right[0])
    }
}

/// Whether a path does not come after another, part by part.
pub open spec fn path_not_behind(left: Seq<u8>, right: Seq<u8>) -> bool {
    parts_not_behind(components(left), components(right))
}

/// Of two sequences of parts, one does not come after the other.
pub proof fn lemma_parts_total(left: Seq<Seq<u8>>, right: Seq<Seq<u8>>)
    ensures
        parts_not_behind(left, right) || parts_not_behind(right, left),
    decreases left.len(),
{
    if left.len() > 0 && right.len() > 0 {
        if left[0] == right[0] {
            lemma_parts_total(left.drop_first(), right.drop_first());
        } else {
            bytes::lemma_total(left[0], right[0]);
        }
    }
}

/// The order of parts carries over.
pub proof fn lemma_parts_transitive(
    first: Seq<Seq<u8>>,
    second: Seq<Seq<u8>>,
    third: Seq<Seq<u8>>,
)
    requires
        parts_not_behind(first, second),
        parts_not_behind(second, third),
    ensures
        parts_not_behind(first, third),
    decreases first.len(),
{
    if first.len() > 0 {
        if first[0] == second[0] && second[0] == third[0] {
            lemma_parts_transitive(first.drop_first(), second.drop_first(), third.drop_first());
        } else if first[0] != second[0] && second[0] != third[0] {
            bytes::lemma_transitive(first[0], second[0], third[0]);
            if first[0] == third[0] {
                bytes::lemma_antisymmetric(first[0], second[0]);
            }
        }
    }
}

/// Sequences of parts of which neither comes after the other are the same.
pub proof fn lemma_parts_antisymmetric(left: Seq<Seq<u8>>, right: Seq<Seq<u8>>)
    requires
        parts_not_behind(left, right),
        parts_not_behind(right, left),
    ensures
        left == right,
    decreases left.len(),
{
    if left.len() > 0 {
        if left[0] != right[0] {
            bytes::lemma_antisymmetric(left[0], right[0]);
        }
        lemma_parts_antisymmetric(left.drop_first(), right.drop_first());
        assert(left == seq![left[0]] + left.drop_first());
        assert(right == seq![right[0]] + right.drop_first());
    }
}

/// Paths of which neither comes after the other are the same path.
pub proof fn law_paths_in_one_place_are_one(left: Seq<u8>, right: Seq<u8>)
    ensures
        path_not_behind(left, right) && path_not_behind(right, left) <==> same_path(left, right),
{
    if path_not_behind(left, right) && path_not_behind(right, left) {
        lemma_parts_antisymmetric(components(left), components(right));
    }
    if same_path(left, right) {
        lemma_parts_total(components(left), components(left));
    }
}

/// The parts of a path, marked.
pub fn components_of(path: &[u8]) -> (parts: Vec<Vec<u8>>)
    ensures
        bytes::views(parts@) == components(path@),
{
    let fields: Vec<Vec<u8>> = split_bytes(path, 47);
    let ghost all = text::split(path@, 47u8);
    let mut parts: Vec<Vec<u8>> = Vec::new();
    assert(all[0] == fields@[0]@);
    if path.len() > 0 && path[0] == 47 {
        let mut mark: Vec<u8> = Vec::new();
        mark.push(0);
        parts.push(mark);
        assert(mark@ == seq![0u8]);
    } else if same_bytes(&fields[0], &[46]) {
        assert([46u8]@ == seq![46u8]);
        let mut mark: Vec<u8> = Vec::new();
        mark.push(1);
        parts.push(mark);
        assert(mark@ == seq![1u8]);
    } else {
        assert([46u8]@ == seq![46u8]);
    }
    assert(bytes::views(parts@) == origin(path@));
    let mut index: usize = 0;
    assert(all.take(0) == Seq::<Seq<u8>>::empty());
    while index < fields.len()
        invariant
            index <= fields.len(),
            all == bytes::views(fields@),
            bytes::views(parts@) == origin(path@) + marked_parts(all.take(index as int)),
        decreases fields.len() - index,
    {
        let field: &Vec<u8> = &fields[index];
        assert(all.take(index + 1).drop_last() == all.take(index as int));
        assert(all.take(index + 1).last() == field@);
        assert([46u8]@ == seq![46u8]);
        assert([46u8, 46u8]@ == seq![46u8, 46u8]);
        if field.len() > 0 && !same_bytes(field, &[46]) {
            let ghost earlier = parts@;
            let mut part: Vec<u8> = Vec::new();
            if same_bytes(field, &[46, 46]) {
                part.push(2);
                assert(part@ == seq![2u8]);
            } else {
                part.push(3);
                let mut at: usize = 0;
                while at < field.len()
                    invariant
                        at <= field@.len(),
                        part@ == seq![3u8] + field@.take(at as int),
                    decreases field.len() - at,
                {
                    part.push(field[at]);
                    at += 1;
                }
                assert(field@.take(at as int) == field@);
            }
            assert(part@ == marked(field@));
            parts.push(part);
            assert(bytes::views(parts@) == bytes::views(earlier).push(marked(field@)));
        }
        index += 1;
    }
    assert(all.take(index as int) == all);
    parts
}

/// Decides whether two paths are the same.
pub fn is_same_path(left: &[u8], right: &[u8]) -> (yes: bool)
    ensures
        yes == same_path(left@, right@),
{
    if same_bytes(left, right) {
        return true;
    }
    let a: Vec<Vec<u8>> = components_of(left);
    let b: Vec<Vec<u8>> = components_of(right);
    let ghost one = components(left@);
    let ghost other = components(right@);
    assert(one.len() == a@.len() && other.len() == b@.len());
    if a.len() != b.len() {
        return false;
    }
    let mut index: usize = 0;
    while index < a.len()
        invariant
            index <= a.len(),
            a@.len() == b@.len(),
            one == bytes::views(a@),
            other == bytes::views(b@),
            one == components(left@),
            other == components(right@),
            one.take(index as int) == other.take(index as int),
        decreases a.len() - index,
    {
        assert(one[index as int] == a@[index as int]@);
        assert(other[index as int] == b@[index as int]@);
        if !same_bytes(&a[index], &b[index]) {
            return false;
        }
        assert(one.take(index + 1) == one.take(index as int).push(one[index as int]));
        assert(other.take(index + 1) == other.take(index as int).push(other[index as int]));
        index += 1;
    }
    assert(one.take(index as int) == one);
    assert(other.take(index as int) == other);
    true
}

/// Decides whether a path does not come after another.
pub fn is_path_not_behind(left: &[u8], right: &[u8]) -> (yes: bool)
    ensures
        yes == path_not_behind(left@, right@),
{
    let a: Vec<Vec<u8>> = components_of(left);
    let b: Vec<Vec<u8>> = components_of(right);
    let ghost one = components(left@);
    let ghost other = components(right@);
    assert(one.len() == a@.len() && other.len() == b@.len());
    let mut index: usize = 0;
    assert(one.skip(0) == one && other.skip(0) == other);
    while index < a.len()
        invariant
            index <= a@.len(),
            index <= b@.len(),
            one == bytes::views(a@),
            other == bytes::views(b@),
            one.len() == a@.len(),
            other.len() == b@.len(),
            path_not_behind(left@, right@) == parts_not_behind(
                one.skip(index as int),
                other.skip(index as int),
            ),
        decreases a.len() - index,
    {
        if index >= b.len() {
            return false;
        }
        assert(one[index as int] == a@[index as int]@);
        assert(other[index as int] == b@[index as int]@);
        assert(one.skip(index as int).drop_first() == one.skip(index + 1));
        assert(other.skip(index as int).drop_first() == other.skip(index + 1));
        if !same_bytes(&a[index], &b[index]) {
            return is_not_behind(&a[index], &b[index]);
        }
        index += 1;
    }
    true
}

/// The name that a path ends in.
pub fn file_name(path: &[u8]) -> (name: Option<Vec<u8>>)
    ensures
        match name {
            Some(found) => name_of(path@) == Some(found@),
            None => name_of(path@) is None,
        },
{
    let fields: Vec<Vec<u8>> = split_bytes(path, 47);
    let ghost all = text::split(path@, 47u8);
    let mut left: usize = fields.len();
    assert(all.take(all.len() as int) == all);
    while left > 0
        invariant
            left <= fields.len(),
            all == bytes::views(fields@),
            all == text::split(path@, 47u8),
            last_part(all) == last_part(all.take(left as int)),
        decreases left,
    {
        left -= 1;
        let field: &Vec<u8> = &fields[left];
        assert(all.take(left + 1).drop_last() == all.take(left as int));
        assert(all.take(left + 1).last() == field@);
        assert([46u8]@ == seq![46u8]);
        assert([46u8, 46u8]@ == seq![46u8, 46u8]);
        if field.len() > 0 && !same_bytes(field, &[46]) {
            if same_bytes(field, &[46, 46]) {
                return None;
            }
            return Some(copy_bytes(field));
        }
    }
    None
}

/// The extension of the file that a path names.
pub fn extension(path: &[u8]) -> (ending: Option<Vec<u8>>)
    ensures
        match ending {
            Some(found) => extension_of(path@) == Some(found@),
            None => extension_of(path@) is None,
        },
{
    let name: Vec<u8> = match file_name(path) {
        Some(name) => name,
        None => {
            return None;
        },
    };
    proof {
        name@.index_of_last_ensures(46u8);
    }
    let mut left: usize = name.len();
    while left > 0
        invariant
            left <= name@.len(),
            name_of(path@) == Some(name@),
            forall|later: int| left <= later < name@.len() ==> name@[later] != 46,
            match name@.index_of_last(46u8) {
                Some(at) => 0 <= at < name@.len() && name@[at] == 46 && forall|later: int|
                    at < later < name@.len() ==> name@[later] != 46,
                None => !name@.contains(46u8),
            },
        decreases left,
    {
        left -= 1;
        if name[left] == 46 {
            assert(name@.index_of_last(46u8) == Some(left as int));
            if left == 0 {
                return None;
            }
            assert(name@.skip(left + 1) == name@.subrange(left + 1, name@.len() as int));
            return Some(part_of(&name, left + 1, name.len()));
        }
    }
    None
}

/// A path to be put in order.
#[derive(Clone, Debug, Eq, PartialEq)]
pub struct PathEntry {
    pub path: Vec<u8>,
}

impl Ranked for PathEntry {
    open spec fn not_behind(self, other: PathEntry) -> bool {
        path_not_behind(self.path@, other.path@)
    }

    proof fn total(left: PathEntry, right: PathEntry) {
        lemma_parts_total(components(left.path@), components(right.path@));
    }

    proof fn transitive(first: PathEntry, second: PathEntry, third: PathEntry) {
        lemma_parts_transitive(
            components(first.path@),
            components(second.path@),
            components(third.path@),
        );
    }

    fn is_not_behind(&self, other: &PathEntry) -> (yes: bool) {
        is_path_not_behind(&self.path, &other.path)
    }
}

/// Paths as entries to be put in order.
pub open spec fn entries(paths: Seq<Vec<u8>>) -> Seq<PathEntry> {
    paths.map_values(|path: Vec<u8>| PathEntry { path })
}

/// Puts paths in order.
pub fn sort_paths(paths: Vec<Vec<u8>>) -> (sorted: Vec<Vec<u8>>)
    ensures
        sort::sorted_from(entries(sorted@), entries(paths@)),
        sorted@.len() == paths@.len(),
{
    let mut items: Vec<PathEntry> = Vec::new();
    assert(paths@.take(0) == Seq::<Vec<u8>>::empty());
    for path in iter: paths
        invariant
            iter.seq() == paths@,
            items@ == entries(paths@.take(iter.index())),
    {
        assert(paths@.take(iter.index() + 1) == paths@.take(iter.index()).push(path));
        items.push(PathEntry { path });
        assert(items@ == entries(paths@.take(iter.index() + 1)));
    }
    assert(paths@.take(paths@.len() as int) == paths@);
    let ordered: Vec<PathEntry> = sort(items);
    let ghost all = ordered@;
    let mut sorted: Vec<Vec<u8>> = Vec::new();
    assert(all.take(0) == entries(sorted@));
    for entry in iter: ordered
        invariant
            iter.seq() == all,
            entries(sorted@) == all.take(iter.index()),
    {
        let ghost earlier = sorted@;
        assert(all.take(iter.index() + 1) == all.take(iter.index()).push(entry));
        sorted.push(entry.path);
        assert(entries(sorted@) == entries(earlier).push(PathEntry { path: entry.path }));
    }
    assert(all.take(all.len() as int) == all);
    assert(entries(sorted@).len() == sorted@.len());
    sorted
}

/// What the lossy reading of bytes as UTF-8 gives.
pub uninterp spec fn lossy_text(bytes: Seq<u8>) -> Seq<char>;

/// `String::from_utf8_lossy` reads bytes as UTF-8, with a replacement character for
/// what is none: a function of the bytes alone, and of valid UTF-8 the text that it
/// encodes.
#[verifier::external_body]
pub(crate) fn lossy(bytes: &[u8]) -> (text: String)
    ensures
        text@ == lossy_text(bytes@),
        vstd::utf8::valid_utf8(bytes@) ==> text@ == vstd::utf8::decode_utf8(bytes@),
{
    String::from_utf8_lossy(bytes).into_owned()
}

/// Whether bytes can be the name of a file: there are some, no slash is among them, and
/// they are not one or two dots.
pub open spec fn is_name(name: Seq<u8>) -> bool {
    &&& name.len() > 0
    &&& !name.contains(47u8)
    &&& name != seq![46u8]
    &&& name != seq![46u8, 46u8]
}

/// The path of a file in a directory.
pub open spec fn within(directory: Seq<u8>, name: Seq<u8>) -> Seq<u8> {
    directory.push(47u8) + name
}

/// The parts of the path of a file are those of its directory and its name.
proof fn lemma_parts_within(directory: Seq<u8>, name: Seq<u8>)
    requires
        is_name(name),
    ensures
        components(within(directory, name)) == components(directory.push(47u8)).push(
            seq![3u8] + name,
        ),
        last_part(text::split(within(directory, name), 47u8)) == Some(name),
{
    let empty = Seq::<u8>::empty();
    let fields = text::split(directory, 47u8);
    text::lemma_split_nonempty(directory, 47u8);
    text::lemma_split_push(directory, name, 47u8);
    text::lemma_split_push(directory, empty, 47u8);
    assert(directory.push(47u8) + empty =~= directory.push(47u8));
    let whole = text::split(within(directory, name), 47u8);
    let bare = text::split(directory.push(47u8), 47u8);
    assert(whole == fields.push(name));
    assert(bare == fields.push(empty));
    assert(whole.drop_last() =~= fields);
    assert(bare.drop_last() =~= fields);
    assert(whole[0] == fields[0] && bare[0] == fields[0]);
    assert(within(directory, name)[0] == directory.push(47u8)[0]);
    assert(components(within(directory, name)) =~= components(directory.push(47u8)).push(
        seq![3u8] + name,
    ));
}

/// The name that the path of a file ends in is the name of the file, in whatever directory
/// it is, and in none.
pub proof fn law_path_ends_in_its_name(directory: Seq<u8>, name: Seq<u8>)
    requires
        is_name(name),
    ensures
        name_of(within(directory, name)) == Some(name),
        name_of(name) == Some(name),
{
    lemma_parts_within(directory, name);
    text::lemma_split_one(name, 47u8);
}

/// Files in one directory are ordered by their names, byte by byte, and two of them are
/// the same only where their names are.
pub proof fn law_names_are_ordered_as_bytes(directory: Seq<u8>, left: Seq<u8>, right: Seq<u8>)
    requires
        is_name(left),
        is_name(right),
    ensures
        path_not_behind(within(directory, left), within(directory, right)) <==> bytes::not_behind(
            left,
            right,
        ),
        same_path(within(directory, left), within(directory, right)) <==> left == right,
{
    lemma_parts_within(directory, left);
    lemma_parts_within(directory, right);
    let common = components(directory.push(47u8));
    let first = seq![3u8] + left;
    let second = seq![3u8] + right;
    lemma_last_part_decides(common, first, second);
    assert(first[0] == 3 && second[0] == 3);
    assert(first.drop_first() =~= left);
    assert(second.drop_first() =~= right);
    if left == right {
        bytes::lemma_total(left, left);
    }
    if same_path(within(directory, left), within(directory, right)) {
        assert(common.push(first).last() == common.push(second).last());
    }
}

/// Where all parts but the last are the same, the last decides.
proof fn lemma_last_part_decides(common: Seq<Seq<u8>>, left: Seq<u8>, right: Seq<u8>)
    ensures
        parts_not_behind(common.push(left), common.push(right)) <==> left == right
            || bytes::not_behind(left, right),
    decreases common.len(),
{
    let first = common.push(left);
    let second = common.push(right);
    if common.len() == 0 {
        assert(first.drop_first() =~= Seq::empty());
        assert(second.drop_first() =~= Seq::empty());
        assert(parts_not_behind(first.drop_first(), second.drop_first()));
        assert(first[0] == left && second[0] == right);
    } else {
        lemma_last_part_decides(common.drop_first(), left, right);
        assert(first[0] == common[0] && second[0] == common[0]);
        assert(first.drop_first() =~= common.drop_first().push(left));
        assert(second.drop_first() =~= common.drop_first().push(right));
    }
}

/// Repeated slashes in a path, and dots between them, do not matter.
pub proof fn law_repeated_slashes_do_not_matter(directory: Seq<u8>, name: Seq<u8>)
    requires
        is_name(name),
        directory.len() > 0,
    ensures
        same_path(within(directory.push(47u8), name), within(directory, name)),
        same_path(within(within(directory, seq![46u8]), name), within(directory, name)),
{
    let empty = Seq::<u8>::empty();
    let dot = seq![46u8];
    let fields = text::split(directory, 47u8);
    text::lemma_split_nonempty(directory, 47u8);
    text::lemma_split_push(directory, name, 47u8);
    text::lemma_split_push(directory, empty, 47u8);
    assert(directory.push(47u8) + empty =~= directory.push(47u8));
    text::lemma_split_push(directory.push(47u8), name, 47u8);
    assert(!dot.contains(47u8)) by {
        assert(dot[0] == 46u8);
    }
    text::lemma_split_push(directory, dot, 47u8);
    text::lemma_split_push(within(directory, dot), name, 47u8);
    let plain = within(directory, name);
    let doubled = within(directory.push(47u8), name);
    let dotted = within(within(directory, dot), name);
    assert(text::split(plain, 47u8).drop_last() =~= fields);
    assert(text::split(doubled, 47u8).drop_last() =~= fields.push(empty));
    assert(fields.push(empty).drop_last() =~= fields);
    assert(text::split(dotted, 47u8).drop_last() =~= fields.push(dot));
    assert(fields.push(dot).drop_last() =~= fields);
    assert(plain[0] == directory[0] && doubled[0] == directory[0] && dotted[0] == directory[0]);
    assert(text::split(plain, 47u8)[0] == fields[0]);
    assert(text::split(doubled, 47u8)[0] == fields[0]);
    assert(text::split(dotted, 47u8)[0] == fields[0]);
    assert(!counts(empty) && !counts(dot));
    assert(marked_parts(fields.push(empty)) == marked_parts(fields));
    assert(marked_parts(fields.push(dot)) == marked_parts(fields));
    assert(text::split(plain, 47u8).last() == name);
    assert(text::split(doubled, 47u8).last() == name);
    assert(text::split(dotted, 47u8).last() == name);
}

/// What stands behind the last dot of a name is its ending, where something stands before
/// the dot. A name without a dot has none.
pub proof fn law_ending_stands_behind_the_last_dot(stem: Seq<u8>, ending: Seq<u8>)
    requires
        !ending.contains(46u8),
    ensures
        stem.len() > 0 ==> ending_of(stem.push(46u8) + ending) == Some(ending),
        ending_of(seq![46u8] + ending) is None,
        ending_of(ending) is None,
{
    let name = stem.push(46u8) + ending;
    let at = stem.len() as int;
    name.index_of_last_ensures(46u8);
    assert(name[at] == 46u8);
    assert(name.contains(46u8));
    let found = name.index_of_last(46u8)->0;
    if found > at {
        assert(name[found] == ending[found - at - 1]);
    }
    assert(name.skip(at + 1) =~= ending);
    let hidden = seq![46u8] + ending;
    hidden.index_of_last_ensures(46u8);
    if hidden.index_of_last(46u8) is Some {
        let place = hidden.index_of_last(46u8)->0;
        if place > 0 {
            assert(hidden[place] == ending[place - 1]);
        }
    }
    ending.index_of_last_ensures(46u8);
}

/// A slash at the end of a path does not change the name that it ends in; a parent
/// directory that is only pointed at is no name.
pub proof fn law_directories_are_named_too(directory: Seq<u8>, name: Seq<u8>)
    requires
        is_name(name),
    ensures
        name_of(within(directory, name).push(47u8)) == Some(name),
        name_of(within(directory, seq![46u8, 46u8])) is None,
        name_of(seq![46u8, 46u8]) is None,
        name_of(seq![47u8]) is None,
        name_of(Seq::empty()) is None,
{
    let empty = Seq::<u8>::empty();
    let dots = seq![46u8, 46u8];
    lemma_parts_within(directory, name);
    let whole = within(directory, name);
    text::lemma_split_push(whole, empty, 47u8);
    assert(whole.push(47u8) + empty =~= whole.push(47u8));
    assert(text::split(whole, 47u8).push(empty).drop_last() =~= text::split(whole, 47u8));
    assert(!counts(empty));
    assert(!dots.contains(47u8)) by {
        assert(dots[0] == 46u8 && dots[1] == 46u8);
    }
    text::lemma_split_push(directory, dots, 47u8);
    text::lemma_split_one(dots, 47u8);
    text::lemma_split_one(empty, 47u8);
    text::lemma_split_push(empty, empty, 47u8);
    assert(empty.push(47u8) + empty =~= seq![47u8]);
    assert(seq![empty].drop_last() =~= Seq::empty());
    assert(seq![empty].push(empty).drop_last() =~= seq![empty]);
    assert(last_part(seq![empty].drop_last()) is None);
    assert(last_part(seq![empty]) is None);
    assert(counts(dots));
}

/// A path from the root is another than one from where one stands, and comes before it; so
/// is one that says so and one that does not.
pub proof fn law_paths_start_somewhere(path: Seq<u8>, name: Seq<u8>)
    requires
        path.len() > 0,
        path[0] == 47,
        is_name(name),
    ensures
        !same_path(path, name),
        path_not_behind(path, name),
        !path_not_behind(name, path),
        !same_path(within(seq![46u8], name), name),
{
    text::lemma_split_one(name, 47u8);
    assert(name[0] != 47u8);
    let plain = components(name);
    assert(seq![name].drop_last() =~= Seq::empty());
    assert(marked_parts(Seq::empty()) =~= Seq::empty());
    assert(plain =~= seq![seq![3u8] + name]);
    let rooted = components(path);
    assert(rooted[0] =~= seq![0u8]);
    assert(plain[0][0] == 3u8);
    let dot = seq![46u8];
    assert(!dot.contains(47u8)) by {
        assert(dot[0] == 46u8);
    }
    text::lemma_split_one(dot, 47u8);
    text::lemma_split_push(dot, name, 47u8);
    let here = within(dot, name);
    assert(here[0] == 46u8);
    assert(text::split(here, 47u8)[0] == dot);
    assert(components(here)[0] =~= seq![1u8]);
}

} // verus!
