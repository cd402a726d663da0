//! Where screenshots come from: a directory that is watched, or the frames of a video.

use crate::bytes::{self, copy_bytes, has_prefix, has_suffix, part_of};
use crate::frame::{self, media_type, read_stable_frame, Frame, FrameIdentity};
use crate::number::{self, parse_digits};
use crate::path::{self, file_name, is_path_not_behind, is_same_path, lossy, sort_paths};
use crate::sort::{self, sort, Ranked};
use crate::text::{self, append, copy_text};
use std::collections::VecDeque;
use vstd::prelude::*;

verus! {

/// The time between two looks at a directory, in nanoseconds.
pub const FRAME_POLL_INTERVAL: u64 = 20_000_000;

/// How long after input a frame must be captured, in nanoseconds.
pub const SETTLE_TIME: u64 = 200_000_000;

/// A file in the directory that is watched.
#[derive(Clone, Debug)]
pub struct FrameFile {
    pub path: Vec<u8>,
    pub identity: FrameIdentity,
}

/// Whether a time does not come after another. One that is not known comes first.
pub open spec fn time_not_behind(left: Option<i128>, right: Option<i128>) -> bool {
    match (left, right) {
        (None, _) => true,
        (Some(_), None) => false,
        (Some(a), Some(b)) => a <= b,
    }
}

impl Ranked for FrameFile {
    /// Files are ordered by when they were modified, then by their paths.
    open spec fn not_behind(self, other: FrameFile) -> bool {
        if self.identity.modified == other.identity.modified {
            path::path_not_behind(self.path@, other.path@)
        } else {
            time_not_behind(self.identity.modified, other.identity.modified)
        }
    }

    proof fn total(left: FrameFile, right: FrameFile) {
        path::lemma_parts_total(path::components(left.path@), path::components(right.path@));
    }

    proof fn transitive(first: FrameFile, second: FrameFile, third: FrameFile) {
        if first.identity.modified == second.identity.modified && second.identity.modified
            == third.identity.modified {
            path::lemma_parts_transitive(
                path::components(first.path@),
                path::components(second.path@),
                path::components(third.path@),
            );
        }
    }

    fn is_not_behind(&self, other: &FrameFile) -> (yes: bool) {
        match (self.identity.modified, other.identity.modified) {
            (None, None) => is_path_not_behind(&self.path, &other.path),
            (None, Some(_)) => true,
            (Some(_), None) => false,
            (Some(a), Some(b)) => {
                if a == b {
                    is_path_not_behind(&self.path, &other.path)
                } else {
                    a < b
                }
            },
        }
    }
}

/// The capture time in the name of a file such as `frame-capture-1700000000000000.png`,
/// in microseconds from the Unix epoch.
pub open spec fn capture_stamp(name: Seq<u8>) -> Option<nat> {
    let start = bytes::encoded("frame-capture-"@);
    let end = bytes::encoded(".png"@);
    if bytes::starts(name, start) && bytes::finishes(name, end) && start.len() + end.len()
        <= name.len() {
        number::parsed_digits(
            name.subrange(start.len() as int, name.len() - end.len()),
        )
    } else {
        None
    }
}

impl FrameFile {
    /// When the image was captured, in nanoseconds from the Unix epoch: as its name
    /// tells, else when the file was modified.
    pub open spec fn captured(self) -> Option<int> {
        let stamp = match path::name_of(self.path@) {
            Some(name) => capture_stamp(name),
            None => None,
        };
        match stamp {
            Some(microseconds) => Some(microseconds as int * 1000),
            None => match self.identity.modified {
                Some(time) => Some(time as int),
                None => None,
            },
        }
    }

    /// When the image was captured.
    fn captured_at(&self) -> (time: Option<i128>)
        ensures
            match time {
                Some(found) => self.captured() == Some(found as int),
                None => self.captured() is None,
            },
    {
        if let Some(name) = file_name(&self.path) {
            let start: &[u8] = "frame-capture-".as_bytes();
            let end: &[u8] = ".png".as_bytes();
            if has_prefix(&name, start) && has_suffix(&name, end) && end.len() <= name.len()
                - start.len() {
                let digits: Vec<u8> = part_of(&name, start.len(), name.len() - end.len());
                if let Some(microseconds) = parse_digits(&digits) {
                    return Some((microseconds as i128) * 1000);
                }
            }
        }
        self.identity.modified
    }
}

/// A file that was looked at, and its state then.
#[derive(Clone, Debug)]
pub struct SeenFrame {
    pub path: Vec<u8>,
    pub identity: FrameIdentity,
}

/// The state in which a file was looked at last.
pub open spec fn remembered(seen: Seq<SeenFrame>, path: Seq<u8>) -> Option<FrameIdentity>
    decreases seen.len(),
{
    if seen.len() == 0 {
        None
    } else if path::same_path(seen.last().path@, path) {
        Some(seen.last().identity)
    } else {
        remembered(seen.drop_last(), path)
    }
}

/// The state in which a file was looked at last, after more were looked at.
pub open spec fn remembered_after(
    seen: Seq<SeenFrame>,
    files: Seq<FrameFile>,
    path: Seq<u8>,
) -> Option<FrameIdentity>
    decreases files.len(),
{
    if files.len() == 0 {
        remembered(seen, path)
    } else if path::same_path(files.last().path@, path) {
        Some(files.last().identity)
    } else {
        remembered_after(seen, files.drop_last(), path)
    }
}

/// Whether a path is among others.
pub open spec fn listed_among(paths: Seq<Vec<u8>>, path: Seq<u8>) -> bool {
    exists|index: int|
        0 <= index < paths.len() && path::same_path(#[trigger] paths[index]@, path)
}

/// The last of a sequence, at most so many.
pub open spec fn recent<T>(items: Seq<T>, size: int) -> Seq<T> {
    if items.len() > size {
        items.skip(items.len() - size)
    } else {
        items
    }
}

/// Drops the first frames until at most so many are left.
fn keep_recent(frames: &mut VecDeque<Frame>, size: usize)
    ensures
        final(frames)@ == recent(old(frames)@, size as int),
{
    assert(old(frames)@.skip(0) == old(frames)@);
    let ghost before = frames@;
    while frames.len() > size
        invariant
            before == old(frames)@,
            frames@.len() <= before.len(),
            frames@ == before.skip(before.len() - frames@.len()),
            before.len() > size ==> frames@.len() >= size,
            before.len() <= size ==> frames@ == before,
        decreases frames@.len(),
    {
        let ghost earlier = frames@;
        let _ = frames.pop_front();
        assert(frames@ == before.skip(before.len() - frames@.len()));
    }
}

/// What is said of a trajectory that could hold no frame.
pub open spec fn no_trajectory() -> Seq<char> {
    "trajectory length must be greater than zero"@
}

/// A directory that is watched for screenshots.
pub struct FrameSource {
    pub directory: Vec<u8>,
    /// The files that were looked at.
    pub seen: Vec<SeenFrame>,
    /// The files that are never looked at.
    pub discarded: Vec<Vec<u8>>,
    /// The last frames that were read, the newest at the end.
    pub trajectory: VecDeque<Frame>,
    pub trajectory_len: usize,
    /// The time before which a capture does not count, in nanoseconds from the Unix
    /// epoch.
    pub not_before: Option<i128>,
}

/// A stored state is replaced where a file was looked at before.
proof fn lemma_replaced(seen: Seq<SeenFrame>, at: int, entry: SeenFrame, path: Seq<u8>)
    requires
        0 <= at < seen.len(),
        path::same_path(seen[at].path@, entry.path@),
        forall|index: int|
            at < index < seen.len() ==> !path::same_path(
                (#[trigger] seen[index]).path@,
                entry.path@,
            ),
    ensures
        remembered(seen.update(at, entry), path) == if path::same_path(entry.path@, path) {
            Some(entry.identity)
        } else {
            remembered(seen, path)
        },
    decreases seen.len(),
{
    let changed = seen.update(at, entry);
    if at == seen.len() - 1 {
        assert(changed.drop_last() == seen.drop_last());
    } else {
        assert(changed.drop_last() == seen.drop_last().update(at, entry));
        assert(changed.last() == seen[seen.len() - 1]);
        assert forall|index: int| at < index < seen.drop_last().len() implies !path::same_path(
            (#[trigger] seen.drop_last()[index]).path@,
            entry.path@,
        ) by {
            assert(seen.drop_last()[index] == seen[index]);
        }
        lemma_replaced(seen.drop_last(), at, entry, path);
    }
}

/// A file that was never looked at is not remembered.
proof fn lemma_unknown(seen: Seq<SeenFrame>, path: Seq<u8>)
    requires
        forall|index: int|
            0 <= index < seen.len() ==> !path::same_path((#[trigger] seen[index]).path@, path),
    ensures
        remembered(seen, path) is None,
    decreases seen.len(),
{
    if seen.len() > 0 {
        assert(!path::same_path(seen[seen.len() - 1].path@, path));
        assert forall|index: int| 0 <= index < seen.drop_last().len() implies !path::same_path(
            (#[trigger] seen.drop_last()[index]).path@,
            path,
        ) by {
            assert(seen.drop_last()[index] == seen[index]);
        }
        lemma_unknown(seen.drop_last(), path);
    }
}

/// Notes the state in which a file was looked at.
fn note(seen: &mut Vec<SeenFrame>, path: Vec<u8>, identity: FrameIdentity)
    ensures
        forall|other: Seq<u8>| #[trigger]
            remembered(final(seen)@, other) == if path::same_path(path@, other) {
                Some(identity)
            } else {
                remembered(old(seen)@, other)
            },
{
    let ghost before = seen@;
    let ghost entry = SeenFrame { path, identity };
    let mut left: usize = seen.len();
    while left > 0
        invariant
            left <= seen@.len(),
            seen@ == before,
            before == old(seen)@,
            entry == (SeenFrame { path, identity }),
            forall|index: int|
                left <= index < before.len() ==> !path::same_path(
                    (#[trigger] before[index]).path@,
                    path@,
                ),
        decreases left,
    {
        left -= 1;
        if is_same_path(&seen[left].path, &path) {
            proof {
                assert forall|other: Seq<u8>| #[trigger]
                    remembered(before.update(left as int, entry), other) == if path::same_path(
                        path@,
                        other,
                    ) {
                        Some(identity)
                    } else {
                        remembered(before, other)
                    } by {
                    lemma_replaced(before, left as int, entry, other);
                }
            }
            seen[left] = SeenFrame { path, identity };
            return;
        }
    }
    seen.push(SeenFrame { path, identity });
    assert(seen@.drop_last() == before);
}

/// The state in which a file was looked at last.
fn recall(seen: &Vec<SeenFrame>, path: &[u8]) -> (identity: Option<FrameIdentity>)
    ensures
        identity == remembered(seen@, path@),
{
    let mut left: usize = seen.len();
    assert(seen@.take(left as int) == seen@);
    while left > 0
        invariant
            left <= seen@.len(),
            remembered(seen@, path@) == remembered(seen@.take(left as int), path@),
        decreases left,
    {
        left -= 1;
        assert(seen@.take(left + 1).drop_last() == seen@.take(left as int));
        if is_same_path(&seen[left].path, path) {
            return Some(seen[left].identity);
        }
    }
    None
}

/// Decides whether a path is among others.
fn is_listed(paths: &Vec<Vec<u8>>, path: &[u8]) -> (yes: bool)
    ensures
        yes == listed_among(paths@, path@),
{
    let mut index: usize = 0;
    while index < paths.len()
        invariant
            index <= paths.len(),
            forall|at: int|
                0 <= at < index ==> !path::same_path(#[trigger] paths@[at]@, path@),
        decreases paths.len() - index,
    {
        if is_same_path(&paths[index], path) {
            return true;
        }
        index += 1;
    }
    false
}

impl FrameSource {
    /// The frames are within the size limit, and there is room for one.
    pub open spec fn wf(self) -> bool {
        &&& self.trajectory_len >= 1
        &&& forall|index: int|
            0 <= index < self.trajectory@.len() ==> (#[trigger] self.trajectory@[index]).wf()
    }

    /// Whether an image was captured late enough to count.
    pub open spec fn timely(self, file: FrameFile) -> bool {
        match self.not_before {
            None => true,
            Some(limit) => match file.captured() {
                Some(time) => time >= limit,
                None => false,
            },
        }
    }

    /// Whether a file is to be looked at: an image that was not discarded, was
    /// captured late enough and is not in a state in which it was looked at.
    pub open spec fn wants(self, file: FrameFile) -> bool {
        &&& frame::media_of(file.path@) is Some
        &&& !listed_among(self.discarded@, file.path@)
        &&& self.timely(file)
        &&& remembered(self.seen@, file.path@) != Some(file.identity)
    }

    /// Starts to watch a directory, for trajectories of so many frames.
    pub fn new(directory: Vec<u8>, is_directory: bool, trajectory_len: usize) -> (source: Result<
        FrameSource,
        String,
    >)
        ensures
            match source {
                Ok(found) => {
                    &&& is_directory && trajectory_len > 0
                    &&& found.directory == directory
                    &&& found.seen@.len() == 0
                    &&& found.discarded@.len() == 0
                    &&& found.trajectory@.len() == 0
                    &&& found.trajectory_len == trajectory_len
                    &&& found.not_before is None
                    &&& found.wf()
                },
                Err(message) => if !is_directory {
                    message@ == "frame directory does not exist: "@ + path::lossy_text(directory@)
                } else {
                    trajectory_len == 0 && message@ == no_trajectory()
                },
            },
    {
        if !is_directory {
            return Err(
                append(copy_text("frame directory does not exist: "), lossy(&directory).as_str()),
            );
        }
        if trajectory_len == 0 {
            return Err(copy_text("trajectory length must be greater than zero"));
        }
        Ok(
            FrameSource {
                directory,
                seen: Vec::new(),
                discarded: Vec::new(),
                trajectory: VecDeque::new(),
                trajectory_len,
                not_before: None,
            },
        )
    }

    /// Ignores the images that are there, so that the next frame is one that comes
    /// later under another path.
    pub fn discard_existing(&mut self, paths: Vec<Vec<u8>>)
        ensures
            final(self).directory == old(self).directory,
            final(self).seen == old(self).seen,
            final(self).trajectory == old(self).trajectory,
            final(self).trajectory_len == old(self).trajectory_len,
            final(self).not_before == old(self).not_before,
            forall|path: Seq<u8>| #[trigger]
                listed_among(final(self).discarded@, path) <==> listed_among(
                    old(self).discarded@,
                    path,
                ) || exists|index: int|
                    0 <= index < paths@.len() && frame::media_of(
                        #[trigger] paths@[index]@,
                    ) is Some && path::same_path(paths@[index]@, path),
    {
        let ghost before = self.discarded@;
        let mut index: usize = 0;
        while index < paths.len()
            invariant
                index <= paths.len(),
                before == old(self).discarded@,
                self.directory == old(self).directory,
                self.seen == old(self).seen,
                self.trajectory == old(self).trajectory,
                self.trajectory_len == old(self).trajectory_len,
                self.not_before == old(self).not_before,
                forall|path: Seq<u8>| #[trigger]
                    listed_among(self.discarded@, path) <==> listed_among(before, path)
                        || exists|at: int|
                        0 <= at < index && frame::media_of(#[trigger] paths@[at]@) is Some
                            && path::same_path(paths@[at]@, path),
            decreases paths.len() - index,
        {
            if media_type(&paths[index]).is_some() && !is_listed(&self.discarded, &paths[index]) {
                let ghost earlier = self.discarded@;
                let copy: Vec<u8> = copy_bytes(&paths[index]);
                self.discarded.push(copy);
                assert forall|path: Seq<u8>| #[trigger]
                    listed_among(self.discarded@, path) <==> listed_among(earlier, path)
                        || path::same_path(paths@[index as int]@, path) by {
                    if listed_among(earlier, path) {
                        let at = choose|at: int|
                            0 <= at < earlier.len() && path::same_path(
                                #[trigger] earlier[at]@,
                                path,
                            );
                        assert(self.discarded@[at] == earlier[at]);
                    }
                    if path::same_path(paths@[index as int]@, path) {
                        assert(self.discarded@[earlier.len() as int]@ == paths@[index as int]@);
                    }
                    if listed_among(self.discarded@, path) {
                        let at = choose|at: int|
                            0 <= at < self.discarded@.len() && path::same_path(
                                #[trigger] self.discarded@[at]@,
                                path,
                            );
                        if at < earlier.len() {
                            assert(earlier[at] == self.discarded@[at]);
                        }
                    }
                }
            }
            index += 1;
        }
    }

    /// Makes sure that the next frame shows what came of input that was finished at a
    /// time, in nanoseconds from the Unix epoch: the images that are there and the
    /// frames that were read are dropped, and one that is captured less than 200 ms
    /// later does not count.
    pub fn expect_feedback(&mut self, paths: Vec<Vec<u8>>, finished_at: u64)
        requires
            old(self).wf(),
        ensures
            final(self).wf(),
            final(self).directory == old(self).directory,
            final(self).seen == old(self).seen,
            final(self).trajectory@.len() == 0,
            final(self).trajectory_len == old(self).trajectory_len,
            final(self).not_before == Some((finished_at + SETTLE_TIME) as i128),
            forall|path: Seq<u8>| #[trigger]
                listed_among(final(self).discarded@, path) <==> listed_among(
                    old(self).discarded@,
                    path,
                ) || exists|index: int|
                    0 <= index < paths@.len() && frame::media_of(
                        #[trigger] paths@[index]@,
                    ) is Some && path::same_path(paths@[index]@, path),
    {
        self.discard_existing(paths);
        self.trajectory = VecDeque::new();
        self.not_before = Some(finished_at as i128 + SETTLE_TIME as i128);
    }

    /// Decides whether a file is to be looked at.
    fn is_wanted(&self, file: &FrameFile) -> (yes: bool)
        ensures
            yes == self.wants(*file),
    {
        if media_type(&file.path).is_none() || is_listed(&self.discarded, &file.path) {
            return false;
        }
        if let Some(limit) = self.not_before {
            match file.captured_at() {
                Some(time) => {
                    if time < limit {
                        return false;
                    }
                },
                None => {
                    return false;
                },
            }
        }
        match recall(&self.seen, &file.path) {
            Some(identity) => identity != file.identity,
            None => true,
        }
    }

    /// The files that are to be looked at, in the order in which they were modified.
    pub fn unseen_paths(&self, files: Vec<FrameFile>) -> (unseen: Vec<FrameFile>)
        ensures
            sort::sorted_from(unseen@, files@.filter(|file: FrameFile| self.wants(file))),
            forall|index: int|
                0 <= index < unseen@.len() ==> self.wants(#[trigger] unseen@[index]),
    {
        let ghost test = |file: FrameFile| self.wants(file);
        let mut kept: Vec<FrameFile> = Vec::new();
        proof {
            reveal(Seq::filter);
        }
        assert(files@.take(0) == Seq::<FrameFile>::empty());
        for file in iter: files
            invariant
                iter.seq() == files@,
                test == (|file: FrameFile| self.wants(file)),
                kept@ == files@.take(iter.index()).filter(test),
        {
            proof {
                reveal(Seq::filter);
                assert(files@.take(iter.index() + 1).drop_last() == files@.take(iter.index()));
                assert(files@.take(iter.index() + 1).last() == file);
            }
            if self.is_wanted(&file) {
                kept.push(file);
            }
        }
        assert(files@.take(files@.len() as int) == files@);
        let ghost chosen = kept@;
        let unseen: Vec<FrameFile> = sort(kept);
        assert forall|index: int| 0 <= index < unseen@.len() implies self.wants(
            #[trigger] unseen@[index],
        ) by {
            let file = unseen@[index];
            sort::law_sort_keeps_items(unseen@, chosen, file);
            assert(chosen.contains(file));
            let at = chosen.index_of(file);
            files@.lemma_filter_pred(test, at);
        }
        unseen
    }
}

/// What is to be done next to find a new frame.
#[derive(Debug)]
pub enum FrameStep {
    /// A file is to be read.
    Read { path: Vec<u8>, identity: FrameIdentity },
    /// The time is to be read.
    Clock,
    /// So many nanoseconds are to pass; then the directory is to be listed again.
    Pause { nanoseconds: u64 },
    /// There is a new frame.
    Found,
    /// No new frame came in time.
    TimedOut,
    /// A frame is too large.
    Failed(String),
}

/// How far a search for a new frame has come.
#[derive(Clone, Copy, Debug, Eq, PartialEq, Structural)]
pub enum SearchPhase {
    /// The directory is to be listed.
    Listing,
    /// A file is to be read.
    Reading,
    /// The time is to be read.
    Timing,
    /// It is over.
    Over,
}

/// A search for a new frame.
pub struct FrameSearch {
    /// The time at which it is given up, in nanoseconds.
    pub deadline: u128,
    pub phase: SearchPhase,
    /// The files that are to be read.
    pub queue: Vec<FrameFile>,
    /// How many of them were read.
    pub index: usize,
    /// Whether one of them became a frame.
    pub loaded: bool,
}

/// Whether a source is another after a file was read: where it is a stable image, it
/// is the newest frame, and its state is remembered.
pub open spec fn takes(
    before: FrameSource,
    after: FrameSource,
    file: FrameFile,
    bytes: Seq<u8>,
    identity: FrameIdentity,
) -> bool {
    &&& after.directory == before.directory
    &&& after.discarded == before.discarded
    &&& after.trajectory_len == before.trajectory_len
    &&& after.not_before == before.not_before
    &&& if frame::stable(file.path@, file.identity, bytes, identity) {
        &&& forall|other: Seq<u8>| #[trigger]
            remembered(after.seen@, other) == if path::same_path(file.path@, other) {
                Some(file.identity)
            } else {
                remembered(before.seen@, other)
            }
        &&& after.trajectory@.len() == before.trajectory@.len() + 1
        &&& after.trajectory@.drop_last() == before.trajectory@
        &&& after.trajectory@.last().path@ == file.path@
        &&& after.trajectory@.last().bytes@ == bytes
        &&& frame::media_of(file.path@) == Some(after.trajectory@.last().media_type@)
    } else {
        after.seen == before.seen && after.trajectory == before.trajectory
    }
}

/// The source with its trajectory cut to its length.
pub open spec fn cut_from(before: FrameSource, after: FrameSource) -> bool {
    &&& after.directory == before.directory
    &&& after.seen == before.seen
    &&& after.discarded == before.discarded
    &&& after.trajectory_len == before.trajectory_len
    &&& after.not_before == before.not_before
    &&& after.trajectory@ == recent(before.trajectory@, before.trajectory_len as int)
}

/// Whether a step asks for the reading of a file.
pub open spec fn reads(step: FrameStep, file: FrameFile) -> bool {
    step matches FrameStep::Read { path, identity } && path@ == file.path@ && identity
        == file.identity
}

/// What follows from a listing: of the files that are wanted, in order, the last that
/// fit the trajectory are read one by one, and those before them count as looked at.
pub open spec fn lists(
    before: FrameSource,
    after: FrameSource,
    files: Seq<FrameFile>,
    unseen: Seq<FrameFile>,
    search: FrameSearch,
    step: FrameStep,
) -> bool {
    let skipped = if unseen.len() > before.trajectory_len {
        unseen.len() - before.trajectory_len
    } else {
        0
    };
    &&& sort::sorted_from(unseen, files.filter(|file: FrameFile| before.wants(file)))
    &&& after.directory == before.directory
    &&& after.discarded == before.discarded
    &&& after.trajectory == before.trajectory
    &&& after.trajectory_len == before.trajectory_len
    &&& after.not_before == before.not_before
    &&& forall|path: Seq<u8>| #[trigger]
        remembered(after.seen@, path) == remembered_after(before.seen@, unseen.take(skipped), path)
    &&& search.queue@ == unseen.skip(skipped)
    &&& search.index == 0
    &&& !search.loaded
    &&& if unseen.len() == 0 {
        step is Clock && search.phase is Timing
    } else {
        reads(step, unseen[skipped]) && search.phase is Reading
    }
}

/// What follows from reading the file that was asked for: a file that is too large ends
/// the search. After the last file the search is over where one of them became a frame,
/// else the time is looked at.
pub open spec fn reads_on(
    before: FrameSearch,
    after: FrameSearch,
    source: FrameSource,
    next: FrameSource,
    bytes: Seq<u8>,
    identity: FrameIdentity,
    step: FrameStep,
) -> bool {
    let file = before.queue@[before.index as int];
    if file.identity.len > frame::MAX_FRAME_BYTES || bytes.len() > frame::MAX_FRAME_BYTES {
        &&& step matches FrameStep::Failed(message) && message@ == frame::too_large(file.path@)
        &&& after.phase is Over
        &&& next == source
    } else {
        let loaded = before.loaded || frame::stable(file.path@, file.identity, bytes, identity);
        if before.index + 1 < before.queue@.len() {
            &&& takes(source, next, file, bytes, identity)
            &&& after.queue == before.queue
            &&& after.index == before.index + 1
            &&& after.loaded == loaded
            &&& after.phase is Reading
            &&& reads(step, before.queue@[before.index + 1])
        } else if loaded {
            &&& step is Found
            &&& after.phase is Over
            &&& exists|middle: FrameSource|
                takes(source, middle, file, bytes, identity) && #[trigger] cut_from(middle, next)
        } else {
            &&& step is Clock
            &&& after.phase is Timing
            &&& takes(source, next, file, bytes, identity)
        }
    }
}

/// What follows when the time is known: the search is given up at the deadline, and the
/// directory is looked at again after 20 ms or at the deadline, whichever comes first.
pub open spec fn waits(deadline: u128, now: u128) -> FrameStep {
    if now >= deadline {
        FrameStep::TimedOut
    } else {
        FrameStep::Pause {
            nanoseconds: if deadline - now < FRAME_POLL_INTERVAL {
                (deadline - now) as u64
            } else {
                FRAME_POLL_INTERVAL
            },
        }
    }
}

impl FrameSearch {
    /// There is a file to be read while one is asked for, and each is an image.
    pub open spec fn wf(self) -> bool {
        &&& self.phase is Reading ==> self.index < self.queue@.len()
        &&& forall|index: int|
            0 <= index < self.queue@.len() ==> frame::media_of(
                (#[trigger] self.queue@[index]).path@,
            ) is Some
    }

    /// Begins to search for a new frame at a time, for so long at most; both in
    /// nanoseconds.
    pub fn new(now: u128, timeout: u128) -> (search: FrameSearch)
        requires
            now + timeout <= u128::MAX,
        ensures
            search.wf(),
            search.phase is Listing,
            search.deadline == now + timeout,
    {
        FrameSearch {
            deadline: now + timeout,
            phase: SearchPhase::Listing,
            queue: Vec::new(),
            index: 0,
            loaded: false,
        }
    }

    /// Asks for the file that is to be read next.
    fn ask(&self) -> (step: FrameStep)
        requires
            self.index < self.queue@.len(),
        ensures
            reads(step, self.queue@[self.index as int]),
    {
        let file: &FrameFile = &self.queue[self.index];
        FrameStep::Read { path: copy_bytes(&file.path), identity: file.identity }
    }

    /// Takes in the files of the directory.
    pub fn listed(&mut self, source: &mut FrameSource, files: Vec<FrameFile>) -> (step: FrameStep)
        requires
            old(self).wf(),
            old(self).phase is Listing,
            old(source).wf(),
        ensures
            final(self).wf(),
            final(source).wf(),
            final(self).deadline == old(self).deadline,
            exists|unseen: Seq<FrameFile>| #[trigger]
                lists(*old(source), *final(source), files@, unseen, *final(self), step),
    {
        let found: Vec<FrameFile> = source.unseen_paths(files);
        let ghost unseen = found@;
        let total: usize = found.len();
        let skipped: usize = if found.len() > source.trajectory_len {
            found.len() - source.trajectory_len
        } else {
            0
        };
        let mut queue: Vec<FrameFile> = Vec::new();
        let ghost before = source.seen@;
        let mut count: usize = 0;
        assert(unseen.take(0) == Seq::<FrameFile>::empty());
        assert(unseen.skip(skipped as int).take(0) == Seq::<FrameFile>::empty());
        for file in iter: found
            invariant
                iter.seq() == unseen,
                unseen.len() == total,
                count == iter.index(),
                skipped <= unseen.len(),
                before == old(source).seen@,
                source.directory == old(source).directory,
                source.discarded == old(source).discarded,
                source.trajectory == old(source).trajectory,
                source.trajectory_len == old(source).trajectory_len,
                source.not_before == old(source).not_before,
                count <= skipped ==> queue@.len() == 0,
                count > skipped ==> queue@ == unseen.skip(skipped as int).take(count - skipped),
                forall|path: Seq<u8>| #[trigger]
                    remembered(source.seen@, path) == remembered_after(
                        before,
                        unseen.take(
                            if count <= skipped {
                                count as int
                            } else {
                                skipped as int
                            },
                        ),
                        path,
                    ),
        {
            if count < skipped {
                assert(unseen.take(count + 1).drop_last() == unseen.take(count as int));
                let path: Vec<u8> = copy_bytes(&file.path);
                note(&mut source.seen, path, file.identity);
            } else {
                let ghost rest = unseen.skip(skipped as int);
                assert(rest.take(count - skipped + 1) == rest.take(count - skipped).push(file));
                queue.push(file);
            }
            count += 1;
        }
        assert(unseen.skip(skipped as int).take(unseen.len() - skipped) == unseen.skip(
            skipped as int,
        ));
        assert(queue@ == unseen.skip(skipped as int));
        assert forall|index: int| 0 <= index < queue@.len() implies frame::media_of(
            (#[trigger] queue@[index]).path@,
        ) is Some by {
            assert(queue@[index] == unseen[skipped + index]);
        }
        self.queue = queue;
        self.index = 0;
        self.loaded = false;
        if self.queue.len() == 0 {
            self.phase = SearchPhase::Timing;
            assert(lists(
                *old(source),
                *source,
                files@,
                unseen,
                *self,
                FrameStep::Clock,
            ));
            FrameStep::Clock
        } else {
            self.phase = SearchPhase::Reading;
            let step: FrameStep = self.ask();
            assert(lists(*old(source), *source, files@, unseen, *self, step));
            step
        }
    }

    /// Takes in the bytes of the file that was asked for, and its state after they
    /// were read. A file that is no stable image is passed over.
    pub fn read(
        &mut self,
        source: &mut FrameSource,
        bytes: Vec<u8>,
        identity: FrameIdentity,
    ) -> (step: FrameStep)
        requires
            old(self).wf(),
            old(self).phase is Reading,
            old(source).wf(),
        ensures
            final(self).wf(),
            final(source).wf(),
            final(self).deadline == old(self).deadline,
            reads_on(
                *old(self),
                *final(self),
                *old(source),
                *final(source),
                bytes@,
                identity,
                step,
            ),
    {
        let path: Vec<u8> = copy_bytes(&self.queue[self.index].path);
        let before: FrameIdentity = self.queue[self.index].identity;
        let ghost file = self.queue@[self.index as int];
        assert(file == old(self).queue@[old(self).index as int]);
        match read_stable_frame(&path, before, bytes, identity) {
            Err(message) => {
                self.phase = SearchPhase::Over;
                return FrameStep::Failed(message);
            },
            Ok(Some(frame)) => {
                note(&mut source.seen, path, before);
                source.trajectory.push_back(frame);
                self.loaded = true;
                assert(source.trajectory@.drop_last() == old(source).trajectory@);
            },
            Ok(None) => {},
        }
        assert(takes(*old(source), *source, file, bytes@, identity));
        if self.index < self.queue.len() - 1 {
            self.index += 1;
            return self.ask();
        }
        if self.loaded {
            let ghost middle = *source;
            self.phase = SearchPhase::Over;
            let size: usize = source.trajectory_len;
            keep_recent(&mut source.trajectory, size);
            assert(cut_from(middle, *source));
            return FrameStep::Found;
        }
        self.phase = SearchPhase::Timing;
        FrameStep::Clock
    }

    /// Takes in the time, in nanoseconds: gives up at the deadline, and looks again
    /// after 20 ms or at the deadline, whichever comes first.
    pub fn timed(&mut self, now: u128) -> (step: FrameStep)
        requires
            old(self).wf(),
            old(self).phase is Timing,
        ensures
            final(self).wf(),
            final(self).deadline == old(self).deadline,
            step == waits(old(self).deadline, now),
            final(self).phase is Over <==> step is TimedOut,
            final(self).phase is Listing <==> step is Pause,
    {
        if now >= self.deadline {
            self.phase = SearchPhase::Over;
            return FrameStep::TimedOut;
        }
        self.phase = SearchPhase::Listing;
        let left: u128 = self.deadline - now;
        FrameStep::Pause {
            nanoseconds: if left < FRAME_POLL_INTERVAL as u128 {
                left as u64
            } else {
                FRAME_POLL_INTERVAL
            },
        }
    }
}

/// A file that became a frame is not looked at again while it stays as it is.
pub proof fn law_frames_are_not_reused(
    before: FrameSource,
    after: FrameSource,
    file: FrameFile,
    bytes: Seq<u8>,
    identity: FrameIdentity,
    again: FrameFile,
)
    requires
        takes(before, after, file, bytes, identity),
        frame::stable(file.path@, file.identity, bytes, identity),
        path::same_path(file.path@, again.path@),
        again.identity == file.identity,
    ensures
        !after.wants(again),
{
    assert(remembered(after.seen@, again.path@) == Some(file.identity));
}

/// A file that was discarded is never looked at again, whatever becomes of it.
pub proof fn law_discarded_files_stay_away(source: FrameSource, file: FrameFile)
    requires
        listed_among(source.discarded@, file.path@),
    ensures
        !source.wants(file),
{
}

/// After input only an image counts that was captured at least 200 ms later.
pub proof fn law_feedback_comes_after_input(source: FrameSource, finished_at: u64, file: FrameFile)
    requires
        source.not_before == Some((finished_at + SETTLE_TIME) as i128),
        source.wants(file),
    ensures
        file.captured() matches Some(time) && time >= finished_at + 200_000_000,
{
}

/// A trajectory holds the newest frames: it is the end of what was read, no longer than
/// its length, and the newest frame is in it.
pub proof fn law_trajectory_is_bounded<T>(items: Seq<T>, size: int)
    requires
        size >= 1,
    ensures
        recent(items, size).len() <= size,
        recent(items, size).len() == items.len() || recent(items, size).len() == size,
        items.len() > 0 ==> recent(items, size).last() == items.last(),
        forall|index: int|
            0 <= index < recent(items, size).len() ==> #[trigger] recent(items, size)[index]
                == items[items.len() - recent(items, size).len() + index],
{
}

/// No more files are read for one search than the trajectory holds.
pub proof fn law_search_reads_what_fits(
    before: FrameSource,
    after: FrameSource,
    files: Seq<FrameFile>,
    unseen: Seq<FrameFile>,
    search: FrameSearch,
    step: FrameStep,
)
    requires
        lists(before, after, files, unseen, search, step),
    ensures
        search.queue@.len() <= before.trajectory_len,
        unseen.len() > 0 && before.trajectory_len > 0 ==> search.queue@.last() == unseen.last(),
{
}

/// Whether a sequence holds the files with some paths in order, and no frame yet.
pub open spec fn begins(found: FrameSequence, paths: Seq<Vec<u8>>, trajectory_len: usize) -> bool {
    &&& sort::sorted_from(path::entries(found.paths@), path::entries(paths))
    &&& found.paths@.len() == paths.len()
    &&& found.trajectory@.len() == 0
    &&& found.trajectory_len == trajectory_len
}

/// Whether a sequence is another that went on to its next file, where there is one.
pub open spec fn advances(
    before: FrameSequence,
    after: FrameSequence,
    path: Option<Vec<u8>>,
) -> bool {
    &&& after.trajectory == before.trajectory
    &&& after.trajectory_len == before.trajectory_len
    &&& match path {
        Some(next) => {
            &&& before.paths@.len() > 0
            &&& next == before.paths@[0]
            &&& after.paths@ == before.paths@.skip(1)
        },
        None => before.paths@.len() == 0 && after.paths@ == before.paths@,
    }
}

/// What follows from reading a file: a stable image is the newest frame, anything else is
/// an error that changes nothing.
pub open spec fn loads(
    before: FrameSequence,
    after: FrameSequence,
    path: Seq<u8>,
    first: FrameIdentity,
    bytes: Seq<u8>,
    second: FrameIdentity,
    outcome: Result<(), String>,
) -> bool {
    let fits = first.len <= frame::MAX_FRAME_BYTES && bytes.len() <= frame::MAX_FRAME_BYTES;
    &&& after.paths == before.paths
    &&& after.trajectory_len == before.trajectory_len
    &&& match outcome {
        Ok(_) => {
            &&& fits && frame::stable(path, first, bytes, second)
            &&& exists|next: Frame| #[trigger]
                is_frame(next, path, bytes) && after.trajectory@ == recent(
                    before.trajectory@.push(next),
                    before.trajectory_len as int,
                )
        },
        Err(message) => {
            &&& after.trajectory@ == before.trajectory@
            &&& if !fits {
                message@ == frame::too_large(path)
            } else {
                &&& !frame::stable(path, first, bytes, second)
                &&& message@ == "extracted frame is incomplete: "@ + path::lossy_text(path)
            }
        },
    }
}

/// The frames of a video, in order.
pub struct FrameSequence {
    /// The files that are still to be read.
    pub paths: VecDeque<Vec<u8>>,
    /// The last frames that were read, the newest at the end.
    pub trajectory: VecDeque<Frame>,
    pub trajectory_len: usize,
}

impl FrameSequence {
    /// The frames are within the size limit, and there is room for one.
    pub open spec fn wf(self) -> bool {
        &&& self.trajectory_len >= 1
        &&& forall|index: int|
            0 <= index < self.trajectory@.len() ==> (#[trigger] self.trajectory@[index]).wf()
    }

    /// The frames in files, in the order of their paths, for trajectories of so many.
    pub fn new(paths: Vec<Vec<u8>>, trajectory_len: usize) -> (sequence: Result<
        FrameSequence,
        String,
    >)
        ensures
            match sequence {
                Ok(found) => {
                    &&& trajectory_len > 0 && paths@.len() > 0
                    &&& begins(found, paths@, trajectory_len)
                    &&& found.wf()
                },
                Err(message) => if trajectory_len == 0 {
                    message@ == no_trajectory()
                } else {
                    paths@.len() == 0 && message@ == "video contains no frames"@
                },
            },
    {
        if trajectory_len == 0 {
            return Err(copy_text("trajectory length must be greater than zero"));
        }
        if paths.len() == 0 {
            return Err(copy_text("video contains no frames"));
        }
        let sorted: Vec<Vec<u8>> = sort_paths(paths);
        let ghost all = sorted@;
        let mut queue: VecDeque<Vec<u8>> = VecDeque::new();
        assert(all.take(0) == Seq::<Vec<u8>>::empty());
        for path in iter: sorted
            invariant
                iter.seq() == all,
                queue@ == all.take(iter.index()),
        {
            assert(all.take(iter.index() + 1) == all.take(iter.index()).push(path));
            queue.push_back(path);
        }
        assert(all.take(all.len() as int) == all);
        Ok(FrameSequence { paths: queue, trajectory: VecDeque::new(), trajectory_len })
    }

    /// Goes on to the next file, which is to be read and handed to `load`.
    pub fn advance(&mut self) -> (path: Option<Vec<u8>>)
        requires
            old(self).wf(),
        ensures
            final(self).wf(),
            advances(*old(self), *final(self), path),
    {
        self.paths.pop_front()
    }

    /// Takes in the bytes of a file, and its state before and after they were read.
    /// The frame is the newest of the trajectory. A file that is no stable image is an
    /// error.
    pub fn load(
        &mut self,
        path: &[u8],
        before: FrameIdentity,
        bytes: Vec<u8>,
        after: FrameIdentity,
    ) -> (outcome: Result<(), String>)
        requires
            old(self).wf(),
            frame::media_of(path@) is Some,
        ensures
            final(self).wf(),
            loads(*old(self), *final(self), path@, before, bytes@, after, outcome),
    {
        match read_stable_frame(path, before, bytes, after) {
            Err(message) => Err(message),
            Ok(None) => Err(
                append(copy_text("extracted frame is incomplete: "), lossy(path).as_str()),
            ),
            Ok(Some(next)) => {
                assert(is_frame(next, path@, bytes@));
                self.trajectory.push_back(next);
                let size: usize = self.trajectory_len;
                keep_recent(&mut self.trajectory, size);
                Ok(())
            },
        }
    }
}

/// Whether a frame is the image with some bytes under a path.
pub open spec fn is_frame(next: Frame, path: Seq<u8>, bytes: Seq<u8>) -> bool {
    &&& next.path@ == path
    &&& next.bytes@ == bytes
    &&& frame::media_of(path) == Some(next.media_type@)
}

/// The files of a video are read in order, each once: a file never comes before one that
/// was read earlier.
pub proof fn law_sequence_keeps_order(paths: Seq<Vec<u8>>, given: Seq<Vec<u8>>, earlier: int, later: int)
    requires
        sort::sorted_from(path::entries(paths), path::entries(given)),
        0 <= earlier <= later < paths.len(),
    ensures
        path::path_not_behind(paths[earlier]@, paths[later]@),
        paths.len() == given.len(),
{
    let all = path::entries(paths);
    assert(all[earlier].not_behind(all[later]));
    assert(path::entries(given).len() == given.len());
}

/// The capture time in a name is the number between its fixed parts, and a name of another
/// form has none.
pub proof fn law_capture_time_stands_in_the_name(name: Seq<u8>, digits: Seq<u8>)
    ensures
        capture_stamp(bytes::encoded("frame-capture-"@) + digits + bytes::encoded(".png"@))
            == number::parsed_digits(digits),
        capture_stamp(name) is Some ==> exists|stamp: Seq<u8>|
            name == #[trigger] (bytes::encoded("frame-capture-"@) + stamp + bytes::encoded(
                ".png"@,
            )),
{
    let start = bytes::encoded("frame-capture-"@);
    let end = bytes::encoded(".png"@);
    let whole = start + digits + end;
    assert(whole.take(start.len() as int) =~= start);
    assert(whole.skip(whole.len() - end.len()) =~= end);
    assert(whole.subrange(start.len() as int, whole.len() - end.len()) =~= digits);
    if capture_stamp(name) is Some {
        let stamp = name.subrange(start.len() as int, name.len() - end.len());
        assert(name =~= name.take(start.len() as int) + stamp + name.skip(name.len() - end.len()));
    }
}

/// An image was captured at the microsecond that its name tells; where the name tells
/// none, when the file was modified; and at no known time where that is not known.
pub proof fn law_capture_time_of_a_file(file: FrameFile, name: Seq<u8>)
    requires
        path::name_of(file.path@) == Some(name),
    ensures
        capture_stamp(name) matches Some(microseconds) ==> file.captured() == Some(
            microseconds as int * 1000,
        ),
        capture_stamp(name) is None ==> match file.identity.modified {
            Some(time) => file.captured() == Some(time as int),
            None => file.captured() is None,
        },
{
}

/// A file is wanted where it is an image, was not discarded, was captured no sooner than
/// the limit, if there is one, and was not looked at in the state that it is in.
pub proof fn law_wanted_files(source: FrameSource, file: FrameFile)
    ensures
        source.wants(file) <==> {
            &&& frame::media_of(file.path@) is Some
            &&& forall|index: int|
                0 <= index < source.discarded@.len() ==> !path::same_path(
                    (#[trigger] source.discarded@[index])@,
                    file.path@,
                )
            &&& source.not_before matches Some(limit) ==> (file.captured() matches Some(time)
                && limit <= time)
            &&& remembered(source.seen@, file.path@) matches Some(state) ==> state.len
                != file.identity.len || state.modified != file.identity.modified
        },
{
    if remembered(source.seen@, file.path@) is Some {
        let state = remembered(source.seen@, file.path@)->0;
        assert(state == file.identity <==> state.len == file.identity.len && state.modified
            == file.identity.modified);
    }
}

/// What is remembered of a file is the state in which it was looked at last, and nothing
/// where it never was.
pub proof fn law_last_state_is_remembered(seen: Seq<SeenFrame>, path: Seq<u8>, at: int)
    requires
        0 <= at < seen.len(),
        path::same_path(seen[at].path@, path),
        forall|later: int|
            at < later < seen.len() ==> !path::same_path((#[trigger] seen[later]).path@, path),
    ensures
        remembered(seen, path) == Some(seen[at].identity),
    decreases seen.len(),
{
    if at < seen.len() - 1 {
        let head = seen.drop_last();
        assert(!path::same_path(seen[seen.len() - 1].path@, path));
        assert(head[at] == seen[at]);
        assert forall|later: int| at < later < head.len() implies !path::same_path(
            (#[trigger] head[later]).path@,
            path,
        ) by {
            assert(head[later] == seen[later]);
        }
        law_last_state_is_remembered(head, path, at);
    }
}

/// Nothing is remembered of a file that was never looked at.
pub proof fn law_new_file_is_not_remembered(seen: Seq<SeenFrame>, path: Seq<u8>)
    requires
        forall|index: int|
            0 <= index < seen.len() ==> !path::same_path((#[trigger] seen[index]).path@, path),
    ensures
        remembered(seen, path) is None,
{
    lemma_unknown(seen, path);
}

/// Files that were looked at later are remembered in the state in which they were looked
/// at then, the last first, and others as before.
pub proof fn law_later_looks_are_remembered(
    seen: Seq<SeenFrame>,
    files: Seq<FrameFile>,
    path: Seq<u8>,
    at: int,
)
    requires
        -1 <= at < files.len(),
        at >= 0 ==> path::same_path(files[at].path@, path),
        forall|later: int|
            at < later < files.len() ==> !path::same_path((#[trigger] files[later]).path@, path),
    ensures
        remembered_after(seen, files, path) == if at >= 0 {
            Some(files[at].identity)
        } else {
            remembered(seen, path)
        },
    decreases files.len(),
{
    if files.len() > 0 && at < files.len() - 1 {
        let head = files.drop_last();
        assert(!path::same_path(files[files.len() - 1].path@, path));
        assert forall|later: int| at < later < head.len() implies !path::same_path(
            (#[trigger] head[later]).path@,
            path,
        ) by {
            assert(head[later] == files[later]);
        }
        if at >= 0 {
            assert(head[at] == files[at]);
        }
        law_later_looks_are_remembered(seen, head, path, at);
    }
}

/// A search waits for 20 ms, or for what is left until its deadline where that is less, and
/// is given up at the deadline and not before.
pub proof fn law_search_waits_until_the_deadline(deadline: u128, now: u128)
    ensures
        waits(deadline, now) is TimedOut <==> deadline <= now,
        now < deadline ==> (waits(deadline, now) matches FrameStep::Pause { nanoseconds } && 0
            < nanoseconds <= 20_000_000 && now + nanoseconds <= deadline && (nanoseconds
            == 20_000_000 || now + nanoseconds == deadline)),
{
}

/// A file that was read becomes the newest frame where it is a stable image, and only then
/// is its state remembered. The next file is read while there is one; after the last the
/// search is over where one of them became a frame, else the time is looked at. A file that
/// is too large ends it, and changes nothing.
pub proof fn law_reading_goes_from_file_to_file(
    before: FrameSearch,
    after: FrameSearch,
    source: FrameSource,
    next: FrameSource,
    bytes: Seq<u8>,
    identity: FrameIdentity,
    step: FrameStep,
)
    requires
        reads_on(before, after, source, next, bytes, identity, step),
        source.trajectory_len > 0,
    ensures
        ({
            let file = before.queue@[before.index as int];
            let large = file.identity.len > 20 * 1024 * 1024 || bytes.len() > 20 * 1024 * 1024;
            let good = frame::stable(file.path@, file.identity, bytes, identity);
            let last = before.index + 1 >= before.queue@.len();
            &&& large <==> step is Failed
            &&& large ==> next.trajectory == source.trajectory && next.seen == source.seen
            &&& !large && !last ==> (step matches FrameStep::Read { path, identity: state } && path@
                == before.queue@[before.index + 1].path@ && state
                == before.queue@[before.index + 1].identity)
            &&& !large && last ==> (step is Found <==> good || before.loaded)
            &&& !large && last && !good && !before.loaded ==> step is Clock
            &&& !large && good ==> {
                &&& next.trajectory@.len() > 0
                &&& next.trajectory@.last().path@ == file.path@
                &&& next.trajectory@.last().bytes@ == bytes
                &&& remembered(next.seen@, file.path@) == Some(file.identity)
            }
            &&& !good ==> next.seen == source.seen
            &&& !good && !large && !last ==> next.trajectory == source.trajectory
            &&& step is Found ==> next.trajectory@.len() <= source.trajectory_len
            &&& !large && good && !last ==> next.trajectory@.drop_last() == source.trajectory@
            &&& step is Found && good ==> exists|newest: Frame| #[trigger]
                is_frame(newest, file.path@, bytes) && next.trajectory@ == recent(
                    source.trajectory@.push(newest),
                    source.trajectory_len as int,
                )
            &&& step is Found && !good ==> next.trajectory@ == recent(
                source.trajectory@,
                source.trajectory_len as int,
            )
            &&& next.directory == source.directory
            &&& next.discarded == source.discarded
            &&& next.trajectory_len == source.trajectory_len
            &&& next.not_before == source.not_before
        }),
{
    let file = before.queue@[before.index as int];
    if step is Found {
        let middle = choose|middle: FrameSource|
            takes(source, middle, file, bytes, identity) && #[trigger] cut_from(middle, next);
        law_trajectory_is_bounded(middle.trajectory@, middle.trajectory_len as int);
        if frame::stable(file.path@, file.identity, bytes, identity) {
            assert(path::same_path(file.path@, file.path@));
            assert(remembered(middle.seen@, file.path@) == Some(file.identity));
            let newest = middle.trajectory@.last();
            assert(is_frame(newest, file.path@, bytes));
            assert(middle.trajectory@ =~= source.trajectory@.push(newest));
        }
    } else {
        assert(path::same_path(file.path@, file.path@));
    }
}

/// A file of a video becomes the newest frame where it is a stable image within the size
/// limit; any other is an error that is told by its path and leaves the frames as they
/// were.
pub proof fn law_video_file_becomes_a_frame(
    before: FrameSequence,
    after: FrameSequence,
    path: Seq<u8>,
    first: FrameIdentity,
    bytes: Seq<u8>,
    second: FrameIdentity,
    outcome: Result<(), String>,
)
    requires
        loads(before, after, path, first, bytes, second, outcome),
        before.trajectory_len > 0,
    ensures
        ({
            let small = first.len <= 20 * 1024 * 1024 && bytes.len() <= 20 * 1024 * 1024;
            &&& outcome is Ok <==> small && frame::stable(path, first, bytes, second)
            &&& outcome is Ok ==> {
                &&& 0 < after.trajectory@.len() <= before.trajectory_len
                &&& after.trajectory@.last().path@ == path
                &&& after.trajectory@.last().bytes@ == bytes
                &&& frame::media_of(path) == Some(after.trajectory@.last().media_type@)
            }
            &&& outcome matches Err(message) ==> after.trajectory@ == before.trajectory@
                && text::ends(message@, path::lossy_text(path))
            &&& after.paths == before.paths
        }),
{
    if outcome is Ok {
        let newest = choose|next: Frame| #[trigger]
            is_frame(next, path, bytes) && after.trajectory@ == recent(
                before.trajectory@.push(next),
                before.trajectory_len as int,
            );
        law_trajectory_is_bounded(
            before.trajectory@.push(newest),
            before.trajectory_len as int,
        );
    } else {
        let named = path::lossy_text(path);
        text::lemma_part_occurs("frame exceeds 20 MiB limit: "@, named, Seq::empty());
        text::lemma_part_occurs("extracted frame is incomplete: "@, named, Seq::empty());
    }
}

} // verus!
