//! Whole searches for frames, and whole videos: what the steps of each come to.

use crate::frame::{self, Frame, FrameIdentity};
use crate::frame_source::{self, FrameFile, FrameSearch, FrameSequence, FrameSource, FrameStep};
use crate::path;
use crate::sort;
use vstd::prelude::*;

verus! {

/// Whether no two files of a directory are in the same place.
pub open spec fn distinct(files: Seq<FrameFile>) -> bool {
    forall|left: int, right: int|
        0 <= left < right < files.len() ==> !path::same_path(
            (#[trigger] files[left]).path@,
            (#[trigger] files[right]).path@,
        )
}

/// Whether a file does not change while it is read, holds a whole image, and is within the
/// size limit.
pub open spec fn whole(path: Seq<u8>, identity: FrameIdentity, bytes: Seq<u8>) -> bool {
    identity.len <= frame::MAX_FRAME_BYTES && frame::stable(path, identity, bytes, identity)
}

/// Whether the frames are those in some files, in order.
pub open spec fn framed(
    frames: Seq<Frame>,
    files: Seq<FrameFile>,
    contents: spec_fn(FrameFile) -> Seq<u8>,
) -> bool {
    &&& frames.len() == files.len()
    &&& forall|index: int|
        0 <= index < files.len() ==> frame_source::is_frame(
            #[trigger] frames[index],
            files[index].path@,
            contents(files[index]),
        )
}

/// One look at a directory and all that is read after it: the source, the search and the
/// step after the listing, and after each file that was read.
pub ghost struct Look {
    /// The files of the directory.
    pub files: Seq<FrameFile>,
    /// Those that are wanted, in order of time and path.
    pub unseen: Seq<FrameFile>,
    pub sources: Seq<FrameSource>,
    pub searches: Seq<FrameSearch>,
    pub steps: Seq<FrameStep>,
}

impl Look {
    /// Whether it is a look at a directory whose files hold some bytes and do not change.
    pub open spec fn at(
        self,
        before: FrameSource,
        contents: spec_fn(FrameFile) -> Seq<u8>,
    ) -> bool {
        &&& self.sources.len() == self.reads() + 1
        &&& self.searches.len() == self.reads() + 1
        &&& self.steps.len() == self.reads() + 1
        &&& frame_source::lists(
            before,
            self.sources[0],
            self.files,
            self.unseen,
            self.searches[0],
            self.steps[0],
        )
        &&& forall|done: int|
            0 <= done < self.reads() ==> #[trigger] self.reads_next(done, contents)
    }

    /// How many files are read.
    pub open spec fn reads(self) -> nat {
        self.searches[0].queue@.len()
    }

    /// Whether a file is read after so many others.
    pub open spec fn reads_next(
        self,
        done: int,
        contents: spec_fn(FrameFile) -> Seq<u8>,
    ) -> bool {
        let file = self.searches[done].queue@[self.searches[done].index as int];
        frame_source::reads_on(
            self.searches[done],
            self.searches[done + 1],
            self.sources[done],
            self.sources[done + 1],
            contents(file),
            file.identity,
            self.steps[done + 1],
        )
    }

    /// The source after all of it.
    pub open spec fn after(self) -> FrameSource {
        self.sources.last()
    }

    /// How many of the wanted files are passed over.
    pub open spec fn skipped(self) -> int {
        self.unseen.len() - self.reads()
    }
}

/// Whether all files that are wanted hold whole images.
pub open spec fn readable(
    source: FrameSource,
    files: Seq<FrameFile>,
    contents: spec_fn(FrameFile) -> Seq<u8>,
) -> bool {
    forall|index: int|
        0 <= index < files.len() && source.wants(#[trigger] files[index]) ==> whole(
            files[index].path@,
            files[index].identity,
            contents(files[index]),
        )
}

/// A wanted file is one of the directory, and the other way round.
proof fn lemma_unseen(before: FrameSource, look: Look, file: FrameFile)
    requires
        sort::sorted_from(
            look.unseen,
            look.files.filter(|file: FrameFile| before.wants(file)),
        ),
    ensures
        look.unseen.contains(file) <==> look.files.contains(file) && before.wants(file),
{
    let test = |file: FrameFile| before.wants(file);
    let kept = look.files.filter(test);
    sort::law_sort_keeps_items(look.unseen, kept, file);
    if kept.contains(file) {
        look.files.lemma_filter_pred(test, kept.index_of(file));
        look.files.lemma_filter_contains_rev(test, file);
    }
    if look.files.contains(file) && before.wants(file) {
        look.files.lemma_filter_contains(test, look.files.index_of(file));
    }
}

/// Each file that is read is a wanted one, and holds a whole image.
proof fn lemma_queue(
    before: FrameSource,
    look: Look,
    contents: spec_fn(FrameFile) -> Seq<u8>,
    index: int,
)
    requires
        look.at(before, contents),
        readable(before, look.files, contents),
        before.trajectory_len >= 1,
        0 <= index < look.reads(),
    ensures
        look.searches[0].queue@[index] == look.unseen[look.skipped() + index],
        0 <= look.skipped(),
        ({
            let file = look.searches[0].queue@[index];
            whole(file.path@, file.identity, contents(file))
        }),
{
    let file = look.searches[0].queue@[index];
    assert(file == look.unseen[look.skipped() + index]);
    assert(look.unseen.contains(file));
    lemma_unseen(before, look, file);
    let at = look.files.index_of(file);
    assert(look.files[at] == file);
}

/// How the source stands after so many files were read, the last not among them.
proof fn lemma_reading(
    before: FrameSource,
    look: Look,
    contents: spec_fn(FrameFile) -> Seq<u8>,
    done: int,
)
    requires
        look.at(before, contents),
        readable(before, look.files, contents),
        before.trajectory_len >= 1,
        0 <= done < look.reads(),
    ensures
        look.searches[done].queue == look.searches[0].queue,
        look.searches[done].index == done,
        look.searches[done].loaded == (done > 0),
        ({
            let source = look.sources[done];
            let seen = look.unseen.take(look.skipped() + done);
            &&& source.discarded == before.discarded
            &&& source.trajectory_len == before.trajectory_len
            &&& source.not_before == before.not_before
            &&& source.trajectory@.len() == before.trajectory@.len() + done
            &&& source.trajectory@.take(before.trajectory@.len() as int) == before.trajectory@
            &&& framed(
                source.trajectory@.skip(before.trajectory@.len() as int),
                look.searches[0].queue@.take(done),
                contents,
            )
            &&& forall|place: Seq<u8>| #[trigger]
                frame_source::remembered(source.seen@, place) == frame_source::remembered_after(
                    before.seen@,
                    seen,
                    place,
                )
        }),
    decreases done,
{
    let start = before.trajectory@.len() as int;
    let source = look.sources[done];
    if done == 0 {
        assert(source.trajectory@.take(start) == before.trajectory@);
        assert(look.unseen.take(look.skipped()) == look.unseen.take(
            if look.unseen.len() > before.trajectory_len {
                look.unseen.len() - before.trajectory_len
            } else {
                0
            },
        ));
    } else {
        let last = done - 1;
        lemma_reading(before, look, contents, last);
        lemma_queue(before, look, contents, last);
        assert(look.reads_next(last, contents));
        let earlier = look.sources[last];
        let queue = look.searches[0].queue@;
        let file = queue[last];
        assert(frame_source::takes(earlier, source, file, contents(file), file.identity));
        assert(source.trajectory@.drop_last().take(start) == source.trajectory@.take(start));
        let frames = source.trajectory@.skip(start);
        assert forall|index: int| 0 <= index < done implies frame_source::is_frame(
            #[trigger] frames[index],
            queue.take(done)[index].path@,
            contents(queue.take(done)[index]),
        ) by {
            if index < last {
                let known = earlier.trajectory@.skip(start);
                assert(known[index] == frames[index]);
                assert(queue.take(last)[index] == queue.take(done)[index]);
            }
        }
        let seen = look.unseen.take(look.skipped() + done);
        assert(seen.drop_last() == look.unseen.take(look.skipped() + last));
        assert(seen.last() == file);
    }
}

/// How the source stands after a look at which some file was wanted.
proof fn lemma_looked(
    before: FrameSource,
    look: Look,
    contents: spec_fn(FrameFile) -> Seq<u8>,
)
    requires
        look.at(before, contents),
        readable(before, look.files, contents),
        before.trajectory_len >= 1,
        look.unseen.len() > 0,
    ensures
        look.steps.last() is Found,
        look.reads() >= 1,
        look.reads() <= before.trajectory_len,
        ({
            let source = look.after();
            let frames = source.trajectory@;
            &&& source.discarded == before.discarded
            &&& source.trajectory_len == before.trajectory_len
            &&& source.not_before == before.not_before
            &&& frames.len() == if before.trajectory@.len() + look.reads()
                <= before.trajectory_len {
                before.trajectory@.len() + look.reads()
            } else {
                before.trajectory_len as nat
            }
            &&& framed(
                frames.skip(frames.len() - look.reads()),
                look.searches[0].queue@,
                contents,
            )
            &&& frames.take(frames.len() - look.reads()) == before.trajectory@.skip(
                before.trajectory@.len() - (frames.len() - look.reads()),
            )
            &&& forall|place: Seq<u8>| #[trigger]
                frame_source::remembered(source.seen@, place) == frame_source::remembered_after(
                    before.seen@,
                    look.unseen,
                    place,
                )
        }),
{
    let count = look.reads() as int;
    let last = count - 1;
    lemma_reading(before, look, contents, last);
    lemma_queue(before, look, contents, last);
    assert(look.reads_next(last, contents));
    let earlier = look.sources[last];
    let queue = look.searches[0].queue@;
    let file = queue[last];
    let source = look.after();
    assert(source == look.sources[last + 1]);
    let middle = choose|middle: FrameSource|
        frame_source::takes(earlier, middle, file, contents(file), file.identity)
            && #[trigger] frame_source::cut_from(middle, source);
    let all = middle.trajectory@;
    let start = before.trajectory@.len() as int;
    assert(all.len() == start + count);
    assert(all.take(start) == before.trajectory@) by {
        assert(all.drop_last().take(start) == all.take(start));
    }
    let frames = source.trajectory@;
    assert(frames == frame_source::recent(all, before.trajectory_len as int));
    let gone = all.len() - frames.len();
    assert forall|index: int| 0 <= index < frames.len() implies frames[index] == all[gone
        + index] by {}
    let newest = frames.skip(frames.len() - count);
    assert forall|index: int| 0 <= index < count implies frame_source::is_frame(
        #[trigger] newest[index],
        queue[index].path@,
        contents(queue[index]),
    ) by {
        assert(newest[index] == all[start + index]);
        if index < last {
            let known = earlier.trajectory@.skip(start);
            assert(known[index] == all.drop_last()[start + index]);
            assert(queue.take(last)[index] == queue[index]);
        }
    }
    assert(frames.take(frames.len() - count) =~= before.trajectory@.skip(
        start - (frames.len() - count),
    )) by {
        assert forall|index: int| 0 <= index < frames.len() - count implies frames[index]
            == before.trajectory@[start - (frames.len() - count) + index] by {
            assert(frames[index] == all[gone + index]);
            assert(all.take(start)[gone + index] == all[gone + index]);
        }
    }
    assert(look.unseen.take(look.skipped() + count).drop_last() == look.unseen.take(
        look.skipped() + last,
    ));
    assert(look.unseen.take(look.skipped() + count) == look.unseen);
    assert(look.unseen.last() == file);
}

/// The state of a file is remembered after it was looked at, where no other file is in its
/// place.
proof fn lemma_remembered(
    seen: Seq<frame_source::SeenFrame>,
    files: Seq<FrameFile>,
    file: FrameFile,
)
    requires
        files.contains(file),
        forall|index: int|
            0 <= index < files.len() && path::same_path(
                (#[trigger] files[index]).path@,
                file.path@,
            ) ==> files[index] == file,
    ensures
        frame_source::remembered_after(seen, files, file.path@) == Some(file.identity),
    decreases files.len(),
{
    if !path::same_path(files.last().path@, file.path@) {
        let rest = files.drop_last();
        let at = files.index_of(file);
        assert(rest[at] == file);
        assert forall|index: int|
            0 <= index < rest.len() && path::same_path(
                (#[trigger] rest[index]).path@,
                file.path@,
            ) implies rest[index] == file by {
            assert(rest[index] == files[index]);
        }
        lemma_remembered(seen, rest, file);
    }
}

/// Looking at files in other places changes nothing.
proof fn lemma_untouched(
    seen: Seq<frame_source::SeenFrame>,
    files: Seq<FrameFile>,
    place: Seq<u8>,
)
    requires
        forall|index: int|
            0 <= index < files.len() ==> !path::same_path((#[trigger] files[index]).path@, place),
    ensures
        frame_source::remembered_after(seen, files, place) == frame_source::remembered(
            seen,
            place,
        ),
    decreases files.len(),
{
    if files.len() > 0 {
        let rest = files.drop_last();
        assert forall|index: int| 0 <= index < rest.len() implies !path::same_path(
            (#[trigger] rest[index]).path@,
            place,
        ) by {
            assert(rest[index] == files[index]);
        }
        lemma_untouched(seen, rest, place);
    }
}

/// Two files of a directory in the same place are one.
proof fn lemma_one_place(files: Seq<FrameFile>, left: FrameFile, right: FrameFile)
    requires
        distinct(files),
        files.contains(left),
        files.contains(right),
        path::same_path(left.path@, right.path@),
    ensures
        left == right,
{
    let first = files.index_of(left);
    let second = files.index_of(right);
    assert(files[first] == left && files[second] == right);
}

/// What is remembered of a file of the directory after a look.
proof fn lemma_noted(
    before: FrameSource,
    look: Look,
    contents: spec_fn(FrameFile) -> Seq<u8>,
    file: FrameFile,
)
    requires
        look.at(before, contents),
        readable(before, look.files, contents),
        distinct(look.files),
        before.trajectory_len >= 1,
        look.files.contains(file),
    ensures
        look.after().discarded == before.discarded,
        look.after().not_before == before.not_before,
        look.after().trajectory_len == before.trajectory_len,
        frame_source::remembered(look.after().seen@, file.path@) == if before.wants(file) {
            Some(file.identity)
        } else {
            frame_source::remembered(before.seen@, file.path@)
        },
{
    if look.unseen.len() > 0 {
        lemma_looked(before, look, contents);
    } else {
        assert(look.after() == look.sources[0]);
        assert(look.unseen.take(0) == look.unseen);
    }
    lemma_unseen(before, look, file);
    if before.wants(file) {
        assert forall|index: int|
            0 <= index < look.unseen.len() && path::same_path(
                (#[trigger] look.unseen[index]).path@,
                file.path@,
            ) implies look.unseen[index] == file by {
            assert(look.unseen.contains(look.unseen[index]));
            lemma_unseen(before, look, look.unseen[index]);
            lemma_one_place(look.files, look.unseen[index], file);
        }
        lemma_remembered(before.seen@, look.unseen, file);
    } else {
        assert forall|index: int| 0 <= index < look.unseen.len() implies !path::same_path(
            (#[trigger] look.unseen[index]).path@,
            file.path@,
        ) by {
            assert(look.unseen.contains(look.unseen[index]));
            lemma_unseen(before, look, look.unseen[index]);
            if path::same_path(look.unseen[index].path@, file.path@) {
                lemma_one_place(look.files, look.unseen[index], file);
            }
        }
        lemma_untouched(before.seen@, look.unseen, file.path@);
    }
}

/// A look finds a frame where a file is wanted: the frames are the last that fit of those
/// that were there and of the wanted files, in order of time and path, and the newest
/// wanted file is the newest frame.
pub proof fn law_look_gives_the_newest_frames(
    before: FrameSource,
    look: Look,
    contents: spec_fn(FrameFile) -> Seq<u8>,
)
    requires
        look.at(before, contents),
        readable(before, look.files, contents),
        before.wf(),
        look.unseen.len() > 0,
    ensures
        look.steps.last() is Found,
        sort::sorted_from(
            look.unseen,
            look.files.filter(|file: FrameFile| before.wants(file)),
        ),
        ({
            let frames = look.after().trajectory@;
            let newest = frame_source::recent(look.unseen, before.trajectory_len as int);
            &&& frames.len() <= before.trajectory_len
            &&& newest.len() <= frames.len()
            &&& framed(frames.skip(frames.len() - newest.len()), newest, contents)
            &&& frames.len() == if before.trajectory@.len() + newest.len()
                <= before.trajectory_len {
                before.trajectory@.len() + newest.len()
            } else {
                before.trajectory_len as nat
            }
            &&& frames.take(frames.len() - newest.len()) == before.trajectory@.skip(
                before.trajectory@.len() - (frames.len() - newest.len()),
            )
            &&& look.after().discarded == before.discarded
            &&& look.after().trajectory_len == before.trajectory_len
            &&& look.after().not_before == before.not_before
            &&& frame_source::is_frame(
                frames.last(),
                look.unseen.last().path@,
                contents(look.unseen.last()),
            )
        }),
{
    lemma_looked(before, look, contents);
    let newest = frame_source::recent(look.unseen, before.trajectory_len as int);
    assert(newest =~= look.searches[0].queue@);
    let frames = look.after().trajectory@;
    let part = frames.skip(frames.len() - newest.len());
    assert(frame_source::is_frame(
        part[newest.len() - 1],
        newest[newest.len() - 1].path@,
        contents(newest[newest.len() - 1]),
    ));
    assert(newest[newest.len() - 1] == look.unseen.last());
}

/// The first look at a directory gives the last of its images, in order of time and path:
/// all of them, or as many as fit.
pub proof fn law_first_look_gives_the_latest_images(
    fresh: FrameSource,
    look: Look,
    contents: spec_fn(FrameFile) -> Seq<u8>,
)
    requires
        look.at(fresh, contents),
        readable(fresh, look.files, contents),
        fresh.wf(),
        fresh.seen@.len() == 0,
        fresh.discarded@.len() == 0,
        fresh.trajectory@.len() == 0,
        fresh.not_before is None,
        exists|index: int|
            0 <= index < look.files.len() && frame::media_of(
                (#[trigger] look.files[index]).path@,
            ) is Some,
    ensures
        look.steps.last() is Found,
        sort::sorted_from(
            look.unseen,
            look.files.filter(|file: FrameFile| frame::media_of(file.path@) is Some),
        ),
        framed(
            look.after().trajectory@,
            frame_source::recent(look.unseen, fresh.trajectory_len as int),
            contents,
        ),
{
    let wanted = |file: FrameFile| fresh.wants(file);
    let images = |file: FrameFile| frame::media_of(file.path@) is Some;
    assert(wanted =~= images);
    let index = choose|index: int|
        0 <= index < look.files.len() && frame::media_of(
            (#[trigger] look.files[index]).path@,
        ) is Some;
    assert(look.files.contains(look.files[index]));
    assert(fresh.wants(look.files[index]));
    lemma_unseen(fresh, look, look.files[index]);
    lemma_looked(fresh, look, contents);
    let frames = look.after().trajectory@;
    assert(frames.skip(frames.len() - look.reads()) == frames);
    assert(frame_source::recent(look.unseen, fresh.trajectory_len as int)
        =~= look.searches[0].queue@);
}

/// A second look at a directory that did not change gives nothing: no file is read, the
/// frames stay as they are, and the search is given up at its deadline.
pub proof fn law_unchanged_directory_gives_nothing(
    before: FrameSource,
    look: Look,
    again: Look,
    contents: spec_fn(FrameFile) -> Seq<u8>,
    now: u128,
)
    requires
        look.at(before, contents),
        readable(before, look.files, contents),
        distinct(look.files),
        before.wf(),
        again.at(look.after(), contents),
        forall|file: FrameFile| #[trigger] again.files.contains(file) ==> look.files.contains(file),
        now >= again.searches[0].deadline,
    ensures
        again.unseen.len() == 0,
        again.reads() == 0,
        again.steps.last() is Clock,
        again.searches.last().phase is Timing,
        again.after().trajectory == look.after().trajectory,
        frame_source::waits(again.searches[0].deadline, now) is TimedOut,
{
    if again.unseen.len() > 0 {
        let file = again.unseen[0];
        assert(again.unseen.contains(file));
        lemma_unseen(look.after(), again, file);
        assert(again.files.contains(file));
        lemma_noted(before, look, contents, file);
    }
}

/// Where one element alone passes a test, it is all that is left.
proof fn lemma_filter_one<T>(items: Seq<T>, test: spec_fn(T) -> bool, at: int)
    requires
        0 <= at < items.len(),
        test(items[at]),
        forall|index: int| 0 <= index < items.len() && index != at ==> !test(#[trigger] items[index]),
    ensures
        items.filter(test) == seq![items[at]],
{
    let first = items.take(at);
    let rest = items.skip(at + 1);
    assert(items =~= first + (seq![items[at]] + rest));
    Seq::filter_distributes_over_add(first, seq![items[at]] + rest, test);
    Seq::filter_distributes_over_add(seq![items[at]], rest, test);
    assert forall|index: int| 0 <= index < first.len() implies !test(#[trigger] first[index]) by {
        assert(first[index] == items[index]);
    }
    assert forall|index: int| 0 <= index < rest.len() implies !test(#[trigger] rest[index]) by {
        assert(rest[index] == items[at + 1 + index]);
    }
    first.lemma_all_neg_filter_empty(test);
    rest.lemma_all_neg_filter_empty(test);
    reveal(Seq::filter);
    assert(seq![items[at]].drop_last() =~= Seq::empty());
    assert(Seq::<T>::empty().filter(test) =~= Seq::empty());
    assert(seq![items[at]].filter(test) =~= seq![items[at]]);
    assert(items.filter(test) =~= seq![items[at]]);
}

/// A file that changed after it was looked at comes back, and no other: it is the newest
/// frame, and there are no more frames than fit.
pub proof fn law_changed_file_comes_back(
    before: FrameSource,
    look: Look,
    contents: spec_fn(FrameFile) -> Seq<u8>,
    known: FrameFile,
    again: Look,
    later: spec_fn(FrameFile) -> Seq<u8>,
    at: int,
)
    requires
        look.at(before, contents),
        readable(before, look.files, contents),
        distinct(look.files),
        before.wf(),
        look.files.contains(known),
        before.wants(known),
        again.at(look.after(), later),
        0 <= at < again.files.len(),
        again.files[at].path@ == known.path@,
        again.files[at].identity != known.identity,
        before.timely(again.files[at]),
        whole(again.files[at].path@, again.files[at].identity, later(again.files[at])),
        forall|index: int|
            0 <= index < again.files.len() && index != at ==> look.files.contains(
                #[trigger] again.files[index],
            ),
    ensures
        again.steps.last() is Found,
        again.unseen == seq![again.files[at]],
        frame_source::is_frame(
            again.after().trajectory@.last(),
            known.path@,
            later(again.files[at]),
        ),
        again.after().trajectory@.len() <= before.trajectory_len,
{
    let source = look.after();
    let changed = again.files[at];
    let test = |file: FrameFile| source.wants(file);
    lemma_noted(before, look, contents, known);
    assert(source.wants(changed));
    assert forall|index: int| 0 <= index < again.files.len() && index != at implies !test(
        #[trigger] again.files[index],
    ) by {
        lemma_noted(before, look, contents, again.files[index]);
    }
    lemma_filter_one(again.files, test, at);
    let kept = again.files.filter(test);
    assert(kept == seq![changed]);
    assert(again.unseen.len() == 1);
    assert(again.unseen.contains(again.unseen[0]));
    sort::law_sort_keeps_items(again.unseen, kept, again.unseen[0]);
    assert(again.unseen =~= seq![changed]);
    lemma_looked(source, again, later);
    let frames = again.after().trajectory@;
    let part = frames.skip(frames.len() - again.reads());
    assert(again.searches[0].queue@ =~= seq![changed]);
    assert(frame_source::is_frame(part[0], again.searches[0].queue@[0].path@, later(changed)));
}

/// Some calls for the next frame of a video: the sequence before each and after the last,
/// after each went on to its file, and what each took and came to.
pub ghost struct Showing {
    pub starts: Seq<FrameSequence>,
    pub middles: Seq<FrameSequence>,
    pub taken: Seq<Option<Vec<u8>>>,
    pub outcomes: Seq<Result<(), String>>,
}

impl Showing {
    /// Whether it shows a video in files that hold some bytes and do not change.
    pub open spec fn of(
        self,
        given: Seq<Vec<u8>>,
        trajectory_len: usize,
        identities: spec_fn(Seq<u8>) -> FrameIdentity,
        contents: spec_fn(Seq<u8>) -> Seq<u8>,
    ) -> bool {
        &&& self.starts.len() == self.calls() + 1
        &&& self.middles.len() == self.calls()
        &&& self.outcomes.len() == self.calls()
        &&& frame_source::begins(self.starts[0], given, trajectory_len)
        &&& forall|call: int|
            0 <= call < self.calls() ==> #[trigger] self.shows_next(call, identities, contents)
    }

    /// How many calls there are.
    pub open spec fn calls(self) -> nat {
        self.taken.len()
    }

    /// The files of the video, in order.
    pub open spec fn paths(self) -> Seq<Vec<u8>> {
        self.starts[0].paths@
    }

    /// Whether a call goes on to the next file and reads it, where there is one.
    pub open spec fn shows_next(
        self,
        call: int,
        identities: spec_fn(Seq<u8>) -> FrameIdentity,
        contents: spec_fn(Seq<u8>) -> Seq<u8>,
    ) -> bool {
        &&& frame_source::advances(self.starts[call], self.middles[call], self.taken[call])
        &&& match self.taken[call] {
            Some(path) => frame_source::loads(
                self.middles[call],
                self.starts[call + 1],
                path@,
                identities(path@),
                contents(path@),
                identities(path@),
                self.outcomes[call],
            ),
            None => self.starts[call + 1] == self.middles[call],
        }
    }

    /// Whether the frames after so many calls are those of the last files, as many as fit.
    pub open spec fn shows(
        self,
        calls: int,
        trajectory_len: usize,
        contents: spec_fn(Seq<u8>) -> Seq<u8>,
    ) -> bool {
        let frames = self.starts[calls].trajectory@;
        &&& frames.len() == if calls <= trajectory_len {
            calls
        } else {
            trajectory_len as int
        }
        &&& forall|index: int|
            0 <= index < frames.len() ==> frame_source::is_frame(
                #[trigger] frames[index],
                self.paths()[calls - frames.len() + index]@,
                contents(self.paths()[calls - frames.len() + index]@),
            )
    }
}

/// Whether all files of a video hold whole images.
pub open spec fn all_whole(
    given: Seq<Vec<u8>>,
    identities: spec_fn(Seq<u8>) -> FrameIdentity,
    contents: spec_fn(Seq<u8>) -> Seq<u8>,
) -> bool {
    forall|index: int|
        0 <= index < given.len() ==> whole(
            (#[trigger] given[index])@,
            identities(given[index]@),
            contents(given[index]@),
        )
}

/// A file in order is one of those that were given.
proof fn lemma_given(
    showing: Showing,
    given: Seq<Vec<u8>>,
    trajectory_len: usize,
    index: int,
)
    requires
        frame_source::begins(showing.starts[0], given, trajectory_len),
        0 <= index < given.len(),
    ensures
        exists|at: int| 0 <= at < given.len() && #[trigger] given[at] == showing.paths()[index],
{
    let sorted = path::entries(showing.paths());
    let entry = sorted[index];
    assert(sorted.contains(entry));
    sort::law_sort_keeps_items(sorted, path::entries(given), entry);
    let at = path::entries(given).index_of(entry);
    assert(path::entries(given)[at] == entry);
    assert(given[at] == showing.paths()[index]);
}

/// How a sequence stands after so many calls.
proof fn lemma_shown(
    showing: Showing,
    given: Seq<Vec<u8>>,
    trajectory_len: usize,
    identities: spec_fn(Seq<u8>) -> FrameIdentity,
    contents: spec_fn(Seq<u8>) -> Seq<u8>,
    calls: int,
)
    requires
        showing.of(given, trajectory_len, identities, contents),
        all_whole(given, identities, contents),
        trajectory_len >= 1,
        0 <= calls <= showing.calls(),
    ensures
        showing.starts[calls].trajectory_len == trajectory_len,
        calls <= given.len() ==> {
            &&& showing.starts[calls].paths@ == showing.paths().skip(calls)
            &&& showing.shows(calls, trajectory_len, contents)
        },
        calls >= given.len() ==> showing.starts[calls].paths@.len() == 0,
    decreases calls,
{
    if calls > 0 {
        let call = calls - 1;
        lemma_shown(showing, given, trajectory_len, identities, contents, call);
        assert(showing.shows_next(call, identities, contents));
        if call < given.len() {
            let path = showing.paths()[call];
            assert(showing.starts[call].paths@[0] == path);
            assert(showing.taken[call] == Some(path));
            assert(showing.paths().skip(call).skip(1) =~= showing.paths().skip(calls));
            lemma_given(showing, given, trajectory_len, call);
            let at = choose|at: int|
                0 <= at < given.len() && #[trigger] given[at] == showing.paths()[call];
            assert(whole(given[at]@, identities(given[at]@), contents(given[at]@)));
            let before = showing.middles[call];
            let after = showing.starts[calls];
            let next = choose|next: Frame| #[trigger]
                frame_source::is_frame(next, path@, contents(path@)) && after.trajectory@
                    == frame_source::recent(before.trajectory@.push(next), trajectory_len as int);
            let earlier = showing.starts[call].trajectory@;
            let all = earlier.push(next);
            let frames = after.trajectory@;
            assert forall|index: int| 0 <= index < frames.len() implies frame_source::is_frame(
                #[trigger] frames[index],
                showing.paths()[calls - frames.len() + index]@,
                contents(showing.paths()[calls - frames.len() + index]@),
            ) by {
                let place = all.len() - frames.len() + index;
                assert(frames[index] == all[place]);
                if place < earlier.len() {
                    assert(all[place] == earlier[place]);
                }
            }
        }
    } else {
        assert(showing.paths().skip(0) =~= showing.paths());
    }
}

/// A video is shown frame by frame: each call takes the next file in order of the paths and
/// gives the frames that end with it, as many as fit; after the last file every call gives
/// nothing.
pub proof fn law_video_is_shown_frame_by_frame(
    showing: Showing,
    given: Seq<Vec<u8>>,
    trajectory_len: usize,
    identities: spec_fn(Seq<u8>) -> FrameIdentity,
    contents: spec_fn(Seq<u8>) -> Seq<u8>,
    call: int,
)
    requires
        showing.of(given, trajectory_len, identities, contents),
        all_whole(given, identities, contents),
        trajectory_len >= 1,
        0 <= call < showing.calls(),
    ensures
        sort::sorted_from(path::entries(showing.paths()), path::entries(given)),
        showing.paths().len() == given.len(),
        if call < given.len() {
            let frames = showing.starts[call + 1].trajectory@;
            &&& showing.taken[call] == Some(showing.paths()[call])
            &&& showing.outcomes[call] is Ok
            &&& showing.shows(call + 1, trajectory_len, contents)
            &&& 1 <= frames.len() <= trajectory_len
            &&& frame_source::is_frame(
                frames.last(),
                showing.paths()[call]@,
                contents(showing.paths()[call]@),
            )
        } else {
            showing.taken[call] is None
        },
{
    lemma_shown(showing, given, trajectory_len, identities, contents, call);
    lemma_shown(showing, given, trajectory_len, identities, contents, call + 1);
    assert(showing.shows_next(call, identities, contents));
    if call < given.len() {
        let path = showing.paths()[call];
        assert(showing.starts[call].paths@[0] == path);
        lemma_given(showing, given, trajectory_len, call);
        let at = choose|at: int|
            0 <= at < given.len() && #[trigger] given[at] == showing.paths()[call];
        assert(whole(given[at]@, identities(given[at]@), contents(given[at]@)));
        let frames = showing.starts[call + 1].trajectory@;
        assert(frame_source::is_frame(
            frames[frames.len() - 1],
            showing.paths()[call]@,
            contents(showing.paths()[call]@),
        ));
    }
}

/// The files that are wanted come in the order in which they were modified: of two whose
/// times are known, the one that was modified earlier stands first. One whose time is not
/// known stands before all others. All of them come, and nothing else.
pub proof fn law_files_come_in_the_order_of_time(
    before: FrameSource,
    look: Look,
    contents: spec_fn(FrameFile) -> Seq<u8>,
)
    requires
        look.at(before, contents),
    ensures
        forall|left: int, right: int|
            0 <= left < right < look.unseen.len() && (
            #[trigger] look.unseen[left]).identity.modified is Some && (
            #[trigger] look.unseen[right]).identity.modified is Some
                ==> look.unseen[left].identity.modified->0
                <= look.unseen[right].identity.modified->0,
        forall|left: int, right: int|
            0 <= left < right < look.unseen.len() && (
            #[trigger] look.unseen[right]).identity.modified is None ==> (
            #[trigger] look.unseen[left]).identity.modified is None,
        forall|left: int, right: int|
            0 <= left < right < look.unseen.len() && (
            #[trigger] look.unseen[left]).identity.modified == (
            #[trigger] look.unseen[right]).identity.modified ==> path::path_not_behind(
                look.unseen[left].path@,
                look.unseen[right].path@,
            ),
        forall|file: FrameFile| #[trigger]
            look.unseen.contains(file) <==> look.files.contains(file) && before.wants(file),
        look.unseen.len() == look.files.filter(|file: FrameFile| before.wants(file)).len(),
{
    assert forall|file: FrameFile| #[trigger]
        look.unseen.contains(file) <==> look.files.contains(file) && before.wants(file) by {
        lemma_unseen(before, look, file);
    }
    assert forall|left: int, right: int|
        0 <= left < right < look.unseen.len() && (
        #[trigger] look.unseen[left]).identity.modified is Some && (
        #[trigger] look.unseen[right]).identity.modified is Some implies
    look.unseen[left].identity.modified->0 <= look.unseen[right].identity.modified->0 by {
        assert(sort::Ranked::not_behind(look.unseen[left], look.unseen[right]));
    }
    assert forall|left: int, right: int|
        0 <= left < right < look.unseen.len() && (
        #[trigger] look.unseen[right]).identity.modified is None implies (
    #[trigger] look.unseen[left]).identity.modified is None by {
        assert(sort::Ranked::not_behind(look.unseen[left], look.unseen[right]));
    }
    assert forall|left: int, right: int|
        0 <= left < right < look.unseen.len() && (
        #[trigger] look.unseen[left]).identity.modified == (
        #[trigger] look.unseen[right]).identity.modified implies path::path_not_behind(
        look.unseen[left].path@,
        look.unseen[right].path@,
    ) by {
        assert(sort::Ranked::not_behind(look.unseen[left], look.unseen[right]));
    }
}

/// The newest frame after a look is a file of the directory that no other wanted file is
/// newer than: none of them was modified later.
pub proof fn law_newest_frame_was_modified_last(
    before: FrameSource,
    look: Look,
    contents: spec_fn(FrameFile) -> Seq<u8>,
    file: FrameFile,
)
    requires
        look.at(before, contents),
        readable(before, look.files, contents),
        before.wf(),
        look.files.contains(file),
        before.wants(file),
    ensures
        look.steps.last() is Found,
        exists|newest: FrameFile| #[trigger]
            look.files.contains(newest) && before.wants(newest) && {
                let frames = look.after().trajectory@;
                &&& frames.len() > 0
                &&& frames.last().path@ == newest.path@
                &&& frames.last().bytes@ == contents(newest)
                &&& file.identity.modified matches Some(time) ==> (
                newest.identity.modified matches Some(last) && time <= last)
            },
{
    lemma_unseen(before, look, file);
    law_look_gives_the_newest_frames(before, look, contents);
    law_files_come_in_the_order_of_time(before, look, contents);
    let newest = look.unseen.last();
    let at = look.unseen.index_of(file);
    let end = look.unseen.len() - 1;
    assert(look.unseen[at] == file && look.unseen[end] == newest);
    assert(look.unseen.contains(newest));
    if file.identity.modified is Some {
        if newest.identity.modified is None {
            if at < end {
                assert(look.unseen[end].identity.modified is None);
                assert(look.unseen[at].identity.modified is None);
            }
        } else {
            let time = file.identity.modified->0;
            let last = newest.identity.modified->0;
            if last < time {
                assert(at < end);
            }
        }
    }
    assert(look.files.contains(newest) && before.wants(newest));
}

} // verus!
