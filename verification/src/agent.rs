//! The loop in which a policy sees screenshots, decides and acts.

use crate::action::{self, validate_actions, Action};
use crate::batch::{self, execute_actions, ActionBatch};
use crate::cursor::CursorMotion;
use crate::frame::{self, Frame};
use crate::frame_source::{self, FrameSearch, FrameSequence, FrameSource};
use crate::number::{self, append_number};
use crate::path;
use crate::text::{self, append, copy_text};
use std::collections::VecDeque;
use vstd::prelude::*;

verus! {

/// How many frames a second are taken of a video that an agent sees.
pub const AGENT_VIDEO_FRAMES_PER_SECOND: u32 = 2;

/// Decides whether the cursor is observed: where actions are executed, and the cursor is
/// moved by what is observed of it.
pub fn observes_cursor(execute: bool, proportional: bool) -> (yes: bool)
    ensures
        yes == (execute && proportional),
{
    execute && proportional
}

/// How far a task has come, from nothing to all of it: a 32-bit binary floating-point
/// number between zero and one, held as its bit pattern.
#[derive(Clone, Copy, Debug, Eq, PartialEq, Structural)]
pub struct Progress {
    pub bits: u32,
}

impl Progress {
    /// Whether it is between zero and one.
    pub open spec fn valid(self) -> bool {
        self.bits <= 0x3f80_0000 || self.bits == 0x8000_0000
    }

    /// Whether it is below zero: its sign bit is set, and it is neither zero nor a
    /// not-a-number value.
    pub open spec fn below(self) -> bool {
        0x8000_0000 < self.bits <= 0xff80_0000
    }

    /// Whether it is above one, and no not-a-number value.
    pub open spec fn above(self) -> bool {
        0x3f80_0000 < self.bits <= 0x7f80_0000
    }

    /// Decides whether it is between zero and one.
    pub fn is_valid(self) -> (yes: bool)
        ensures
            yes == self.valid(),
    {
        self.bits <= 0x3f80_0000 || self.bits == 0x8000_0000
    }

    /// What is nearest to it between zero and one.
    pub fn clamped(self) -> (progress: Progress)
        ensures
            progress == if self.below() {
                Progress { bits: 0 }
            } else if self.above() {
                Progress { bits: 0x3f80_0000 }
            } else {
                self
            },
    {
        if 0x8000_0000 < self.bits && self.bits <= 0xff80_0000 {
            Progress { bits: 0 }
        } else if 0x3f80_0000 < self.bits && self.bits <= 0x7f80_0000 {
            Progress { bits: 0x3f80_0000 }
        } else {
            self
        }
    }
}

/// What a policy decides.
#[derive(Debug)]
pub struct AgentDecision {
    pub rationale: String,
    pub actions: Vec<Action>,
    pub completed: bool,
    pub progress: Progress,
}

/// Refuses a decision whose progress is not between zero and one.
pub fn check_progress(decision: &AgentDecision) -> (outcome: Result<(), String>)
    ensures
        match outcome {
            Ok(_) => decision.progress.valid(),
            Err(message) => !decision.progress.valid() && message@
                == "policy progress must be between 0 and 1"@,
        },
{
    if decision.progress.is_valid() {
        Ok(())
    } else {
        Err(copy_text("policy progress must be between 0 and 1"))
    }
}

/// What came of one decision. Its reward is the progress since the decision before.
#[derive(Debug)]
pub struct Transition {
    pub step: usize,
    /// The path of the newest frame that the policy saw.
    pub frame: Vec<u8>,
    pub rationale: String,
    pub actions: Vec<Action>,
    pub progress: Progress,
    /// The progress of the decision before.
    pub previous: Progress,
    pub completed: bool,
    pub executed: bool,
    /// What was measured in each movement of the cursor.
    pub cursor_motion: Vec<CursorMotion>,
}

/// Something that decides what to do by what it sees.
pub trait Policy {
    type Error;

    /// Decides what to do next to follow instructions, by the last frames and by what came
    /// of its decisions before.
    fn decide(
        &self,
        instructions: &str,
        trajectory: &VecDeque<Frame>,
        transitions: &[Transition],
    ) -> Result<AgentDecision, Self::Error>;
}

/// Where the frames of an agent come from.
pub enum AgentFrameSource {
    Live(FrameSource),
    Video(FrameSequence),
}

/// How the next frame is had.
pub enum FrameRequest {
    /// The directory is to be searched.
    Search(FrameSearch),
    /// A file is to be read.
    Load(Vec<u8>),
    /// There is none left.
    Ended,
}

impl AgentFrameSource {
    /// The frames are within the size limit, and there is room for one.
    pub open spec fn wf(self) -> bool {
        match self {
            AgentFrameSource::Live(source) => source.wf(),
            AgentFrameSource::Video(source) => source.wf(),
        }
    }

    /// Whether the frames show the desktop as it is.
    pub fn is_live(&self) -> (yes: bool)
        ensures
            yes == (*self is Live),
    {
        matches!(self, AgentFrameSource::Live(_))
    }

    /// Goes on to the next frame: a search of the directory that begins at a time and may
    /// take so long, both in nanoseconds, or the next file of the video.
    pub fn next(&mut self, now: u128, timeout: u128) -> (request: FrameRequest)
        requires
            old(self).wf(),
            now + timeout <= u128::MAX,
        ensures
            final(self).wf(),
            match *old(self) {
                AgentFrameSource::Live(_) => {
                    &&& *final(self) == *old(self)
                    &&& request matches FrameRequest::Search(search)
                    &&& search.wf() && search.phase is Listing
                    &&& search.deadline == now + timeout
                },
                AgentFrameSource::Video(before) => {
                    &&& *final(self) matches AgentFrameSource::Video(after)
                    &&& after.trajectory == before.trajectory
                    &&& after.trajectory_len == before.trajectory_len
                    &&& if before.paths@.len() > 0 {
                        &&& request == FrameRequest::Load(before.paths@[0])
                        &&& after.paths@ == before.paths@.skip(1)
                    } else {
                        request is Ended && after.paths@ == before.paths@
                    }
                },
            },
    {
        match self {
            AgentFrameSource::Live(_) => FrameRequest::Search(FrameSearch::new(now, timeout)),
            AgentFrameSource::Video(source) => match source.advance() {
                Some(path) => FrameRequest::Load(path),
                None => FrameRequest::Ended,
            },
        }
    }

    /// Makes sure that the next live frame shows what came of input that was finished at a
    /// time, in nanoseconds from the Unix epoch.
    pub fn discard_live_frames(&mut self, paths: Vec<Vec<u8>>, finished_at: u64)
        requires
            old(self).wf(),
        ensures
            final(self).wf(),
            match *old(self) {
                AgentFrameSource::Live(before) => {
                    &&& *final(self) matches AgentFrameSource::Live(after)
                    &&& after.directory == before.directory
                    &&& after.trajectory@.len() == 0
                    &&& after.seen == before.seen
                    &&& after.trajectory_len == before.trajectory_len
                    &&& after.not_before == Some(
                        (finished_at + frame_source::SETTLE_TIME) as i128,
                    )
                    &&& forall|path: Seq<u8>| #[trigger]
                        frame_source::listed_among(after.discarded@, path)
                            <==> frame_source::listed_among(before.discarded@, path)
                            || exists|index: int|
                            0 <= index < paths@.len() && frame::media_of(
                                #[trigger] paths@[index]@,
                            ) is Some && path::same_path(paths@[index]@, path)
                },
                AgentFrameSource::Video(_) => *final(self) == *old(self),
            },
    {
        match self {
            AgentFrameSource::Live(source) => {
                source.expect_feedback(paths, finished_at);
            },
            AgentFrameSource::Video(_) => {},
        }
    }
}

/// Whether actions send input: one of them does not only wait.
pub open spec fn sends_input(actions: Seq<Action>) -> bool {
    exists|index: int| 0 <= index < actions.len() && !((#[trigger] actions[index]) is Wait)
}

/// Decides whether actions send input.
pub fn has_input(actions: &[Action]) -> (yes: bool)
    ensures
        yes == sends_input(actions@),
{
    let mut index: usize = 0;
    while index < actions.len()
        invariant
            index <= actions.len(),
            forall|at: int| 0 <= at < index ==> (#[trigger] actions@[at]) is Wait,
        decreases actions.len() - index,
    {
        match &actions[index] {
            Action::Wait { .. } => {},
            _ => {
                assert(!(actions@[index as int] is Wait));
                return true;
            },
        }
        index += 1;
    }
    false
}

/// What is said where no frame came.
pub open spec fn no_frame(live: bool, timeout: u64, step: usize) -> Seq<char> {
    if live {
        "timed out after "@ + number::decimal(timeout as nat)
            + " ms waiting for a new live frame at step "@ + number::decimal(step as nat)
    } else {
        "video ended before the agent completed the instructions at step "@ + number::decimal(
            step as nat,
        )
    }
}

/// What is to be done next in a run.
pub enum AgentStep {
    /// The next frame is to be had.
    Observe,
    /// The policy is to decide.
    Decide,
    /// Actions are to be executed.
    Execute(ActionBatch),
    /// The live frames up to now are to be discarded.
    Discard,
    /// What came of the decision is to be noted.
    Note(Transition),
    /// The run is over.
    Finished(Result<(), String>),
}

/// How far a run has come in its current step.
pub enum AgentPhase {
    /// A frame is to be had.
    Observing,
    /// The policy is to decide, after it saw a frame.
    Deciding { frame: Vec<u8> },
    /// Actions are executed.
    Executing { frame: Vec<u8>, decision: AgentDecision },
    /// Live frames are discarded.
    Discarding { frame: Vec<u8>, decision: AgentDecision, motions: Vec<CursorMotion> },
    /// What came of the decision is noted.
    Noting { completed: bool },
    /// The run is over.
    Over,
}

/// A run of the policy.
pub struct AgentRun {
    pub max_steps: usize,
    /// Whether actions are executed.
    pub execute: bool,
    /// Whether the frames show the desktop as it is.
    pub live: bool,
    /// Whether the cursor is observed.
    pub observed: bool,
    /// How long to wait for a live frame, in milliseconds.
    pub timeout: u64,
    pub step: usize,
    /// The progress of the last decision.
    pub progress: Progress,
    pub phase: AgentPhase,
}

/// Whether a run is another that has come to a phase.
pub open spec fn moved_on(before: AgentRun, after: AgentRun) -> bool {
    &&& after.max_steps == before.max_steps
    &&& after.execute == before.execute
    &&& after.live == before.live
    &&& after.observed == before.observed
    &&& after.timeout == before.timeout
}

/// What is noted of a decision.
pub open spec fn notes(
    transition: Transition,
    before: AgentRun,
    frame: Vec<u8>,
    decision: AgentDecision,
    motions: Seq<CursorMotion>,
) -> bool {
    &&& transition.step == before.step
    &&& transition.frame == frame
    &&& transition.rationale == decision.rationale
    &&& transition.actions == decision.actions
    &&& transition.progress == if decision.progress.below() {
        (Progress { bits: 0 })
    } else if decision.progress.above() {
        (Progress { bits: 0x3f80_0000 })
    } else {
        decision.progress
    }
    &&& transition.previous == before.progress
    &&& transition.completed == decision.completed
    &&& transition.executed == before.execute
    &&& transition.cursor_motion@ == motions
}

/// Whether a step notes a decision, and the run goes on with its progress.
pub open spec fn noted(
    step: AgentStep,
    before: AgentRun,
    after: AgentRun,
    frame: Vec<u8>,
    decision: AgentDecision,
    motions: Seq<CursorMotion>,
) -> bool {
    &&& step matches AgentStep::Note(transition)
    &&& notes(transition, before, frame, decision, motions)
    &&& after.progress == transition.progress
    &&& after.step == before.step
    &&& after.phase == (AgentPhase::Noting { completed: decision.completed })
}

/// What follows from a decision: an end where something is wrong with one of its actions;
/// else they are executed where that is allowed, or the decision is noted.
pub open spec fn acts_on(
    step: AgentStep,
    before: AgentRun,
    after: AgentRun,
    decision: AgentDecision,
) -> bool {
    let frame = before.phase->Deciding_frame;
    match action::batch_complaint(decision.actions@) {
        Some(complaint) => {
            &&& step matches AgentStep::Finished(Err(message)) && message@ == complaint
            &&& after.phase is Over
        },
        None => if before.execute {
            &&& step matches AgentStep::Execute(begun)
            &&& batch::views(begun.commands@) == batch::script(
                decision.actions@,
                before.observed,
            )
            &&& begun.index == 0 && begun.motions@.len() == 0
            &&& after.phase == (AgentPhase::Executing { frame, decision })
            &&& after.step == before.step
            &&& after.progress == before.progress
        } else {
            noted(step, before, after, frame, decision, Seq::empty())
        },
    }
}

/// What follows from actions that were executed: live frames are discarded after input,
/// else the decision is noted.
pub open spec fn looks_again(
    step: AgentStep,
    before: AgentRun,
    after: AgentRun,
    motions: Vec<CursorMotion>,
) -> bool {
    let frame = before.phase->Executing_frame;
    let decision = before.phase->Executing_decision;
    if before.live && sends_input(decision.actions@) {
        &&& step is Discard
        &&& after.phase == (AgentPhase::Discarding { frame, decision, motions })
        &&& after.step == before.step
        &&& after.progress == before.progress
    } else {
        noted(step, before, after, frame, decision, motions@)
    }
}

/// What is said of a run that took too many steps.
pub open spec fn out_of_steps() -> Seq<char> {
    "agent reached max steps without completing the instructions"@
}

impl AgentRun {
    /// A step is under way only where there is one left.
    pub open spec fn wf(self) -> bool {
        self.phase !is Over ==> self.step < self.max_steps
    }

    /// Begins a run.
    pub fn new(max_steps: usize, execute: bool, live: bool, observed: bool, timeout: u64) -> (begun:
        (AgentRun, AgentStep))
        ensures
            begun.0.wf(),
            begun.0.max_steps == max_steps,
            begun.0.execute == execute,
            begun.0.live == live,
            begun.0.observed == observed,
            begun.0.timeout == timeout,
            begun.0.step == 0,
            begun.0.progress == (Progress { bits: 0 }),
            if max_steps == 0 {
                &&& begun.0.phase is Over
                &&& begun.1 matches AgentStep::Finished(Err(message)) && message@ == out_of_steps()
            } else {
                begun.0.phase is Observing && begun.1 is Observe
            },
    {
        let mut run: AgentRun = AgentRun {
            max_steps,
            execute,
            live,
            observed,
            timeout,
            step: 0,
            progress: Progress { bits: 0 },
            phase: AgentPhase::Observing,
        };
        if max_steps == 0 {
            run.phase = AgentPhase::Over;
            let message: String = copy_text(
                "agent reached max steps without completing the instructions",
            );
            return (run, AgentStep::Finished(Err(message)));
        }
        (run, AgentStep::Observe)
    }

    /// Takes in the path of the newest frame. Where none came, the run is over.
    pub fn seen(&mut self, newest: Option<Vec<u8>>) -> (step: AgentStep)
        requires
            old(self).wf(),
            old(self).phase is Observing,
        ensures
            final(self).wf(),
            moved_on(*old(self), *final(self)),
            final(self).step == old(self).step,
            final(self).progress == old(self).progress,
            match newest {
                Some(frame) => {
                    &&& step is Decide
                    &&& final(self).phase == (AgentPhase::Deciding { frame })
                },
                None => {
                    &&& step matches AgentStep::Finished(Err(message)) && message@ == no_frame(
                        old(self).live,
                        old(self).timeout,
                        old(self).step,
                    )
                    &&& final(self).phase is Over
                },
            },
    {
        match newest {
            Some(frame) => {
                self.phase = AgentPhase::Deciding { frame };
                AgentStep::Decide
            },
            None => {
                self.phase = AgentPhase::Over;
                let message: String = if self.live {
                    append(
                        append_number(copy_text("timed out after "), self.timeout as u128),
                        " ms waiting for a new live frame at step ",
                    )
                } else {
                    copy_text("video ended before the agent completed the instructions at step ")
                };
                AgentStep::Finished(Err(append_number(message, self.step as u128)))
            },
        }
    }

    /// Notes a decision.
    fn note(&mut self, frame: Vec<u8>, decision: AgentDecision, motions: Vec<CursorMotion>) -> (step:
        AgentStep)
        requires
            old(self).step < old(self).max_steps,
        ensures
            final(self).wf(),
            moved_on(*old(self), *final(self)),
            noted(step, *old(self), *final(self), frame, decision, motions@),
    {
        let progress: Progress = decision.progress.clamped();
        let previous: Progress = self.progress;
        self.progress = progress;
        self.phase = AgentPhase::Noting { completed: decision.completed };
        AgentStep::Note(
            Transition {
                step: self.step,
                frame,
                rationale: decision.rationale,
                actions: decision.actions,
                progress,
                previous,
                completed: decision.completed,
                executed: self.execute,
                cursor_motion: motions,
            },
        )
    }

    /// Takes in a decision. Its actions are executed where that is allowed, else only
    /// checked. Where something is wrong with one of them, nothing is executed and the run
    /// is over.
    pub fn decided(&mut self, decision: AgentDecision) -> (step: AgentStep)
        requires
            old(self).wf(),
            old(self).phase is Deciding,
        ensures
            final(self).wf(),
            moved_on(*old(self), *final(self)),
            acts_on(step, *old(self), *final(self), decision),
    {
        let mut phase: AgentPhase = AgentPhase::Over;
        std::mem::swap(&mut phase, &mut self.phase);
        let frame: Vec<u8> = match phase {
            AgentPhase::Deciding { frame } => frame,
            _ => Vec::new(),
        };
        if self.execute {
            match execute_actions(&decision.actions, self.observed) {
                Err(message) => AgentStep::Finished(Err(message)),
                Ok(begun) => {
                    self.phase = AgentPhase::Executing { frame, decision };
                    AgentStep::Execute(begun)
                },
            }
        } else {
            match validate_actions(&decision.actions) {
                Err(message) => AgentStep::Finished(Err(message)),
                Ok(_) => self.note(frame, decision, Vec::new()),
            }
        }
    }

    /// Takes in that the actions were executed, and what was measured in each movement of
    /// the cursor. Live frames are discarded after input, not after mere waiting.
    pub fn executed(&mut self, motions: Vec<CursorMotion>) -> (step: AgentStep)
        requires
            old(self).wf(),
            old(self).phase is Executing,
        ensures
            final(self).wf(),
            moved_on(*old(self), *final(self)),
            looks_again(step, *old(self), *final(self), motions),
    {
        let mut phase: AgentPhase = AgentPhase::Over;
        std::mem::swap(&mut phase, &mut self.phase);
        match phase {
            AgentPhase::Executing { frame, decision } => {
                if self.live && has_input(&decision.actions) {
                    self.phase = AgentPhase::Discarding { frame, decision, motions };
                    AgentStep::Discard
                } else {
                    self.note(frame, decision, motions)
                }
            },
            _ => AgentStep::Observe,
        }
    }

    /// Takes in that live frames were discarded.
    pub fn discarded(&mut self) -> (step: AgentStep)
        requires
            old(self).wf(),
            old(self).phase is Discarding,
        ensures
            final(self).wf(),
            moved_on(*old(self), *final(self)),
            noted(
                step,
                *old(self),
                *final(self),
                old(self).phase->Discarding_frame,
                old(self).phase->Discarding_decision,
                old(self).phase->Discarding_motions@,
            ),
    {
        let mut phase: AgentPhase = AgentPhase::Over;
        std::mem::swap(&mut phase, &mut self.phase);
        match phase {
            AgentPhase::Discarding { frame, decision, motions } => self.note(
                frame,
                decision,
                motions,
            ),
            _ => AgentStep::Observe,
        }
    }

    /// Takes in that the decision was noted. The run is over where the task is completed
    /// or no step is left.
    pub fn recorded(&mut self) -> (step: AgentStep)
        requires
            old(self).wf(),
            old(self).phase is Noting,
        ensures
            final(self).wf(),
            moved_on(*old(self), *final(self)),
            final(self).progress == old(self).progress,
            if old(self).phase->completed {
                &&& step matches AgentStep::Finished(outcome) && outcome is Ok
                &&& final(self).phase is Over
            } else if old(self).step + 1 < old(self).max_steps {
                &&& step is Observe
                &&& final(self).phase is Observing
                &&& final(self).step == old(self).step + 1
            } else {
                &&& step matches AgentStep::Finished(Err(message)) && message@ == out_of_steps()
                &&& final(self).phase is Over
            },
    {
        let completed: bool = match &self.phase {
            AgentPhase::Noting { completed } => *completed,
            _ => true,
        };
        if completed {
            self.phase = AgentPhase::Over;
            return AgentStep::Finished(Ok(()));
        }
        if self.step < self.max_steps - 1 {
            self.step += 1;
            self.phase = AgentPhase::Observing;
            return AgentStep::Observe;
        }
        self.phase = AgentPhase::Over;
        AgentStep::Finished(
            Err(copy_text("agent reached max steps without completing the instructions")),
        )
    }
}

/// What is noted as progress is between zero and one, unless the policy gave no number.
pub proof fn law_noted_progress_is_valid(
    transition: Transition,
    before: AgentRun,
    frame: Vec<u8>,
    decision: AgentDecision,
    motions: Seq<CursorMotion>,
)
    requires
        notes(transition, before, frame, decision, motions),
        decision.progress.valid() || decision.progress.below() || decision.progress.above(),
    ensures
        transition.progress.valid(),
        decision.progress.valid() ==> transition.progress == decision.progress,
{
}

/// Without permission to execute nothing is executed: no decision leads to a batch of
/// actions, and what is noted says so.
pub proof fn law_dry_run_executes_nothing(
    step: AgentStep,
    before: AgentRun,
    after: AgentRun,
    decision: AgentDecision,
)
    requires
        !before.execute,
        acts_on(step, before, after, decision),
    ensures
        step !is Execute,
        after.phase !is Executing,
        step matches AgentStep::Note(transition) ==> !transition.executed,
{
}

/// Nothing is executed of a decision with an action that is refused.
pub proof fn law_refused_decision_executes_nothing(
    step: AgentStep,
    before: AgentRun,
    after: AgentRun,
    decision: AgentDecision,
)
    requires
        action::batch_complaint(decision.actions@) is Some,
        acts_on(step, before, after, decision),
    ensures
        step matches AgentStep::Finished(outcome) && outcome is Err,
        after.phase is Over,
{
}

/// Waiting and doing nothing send no input, and discard no frame.
pub proof fn law_waiting_discards_nothing(
    step: AgentStep,
    before: AgentRun,
    after: AgentRun,
    motions: Vec<CursorMotion>,
)
    requires
        before.phase is Executing,
        forall|index: int|
            0 <= index < before.phase->Executing_decision.actions@.len() ==> (
            #[trigger] before.phase->Executing_decision.actions@[index]) is Wait,
        looks_again(step, before, after, motions),
    ensures
        step is Note,
{
}

/// After input the live frames up to then are discarded.
pub proof fn law_input_discards_live_frames(
    step: AgentStep,
    before: AgentRun,
    after: AgentRun,
    motions: Vec<CursorMotion>,
    index: int,
)
    requires
        before.phase is Executing,
        before.live,
        0 <= index < before.phase->Executing_decision.actions@.len(),
        before.phase->Executing_decision.actions@[index] !is Wait,
        looks_again(step, before, after, motions),
    ensures
        step is Discard,
{
}

/// Progress is valid from zero to one, below where its sign is set and above where it is
/// more than one, as the number is that its bits stand for; what is no number is none of
/// these.
pub proof fn law_progress_is_a_share(progress: Progress, sign: int, exponent: int, fraction: int)
    requires
        0 <= sign <= 1,
        0 <= exponent < 0x100,
        0 <= fraction < 0x80_0000,
        progress.bits == (sign * 0x100 + exponent) * 0x80_0000 + fraction,
    ensures
        ({
            let zero = exponent == 0 && fraction == 0;
            let number = exponent < 0xff || fraction == 0;
            let more = exponent > 127 || exponent == 127 && fraction > 0;
            &&& progress.valid() <==> zero || sign == 0 && !more
            &&& progress.below() <==> sign == 1 && !zero && number
            &&& progress.above() <==> sign == 0 && more && number
        }),
{
}

/// What is noted of a decision is the decision itself, with the step and the frame that it
/// was made on, whether it was executed, what was measured, and the progress before.
pub proof fn law_note_is_of_the_decision(
    transition: Transition,
    before: AgentRun,
    frame: Vec<u8>,
    decision: AgentDecision,
    motions: Seq<CursorMotion>,
)
    requires
        notes(transition, before, frame, decision, motions),
    ensures
        transition.step == before.step,
        transition.frame@ == frame@,
        transition.rationale@ == decision.rationale@,
        transition.actions@ == decision.actions@,
        transition.completed == decision.completed,
        transition.executed == before.execute,
        transition.cursor_motion@ == motions,
        transition.previous == before.progress,
        decision.progress.below() ==> transition.progress == (Progress { bits: 0 }),
        decision.progress.above() ==> transition.progress.bits == 127 * 0x80_0000,
        !decision.progress.below() && !decision.progress.above() ==> transition.progress
            == decision.progress,
{
}

/// The progress from which a decision is rewarded is that which the decision before it was
/// noted with.
pub proof fn law_progress_is_handed_on(
    step: AgentStep,
    first: AgentRun,
    between: AgentRun,
    second: AgentRun,
    frame: Vec<u8>,
    decision: AgentDecision,
    motions: Seq<CursorMotion>,
    transition: Transition,
    next_frame: Vec<u8>,
    next_decision: AgentDecision,
    next_motions: Seq<CursorMotion>,
)
    requires
        noted(step, first, between, frame, decision, motions),
        second.progress == between.progress,
        notes(transition, second, next_frame, next_decision, next_motions),
    ensures
        step matches AgentStep::Note(noted) && transition.previous == noted.progress,
        between.phase matches AgentPhase::Noting { completed } && completed == decision.completed,
        between.step == first.step,
{
}

/// A decision that is accepted is executed as it is, from its first action on, where that is
/// allowed; what was seen and decided is kept until then.
pub proof fn law_decision_is_executed(
    step: AgentStep,
    before: AgentRun,
    after: AgentRun,
    frame: Vec<u8>,
    decision: AgentDecision,
)
    requires
        before.execute,
        before.phase == (AgentPhase::Deciding { frame }),
        action::batch_complaint(decision.actions@) is None,
        acts_on(step, before, after, decision),
    ensures
        step matches AgentStep::Execute(begun) && begun.index == 0 && begun.motions@.len() == 0
            && batch::views(begun.commands@) == batch::script(decision.actions@, before.observed),
        after.phase == (AgentPhase::Executing { frame, decision }),
        after.step == before.step,
        after.progress == before.progress,
{
}

/// Actions send input where one of them is not a wait.
pub proof fn law_all_but_waiting_is_input(actions: Seq<Action>, action: Action)
    ensures
        !sends_input(Seq::empty()),
        sends_input(actions.push(action)) <==> sends_input(actions) || action !is Wait,
{
    let more = actions.push(action);
    if sends_input(actions) {
        let index = choose|index: int|
            0 <= index < actions.len() && !((#[trigger] actions[index]) is Wait);
        assert(more[index] == actions[index]);
    }
    if action !is Wait {
        assert(more[actions.len() as int] == action);
    }
    if sends_input(more) {
        let index = choose|index: int|
            0 <= index < more.len() && !((#[trigger] more[index]) is Wait);
        if index < actions.len() {
            assert(actions[index] == more[index]);
        }
    }
}

/// A run without a frame tells the step at its end, and where it waited for one it tells for
/// how many milliseconds.
pub proof fn law_missing_frame_is_told(timeout: u64, step: usize)
    ensures
        text::ends(no_frame(true, timeout, step), number::decimal(step as nat)),
        text::ends(no_frame(false, timeout, step), number::decimal(step as nat)),
        text::begins(
            no_frame(true, timeout, step),
            "timed out after "@ + number::decimal(timeout as nat) + " ms"@,
        ),
        text::begins(no_frame(false, timeout, step), "video ended"@),
{
    let digits = number::decimal(step as nat);
    let waited = "timed out after "@ + number::decimal(timeout as nat);
    let none = Seq::<char>::empty();
    text::lemma_part_occurs(
        waited + " ms waiting for a new live frame at step "@,
        digits,
        none,
    );
    text::lemma_part_occurs(
        "video ended before the agent completed the instructions at step "@,
        digits,
        none,
    );
    reveal_strlit(" ms");
    reveal_strlit(" ms waiting for a new live frame at step ");
    reveal_strlit("video ended");
    reveal_strlit("video ended before the agent completed the instructions at step ");
    let said = no_frame(true, timeout, step);
    let start = waited + " ms"@;
    assert(said.take(start.len() as int) =~= start);
    let ended = no_frame(false, timeout, step);
    assert(ended.take("video ended"@.len() as int) =~= "video ended"@);
}

/// The settings of a run never change.
pub proof fn law_settings_stay(before: AgentRun, after: AgentRun)
    requires
        moved_on(before, after),
    ensures
        after.max_steps == before.max_steps,
        after.execute == before.execute,
        after.live == before.live,
        after.observed == before.observed,
        after.timeout == before.timeout,
{
}

} // verus!
