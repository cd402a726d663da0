use computeruse::agent::{
    check_progress, has_input, observes_cursor, AgentFrameSource, AgentRun, AgentStep,
    FrameRequest, Progress, AGENT_VIDEO_FRAMES_PER_SECOND,
};
use computeruse::{Action, AgentDecision, FrameSequence, FrameSource, Policy, Transition};
use std::collections::VecDeque;

fn progress(value: f32) -> Progress {
    Progress { bits: value.to_bits() }
}

fn decision(actions: Vec<Action>, completed: bool, value: f32) -> AgentDecision {
    AgentDecision {
        rationale: "because".into(),
        actions,
        completed,
        progress: progress(value),
    }
}

fn wait() -> Action {
    Action::Wait { milliseconds: 1 }
}

fn tap() -> Action {
    Action::KeyTap { key: "a".into() }
}

#[test]
fn progress_is_between_zero_and_one() {
    for (value, clamped) in [
        (0.0, 0.0),
        (0.25, 0.25),
        (1.0, 1.0),
        (1.000_000_1, 1.0),
        (f32::INFINITY, 1.0),
        (-0.000_1, 0.0),
        (f32::NEG_INFINITY, 0.0),
    ] {
        assert_eq!(progress(value).clamped(), progress(clamped), "{value}");
        assert_eq!(progress(value).is_valid(), (0.0..=1.0).contains(&value), "{value}");
    }
    assert!(progress(-0.0).is_valid());
    assert!(!progress(f32::NAN).is_valid());
    assert!(progress(f32::NAN).clamped() == progress(f32::NAN));
    assert!(check_progress(&decision(vec![], false, 1.0)).is_ok());
    assert_eq!(
        check_progress(&decision(vec![], false, 1.5)),
        Err("policy progress must be between 0 and 1".to_string())
    );
}

#[test]
fn dry_runs_note_but_do_not_execute() {
    let (mut run, step) = AgentRun::new(2, false, true, true, 500);
    assert!(matches!(step, AgentStep::Observe));
    assert!(matches!(run.seen(Some(b"f0.png".to_vec())), AgentStep::Decide));
    let AgentStep::Note(transition) = run.decided(decision(vec![tap()], false, 0.5)) else {
        unreachable!()
    };
    assert_eq!((transition.step, transition.frame), (0, b"f0.png".to_vec()));
    assert_eq!(transition.rationale, "because");
    assert_eq!(transition.progress, progress(0.5));
    assert_eq!(transition.previous, progress(0.0));
    assert!(!transition.executed && !transition.completed);
    assert!(transition.cursor_motion.is_empty());
    assert!(matches!(run.recorded(), AgentStep::Observe));
    assert!(matches!(run.seen(Some(b"f1.png".to_vec())), AgentStep::Decide));
    let AgentStep::Note(transition) = run.decided(decision(vec![], true, 1.0)) else {
        unreachable!()
    };
    assert_eq!(transition.step, 1);
    assert_eq!(transition.previous, progress(0.5));
    assert!(matches!(run.recorded(), AgentStep::Finished(Ok(()))));
}

#[test]
fn live_frames_are_discarded_after_input_only() {
    let (mut run, _) = AgentRun::new(9, true, true, false, 500);
    run.seen(Some(b"f0.png".to_vec()));
    assert!(matches!(
        run.decided(decision(vec![wait(), tap()], false, 0.1)),
        AgentStep::Execute(batch) if batch.commands.len() == 2
    ));
    assert!(matches!(run.executed(vec![]), AgentStep::Discard));
    assert!(matches!(
        run.discarded(),
        AgentStep::Note(Transition { executed: true, .. })
    ));
    run.recorded();

    run.seen(Some(b"f1.png".to_vec()));
    assert!(matches!(
        run.decided(decision(vec![wait()], false, 0.1)),
        AgentStep::Execute(_)
    ));
    assert!(matches!(run.executed(vec![]), AgentStep::Note(_)));
    assert!(has_input(&[wait(), tap()]));
    assert!(!has_input(&[wait()]));
    assert!(!has_input(&[]));

    let (mut run, _) = AgentRun::new(9, true, false, false, 500);
    run.seen(Some(b"f0.png".to_vec()));
    run.decided(decision(vec![tap()], false, 0.1));
    assert!(matches!(run.executed(vec![]), AgentStep::Note(_)));
}

#[test]
fn runs_end_with_their_reason() {
    let refused = |step: AgentStep| match step {
        AgentStep::Finished(Err(message)) => message,
        _ => unreachable!(),
    };
    let (_, step) = AgentRun::new(0, false, true, true, 500);
    assert_eq!(
        refused(step),
        "agent reached max steps without completing the instructions"
    );
    let (mut run, _) = AgentRun::new(1, false, true, true, 500);
    run.seen(Some(b"f0.png".to_vec()));
    run.decided(decision(vec![], false, 0.0));
    assert_eq!(
        refused(run.recorded()),
        "agent reached max steps without completing the instructions"
    );
    let (mut run, _) = AgentRun::new(1, false, true, true, 500);
    assert_eq!(
        refused(run.seen(None)),
        "timed out after 500 ms waiting for a new live frame at step 0"
    );
    let (mut run, _) = AgentRun::new(1, false, false, true, 500);
    assert_eq!(
        refused(run.seen(None)),
        "video ended before the agent completed the instructions at step 0"
    );
    for execute in [false, true] {
        let (mut run, _) = AgentRun::new(1, execute, true, true, 500);
        run.seen(Some(b"f0.png".to_vec()));
        let bad = Action::KeyTap { key: "unknown".into() };
        assert!(!refused(run.decided(decision(vec![tap(), bad], true, 0.0))).is_empty());
    }
}

#[test]
fn frames_come_from_a_directory_or_a_video() {
    let mut live = AgentFrameSource::Live(FrameSource::new(b"f".to_vec(), true, 1).unwrap());
    assert!(live.is_live());
    assert!(matches!(
        live.next(5, 7),
        FrameRequest::Search(search) if search.deadline == 12
    ));
    live.discard_live_frames(vec![b"f/a.png".to_vec()], 1_000);
    assert!(matches!(
        &live,
        AgentFrameSource::Live(source)
            if source.directory == b"f" && source.not_before == Some(200_001_000) && source.discarded == [b"f/a.png".to_vec()]
    ));

    let mut video = AgentFrameSource::Video(
        FrameSequence::new(vec![b"b.png".to_vec(), b"a.png".to_vec()], 1).unwrap(),
    );
    assert!(!video.is_live());
    video.discard_live_frames(vec![b"a.png".to_vec()], 1_000);
    assert!(matches!(video.next(0, 0), FrameRequest::Load(path) if path == b"a.png"));
    assert!(matches!(video.next(0, 0), FrameRequest::Load(path) if path == b"b.png"));
    assert!(matches!(video.next(0, 0), FrameRequest::Ended));
}

struct Fixed;

impl Policy for Fixed {
    type Error = String;

    fn decide(
        &self,
        instructions: &str,
        trajectory: &VecDeque<computeruse::Frame>,
        transitions: &[Transition],
    ) -> Result<AgentDecision, String> {
        if instructions.is_empty() {
            return Err("nothing to do".into());
        }
        Ok(decision(vec![], transitions.len() + trajectory.len() > 0, 1.0))
    }
}

#[test]
fn policies_decide_by_what_they_are_given() {
    assert!(Fixed.decide("", &VecDeque::new(), &[]).is_err());
    assert!(!Fixed.decide("a", &VecDeque::new(), &[]).unwrap().completed);
}

#[test]
fn cursor_is_observed_where_it_is_moved_by_observation() {
    assert!(observes_cursor(true, true));
    assert!(!observes_cursor(true, false));
    assert!(!observes_cursor(false, true));
    assert!(!observes_cursor(false, false));
    assert_eq!(AGENT_VIDEO_FRAMES_PER_SECOND, 2);
}
