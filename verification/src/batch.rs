//! Executing the actions of a policy, one step at a time.

use crate::action::{self, validate_actions, Action};
use crate::controller::{Controller, MouseBackend, MouseRequest, CLICK_HOLD};
use crate::cursor::CursorMotion;
use crate::event::{Button, ButtonState};
use crate::keyboard::{self, HotkeyError, KeyboardBackend, KeyboardController};
use crate::text::{self, copy_text};
use vstd::prelude::*;

verus! {

/// One step of executing actions.
#[derive(Clone, Debug)]
pub enum Command {
    Mouse { request: MouseRequest },
    Pause { nanoseconds: u64 },
    Cursor { x: u16, y: u16 },
    Keys { hotkey: String },
}

/// What a step asks for.
pub enum Order {
    Mouse { request: MouseRequest },
    Pause { nanoseconds: nat },
    Cursor { x: u16, y: u16 },
    Keys { hotkey: Seq<char> },
}

impl View for Command {
    type V = Order;

    open spec fn view(&self) -> Order {
        match self {
            Command::Mouse { request } => Order::Mouse { request: *request },
            Command::Pause { nanoseconds } => Order::Pause { nanoseconds: *nanoseconds as nat },
            Command::Cursor { x, y } => Order::Cursor { x: *x, y: *y },
            Command::Keys { hotkey } => Order::Keys { hotkey: hotkey@ },
        }
    }
}

/// What the steps ask for.
pub open spec fn views(commands: Seq<Command>) -> Seq<Order> {
    commands.map_values(|command: Command| command@)
}

/// The steps of an action. A click holds its button for 20 ms. A movement to a place is
/// one of the cursor, where that is observed, else one of the mouse. The keys of a
/// sequence follow each other.
pub open spec fn orders(action: Action, observed: bool) -> Seq<Order> {
    match action {
        Action::MouseMove { dx, dy } => seq![
            Order::Mouse { request: MouseRequest::MoveRelative { dx, dy } },
        ],
        Action::MouseMoveTo { x, y } => if observed {
            seq![Order::Cursor { x, y }]
        } else {
            seq![Order::Mouse { request: MouseRequest::MoveAbsolute { x, y } }]
        },
        Action::MouseClick { button } => seq![
            Order::Mouse { request: MouseRequest::Button { button, state: ButtonState::Down } },
            Order::Pause { nanoseconds: CLICK_HOLD as nat },
            Order::Mouse { request: MouseRequest::Button { button, state: ButtonState::Up } },
        ],
        Action::Scroll { delta, horizontal } => seq![
            Order::Mouse { request: MouseRequest::Wheel { delta, horizontal } },
        ],
        Action::KeyTap { key } => seq![Order::Keys { hotkey: key@ }],
        Action::Hotkey { keys } => seq![Order::Keys { hotkey: keys@ }],
        Action::KeySequence { keys } => keys@.map_values(
            |key: String| Order::Keys { hotkey: key@ },
        ),
        Action::Wait { milliseconds } => seq![
            Order::Pause { nanoseconds: (milliseconds * 1_000_000) as nat },
        ],
    }
}

/// The steps of actions, in order.
pub open spec fn script(actions: Seq<Action>, observed: bool) -> Seq<Order>
    decreases actions.len(),
{
    if actions.len() == 0 {
        Seq::empty()
    } else {
        script(actions.drop_last(), observed) + orders(actions.last(), observed)
    }
}

/// Why executing actions ended early.
#[derive(Debug)]
pub enum BatchError<M, K, C> {
    /// The mouse reported an error.
    Mouse(M),
    /// A hotkey could not be sent.
    Keyboard(HotkeyError<K>),
    /// The cursor did not arrive.
    Cursor(C),
}

/// What is to be done next to execute actions.
#[derive(Debug)]
pub enum BatchStep<M, K, C> {
    /// A step was made; there may be more.
    Continue,
    /// So many nanoseconds are to pass.
    Pause { nanoseconds: u64 },
    /// The cursor is to be moved to a normalized place and what comes of it handed to
    /// `arrived`.
    MoveCursor { x: u16, y: u16 },
    /// All steps were made, or one failed.
    Finished(Result<(), BatchError<M, K, C>>),
}

/// Actions that are being executed.
pub struct ActionBatch {
    pub commands: Vec<Command>,
    /// How many steps were made.
    pub index: usize,
    /// What was measured in each movement of the cursor.
    pub motions: Vec<CursorMotion>,
}

/// Adds a step.
fn add_command(commands: &mut Vec<Command>, command: Command)
    ensures
        views(final(commands)@) == views(old(commands)@).push(command@),
{
    let ghost earlier = commands@;
    commands.push(command);
    assert(views(commands@) == views(earlier).push(command@));
}

/// Adds the steps of an action.
fn add_commands(commands: &mut Vec<Command>, action: &Action, observed: bool)
    requires
        action::complaint(*action) is None,
    ensures
        views(final(commands)@) == views(old(commands)@) + orders(*action, observed),
{
    let ghost before = views(commands@);
    match action {
        Action::MouseMove { dx, dy } => {
            add_command(
                commands,
                Command::Mouse { request: MouseRequest::MoveRelative { dx: *dx, dy: *dy } },
            );
        },
        Action::MouseMoveTo { x, y } => {
            if observed {
                add_command(commands, Command::Cursor { x: *x, y: *y });
            } else {
                add_command(
                    commands,
                    Command::Mouse { request: MouseRequest::MoveAbsolute { x: *x, y: *y } },
                );
            }
        },
        Action::MouseClick { button } => {
            let button: Button = *button;
            add_command(
                commands,
                Command::Mouse {
                    request: MouseRequest::Button { button, state: ButtonState::Down },
                },
            );
            add_command(commands, Command::Pause { nanoseconds: CLICK_HOLD });
            add_command(
                commands,
                Command::Mouse {
                    request: MouseRequest::Button { button, state: ButtonState::Up },
                },
            );
        },
        Action::Scroll { delta, horizontal } => {
            add_command(
                commands,
                Command::Mouse {
                    request: MouseRequest::Wheel { delta: *delta, horizontal: *horizontal },
                },
            );
        },
        Action::KeyTap { key } => {
            add_command(commands, Command::Keys { hotkey: copy_text(key.as_str()) });
        },
        Action::Hotkey { keys } => {
            add_command(commands, Command::Keys { hotkey: copy_text(keys.as_str()) });
        },
        Action::KeySequence { keys } => {
            let ghost all = orders(*action, observed);
            let mut index: usize = 0;
            assert(before + all.take(0) == before);
            while index < keys.len()
                invariant
                    index <= keys.len(),
                    all == keys@.map_values(|key: String| Order::Keys { hotkey: key@ }),
                    views(commands@) == before + all.take(index as int),
                decreases keys.len() - index,
            {
                add_command(commands, Command::Keys { hotkey: copy_text(keys[index].as_str()) });
                assert(all.take(index + 1) == all.take(index as int).push(all[index as int]));
                index += 1;
            }
            assert(all.take(index as int) == all);
        },
        Action::Wait { milliseconds } => {
            add_command(commands, Command::Pause { nanoseconds: *milliseconds * 1_000_000 });
        },
    }
    assert(views(commands@) =~= before + orders(*action, observed));
}

/// Begins to execute actions, with movements of the cursor where that is observed. Nothing
/// is begun where something is wrong with one of them.
pub fn execute_actions(actions: &[Action], observed: bool) -> (batch: Result<ActionBatch, String>)
    ensures
        match batch {
            Ok(found) => {
                &&& action::batch_complaint(actions@) is None
                &&& views(found.commands@) == script(actions@, observed)
                &&& found.index == 0
                &&& found.motions@.len() == 0
            },
            Err(message) => action::batch_complaint(actions@) == Some(message@),
        },
{
    match validate_actions(actions) {
        Ok(_) => {},
        Err(message) => {
            return Err(message);
        },
    }
    proof {
        action::law_every_action_is_checked(actions@);
    }
    let mut commands: Vec<Command> = Vec::new();
    let mut index: usize = 0;
    assert(actions@.take(0) == Seq::<Action>::empty());
    assert(views(commands@) == Seq::<Order>::empty());
    while index < actions.len()
        invariant
            index <= actions.len(),
            forall|at: int|
                0 <= at < actions@.len() ==> action::complaint(#[trigger] actions@[at]) is None,
            views(commands@) == script(actions@.take(index as int), observed),
        decreases actions.len() - index,
    {
        assert(actions@.take(index + 1).drop_last() == actions@.take(index as int));
        add_commands(&mut commands, &actions[index], observed);
        index += 1;
    }
    assert(actions@.take(index as int) == actions@);
    Ok(ActionBatch { commands, index: 0, motions: Vec::new() })
}

impl ActionBatch {
    /// What the next step asks for.
    pub open spec fn due(self) -> Option<Order> {
        if self.index < self.commands@.len() {
            Some(views(self.commands@)[self.index as int])
        } else {
            None
        }
    }

    /// The actions with one step made.
    pub open spec fn advanced(self) -> ActionBatch {
        ActionBatch { index: (self.index + 1) as usize, ..self }
    }

    /// The actions with no step left.
    pub open spec fn stopped(self) -> ActionBatch {
        ActionBatch { index: self.commands@.len() as usize, ..self }
    }

    /// Makes the next step. A pause and a movement of the cursor are left to the caller. A
    /// step that fails is the last.
    pub fn resume<M: MouseBackend, K: KeyboardBackend, C>(
        &mut self,
        mouse: &mut Controller<M>,
        keyboard: &mut KeyboardController<K>,
    ) -> (step: BatchStep<M::Error, K::Error, C>)
        ensures
            match old(self).due() {
                None => {
                    &&& step matches BatchStep::Finished(outcome) && outcome is Ok
                    &&& *final(self) == *old(self)
                    &&& final(mouse).calls() == old(mouse).calls()
                    &&& final(keyboard).calls() == old(keyboard).calls()
                },
                Some(Order::Pause { nanoseconds }) => {
                    &&& step matches BatchStep::Pause { nanoseconds: asked } && asked == nanoseconds
                    &&& *final(self) == old(self).advanced()
                    &&& final(mouse).calls() == old(mouse).calls()
                    &&& final(keyboard).calls() == old(keyboard).calls()
                },
                Some(Order::Cursor { x, y }) => {
                    &&& step == (BatchStep::<M::Error, K::Error, C>::MoveCursor { x, y })
                    &&& *final(self) == *old(self)
                    &&& final(mouse).calls() == old(mouse).calls()
                    &&& final(keyboard).calls() == old(keyboard).calls()
                },
                Some(Order::Mouse { request }) => {
                    let outcome = final(mouse).calls().last().1;
                    &&& final(mouse).calls() == old(mouse).calls().push((request, outcome))
                    &&& final(keyboard).calls() == old(keyboard).calls()
                    &&& match outcome {
                        Ok(_) => step is Continue && *final(self) == old(self).advanced(),
                        Err(error) => {
                            &&& step == BatchStep::Finished(
                                Err::<(), BatchError<M::Error, K::Error, C>>(
                                    BatchError::Mouse(error),
                                ),
                            )
                            &&& *final(self) == old(self).stopped()
                        },
                    }
                },
                Some(Order::Keys { hotkey }) => {
                    let sent = final(keyboard).calls().skip(old(keyboard).calls().len() as int);
                    &&& final(mouse).calls() == old(mouse).calls()
                    &&& old(keyboard).calls().len() <= final(keyboard).calls().len()
                    &&& final(keyboard).calls().take(old(keyboard).calls().len() as int) == old(
                        keyboard,
                    ).calls()
                    &&& if !keyboard::hotkey_known(hotkey) {
                        &&& step matches BatchStep::Finished(
                            Err(BatchError::Keyboard(HotkeyError::Unknown(message))),
                        ) && exists|at: int| #[trigger]
                            keyboard::first_unknown(hotkey, at) && message@
                                == keyboard::unknown_key(text::split(hotkey, '+')[at])
                        &&& final(keyboard).calls() == old(keyboard).calls()
                        &&& *final(self) == old(self).stopped()
                    } else {
                        ||| {
                            &&& step is Continue
                            &&& keyboard::chorded(
                                keyboard::hotkey_codes(hotkey),
                                sent,
                                None::<K::Error>,
                            )
                            &&& *final(self) == old(self).advanced()
                        }
                        ||| {
                            &&& step matches BatchStep::Finished(
                                Err(BatchError::Keyboard(HotkeyError::Backend(error))),
                            ) && keyboard::chorded(
                                keyboard::hotkey_codes(hotkey),
                                sent,
                                Some(error),
                            )
                            &&& *final(self) == old(self).stopped()
                        }
                    }
                },
            },
    {
        if self.index >= self.commands.len() {
            return BatchStep::Finished(Ok(()));
        }
        match &self.commands[self.index] {
            Command::Pause { nanoseconds } => {
                let nanoseconds: u64 = *nanoseconds;
                self.index += 1;
                BatchStep::Pause { nanoseconds }
            },
            Command::Cursor { x, y } => BatchStep::MoveCursor { x: *x, y: *y },
            Command::Mouse { request } => {
                let request: MouseRequest = *request;
                match mouse.send(request) {
                    Ok(_) => {
                        self.index += 1;
                        BatchStep::Continue
                    },
                    Err(error) => {
                        self.index = self.commands.len();
                        BatchStep::Finished(Err(BatchError::Mouse(error)))
                    },
                }
            },
            Command::Keys { hotkey } => match keyboard.send_hotkey(hotkey.as_str()) {
                Ok(_) => {
                    self.index += 1;
                    BatchStep::Continue
                },
                Err(error) => {
                    self.index = self.commands.len();
                    BatchStep::Finished(Err(BatchError::Keyboard(error)))
                },
            },
        }
    }

    /// Takes in what came of a movement of the cursor. One that failed is the last step.
    pub fn arrived<M, K, C>(&mut self, outcome: Result<CursorMotion, C>) -> (step: BatchStep<
        M,
        K,
        C,
    >)
        requires
            old(self).due() matches Some(Order::Cursor { .. }),
        ensures
            match outcome {
                Ok(motion) => {
                    &&& step is Continue
                    &&& final(self).commands == old(self).commands
                    &&& final(self).index == old(self).index + 1
                    &&& final(self).motions@ == old(self).motions@.push(motion)
                },
                Err(error) => {
                    &&& step == BatchStep::Finished(
                        Err::<(), BatchError<M, K, C>>(BatchError::Cursor(error)),
                    )
                    &&& *final(self) == old(self).stopped()
                },
            },
    {
        match outcome {
            Ok(motion) => {
                self.motions.push(motion);
                assert(self.index < self.commands.len());
                self.index += 1;
                BatchStep::Continue
            },
            Err(error) => {
                self.index = self.commands.len();
                BatchStep::Finished(Err(BatchError::Cursor(error)))
            },
        }
    }
}

/// Actions are executed in order: the steps of some actions come before those of the
/// actions that follow them.
pub proof fn law_actions_follow_each_other(first: Seq<Action>, second: Seq<Action>, observed: bool)
    ensures
        script(first + second, observed) == script(first, observed) + script(second, observed),
    decreases second.len(),
{
    if second.len() == 0 {
        assert(first + second == first);
        assert(script(first, observed) + Seq::<Order>::empty() == script(first, observed));
    } else {
        law_actions_follow_each_other(first, second.drop_last(), observed);
        assert((first + second).drop_last() == first + second.drop_last());
        assert((first + second).last() == second.last());
        assert(script(first, observed) + (script(second.drop_last(), observed) + orders(
            second.last(),
            observed,
        )) == (script(first, observed) + script(second.drop_last(), observed)) + orders(
            second.last(),
            observed,
        ));
    }
}

/// The keys of a sequence are sent one by one, each as often as it occurs: a sequence is
/// as many steps as it has keys.
pub proof fn law_sequence_sends_each_key(keys: Vec<String>, observed: bool)
    ensures
        orders(Action::KeySequence { keys }, observed).len() == keys@.len(),
        forall|index: int|
            0 <= index < keys@.len() ==> #[trigger] orders(
                Action::KeySequence { keys },
                observed,
            )[index] == (Order::Keys { hotkey: keys@[index]@ }),
{
}

/// After a step that failed nothing is due.
pub proof fn law_failure_ends_the_batch(batch: ActionBatch)
    ensures
        batch.stopped().due() is None,
{
    assert(batch.commands@.len() == batch.commands.len());
}

/// Without observation of the cursor nothing waits for it, and with it a movement to a
/// place never goes to the mouse.
pub proof fn law_observed_movement_is_verified(action: Action, observed: bool)
    ensures
        forall|index: int|
            0 <= index < orders(action, observed).len() ==> {
                &&& !observed ==> !((#[trigger] orders(action, observed)[index]) is Cursor)
                &&& observed ==> !(orders(action, observed)[index] matches Order::Mouse {
                    request: MouseRequest::MoveAbsolute { .. },
                })
            },
{
}

/// How many movements of the cursor there are among some steps.
pub open spec fn movements(steps: Seq<Order>) -> nat {
    steps.filter(|step: Order| step is Cursor).len()
}

/// There is one report for each movement of the cursor, in the order of the actions: as
/// many reports as movements before the next step, at the start and after each step that
/// is made.
pub proof fn law_one_report_for_each_movement(batch: ActionBatch, next: ActionBatch)
    requires
        batch.index < batch.commands@.len(),
        next.commands == batch.commands,
        next.index == batch.index + 1,
        batch.due() matches Some(Order::Cursor { .. }) ==> next.motions@.len()
            == batch.motions@.len() + 1,
        !(batch.due() matches Some(Order::Cursor { .. })) ==> next.motions == batch.motions,
        batch.motions@.len() == movements(views(batch.commands@).take(batch.index as int)),
    ensures
        movements(views(batch.commands@).take(0)) == 0,
        next.motions@.len() == movements(views(next.commands@).take(next.index as int)),
{
    let steps = views(batch.commands@);
    let test = |step: Order| step is Cursor;
    reveal(Seq::filter);
    assert(steps.take(0) == Seq::<Order>::empty());
    assert(steps.take(batch.index + 1).drop_last() == steps.take(batch.index as int));
    assert(steps.take(batch.index + 1).last() == steps[batch.index as int]);
    assert(steps.take(batch.index + 1).filter(test) == if test(steps[batch.index as int]) {
        steps.take(batch.index as int).filter(test).push(steps[batch.index as int])
    } else {
        steps.take(batch.index as int).filter(test)
    });
}

/// A movement goes to the mouse as it is, in one step.
pub proof fn law_movement_is_one_request(dx: i32, dy: i32, observed: bool)
    ensures
        orders(Action::MouseMove { dx, dy }, observed) == seq![
            Order::Mouse { request: MouseRequest::MoveRelative { dx, dy } },
        ],
{
}

/// A movement to a place asks for that place: of the cursor, where that is observed, and
/// of the mouse where it is not.
pub proof fn law_place_is_kept(x: u16, y: u16)
    ensures
        orders(Action::MouseMoveTo { x, y }, true) == seq![Order::Cursor { x, y }],
        orders(Action::MouseMoveTo { x, y }, false) == seq![
            Order::Mouse { request: MouseRequest::MoveAbsolute { x, y } },
        ],
{
}

/// A click presses its button, waits for 20 ms and releases the same button.
pub proof fn law_click_presses_and_releases(button: Button, observed: bool)
    ensures
        orders(Action::MouseClick { button }, observed) == seq![
            Order::Mouse { request: MouseRequest::Button { button, state: ButtonState::Down } },
            Order::Pause { nanoseconds: 20_000_000 },
            Order::Mouse { request: MouseRequest::Button { button, state: ButtonState::Up } },
        ],
{
}

/// Scrolling turns the wheel by as much, along the same axis.
pub proof fn law_scrolling_turns_the_wheel(delta: i32, horizontal: bool, observed: bool)
    ensures
        orders(Action::Scroll { delta, horizontal }, observed) == seq![
            Order::Mouse { request: MouseRequest::Wheel { delta, horizontal } },
        ],
{
}

/// A key and a hotkey are sent under the names that they have.
pub proof fn law_keys_are_sent_by_name(key: String, observed: bool)
    ensures
        orders(Action::KeyTap { key }, observed) == seq![Order::Keys { hotkey: key@ }],
        orders(Action::Hotkey { keys: key }, observed) == seq![Order::Keys { hotkey: key@ }],
{
}

/// Waiting is a pause of as many milliseconds.
pub proof fn law_wait_is_a_pause(milliseconds: u64, observed: bool)
    ensures
        orders(Action::Wait { milliseconds }, observed).len() == 1,
        orders(Action::Wait { milliseconds }, observed)[0] matches Order::Pause { nanoseconds }
            && nanoseconds == milliseconds * 1000 * 1000,
{
    assert(milliseconds * 1_000_000 == milliseconds * 1000 * 1000) by (nonlinear_arith);
}

/// The steps of an action stand between those of the actions before it and those of the
/// actions after it.
pub proof fn law_each_action_has_its_steps(actions: Seq<Action>, at: int, observed: bool)
    requires
        0 <= at < actions.len(),
    ensures
        script(actions, observed) == script(actions.take(at), observed) + orders(
            actions[at],
            observed,
        ) + script(actions.skip(at + 1), observed),
{
    let first = actions.take(at);
    let one = seq![actions[at]];
    let rest = actions.skip(at + 1);
    assert(actions =~= first + one + rest);
    law_actions_follow_each_other(first + one, rest, observed);
    law_actions_follow_each_other(first, one, observed);
    assert(one.drop_last() =~= Seq::empty());
    assert(script(one.drop_last(), observed) =~= Seq::empty());
    assert(script(one, observed) =~= orders(actions[at], observed));
}

/// What is due is the step after those that were made, as long as there is one; a step
/// that was made is not due again.
pub proof fn law_steps_are_due_in_order(batch: ActionBatch, at: int)
    requires
        0 <= at < batch.commands@.len(),
        batch.index == at,
    ensures
        batch.due() == Some(batch.commands@[at]@),
        batch.advanced().index == at + 1,
        batch.advanced().commands == batch.commands,
        batch.advanced().motions == batch.motions,
        at + 1 < batch.commands@.len() ==> batch.advanced().due() == Some(
            batch.commands@[at + 1]@,
        ),
        at + 1 == batch.commands@.len() ==> batch.advanced().due() is None,
        batch.stopped().motions == batch.motions,
{
    assert(batch.commands@.len() == batch.commands.len());
}

/// A step asks for what it holds.
pub proof fn law_steps_ask_for_what_they_hold(
    request: MouseRequest,
    nanoseconds: u64,
    x: u16,
    y: u16,
    hotkey: String,
)
    ensures
        (Command::Mouse { request })@ == (Order::Mouse { request }),
        (Command::Pause { nanoseconds })@ == (Order::Pause { nanoseconds: nanoseconds as nat }),
        (Command::Cursor { x, y })@ == (Order::Cursor { x, y }),
        (Command::Keys { hotkey })@ == (Order::Keys { hotkey: hotkey@ }),
{
}

} // verus!
