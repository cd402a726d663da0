//! Bringing a window to the front, as EWMH has it.

use crate::number::{self, append_hexadecimal};
use crate::text::{self, append, chars_of, copy_text, first_index, quoted};
use crate::x11::{
    self, activation_request, matching_window, wm_class_matches, ActivationRequest, ATOM_STRING,
    ATOM_WINDOW,
};
use vstd::prelude::*;

verus! {

/// How long the window manager may take, in nanoseconds.
pub const FOCUS_TIMEOUT: u64 = 2_000_000_000;

/// The time between two looks at the active window, in nanoseconds.
pub const FOCUS_POLL_INTERVAL: u64 = 20_000_000;

/// What is to be done next to bring a window to the front.
#[derive(Debug)]
pub enum FocusStep {
    /// The atom with a name is to be looked up, if there is one.
    Atom { name: &'static str },
    /// A property of the root window is to be read.
    Windows { property: u32 },
    /// The class of a window is to be read.
    Class { window: u32 },
    /// A message is to be sent to the root window.
    Send { request: ActivationRequest },
    /// The attributes of a window are to be read.
    Attributes { window: u32 },
    /// The time is to be read.
    Clock,
    /// So many nanoseconds are to pass.
    Pause { nanoseconds: u64 },
    /// The window is at the front, or cannot be brought there.
    Finished(Result<(), String>),
}

/// A property that was read: the atom of its type, the bits of each item, and its items.
#[derive(Debug)]
pub struct WindowsReply {
    pub kind: u32,
    pub format: u8,
    pub windows: Vec<u32>,
}

/// A property that was read: the atom of its type, the bits of each item, and its bytes.
#[derive(Debug)]
pub struct ClassReply {
    pub kind: u32,
    pub format: u8,
    pub value: Vec<u8>,
}

/// How far bringing a window to the front has come.
#[derive(Clone, Copy, Debug, Eq, PartialEq, Structural)]
pub enum FocusPhase {
    /// The atom of the list of windows is looked up.
    ListAtom,
    /// The atom of the active window is looked up.
    ActiveAtom,
    /// The list of windows is read.
    List,
    /// The class of a window of the list is read.
    Class { index: usize },
    /// The active window is read.
    Active,
    /// The window manager is asked.
    Sending,
    /// The time is read from which on it is waited.
    Starting,
    /// The attributes of the window are read.
    Viewing,
    /// The active window is read again.
    Checking { viewable: bool },
    /// The time is read.
    Timing,
    /// Time passes.
    Pausing,
    /// It is over.
    Over,
}

/// A window that is being brought to the front.
pub struct Focus {
    pub class: String,
    pub phase: FocusPhase,
    pub list_atom: u32,
    pub active_atom: u32,
    /// The windows that are managed.
    pub windows: Vec<u32>,
    /// Those of them that have the class.
    pub matches: Vec<u32>,
    pub target: u32,
    /// The time at which it is given up, in nanoseconds.
    pub deadline: u128,
}

/// What is said of a window manager without an atom.
pub open spec fn not_provided(name: Seq<char>) -> Seq<char> {
    "window manager does not provide EWMH "@ + name
}

/// What is said of a property that is missing or of another kind.
pub open spec fn invalid_property(name: Seq<char>) -> Seq<char> {
    "window manager has missing or invalid EWMH "@ + name
}

/// What is said of a window manager that did not react.
pub open spec fn not_acknowledged(target: u32, class: Seq<char>) -> Seq<char> {
    "timed out waiting for window 0x"@ + number::hexadecimal(target as nat) + " ("@
        + text::quoted_text(class)
        + ") to become active and viewable; window manager did not acknowledge activation"@
}

/// Whether a step is a failure with a message.
pub open spec fn fails(step: FocusStep, said: Seq<char>) -> bool {
    step matches FocusStep::Finished(Err(message)) && message@ == said
}

/// What is wrong with the property of the active window.
pub open spec fn active_complaint(reply: WindowsReply) -> Option<Seq<char>> {
    if reply.kind != ATOM_WINDOW || reply.format != 32 {
        Some(invalid_property("_NET_ACTIVE_WINDOW"@))
    } else if reply.windows@.len() != 1 {
        Some("invalid EWMH _NET_ACTIVE_WINDOW length"@)
    } else {
        None
    }
}

/// The active window in a property.
fn read_active(reply: &WindowsReply) -> (window: Result<u32, String>)
    ensures
        match window {
            Ok(found) => active_complaint(*reply) is None && found == reply.windows@[0],
            Err(message) => active_complaint(*reply) == Some(message@),
        },
{
    if reply.kind != ATOM_WINDOW || reply.format != 32 {
        return Err(
            append(copy_text("window manager has missing or invalid EWMH "), "_NET_ACTIVE_WINDOW"),
        );
    }
    if reply.windows.len() != 1 {
        return Err(copy_text("invalid EWMH _NET_ACTIVE_WINDOW length"));
    }
    Ok(reply.windows[0])
}

/// Whether a class can be looked for: it is not empty and holds no zero character.
pub open spec fn searchable(class: Seq<char>) -> bool {
    class.len() > 0 && !class.contains('\0')
}

/// Begins to bring the window with a class to the front: the one that is active, else the
/// only one. It is at the front when the window manager says that it is active and it can
/// be seen.
pub fn focus_window(class: &str) -> (begun: Result<(Focus, FocusStep), String>)
    ensures
        match begun {
            Ok((focus, step)) => {
                &&& searchable(class@)
                &&& focus.class@ == class@
                &&& focus.phase is ListAtom
                &&& focus.windows@.len() == 0 && focus.matches@.len() == 0
                &&& focus.wf()
                &&& step matches FocusStep::Atom { name } && name@ == "_NET_CLIENT_LIST"@
            },
            Err(message) => !searchable(class@) && message@
                == "window class must be nonempty and contain no NUL bytes"@,
        },
{
    let letters: Vec<char> = chars_of(class);
    proof {
        letters@.index_of_first_ensures('\0');
    }
    if letters.len() == 0 || first_index(&letters, '\0').is_some() {
        return Err(copy_text("window class must be nonempty and contain no NUL bytes"));
    }
    let focus: Focus = Focus {
        class: copy_text(class),
        phase: FocusPhase::ListAtom,
        list_atom: 0,
        active_atom: 0,
        windows: Vec::new(),
        matches: Vec::new(),
        target: 0,
        deadline: 0,
    };
    Ok((focus, FocusStep::Atom { name: "_NET_CLIENT_LIST" }))
}

/// Whether a property says that a window has a class.
pub open spec fn has_class(reply: ClassReply, class: Seq<char>) -> bool {
    reply.kind == ATOM_STRING && reply.format == 8 && x11::class_matches(reply.value@, class)
}

impl Focus {
    /// A class is read only where there is a window, and the window that was chosen has
    /// the class.
    pub open spec fn wf(self) -> bool {
        &&& self.phase matches FocusPhase::Class { index } ==> index < self.windows@.len()
        &&& self.chose() ==> self.matches@.contains(self.target)
    }

    /// Whether a window was chosen and is not yet at the front.
    pub open spec fn chose(self) -> bool {
        match self.phase {
            FocusPhase::Sending => true,
            FocusPhase::Starting => true,
            FocusPhase::Viewing => true,
            FocusPhase::Checking { .. } => true,
            FocusPhase::Timing => true,
            FocusPhase::Pausing => true,
            _ => false,
        }
    }

    /// Whether it is another that has come to a phase, with the same class.
    pub open spec fn follows(self, before: Focus) -> bool {
        self.class == before.class
    }

    /// Ends with a failure.
    fn fail(&mut self, message: String) -> (step: FocusStep)
        ensures
            step == FocusStep::Finished(Err::<(), String>(message)),
            *final(self) == (Focus { phase: FocusPhase::Over, ..*old(self) }),
    {
        self.phase = FocusPhase::Over;
        FocusStep::Finished(Err(message))
    }

    /// Takes in the atom that was looked up; zero stands for none.
    pub fn atom(&mut self, atom: u32) -> (step: FocusStep)
        requires
            old(self).wf(),
            old(self).phase is ListAtom || old(self).phase is ActiveAtom,
        ensures
            final(self).wf(),
            final(self).follows(*old(self)),
            if old(self).phase is ListAtom {
                if atom == 0 {
                    final(self).phase is Over && fails(step, not_provided("_NET_CLIENT_LIST"@))
                } else {
                    &&& *final(self) == (Focus {
                        phase: FocusPhase::ActiveAtom,
                        list_atom: atom,
                        ..*old(self)
                    })
                    &&& step matches FocusStep::Atom { name } && name@ == "_NET_ACTIVE_WINDOW"@
                }
            } else {
                if atom == 0 {
                    final(self).phase is Over && fails(step, not_provided("_NET_ACTIVE_WINDOW"@))
                } else {
                    &&& *final(self) == (Focus {
                        phase: FocusPhase::List,
                        active_atom: atom,
                        ..*old(self)
                    })
                    &&& step == (FocusStep::Windows { property: old(self).list_atom })
                }
            },
    {
        match self.phase {
            FocusPhase::ListAtom => {
                if atom == 0 {
                    return self.fail(
                        append(
                            copy_text("window manager does not provide EWMH "),
                            "_NET_CLIENT_LIST",
                        ),
                    );
                }
                self.list_atom = atom;
                self.phase = FocusPhase::ActiveAtom;
                FocusStep::Atom { name: "_NET_ACTIVE_WINDOW" }
            },
            _ => {
                if atom == 0 {
                    return self.fail(
                        append(
                            copy_text("window manager does not provide EWMH "),
                            "_NET_ACTIVE_WINDOW",
                        ),
                    );
                }
                self.active_atom = atom;
                self.phase = FocusPhase::List;
                FocusStep::Windows { property: self.list_atom }
            },
        }
    }

    /// Goes on to the class of a window, or to the active window after the last.
    fn look_at(&mut self, index: usize) -> (step: FocusStep)
        requires
            index <= old(self).windows@.len(),
        ensures
            final(self).wf(),
            if index < old(self).windows@.len() {
                &&& *final(self) == (Focus { phase: FocusPhase::Class { index }, ..*old(self) })
                &&& step == (FocusStep::Class { window: old(self).windows@[index as int] })
            } else {
                &&& *final(self) == (Focus { phase: FocusPhase::Active, ..*old(self) })
                &&& step == (FocusStep::Windows { property: old(self).active_atom })
            },
    {
        if index < self.windows.len() {
            self.phase = FocusPhase::Class { index };
            FocusStep::Class { window: self.windows[index] }
        } else {
            self.phase = FocusPhase::Active;
            FocusStep::Windows { property: self.active_atom }
        }
    }

    /// Takes in the list of managed windows.
    pub fn listed(&mut self, reply: WindowsReply) -> (step: FocusStep)
        requires
            old(self).wf(),
            old(self).phase is List,
        ensures
            final(self).wf(),
            final(self).follows(*old(self)),
            if reply.kind != ATOM_WINDOW || reply.format != 32 {
                final(self).phase is Over && fails(step, invalid_property("_NET_CLIENT_LIST"@))
            } else {
                &&& final(self).windows == reply.windows
                &&& final(self).matches == old(self).matches
                &&& final(self).active_atom == old(self).active_atom
                &&& if reply.windows@.len() > 0 {
                    &&& final(self).phase == (FocusPhase::Class { index: 0 })
                    &&& step == (FocusStep::Class { window: reply.windows@[0] })
                } else {
                    &&& final(self).phase is Active
                    &&& step == (FocusStep::Windows { property: old(self).active_atom })
                }
            },
    {
        if reply.kind != ATOM_WINDOW || reply.format != 32 {
            return self.fail(
                append(
                    copy_text("window manager has missing or invalid EWMH "),
                    "_NET_CLIENT_LIST",
                ),
            );
        }
        self.windows = reply.windows;
        self.look_at(0)
    }

    /// Takes in the class of a window.
    pub fn classified(&mut self, reply: ClassReply) -> (step: FocusStep)
        requires
            old(self).wf(),
            old(self).phase is Class,
        ensures
            final(self).wf(),
            final(self).follows(*old(self)),
            ({
                let index = old(self).phase->index;
                let window = old(self).windows@[index as int];
                &&& final(self).windows == old(self).windows
                &&& final(self).active_atom == old(self).active_atom
                &&& final(self).matches@ == if has_class(reply, old(self).class@) {
                    old(self).matches@.push(window)
                } else {
                    old(self).matches@
                }
                &&& if index + 1 < old(self).windows@.len() {
                    &&& final(self).phase == (FocusPhase::Class { index: (index + 1) as usize })
                    &&& step == (FocusStep::Class { window: old(self).windows@[index + 1] })
                } else {
                    &&& final(self).phase is Active
                    &&& step == (FocusStep::Windows { property: old(self).active_atom })
                }
            }),
    {
        let index: usize = match self.phase {
            FocusPhase::Class { index } => index,
            _ => 0,
        };
        if reply.kind == ATOM_STRING && reply.format == 8 && wm_class_matches(
            &reply.value,
            self.class.as_str(),
        ) {
            let window: u32 = self.windows[index];
            self.matches.push(window);
        }
        assert(index < self.windows.len());
        self.look_at(index + 1)
    }

    /// Takes in the active window: chooses the window that is meant and asks the window
    /// manager to activate it, where it is not active.
    pub fn found_active(&mut self, reply: WindowsReply) -> (step: FocusStep)
        requires
            old(self).wf(),
            old(self).phase is Active,
        ensures
            final(self).wf(),
            final(self).follows(*old(self)),
            match active_complaint(reply) {
                Some(said) => final(self).phase is Over && fails(step, said),
                None => {
                    let active = reply.windows@[0];
                    match x11::meant(old(self).matches@, active) {
                        Some(target) => {
                            &&& final(self).target == target
                            &&& if target == active {
                                final(self).phase is Starting && step is Clock
                            } else {
                                &&& final(self).phase is Sending
                                &&& step == (FocusStep::Send {
                                    request: ActivationRequest {
                                        format: 32,
                                        window: target,
                                        kind: old(self).active_atom,
                                        source: 2,
                                        time: 0,
                                        active,
                                    },
                                })
                            }
                        },
                        None => {
                            &&& final(self).phase is Over
                            &&& fails(
                                step,
                                x11::not_meant(old(self).matches@, old(self).class@),
                            )
                        },
                    }
                },
            },
            final(self).active_atom == old(self).active_atom,
            final(self).matches == old(self).matches,
    {
        let active: u32 = match read_active(&reply) {
            Ok(active) => active,
            Err(message) => {
                return self.fail(message);
            },
        };
        match matching_window(&self.matches, active, self.class.as_str()) {
            Err(message) => self.fail(message),
            Ok(target) => {
                self.target = target;
                match activation_request(target, self.active_atom, active) {
                    Some(request) => {
                        self.phase = FocusPhase::Sending;
                        FocusStep::Send { request }
                    },
                    None => {
                        self.phase = FocusPhase::Starting;
                        FocusStep::Clock
                    },
                }
            },
        }
    }

    /// Takes in that the message was sent.
    pub fn sent(&mut self) -> (step: FocusStep)
        requires
            old(self).wf(),
            old(self).phase is Sending,
        ensures
            final(self).wf(),
            *final(self) == (Focus { phase: FocusPhase::Starting, ..*old(self) }),
            step is Clock,
    {
        self.phase = FocusPhase::Starting;
        FocusStep::Clock
    }

    /// Takes in the time, in nanoseconds: at first the one from which on it is waited for
    /// two seconds, later the one at which the window was not at the front.
    pub fn timed(&mut self, now: u128) -> (step: FocusStep)
        requires
            old(self).wf(),
            old(self).phase is Starting || old(self).phase is Timing,
            now + FOCUS_TIMEOUT <= u128::MAX,
        ensures
            final(self).wf(),
            final(self).follows(*old(self)),
            final(self).target == old(self).target,
            final(self).active_atom == old(self).active_atom,
            if old(self).phase is Starting {
                &&& final(self).deadline == now + FOCUS_TIMEOUT
                &&& final(self).deadline == now + 2_000_000_000
                &&& final(self).phase is Viewing
                &&& step == (FocusStep::Attributes { window: old(self).target })
            } else if now < old(self).deadline {
                &&& final(self).deadline == old(self).deadline
                &&& final(self).phase is Pausing
                &&& step == (FocusStep::Pause { nanoseconds: FOCUS_POLL_INTERVAL })
                &&& step == (FocusStep::Pause { nanoseconds: 20_000_000 })
            } else {
                &&& final(self).phase is Over
                &&& fails(step, not_acknowledged(old(self).target, old(self).class@))
            },
    {
        match self.phase {
            FocusPhase::Starting => {
                self.deadline = now + FOCUS_TIMEOUT as u128;
                self.phase = FocusPhase::Viewing;
                FocusStep::Attributes { window: self.target }
            },
            _ => {
                if now < self.deadline {
                    self.phase = FocusPhase::Pausing;
                    return FocusStep::Pause { nanoseconds: FOCUS_POLL_INTERVAL };
                }
                let m: String = append_hexadecimal(
                    copy_text("timed out waiting for window 0x"),
                    self.target as u64,
                );
                let m: String = append(append(m, " ("), quoted(self.class.as_str()).as_str());
                let message: String = append(
                    m,
                    ") to become active and viewable; window manager did not acknowledge activation",
                );
                self.fail(message)
            },
        }
    }

    /// Takes in that the pause has passed.
    pub fn paused(&mut self) -> (step: FocusStep)
        requires
            old(self).wf(),
            old(self).phase is Pausing,
        ensures
            final(self).wf(),
            *final(self) == (Focus { phase: FocusPhase::Viewing, ..*old(self) }),
            step == (FocusStep::Attributes { window: old(self).target }),
    {
        self.phase = FocusPhase::Viewing;
        FocusStep::Attributes { window: self.target }
    }

    /// Takes in whether the window can be seen.
    pub fn viewed(&mut self, viewable: bool) -> (step: FocusStep)
        requires
            old(self).wf(),
            old(self).phase is Viewing,
        ensures
            final(self).wf(),
            *final(self) == (Focus { phase: FocusPhase::Checking { viewable }, ..*old(self) }),
            step == (FocusStep::Windows { property: old(self).active_atom }),
    {
        self.phase = FocusPhase::Checking { viewable };
        FocusStep::Windows { property: self.active_atom }
    }

    /// Takes in the active window again: the window is at the front where it is active and
    /// can be seen.
    pub fn checked(&mut self, reply: WindowsReply) -> (step: FocusStep)
        requires
            old(self).wf(),
            old(self).phase is Checking,
        ensures
            final(self).wf(),
            final(self).follows(*old(self)),
            final(self).target == old(self).target,
            final(self).deadline == old(self).deadline,
            final(self).active_atom == old(self).active_atom,
            match active_complaint(reply) {
                Some(said) => final(self).phase is Over && fails(step, said),
                None => if reply.windows@[0] == old(self).target && old(self).phase->viewable {
                    &&& final(self).phase is Over
                    &&& step matches FocusStep::Finished(outcome) && outcome is Ok
                } else {
                    final(self).phase is Timing && step is Clock
                },
            },
    {
        let viewable: bool = match self.phase {
            FocusPhase::Checking { viewable } => viewable,
            _ => false,
        };
        let active: u32 = match read_active(&reply) {
            Ok(active) => active,
            Err(message) => {
                return self.fail(message);
            },
        };
        if active == self.target && viewable {
            self.phase = FocusPhase::Over;
            return FocusStep::Finished(Ok(()));
        }
        self.phase = FocusPhase::Timing;
        FocusStep::Clock
    }
}

/// The window that is brought to the front is never an arbitrary one: it is one of those
/// that have the class, and where it is not the active one it is the only one.
pub proof fn law_focus_is_never_arbitrary(focus: Focus, active: u32)
    requires
        focus.wf(),
        focus.chose(),
    ensures
        focus.matches@.contains(focus.target),
        x11::meant(focus.matches@, active) == Some(focus.target) && focus.target != active
            ==> focus.matches@.len() == 1,
{
}

/// The active window is told by one window of 32 bits, and by nothing else.
pub proof fn law_active_window_is_one(reply: WindowsReply)
    ensures
        active_complaint(reply) is None <==> reply.kind == 33 && reply.format == 32
            && reply.windows@.len() == 1,
{
}

/// A property tells a class where it is a text of 8 bits that names it.
pub proof fn law_class_is_a_text(reply: ClassReply, class: Seq<char>)
    ensures
        has_class(reply, class) <==> reply.kind == 31 && reply.format == 8 && x11::class_matches(
            reply.value@,
            class,
        ),
        has_class(reply, class) ==> class.len() > 0,
{
}

/// A class can be looked for where it has characters, none of them zero.
pub proof fn law_searchable_classes(class: Seq<char>)
    ensures
        searchable(class) <==> class.len() > 0 && forall|index: int|
            0 <= index < class.len() ==> #[trigger] class[index] != '\0',
{
}

/// A window manager that did not react is told with the window, in hexadecimal, and its
/// class.
pub proof fn law_missing_reaction_is_told(target: u32, class: Seq<char>)
    ensures
        text::begins(
            not_acknowledged(target, class),
            "timed out waiting for window 0x"@ + number::hexadecimal(target as nat) + " ("@
                + text::quoted_text(class),
        ),
        text::ends(not_provided(class), class),
        text::ends(invalid_property(class), class),
{
    let start = "timed out waiting for window 0x"@ + number::hexadecimal(target as nat) + " ("@
        + text::quoted_text(class);
    let said = not_acknowledged(target, class);
    assert(said.take(start.len() as int) =~= start);
    text::lemma_part_occurs("window manager does not provide EWMH "@, class, Seq::empty());
    text::lemma_part_occurs("window manager has missing or invalid EWMH "@, class, Seq::empty());
}

} // verus!
