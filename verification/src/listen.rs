//! Listening to input devices, one after the other.

use crate::linux::{self, is_keyboard, is_mouse};
use crate::text::copy_text;
use vstd::prelude::*;

verus! {

/// How long to wait where no device had an event, in nanoseconds.
pub const LISTEN_PAUSE: u64 = 2_000_000;

/// What is to be done next to listen.
#[derive(Clone, Copy, Debug, Eq, PartialEq, Structural)]
pub enum ListenStep {
    /// A device is to be asked for its events. Each is to be handed on and told to
    /// `heard`, until there is none left, which is to be told to `drained`.
    Poll { device: usize },
    /// So many nanoseconds are to pass; then the first device is to be asked.
    Pause { nanoseconds: u64 },
    /// Nothing is listened for any more.
    Finished,
}

/// Rounds over some devices.
#[derive(Clone, Copy, Debug, Eq, PartialEq, Structural)]
pub struct Listening {
    /// How many devices there are.
    pub devices: usize,
    /// The device that is asked.
    pub device: usize,
    /// Whether there was an event in this round.
    pub had_event: bool,
    pub over: bool,
}

impl Listening {
    /// One of the devices is asked.
    pub open spec fn wf(self) -> bool {
        self.device < self.devices
    }

    /// Begins to listen to so many devices.
    pub fn new(devices: usize) -> (begun: (Listening, ListenStep))
        requires
            devices > 0,
        ensures
            begun.0 == (Listening { devices, device: 0, had_event: false, over: false }),
            begun.0.wf(),
            begun.1 == (ListenStep::Poll { device: 0 }),
    {
        (
            Listening { devices, device: 0, had_event: false, over: false },
            ListenStep::Poll { device: 0 },
        )
    }

    /// Takes in that an event was handed on, and whether it is the last that is wanted.
    pub fn heard(&mut self, last: bool) -> (step: ListenStep)
        requires
            old(self).wf(),
            !old(self).over,
        ensures
            final(self).wf(),
            *final(self) == (Listening { had_event: true, over: last, ..*old(self) }),
            !last ==> forall|count: nat| #[trigger]
                passed(*final(self), count) == passed(*old(self), count + 1),
            step == if last {
                ListenStep::Finished
            } else {
                ListenStep::Poll { device: old(self).device }
            },
    {
        self.had_event = true;
        self.over = last;
        if last {
            ListenStep::Finished
        } else {
            ListenStep::Poll { device: self.device }
        }
    }

    /// Takes in that the device has no event left, and whether to stop listening, which is
    /// looked at after each round. A round without an event is followed by a pause.
    pub fn drained(&mut self, cancelled: bool) -> (step: ListenStep)
        requires
            old(self).wf(),
            !old(self).over,
        ensures
            final(self).wf(),
            if old(self).device + 1 < old(self).devices {
                &&& step == (ListenStep::Poll { device: (old(self).device + 1) as usize })
                &&& *final(self) == passed(*old(self), 0)
            } else if cancelled {
                &&& step is Finished
                &&& *final(self) == (Listening { over: true, ..*old(self) })
            } else {
                &&& step == if old(self).had_event {
                    ListenStep::Poll { device: 0 }
                } else {
                    ListenStep::Pause { nanoseconds: LISTEN_PAUSE }
                }
                &&& !old(self).had_event ==> step == (ListenStep::Pause { nanoseconds: 2_000_000 })
                &&& *final(self) == (Listening { device: 0, had_event: false, ..*old(self) })
            },
    {
        if self.device < self.devices - 1 {
            self.device += 1;
            return ListenStep::Poll { device: self.device };
        }
        if cancelled {
            self.over = true;
            return ListenStep::Finished;
        }
        let had_event: bool = self.had_event;
        self.device = 0;
        self.had_event = false;
        if had_event {
            ListenStep::Poll { device: 0 }
        } else {
            ListenStep::Pause { nanoseconds: LISTEN_PAUSE }
        }
    }
}

/// Whether some places are those of the devices that are wanted, in order.
pub open spec fn places(found: Seq<usize>, wanted: Seq<bool>) -> bool {
    &&& forall|left: int, right: int| 0 <= left < right < found.len() ==> found[left] < found[right]
    &&& forall|place: usize| #[trigger]
        found.contains(place) <==> place < wanted.len() && wanted[place as int]
}

/// Adds a place behind all others.
fn add_place(found: &mut Vec<usize>, place: usize, Ghost(wanted): Ghost<Seq<bool>>)
    requires
        place < wanted.len(),
        wanted[place as int],
        places(old(found)@, wanted.take(place as int)),
    ensures
        places(final(found)@, wanted.take(place + 1)),
        final(found)@.len() > 0,
{
    let ghost earlier = found@;
    assert forall|at: int| 0 <= at < earlier.len() implies earlier[at] < place by {
        assert(earlier.contains(earlier[at]));
    }
    found.push(place);
    assert forall|other: usize| #[trigger]
        found@.contains(other) <==> other < place + 1 && wanted.take(place + 1)[other as int] by {
        if found@.contains(other) && other != place {
            let at = found@.index_of(other);
            assert(earlier[at] == other);
            assert(earlier.contains(other));
            assert(wanted.take(place as int)[other as int]);
        }
        if other < place && wanted[other as int] {
            assert(wanted.take(place as int)[other as int]);
            assert(earlier.contains(other));
            assert(found@[earlier.index_of(other)] == other);
        }
        if other == place {
            assert(found@[earlier.len() as int] == place);
        }
    }
}

/// Goes past a device that is not wanted.
proof fn lemma_passed_over(found: Seq<usize>, place: int, wanted: Seq<bool>)
    requires
        0 <= place < wanted.len(),
        !wanted[place],
        places(found, wanted.take(place)),
    ensures
        places(found, wanted.take(place + 1)),
{
    assert forall|other: usize| #[trigger]
        found.contains(other) <==> other < place + 1 && wanted.take(place + 1)[other as int] by {
        if other < place {
            assert(wanted.take(place)[other as int] == wanted.take(place + 1)[other as int]);
        }
    }
}

/// Which devices with some keys are mice.
pub open spec fn mice(devices: Seq<Vec<u16>>) -> Seq<bool> {
    devices.map_values(|codes: Vec<u16>| linux::mouse(codes@))
}

/// Which devices with some keys are keyboards.
pub open spec fn keyboards(devices: Seq<Vec<u16>>) -> Seq<bool> {
    devices.map_values(|codes: Vec<u16>| linux::keyboard(codes@))
}

/// Something that listens to mice.
#[derive(Clone, Debug)]
pub struct Listener {
    /// The places of the mice among all devices.
    pub devices: Vec<usize>,
}

impl Listener {
    /// Chooses the mice among devices, by the codes of their keys.
    pub fn new(devices: &Vec<Vec<u16>>) -> (listener: Result<Listener, String>)
        ensures
            match listener {
                Ok(found) => {
                    &&& found.devices@.len() > 0
                    &&& places(found.devices@, mice(devices@))
                },
                Err(message) => {
                    &&& places(Seq::empty(), mice(devices@))
                    &&& message@
                        == "no readable mouse devices found under /dev/input; check permissions"@
                },
            },
    {
        let ghost wanted = mice(devices@);
        let mut found: Vec<usize> = Vec::new();
        let mut index: usize = 0;
        while index < devices.len()
            invariant
                index <= devices.len(),
                wanted == mice(devices@),
                places(found@, wanted.take(index as int)),
            decreases devices.len() - index,
        {
            if is_mouse(&devices[index]) {
                add_place(&mut found, index, Ghost(wanted));
            } else {
                proof {
                    lemma_passed_over(found@, index as int, wanted);
                }
            }
            index += 1;
        }
        assert(wanted.take(index as int) == wanted);
        if found.len() == 0 {
            assert(found@ == Seq::<usize>::empty());
            return Err(
                copy_text("no readable mouse devices found under /dev/input; check permissions"),
            );
        }
        Ok(Listener { devices: found })
    }

    /// Begins to listen to the mice.
    pub fn listen_until(&self) -> (begun: (Listening, ListenStep))
        requires
            self.devices@.len() > 0,
        ensures
            begun.0 == (Listening {
                devices: self.devices@.len() as usize,
                device: 0,
                had_event: false,
                over: false,
            }),
            begun.0.wf(),
            begun.1 == (ListenStep::Poll { device: 0 }),
    {
        Listening::new(self.devices.len())
    }
}

/// Something that listens to keyboards.
#[derive(Clone, Debug)]
pub struct KeyboardListener {
    /// The places of the keyboards among all devices.
    pub devices: Vec<usize>,
}

impl KeyboardListener {
    /// Chooses the keyboards among devices, by the codes of their keys.
    pub fn new(devices: &Vec<Vec<u16>>) -> (listener: Result<KeyboardListener, String>)
        ensures
            match listener {
                Ok(found) => {
                    &&& found.devices@.len() > 0
                    &&& places(found.devices@, keyboards(devices@))
                },
                Err(message) => {
                    &&& places(Seq::empty(), keyboards(devices@))
                    &&& message@
                        == "no readable keyboard devices found under /dev/input; check permissions"@
                },
            },
    {
        let ghost wanted = keyboards(devices@);
        let mut found: Vec<usize> = Vec::new();
        let mut index: usize = 0;
        while index < devices.len()
            invariant
                index <= devices.len(),
                wanted == keyboards(devices@),
                places(found@, wanted.take(index as int)),
            decreases devices.len() - index,
        {
            if is_keyboard(&devices[index]) {
                add_place(&mut found, index, Ghost(wanted));
            } else {
                proof {
                    lemma_passed_over(found@, index as int, wanted);
                }
            }
            index += 1;
        }
        assert(wanted.take(index as int) == wanted);
        if found.len() == 0 {
            assert(found@ == Seq::<usize>::empty());
            return Err(
                copy_text("no readable keyboard devices found under /dev/input; check permissions"),
            );
        }
        Ok(KeyboardListener { devices: found })
    }

    /// Begins to listen to the keyboards.
    pub fn listen_until(&self) -> (begun: (Listening, ListenStep))
        requires
            self.devices@.len() > 0,
        ensures
            begun.0 == (Listening {
                devices: self.devices@.len() as usize,
                device: 0,
                had_event: false,
                over: false,
            }),
            begun.0.wf(),
            begun.1 == (ListenStep::Poll { device: 0 }),
    {
        Listening::new(self.devices.len())
    }
}

/// Something that listens to the buttons of the X11 server, which is one device.
pub struct X11ButtonListener;

impl X11ButtonListener {
    /// Begins to listen to the buttons.
    pub fn listen_until_cancelled() -> (begun: (Listening, ListenStep))
        ensures
            begun.0 == (Listening { devices: 1, device: 0, had_event: false, over: false }),
            begun.0.wf(),
            begun.1 == (ListenStep::Poll { device: 0 }),
    {
        Listening::new(1)
    }
}

/// The state after a device had so many events, none of which is the last that is wanted,
/// and then no more, where it is not the last device.
pub open spec fn passed(start: Listening, count: nat) -> Listening {
    Listening {
        device: (start.device + 1) as usize,
        had_event: start.had_event || count > 0,
        ..start
    }
}

/// How a round over the devices goes on from one of them, where each device has so many
/// events: the state at the last, after its events.
pub open spec fn round_end(start: Listening, events: Seq<nat>) -> Listening {
    Listening {
        device: (start.devices - 1) as usize,
        had_event: start.had_event || exists|device: int|
            start.device <= device < start.devices && #[trigger] events[device] > 0,
        ..start
    }
}

/// Going past one device leads to the same end of the round.
proof fn lemma_past_one_device(start: Listening, events: Seq<nat>)
    requires
        start.wf(),
        events.len() == start.devices,
        start.device + 1 < start.devices,
    ensures
        passed(start, events[start.device as int]).wf(),
        round_end(passed(start, events[start.device as int]), events) == round_end(start, events),
{
    let next = passed(start, events[start.device as int]);
    if round_end(start, events).had_event && !start.had_event {
        let device = choose|device: int|
            start.device <= device < start.devices && #[trigger] events[device] > 0;
        if device > start.device {
            assert(next.device <= device < next.devices && events[device] > 0);
        }
    }
}

/// A round that begins at the first device reaches every device in order, and remembers at
/// the last whether any of them had an event. The states are those at each device before
/// its events.
pub proof fn law_round_reaches_every_device(states: Seq<Listening>, events: Seq<nat>, at: int)
    requires
        states.len() > 0,
        states.len() == states[0].devices,
        events.len() == states.len(),
        states[0].device == 0,
        forall|index: int|
            0 <= index < states.len() - 1 ==> states[index + 1] == passed(
                #[trigger] states[index],
                events[index],
            ),
        0 <= at < states.len(),
    ensures
        states[at].device == at,
        states[at].devices == states[0].devices,
        round_end(states[at], events) == round_end(states[0], events),
        at == states.len() - 1 ==> {
            &&& round_end(states[0], events) == (Listening {
                had_event: states[at].had_event || events[at] > 0,
                ..states[at]
            })
            &&& (states[at].had_event || events[at] > 0) == (states[0].had_event || exists|
                device: int,
            |
                0 <= device < events.len() && #[trigger] events[device] > 0)
        },
    decreases at,
{
    if at > 0 {
        law_round_reaches_every_device(states, events, at - 1);
        assert(states[at] == passed(states[at - 1], events[at - 1]));
        lemma_past_one_device(states[at - 1], events);
    }
}

/// A device is a mouse or a keyboard by its own keys alone.
pub proof fn law_each_device_is_judged_alone(devices: Seq<Vec<u16>>, at: int)
    requires
        0 <= at < devices.len(),
    ensures
        mice(devices).len() == devices.len(),
        keyboards(devices).len() == devices.len(),
        mice(devices)[at] <==> linux::mouse(devices[at]@),
        keyboards(devices)[at] <==> linux::keyboard(devices[at]@),
{
}

/// The places of the wanted devices are all of them, each once and in order.
pub proof fn law_wanted_devices_have_their_places(found: Seq<usize>, wanted: Seq<bool>, at: int)
    requires
        places(found, wanted),
        0 <= at < found.len(),
    ensures
        found[at] < wanted.len(),
        wanted[found[at] as int],
        forall|place: usize|
            place < wanted.len() && #[trigger] wanted[place as int] ==> exists|index: int|
                0 <= index < found.len() && #[trigger] found[index] == place,
        forall|later: int| at < later < found.len() ==> found[at] < #[trigger] found[later],
{
    assert(found.contains(found[at]));
    assert forall|place: usize|
        place < wanted.len() && #[trigger] wanted[place as int] implies exists|index: int|
        0 <= index < found.len() && #[trigger] found[index] == place by {
        assert(found.contains(place));
    }
}

} // verus!
