//! Keys, hotkeys and the control of a keyboard.

use crate::event::Timestamp;
use crate::key_names::{self, key_name, normalize, parse_key_code};
use crate::playback::{PlaybackStep, Speed};
use crate::text::{self, append, chars_of, copy_text, split_at, string_of};
use vstd::prelude::*;

verus! {

/// A key: its name and its Linux scan code.
#[derive(Clone, Debug, Eq, PartialEq)]
pub struct Key {
    pub name: String,
    pub scan_code: u16,
}

/// Whether a key is held down.
#[derive(Clone, Copy, Debug, Eq, PartialEq, Structural)]
pub enum KeyState {
    Up,
    Down,
}

/// What happened to a key.
#[derive(Clone, Debug, Eq, PartialEq)]
pub struct KeyboardEvent {
    pub key: Key,
    pub state: KeyState,
    pub repeat: bool,
    pub time: Timestamp,
}

/// What is said of a name that no key has.
pub open spec fn unknown_key(value: Seq<char>) -> Seq<char> {
    "unknown key: "@ + value + "; use a key name or code:<number>"@
}

impl Key {
    /// Whether a key is the one that a name stands for.
    pub open spec fn meant_by(self, value: Seq<char>) -> bool {
        &&& self.name@ == key_names::normalized(value)
        &&& key_names::key_code(key_names::normalized(value)) == Some(self.scan_code)
    }

    /// The key with a scan code.
    pub fn from_scan_code(scan_code: u16) -> (key: Key)
        ensures
            key.scan_code == scan_code,
            key.name@ == key_names::code_name(scan_code),
    {
        let name: Vec<char> = key_name(scan_code);
        Key { name: string_of(&name), scan_code }
    }

    /// Reads the name of a key.
    pub fn parse(value: &str) -> (key: Result<Key, String>)
        ensures
            match key {
                Ok(found) => found.meant_by(value@),
                Err(message) => key_names::key_code(key_names::normalized(value@)) is None
                    && message@ == unknown_key(value@),
            },
    {
        let name: Vec<char> = normalize(value);
        match parse_key_code(&name) {
            Some(scan_code) => Ok(Key { name: string_of(&name), scan_code }),
            None => {
                let message: String = append(copy_text("unknown key: "), value);
                Err(append(message, "; use a key name or code:<number>"))
            },
        }
    }
}

impl std::str::FromStr for Key {
    type Err = String;

    fn from_str(value: &str) -> (key: Result<Key, String>)
        ensures
            match key {
                Ok(found) => found.meant_by(value@),
                Err(message) => key_names::key_code(key_names::normalized(value@)) is None
                    && message@ == unknown_key(value@),
            },
    {
        Key::parse(value)
    }
}

/// The name of the key with a scan code stands for a key with the same name and
/// scan code.
pub proof fn law_key_reads_back(key: Key)
    requires
        key.name@ == key_names::code_name(key.scan_code),
    ensures
        key.meant_by(key.name@),
{
    key_names::law_key_name_reads_back(key.scan_code);
}

/// Whether keys are those of a hotkey: one for each part between plus signs.
pub open spec fn hotkey_keys(value: Seq<char>, keys: Seq<Key>) -> bool {
    let parts = text::split(value, '+');
    &&& keys.len() == parts.len()
    &&& forall|index: int|
        0 <= index < keys.len() ==> (#[trigger] keys[index]).meant_by(parts[index])
}

/// Whether a part of a hotkey is the first that no key has for a name.
pub open spec fn first_unknown(value: Seq<char>, at: int) -> bool {
    let parts = text::split(value, '+');
    &&& 0 <= at < parts.len()
    &&& key_names::key_code(key_names::normalized(parts[at])) is None
    &&& forall|earlier: int|
        0 <= earlier < at ==> key_names::key_code(
            key_names::normalized(#[trigger] parts[earlier]),
        ) is Some
}

/// Reads a hotkey such as `ctrl+shift+a`.
pub fn parse_hotkey(value: &str) -> (keys: Result<Vec<Key>, String>)
    ensures
        match keys {
            Ok(found) => hotkey_keys(value@, found@) && found@.len() >= 1,
            Err(message) => exists|at: int| #[trigger]
                first_unknown(value@, at) && message@ == unknown_key(
                    text::split(value@, '+')[at],
                ),
        },
{
    let letters: Vec<char> = chars_of(value);
    let parts: Vec<Vec<char>> = split_at(&letters, '+');
    let ghost fields = text::split(value@, '+');
    let mut keys: Vec<Key> = Vec::new();
    let mut index: usize = 0;
    while index < parts.len()
        invariant
            index <= parts.len(),
            parts@.len() >= 1,
            fields == text::split(value@, '+'),
            fields == text::views(parts@),
            keys@.len() == index,
            forall|at: int|
                0 <= at < keys@.len() ==> (#[trigger] keys@[at]).meant_by(fields[at]),
            forall|at: int|
                0 <= at < index ==> key_names::key_code(
                    key_names::normalized(#[trigger] fields[at]),
                ) is Some,
        decreases parts.len() - index,
    {
        let part: String = string_of(&parts[index]);
        assert(fields[index as int] == part@);
        match Key::parse(part.as_str()) {
            Ok(key) => {
                keys.push(key);
            },
            Err(message) => {
                assert(first_unknown(value@, index as int));
                return Err(message);
            },
        }
        index += 1;
    }
    Ok(keys)
}

/// What a keyboard is asked for.
#[derive(Clone, Copy, Debug, Eq, PartialEq, Structural)]
pub enum KeyRequest {
    Key { scan_code: u16, state: KeyState },
    Repeat { scan_code: u16 },
}

/// A device that key events are sent to.
pub trait KeyboardBackend: Sized {
    type Error;

    /// What the keyboard was asked for so far, and how each request went.
    closed spec fn calls(&self) -> Seq<(KeyRequest, Result<(), Self::Error>)> {
        Seq::empty()
    }

    /// Presses or releases a key.
    fn key(&mut self, scan_code: u16, state: KeyState) -> (outcome: Result<(), Self::Error>)
        ensures
            final(self).calls() == old(self).calls().push(
                (KeyRequest::Key { scan_code, state }, outcome),
            ),
    ;

    /// Repeats a key that is held down: a press, unless the device has a request
    /// of its own for it.
    fn repeat(&mut self, scan_code: u16) -> (outcome: Result<(), Self::Error>)
        ensures
            final(self).calls() == old(self).calls().push((KeyRequest::Repeat { scan_code }, outcome))
                || final(self).calls() == old(self).calls().push(
                (KeyRequest::Key { scan_code, state: KeyState::Down }, outcome),
            ),
    {
        self.key(scan_code, KeyState::Down)
    }
}

/// The error of a request, if it failed.
pub open spec fn failure<E>(outcome: Result<(), E>) -> Option<E> {
    match outcome {
        Ok(_) => None,
        Err(error) => Some(error),
    }
}

/// The first error among requests that were made, if there is one.
pub open spec fn first_failure<R, E>(calls: Seq<(R, Result<(), E>)>) -> Option<E>
    decreases calls.len(),
{
    if calls.len() == 0 {
        None
    } else if first_failure(calls.drop_last()) is Some {
        first_failure(calls.drop_last())
    } else {
        failure(calls.last().1)
    }
}

/// The scan codes of keys.
pub open spec fn codes_of(keys: Seq<Key>) -> Seq<u16> {
    keys.map_values(|key: Key| key.scan_code)
}

/// Whether every part of a hotkey is the name of a key.
pub open spec fn hotkey_known(value: Seq<char>) -> bool {
    forall|index: int|
        0 <= index < text::split(value, '+').len() ==> key_names::key_code(
            key_names::normalized(#[trigger] text::split(value, '+')[index]),
        ) is Some
}

/// The scan codes of the keys of a hotkey.
pub open spec fn hotkey_codes(value: Seq<char>) -> Seq<u16> {
    text::split(value, '+').map_values(
        |part: Seq<char>| key_names::key_code(key_names::normalized(part))->0,
    )
}

/// Whether a key was pressed without an error.
pub open spec fn went_down<E>(call: (KeyRequest, Result<(), E>), scan_code: u16) -> bool {
    &&& call.0 == (KeyRequest::Key { scan_code, state: KeyState::Down })
    &&& call.1 is Ok
}

/// How keys are pressed together and released: `calls` press the keys in order
/// and release those that went down in reverse order. `pressed` is how many went
/// down: all of them, or those before the first that failed. A failed press is
/// what comes back, else the first failed release.
pub open spec fn chord<E>(
    codes: Seq<u16>,
    pressed: int,
    calls: Seq<(KeyRequest, Result<(), E>)>,
    reported: Option<E>,
) -> bool {
    let attempts = if pressed < codes.len() {
        pressed + 1
    } else {
        pressed
    };
    &&& 0 <= pressed <= codes.len()
    &&& calls.len() == attempts + pressed
    &&& forall|index: int|
        0 <= index < pressed ==> went_down(#[trigger] calls[index], codes[index])
    &&& forall|index: int|
        attempts <= index < calls.len() ==> (#[trigger] calls[index]).0 == (KeyRequest::Key {
            scan_code: codes[calls.len() - 1 - index],
            state: KeyState::Up,
        })
    &&& if pressed < codes.len() {
        &&& calls[pressed].0 == (KeyRequest::Key {
            scan_code: codes[pressed],
            state: KeyState::Down,
        })
        &&& reported is Some
        &&& failure(calls[pressed].1) == reported
    } else {
        reported == first_failure(calls.skip(attempts))
    }
}

/// Whether keys were pressed together and released, however many went down.
pub open spec fn chorded<E>(
    codes: Seq<u16>,
    calls: Seq<(KeyRequest, Result<(), E>)>,
    reported: Option<E>,
) -> bool {
    exists|pressed: int| #[trigger] chord(codes, pressed, calls, reported)
}

/// Why a hotkey was not sent.
#[derive(Clone, Debug)]
pub enum HotkeyError<E> {
    /// A part of the hotkey is not the name of a key.
    Unknown(String),
    /// The keyboard reported an error.
    Backend(E),
}

/// Sends key events to a keyboard.
pub struct KeyboardController<B> {
    pub backend: B,
}

impl<B: KeyboardBackend> KeyboardController<B> {
    /// What the keyboard was asked for so far, and how each request went.
    pub open spec fn calls(&self) -> Seq<(KeyRequest, Result<(), B::Error>)> {
        self.backend.calls()
    }

    /// A controller of a keyboard.
    pub fn new(backend: B) -> (controller: Self)
        ensures
            controller.backend == backend,
    {
        KeyboardController { backend }
    }

    /// Presses a key.
    pub fn press(&mut self, key: &Key) -> (outcome: Result<(), B::Error>)
        ensures
            final(self).calls() == old(self).calls().push(
                (KeyRequest::Key { scan_code: key.scan_code, state: KeyState::Down }, outcome),
            ),
    {
        self.backend.key(key.scan_code, KeyState::Down)
    }

    /// Releases a key.
    pub fn release(&mut self, key: &Key) -> (outcome: Result<(), B::Error>)
        ensures
            final(self).calls() == old(self).calls().push(
                (KeyRequest::Key { scan_code: key.scan_code, state: KeyState::Up }, outcome),
            ),
    {
        self.backend.key(key.scan_code, KeyState::Up)
    }

    /// Presses keys in order and releases them in reverse order. After a failed
    /// press the keys that went down are released.
    pub fn send(&mut self, keys: &[Key]) -> (outcome: Result<(), B::Error>)
        ensures
            old(self).calls().len() <= final(self).calls().len(),
            final(self).calls().take(old(self).calls().len() as int) == old(self).calls(),
            chorded(
                codes_of(keys@),
                final(self).calls().skip(old(self).calls().len() as int),
                failure(outcome),
            ),
    {
        let ghost before = self.calls();
        let size: usize = keys.len();
        let mut pressed: usize = 0;
        while pressed < size
            invariant
                pressed <= size,
                size == keys@.len(),
                before == old(self).calls(),
                self.calls().len() == before.len() + pressed,
                self.calls().take(before.len() as int) == before,
                forall|index: int|
                    0 <= index < pressed ==> went_down(#[trigger] self.calls()[before.len() + index], keys@[index].scan_code),
            decreases size - pressed,
        {
            let ghost earlier = self.calls();
            let outcome: Result<(), B::Error> = self.press(&keys[pressed]);
            assert(self.calls().take(before.len() as int) == earlier.take(before.len() as int));
            if outcome.is_err() {
                let ghost attempts = pressed + 1;
                let mut left: usize = pressed;
                while left > 0
                    invariant
                        left <= pressed < size,
                        before == old(self).calls(),
                        size == keys@.len(),
                        attempts == pressed + 1,
                        outcome is Err,
                        self.calls().len() == before.len() + attempts + (pressed - left),
                        self.calls().take(before.len() as int) == before,
                        forall|index: int|
                            0 <= index < pressed ==> went_down(#[trigger] self.calls()[before.len() + index], keys@[index].scan_code),
                        self.calls()[before.len() + pressed] == (
                            KeyRequest::Key {
                                scan_code: keys@[pressed as int].scan_code,
                                state: KeyState::Down,
                            },
                            outcome,
                        ),
                        forall|index: int|
                            attempts <= index < attempts + (pressed - left) ==> (
                            #[trigger] self.calls()[before.len() + index]).0 == (KeyRequest::Key {
                                scan_code: keys@[attempts + pressed - 1 - index].scan_code,
                                state: KeyState::Up,
                            }),
                    decreases left,
                {
                    left -= 1;
                    let ghost earlier = self.calls();
                    let _ = self.release(&keys[left]);
                    assert(self.calls().take(before.len() as int) == earlier.take(
                        before.len() as int,
                    ));
                }
                let ghost calls = self.calls().skip(before.len() as int);
                assert forall|index: int| 0 <= index < calls.len() implies #[trigger] calls[index]
                    == self.calls()[before.len() + index] by {}
                assert(chord(codes_of(keys@), pressed as int, calls, failure(outcome)));
                return outcome;
            }
            assert(self.calls()[before.len() + pressed] == self.calls().last());
            assert forall|index: int| 0 <= index < pressed implies #[trigger] self.calls()[before.len()
                + index] == earlier[before.len() + index] by {}
            pressed += 1;
        }
        let mut first: Result<(), B::Error> = Ok(());
        let mut left: usize = size;
        assert(self.calls().skip(before.len() as int).skip(size as int)
            == Seq::<(KeyRequest, Result<(), B::Error>)>::empty());
        while left > 0
            invariant
                left <= size,
                size == keys@.len(),
                before == old(self).calls(),
                self.calls().len() == before.len() + size + (size - left),
                self.calls().take(before.len() as int) == before,
                forall|index: int|
                    0 <= index < size ==> went_down(#[trigger] self.calls()[before.len() + index], keys@[index].scan_code),
                forall|index: int|
                    size <= index < size + (size - left) ==> (#[trigger] self.calls()[before.len()
                        + index]).0 == (KeyRequest::Key {
                        scan_code: keys@[size + size - 1 - index].scan_code,
                        state: KeyState::Up,
                    }),
                failure(first) == first_failure(self.calls().skip(before.len() as int).skip(size as int)),
            decreases left,
        {
            left -= 1;
            let ghost earlier = self.calls();
            let outcome: Result<(), B::Error> = self.release(&keys[left]);
            assert(self.calls().take(before.len() as int) == earlier.take(before.len() as int));
            assert(self.calls().skip(before.len() as int).skip(size as int).drop_last()
                == earlier.skip(before.len() as int).skip(size as int));
            if first.is_ok() {
                first = outcome;
            }
        }
        let ghost calls = self.calls().skip(before.len() as int);
        assert forall|index: int| 0 <= index < calls.len() implies #[trigger] calls[index]
            == self.calls()[before.len() + index] by {}
        assert(chord(codes_of(keys@), size as int, calls, failure(first)));
        first
    }

    /// Reads a hotkey and presses and releases its keys. Nothing is sent where a
    /// part of it is not the name of a key.
    pub fn send_hotkey(&mut self, hotkey: &str) -> (outcome: Result<(), HotkeyError<B::Error>>)
        ensures
            old(self).calls().len() <= final(self).calls().len(),
            final(self).calls().take(old(self).calls().len() as int) == old(self).calls(),
            hotkey_known(hotkey@) == !(outcome matches Err(HotkeyError::Unknown(_))),
            outcome matches Err(HotkeyError::Unknown(message)) ==> {
                &&& final(self).calls() == old(self).calls()
                &&& exists|at: int| #[trigger]
                    first_unknown(hotkey@, at) && message@ == unknown_key(
                        text::split(hotkey@, '+')[at],
                    )
            },
            outcome matches Err(HotkeyError::Backend(error)) ==> chorded(
                hotkey_codes(hotkey@),
                final(self).calls().skip(old(self).calls().len() as int),
                Some(error),
            ),
            outcome is Ok ==> chorded(
                hotkey_codes(hotkey@),
                final(self).calls().skip(old(self).calls().len() as int),
                None::<B::Error>,
            ),
    {
        match parse_hotkey(hotkey) {
            Err(message) => {
                assert(self.calls().take(self.calls().len() as int) == self.calls());
                Err(HotkeyError::Unknown(message))
            },
            Ok(keys) => {
                assert(codes_of(keys@) == hotkey_codes(hotkey@));
                assert(hotkey_known(hotkey@)) by {
                    assert forall|index: int|
                        0 <= index < text::split(hotkey@, '+').len() implies key_names::key_code(
                        key_names::normalized(#[trigger] text::split(hotkey@, '+')[index]),
                    ) is Some by {
                        assert(keys@[index].meant_by(text::split(hotkey@, '+')[index]));
                    }
                }
                let sent: Result<(), B::Error> = self.send(&keys);
                match sent {
                    Ok(done) => Ok(done),
                    Err(error) => Err(HotkeyError::Backend(error)),
                }
            },
        }
    }
}

/// Keys that went down are released, the last first: the release of the key that
/// was pressed first stands at the very end, that of the second before it, and so
/// on. As many keys are released as went down.
pub proof fn law_chord_releases_in_reverse<E>(
    codes: Seq<u16>,
    pressed: int,
    calls: Seq<(KeyRequest, Result<(), E>)>,
    reported: Option<E>,
)
    requires
        chord(codes, pressed, calls, reported),
    ensures
        forall|index: int|
            0 <= index < pressed ==> went_down(#[trigger] calls[index], codes[index]) && calls[calls.len()
                - 1 - index].0 == (KeyRequest::Key {
                scan_code: codes[index],
                state: KeyState::Up,
            }),
        calls.filter(|call: (KeyRequest, Result<(), E>)| is_release(call.0)).len() == pressed,
{
    let test = |call: (KeyRequest, Result<(), E>)| is_release(call.0);
    let attempts = calls.len() - pressed;
    let downs = calls.take(attempts);
    let ups = calls.skip(attempts);
    assert(downs + ups == calls);
    Seq::filter_distributes_over_add(downs, ups, test);
    assert forall|index: int| 0 <= index < downs.len() implies !test(#[trigger] downs[index]) by {
        assert(downs[index] == calls[index]);
    }
    lemma_filter_none(downs, test);
    assert forall|index: int| 0 <= index < ups.len() implies test(#[trigger] ups[index]) by {
        assert(ups[index] == calls[attempts + index]);
    }
    lemma_filter_all(ups, test);
    assert forall|index: int| 0 <= index < pressed implies went_down(
        #[trigger] calls[index],
        codes[index],
    ) && calls[calls.len() - 1 - index].0 == (KeyRequest::Key {
        scan_code: codes[index],
        state: KeyState::Up,
    }) by {
        let mirror = calls.len() - 1 - index;
        assert(attempts <= mirror < calls.len());
    }
}

/// Whether a request releases a key.
pub open spec fn is_release(request: KeyRequest) -> bool {
    request matches KeyRequest::Key { state: KeyState::Up, .. }
}

/// Nothing is kept where nothing passes.
proof fn lemma_filter_none<T>(items: Seq<T>, test: spec_fn(T) -> bool)
    requires
        forall|index: int| 0 <= index < items.len() ==> !test(#[trigger] items[index]),
    ensures
        items.filter(test).len() == 0,
    decreases items.len(),
{
    reveal(Seq::filter);
    if items.len() > 0 {
        assert(!test(items[items.len() - 1]));
        lemma_filter_none(items.drop_last(), test);
    }
}

/// Everything is kept where everything passes.
proof fn lemma_filter_all<T>(items: Seq<T>, test: spec_fn(T) -> bool)
    requires
        forall|index: int| 0 <= index < items.len() ==> test(#[trigger] items[index]),
    ensures
        items.filter(test) == items,
    decreases items.len(),
{
    reveal(Seq::filter);
    if items.len() > 0 {
        assert(test(items[items.len() - 1]));
        lemma_filter_all(items.drop_last(), test);
        assert(items.drop_last().push(items.last()) == items);
    }
}

/// Which events of a recording are played.
#[derive(Clone, Copy, Debug, Eq, PartialEq, Structural)]
pub struct KeyboardPlaybackFilter {
    pub press: bool,
    pub release: bool,
}

impl KeyboardPlaybackFilter {
    /// Whether an event is played.
    pub open spec fn passes(self, event: KeyboardEvent) -> bool {
        match event.state {
            KeyState::Down => self.press,
            KeyState::Up => self.release,
        }
    }
}

impl Default for KeyboardPlaybackFilter {
    /// Every event is played.
    fn default() -> (filter: Self)
        ensures
            filter.press && filter.release,
    {
        KeyboardPlaybackFilter { press: true, release: true }
    }
}

/// What a keyboard recording asks for next.
pub enum KeyboardDue {
    Nothing,
    Delay { from: Timestamp, to: Timestamp },
    Skip,
    Send { event: KeyboardEvent },
}

/// A keyboard recording that is being played.
pub struct KeyboardPlayback {
    pub events: Vec<KeyboardEvent>,
    pub speed: Speed,
    pub filter: KeyboardPlaybackFilter,
    /// How many events were dealt with.
    pub index: usize,
    /// Whether the time before the next event has passed.
    pub delayed: bool,
}

impl KeyboardPlayback {
    /// What is due next: each event comes after the time that lay before it in
    /// the recording, unless the speed is zero or it is the first.
    pub open spec fn due(self) -> KeyboardDue {
        if self.index >= self.events@.len() {
            KeyboardDue::Nothing
        } else if self.speed.positive() && self.index > 0 && !self.delayed {
            KeyboardDue::Delay {
                from: self.events@[self.index - 1].time,
                to: self.events@[self.index as int].time,
            }
        } else if self.filter.passes(self.events@[self.index as int]) {
            KeyboardDue::Send { event: self.events@[self.index as int] }
        } else {
            KeyboardDue::Skip
        }
    }

    /// The recording with the next event dealt with.
    pub open spec fn advanced(self) -> KeyboardPlayback {
        KeyboardPlayback { index: (self.index + 1) as usize, delayed: false, ..self }
    }

    /// The recording with the time before the next event passed.
    pub open spec fn waited(self) -> KeyboardPlayback {
        KeyboardPlayback { delayed: true, ..self }
    }

    /// The recording with no event left.
    pub open spec fn stopped(self) -> KeyboardPlayback {
        KeyboardPlayback { index: self.events@.len() as usize, delayed: false, ..self }
    }

    /// The events that are still to be sent.
    pub open spec fn remaining(self) -> Seq<KeyboardEvent> {
        if self.index < self.events@.len() {
            self.events@.skip(self.index as int).filter(
                |event: KeyboardEvent| self.filter.passes(event),
            )
        } else {
            Seq::empty()
        }
    }
}

/// Whether a request is the one for an event: for a repeated one, what the keyboard's
/// `repeat` may come to.
pub open spec fn request_for(request: KeyRequest, event: KeyboardEvent) -> bool {
    let scan_code = event.key.scan_code;
    if event.repeat {
        request == (KeyRequest::Repeat { scan_code }) || request == (KeyRequest::Key {
            scan_code,
            state: KeyState::Down,
        })
    } else {
        request == (KeyRequest::Key { scan_code, state: event.state })
    }
}

impl<B: KeyboardBackend> KeyboardController<B> {
    /// Begins to play a recording.
    pub fn play(
        &self,
        events: Vec<KeyboardEvent>,
        speed: Speed,
        filter: KeyboardPlaybackFilter,
    ) -> (playback: KeyboardPlayback)
        ensures
            playback == (KeyboardPlayback { events, speed, filter, index: 0, delayed: false }),
    {
        KeyboardPlayback { events, speed, filter, index: 0, delayed: false }
    }

    /// Does what is due next in a recording. A delay is left to the caller, who
    /// comes back when it has passed. An event that cannot be sent ends the
    /// recording. A repeated event is sent by the keyboard's own `repeat`.
    pub fn resume(&mut self, playback: &mut KeyboardPlayback) -> (step: PlaybackStep<B::Error>)
        ensures
            match old(playback).due() {
                KeyboardDue::Nothing => {
                    &&& step matches PlaybackStep::Finished(outcome) && outcome is Ok
                    &&& *final(playback) == *old(playback)
                    &&& final(self).calls() == old(self).calls()
                },
                KeyboardDue::Delay { from, to } => {
                    &&& step == (PlaybackStep::<B::Error>::Delay { from, to })
                    &&& *final(playback) == old(playback).waited()
                    &&& final(self).calls() == old(self).calls()
                },
                KeyboardDue::Skip => {
                    &&& step is Continue
                    &&& *final(playback) == old(playback).advanced()
                    &&& final(self).calls() == old(self).calls()
                },
                KeyboardDue::Send { event } => {
                    let call = final(self).calls().last();
                    &&& final(self).calls() == old(self).calls().push(call)
                    &&& request_for(call.0, event)
                    &&& event.repeat ==> exists|device: &mut B|
                        {
                            &&& *device == old(self).backend
                            &&& *final(device) == final(self).backend
                            &&& #[trigger] call_ensures(
                                B::repeat,
                                (device, event.key.scan_code),
                                call.1,
                            )
                        }
                    &&& match call.1 {
                        Ok(_) => step is Continue && *final(playback) == old(playback).advanced(),
                        Err(error) => {
                            &&& step == PlaybackStep::Finished(Err::<(), B::Error>(error))
                            &&& *final(playback) == old(playback).stopped()
                        },
                    }
                },
            },
    {
        if playback.index >= playback.events.len() {
            return PlaybackStep::Finished(Ok(()));
        }
        if playback.speed.is_positive() && playback.index > 0 && !playback.delayed {
            playback.delayed = true;
            return PlaybackStep::Delay {
                from: playback.events[playback.index - 1].time,
                to: playback.events[playback.index].time,
            };
        }
        let state: KeyState = playback.events[playback.index].state;
        let repeat: bool = playback.events[playback.index].repeat;
        let scan_code: u16 = playback.events[playback.index].key.scan_code;
        playback.delayed = false;
        let passes: bool = match state {
            KeyState::Down => playback.filter.press,
            KeyState::Up => playback.filter.release,
        };
        if !passes {
            playback.index += 1;
            return PlaybackStep::Continue;
        }
        let outcome: Result<(), B::Error> = if repeat {
            self.backend.repeat(scan_code)
        } else {
            self.backend.key(scan_code, state)
        };
        match outcome {
            Ok(_) => {
                playback.index += 1;
                PlaybackStep::Continue
            },
            Err(error) => {
                playback.index = playback.events.len();
                PlaybackStep::Finished(Err(error))
            },
        }
    }
}

/// A recording is sent in order, each event that passes the filter once: what is
/// left to send is the event that is due, then what is left after it. A delay and
/// a skipped event leave it as it is.
pub proof fn law_keyboard_playback_keeps_order(playback: KeyboardPlayback)
    ensures
        match playback.due() {
            KeyboardDue::Nothing => playback.remaining().len() == 0,
            KeyboardDue::Delay { .. } => playback.waited().remaining() == playback.remaining(),
            KeyboardDue::Skip => playback.advanced().remaining() == playback.remaining(),
            KeyboardDue::Send { event } => playback.remaining() == seq![event]
                + playback.advanced().remaining(),
        },
{
    let test = |event: KeyboardEvent| playback.filter.passes(event);
    if playback.index < playback.events@.len() {
        assert(playback.events@.len() == playback.events.len());
        let event = playback.events@[playback.index as int];
        let rest = playback.events@.skip(playback.index + 1);
        assert(playback.events@.skip(playback.index as int) == seq![event] + rest);
        Seq::filter_distributes_over_add(seq![event], rest, test);
        reveal(Seq::filter);
        assert(seq![event].drop_last() =~= Seq::empty());
        assert(Seq::<KeyboardEvent>::empty().filter(test) =~= Seq::empty());
        assert(seq![event].filter(test) == if test(event) {
            Seq::<KeyboardEvent>::empty().push(event)
        } else {
            Seq::empty()
        });
        let after = playback.advanced();
        assert((|event: KeyboardEvent| after.filter.passes(event)) =~= test);
        let waited = playback.waited();
        assert((|event: KeyboardEvent| waited.filter.passes(event)) =~= test);
        assert(seq![event] =~= Seq::<KeyboardEvent>::empty().push(event));
        if playback.index + 1 == playback.events@.len() {
            assert(rest =~= Seq::empty());
        }
        assert(after.remaining() == rest.filter(test));
    }
}

/// At speed zero a recording has no delays.
pub proof fn law_keyboard_playback_at_speed_zero(playback: KeyboardPlayback)
    requires
        playback.speed == (Speed { bits: 0 }),
    ensures
        playback.due() !is Delay,
{
}

/// A wait lies between two events that follow each other: it is due before every event but
/// the first where the speed is above zero, once, and lasts from the time of the event
/// before to the time of the event itself.
pub proof fn law_key_wait_lies_between_neighbours(playback: KeyboardPlayback)
    ensures
        playback.due() is Delay <==> playback.speed.positive() && 0 < playback.index
            < playback.events@.len() && !playback.delayed,
        playback.due() matches KeyboardDue::Delay { from, to } ==> {
            &&& from == playback.events@[playback.index - 1].time
            &&& to == playback.events@[playback.index as int].time
        },
        playback.waited().due() !is Delay,
        playback.waited().index == playback.index,
        playback.waited().events == playback.events,
        playback.waited().filter == playback.filter,
{
}

/// How long the waits before the events of a recording up to a place are in all, by a
/// clock.
pub open spec fn waits(
    playback: KeyboardPlayback,
    clock: spec_fn(Timestamp) -> int,
    place: nat,
) -> int
    decreases place,
{
    if place == 0 {
        0
    } else {
        waits(playback, clock, (place - 1) as nat) + match (KeyboardPlayback {
            index: place as usize,
            delayed: false,
            ..playback
        }).due() {
            KeyboardDue::Delay { from, to } => clock(to) - clock(from),
            _ => 0,
        }
    }
}

/// The waits before the events of a recording up to one of them add up to the time from
/// the first event to that one, by whatever clock.
pub proof fn law_key_waits_add_up(
    playback: KeyboardPlayback,
    clock: spec_fn(Timestamp) -> int,
    place: nat,
)
    requires
        playback.speed.positive(),
        place < playback.events@.len(),
    ensures
        waits(playback, clock, place) == clock(playback.events@[place as int].time) - clock(
            playback.events@[0].time,
        ),
    decreases place,
{
    assert(playback.events@.len() == playback.events.len());
    if place > 0 {
        law_key_waits_add_up(playback, clock, (place - 1) as nat);
    }
}

/// Presses are passed over where presses are left out, and releases where releases are.
/// Any other event is sent as it is, and the next event comes after it.
pub proof fn law_key_events_are_left_out(playback: KeyboardPlayback)
    requires
        playback.index < playback.events@.len(),
        playback.delayed || playback.index == 0,
    ensures
        ({
            let event = playback.events@[playback.index as int];
            let played = if event.state is Down {
                playback.filter.press
            } else {
                playback.filter.release
            };
            &&& played ==> playback.due() == (KeyboardDue::Send { event })
            &&& !played ==> playback.due() is Skip
        }),
        playback.advanced().index == playback.index + 1,
        playback.advanced().events == playback.events,
        playback.advanced().speed == playback.speed,
        playback.advanced().filter == playback.filter,
        !playback.advanced().delayed,
        playback.stopped().due() is Nothing,
{
    assert(playback.events@.len() == playback.events.len());
}

/// An event that is no repetition asks for its own key and state; a repetition is about
/// its own key too, and never a release.
pub proof fn law_request_is_about_the_key(request: KeyRequest, event: KeyboardEvent)
    requires
        request_for(request, event),
    ensures
        !event.repeat ==> request == (KeyRequest::Key {
            scan_code: event.key.scan_code,
            state: event.state,
        }),
        event.repeat ==> !is_release(request),
        match request {
            KeyRequest::Key { scan_code, .. } => scan_code == event.key.scan_code,
            KeyRequest::Repeat { scan_code } => event.repeat && scan_code == event.key.scan_code,
        },
{
}

/// What comes back is the error of the press that failed; where all keys went down, that
/// of the first release that failed; and none where nothing did.
pub proof fn law_chord_reports_the_first_error<E>(
    codes: Seq<u16>,
    pressed: int,
    calls: Seq<(KeyRequest, Result<(), E>)>,
    reported: Option<E>,
)
    requires
        chord(codes, pressed, calls, reported),
    ensures
        pressed < codes.len() ==> {
            &&& calls[pressed].0 == (KeyRequest::Key {
                scan_code: codes[pressed],
                state: KeyState::Down,
            })
            &&& calls[pressed].1 matches Err(error) && reported == Some(error)
            &&& calls.len() == 2 * pressed + 1
        },
        pressed == codes.len() ==> calls.len() == 2 * pressed,
        reported is None ==> forall|index: int|
            0 <= index < calls.len() ==> (#[trigger] calls[index]).1 is Ok,
        reported matches Some(error) ==> exists|at: int|
            0 <= at < calls.len() && (#[trigger] calls[at]).1 == Err::<(), E>(error) && forall|
                earlier: int,
            |
                0 <= earlier < at ==> (#[trigger] calls[earlier]).1 is Ok,
{
    if pressed < codes.len() {
        assert(calls[pressed].1 is Err);
        let error = reported->0;
        assert(calls[pressed].1 == Err::<(), E>(error));
    } else {
        let ups = calls.skip(pressed);
        lemma_first_failure(ups);
        if reported is None {
            assert forall|index: int| 0 <= index < calls.len() implies (
            #[trigger] calls[index]).1 is Ok by {
                if index >= pressed {
                    assert(calls[index] == ups[index - pressed]);
                }
            }
        } else {
            let error = reported->0;
            let place = choose|place: int|
                0 <= place < ups.len() && (#[trigger] ups[place]).1 == Err::<(), E>(error)
                    && forall|earlier: int|
                    0 <= earlier < place ==> (#[trigger] ups[earlier]).1 is Ok;
            let at = pressed + place;
            assert(calls[at] == ups[place]);
            assert forall|earlier: int| 0 <= earlier < at implies (
            #[trigger] calls[earlier]).1 is Ok by {
                if earlier >= pressed {
                    assert(calls[earlier] == ups[earlier - pressed]);
                }
            }
        }
    }
}

/// The first failure among requests is that of one before which none failed.
proof fn lemma_first_failure<R, E>(calls: Seq<(R, Result<(), E>)>)
    ensures
        first_failure(calls) is None ==> forall|index: int|
            0 <= index < calls.len() ==> (#[trigger] calls[index]).1 is Ok,
        first_failure(calls) matches Some(error) ==> exists|at: int|
            0 <= at < calls.len() && (#[trigger] calls[at]).1 == Err::<(), E>(error) && forall|
                earlier: int,
            |
                0 <= earlier < at ==> (#[trigger] calls[earlier]).1 is Ok,
    decreases calls.len(),
{
    if calls.len() > 0 {
        let head = calls.drop_last();
        lemma_first_failure(head);
        if first_failure(head) is Some {
            let error = first_failure(head)->0;
            let at = choose|at: int|
                0 <= at < head.len() && (#[trigger] head[at]).1 == Err::<(), E>(error) && forall|
                    earlier: int,
                |
                    0 <= earlier < at ==> (#[trigger] head[earlier]).1 is Ok;
            assert(calls[at] == head[at]);
            assert forall|earlier: int| 0 <= earlier < at implies (
            #[trigger] calls[earlier]).1 is Ok by {
                assert(calls[earlier] == head[earlier]);
            }
        } else {
            assert forall|index: int| 0 <= index < calls.len() - 1 implies (
            #[trigger] calls[index]).1 is Ok by {
                assert(calls[index] == head[index]);
            }
            let end = calls.len() - 1;
            assert(calls[end] == calls.last());
            if calls[end].1 is Err {
                assert(calls[end].1 == Err::<(), E>(failure(calls[end].1)->0));
            }
        }
    }
}

/// A hotkey has one key for each part between plus signs, in order: the key that the part
/// names.
pub proof fn law_hotkey_is_read_part_by_part(value: Seq<char>, keys: Seq<Key>, at: int)
    requires
        hotkey_keys(value, keys),
        0 <= at < keys.len(),
    ensures
        hotkey_known(value),
        keys.len() == text::split(value, '+').len(),
        codes_of(keys) == hotkey_codes(value),
        hotkey_codes(value)[at] == keys[at].scan_code,
        key_names::key_code(key_names::normalized(text::split(value, '+')[at])) == Some(
            hotkey_codes(value)[at],
        ),
        keys[at].name@ == key_names::normalized(text::split(value, '+')[at]),
{
    let parts = text::split(value, '+');
    assert forall|index: int| 0 <= index < parts.len() implies key_names::key_code(
        key_names::normalized(#[trigger] parts[index]),
    ) == Some(keys[index].scan_code) by {
        assert(keys[index].meant_by(parts[index]));
    }
    assert(codes_of(keys) =~= hotkey_codes(value));
}

/// Keys that are pressed together without an error go down in order and come up in reverse
/// order, each once, and nothing else is sent.
pub proof fn law_chord_presses_in_order<E>(
    codes: Seq<u16>,
    calls: Seq<(KeyRequest, Result<(), E>)>,
    index: int,
)
    requires
        chorded(codes, calls, None),
        0 <= index < codes.len(),
    ensures
        calls.len() == 2 * codes.len(),
        calls[index].0 == (KeyRequest::Key { scan_code: codes[index], state: KeyState::Down }),
        calls[calls.len() - 1 - index].0 == (KeyRequest::Key {
            scan_code: codes[index],
            state: KeyState::Up,
        }),
        calls[index].1 is Ok,
        calls[calls.len() - 1 - index].1 is Ok,
{
    let pressed = choose|pressed: int| #[trigger] chord(codes, pressed, calls, None::<E>);
    law_chord_reports_the_first_error(codes, pressed, calls, None::<E>);
    law_chord_releases_in_reverse(codes, pressed, calls, None::<E>);
    assert(went_down(calls[index], codes[index]));
}

/// The part of a hotkey that is told is the first that is no key, and its name is told as
/// it was given.
pub proof fn law_first_unknown_part_is_told(value: Seq<char>, at: int)
    requires
        first_unknown(value, at),
    ensures
        !hotkey_known(value),
        key_names::key_code(key_names::normalized(text::split(value, '+')[at])) is None,
        forall|earlier: int|
            0 <= earlier < at ==> key_names::key_code(
                key_names::normalized(#[trigger] text::split(value, '+')[earlier]),
            ) is Some,
        text::occurs(
            unknown_key(text::split(value, '+')[at]),
            text::split(value, '+')[at],
        ),
{
    text::lemma_part_occurs(
        "unknown key: "@,
        text::split(value, '+')[at],
        "; use a key name or code:<number>"@,
    );
}

} // verus!
