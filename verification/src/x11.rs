//! Decisions about an X11 desktop: windows, screens, the pointer and its buttons.

use crate::bytes::{self, is_encoded, same_bytes, split_bytes, to_lowered};
use crate::event::{Button, ButtonState, MouseEvent, Timestamp};
use crate::number::{self, append_number, append_signed};
use crate::text::{self, append, copy_text, quoted, same_text};
use crate::trajectory::Point;
use vstd::prelude::*;

verus! {

/// The identifier that stands for no window.
pub const NO_WINDOW: u32 = 0;

/// The atom for properties that hold windows.
pub const ATOM_WINDOW: u32 = 33;

/// The atom for properties that hold text.
pub const ATOM_STRING: u32 = 31;

/// The largest desktop in which every place has pointer coordinates, in pixels.
pub const MAX_DESKTOP: u16 = 32_768;

/// Where the pointer is.
#[derive(Clone, Copy, Debug, Eq, PartialEq, Structural)]
pub struct CursorLocation {
    pub x: i16,
    pub y: i16,
    pub screen: usize,
    pub window: u32,
}

impl CursorLocation {
    /// The place as `xdotool getmouselocation` shows it.
    pub open spec fn shown(self) -> Seq<char> {
        "x:"@ + number::signed(self.x as int) + " y:"@ + number::signed(self.y as int)
            + " screen:"@ + number::decimal(self.screen as nat) + " window:"@ + number::decimal(
            self.window as nat,
        )
    }

    /// The place as `xdotool getmouselocation` shows it.
    pub fn text(self) -> (text: String)
        ensures
            text@ == self.shown(),
    {
        let m: String = append_signed(copy_text("x:"), self.x as i64);
        let m: String = append_signed(append(m, " y:"), self.y as i64);
        let m: String = append_number(append(m, " screen:"), self.screen as u128);
        append_number(append(m, " window:"), self.window as u128)
    }
}

/// The button with a number in XInput.
pub open spec fn numbered_button(detail: u32) -> Option<Button> {
    if detail == 1 {
        Some(Button::Left)
    } else if detail == 2 {
        Some(Button::Middle)
    } else if detail == 3 {
        Some(Button::Right)
    } else if detail == 8 {
        Some(Button::Side)
    } else if detail == 9 {
        Some(Button::Extra)
    } else {
        None
    }
}

/// The button with a number in XInput. The numbers of the wheels stand for none.
pub fn x11_button(detail: u32) -> (button: Option<Button>)
    ensures
        button == numbered_button(detail),
{
    match detail {
        1 => Some(Button::Left),
        2 => Some(Button::Middle),
        3 => Some(Button::Right),
        8 => Some(Button::Side),
        9 => Some(Button::Extra),
        _ => None,
    }
}

/// The mouse event for a raw button event of XInput, at a time.
pub fn convert_button_event(detail: u32, state: ButtonState, time: Timestamp) -> (event: Option<
    MouseEvent,
>)
    ensures
        event == match numbered_button(detail) {
            Some(button) => Some(MouseEvent::Button { button, state, time }),
            None => None,
        },
{
    match x11_button(detail) {
        Some(button) => Some(MouseEvent::Button { button, state, time }),
        None => None,
    }
}

/// Whether a window class property names a class: its first or its second field is the
/// class, in capital or small letters.
pub open spec fn class_matches(value: Seq<u8>, class: Seq<char>) -> bool {
    let fields = text::split(value, 0u8);
    &&& class.len() > 0
    &&& exists|index: int|
        0 <= index < fields.len() && index < 2 && bytes::lowered(#[trigger] fields[index])
            == bytes::lowered(bytes::encoded(class))
}

/// Decides whether a window class property names a class.
pub fn wm_class_matches(value: &[u8], class: &str) -> (yes: bool)
    ensures
        yes == class_matches(value@, class@),
{
    if class.is_empty() {
        return false;
    }
    let fields: Vec<Vec<u8>> = split_bytes(value, 0);
    let ghost all = text::split(value@, 0u8);
    let wanted: Vec<u8> = to_lowered(class.as_bytes());
    let mut index: usize = 0;
    while index < fields.len() && index < 2
        invariant
            index <= fields.len(),
            index <= 2,
            all == bytes::views(fields@),
            all == text::split(value@, 0u8),
            class@.len() > 0,
            wanted@ == bytes::lowered(bytes::encoded(class@)),
            forall|at: int| 0 <= at < index ==> bytes::lowered(#[trigger] all[at]) != wanted@,
        decreases fields.len() - index,
    {
        let small: Vec<u8> = to_lowered(&fields[index]);
        assert(all[index as int] == fields@[index as int]@);
        if same_bytes(&small, &wanted) {
            return true;
        }
        index += 1;
    }
    false
}

/// Decides whether a window is among others.
fn has_window(windows: &[u32], window: u32) -> (yes: bool)
    ensures
        yes == windows@.contains(window),
{
    let mut index: usize = 0;
    while index < windows.len()
        invariant
            index <= windows.len(),
            forall|at: int| 0 <= at < index ==> windows@[at] != window,
        decreases windows.len() - index,
    {
        if windows[index] == window {
            return true;
        }
        index += 1;
    }
    false
}

/// What is said where no window has a class.
pub open spec fn no_window(class: Seq<char>) -> Seq<char> {
    "no managed X11 window matches WM_CLASS "@ + text::quoted_text(class)
}

/// What is said where several windows have a class.
pub open spec fn ambiguous(class: Seq<char>, count: nat) -> Seq<char> {
    "ambiguous WM_CLASS "@ + text::quoted_text(class) + ": "@ + number::decimal(count)
        + " windows match and none is active; use a unique instance or class"@
}

/// The window that is meant by a class, among those that have it: the active one, else the
/// only one.
pub open spec fn meant(matches: Seq<u32>, active: u32) -> Option<u32> {
    if matches.contains(active) {
        Some(active)
    } else if matches.len() == 1 {
        Some(matches[0])
    } else {
        None
    }
}

/// What is said where no window is meant by a class.
pub open spec fn not_meant(matches: Seq<u32>, class: Seq<char>) -> Seq<char> {
    if matches.len() == 0 {
        no_window(class)
    } else {
        ambiguous(class, matches.len())
    }
}

/// Finds the window that is meant by a class, among those that have it.
pub fn matching_window(matches: &[u32], active: u32, class: &str) -> (window: Result<u32, String>)
    ensures
        match meant(matches@, active) {
            Some(found) => window == Ok::<u32, String>(found),
            None => window matches Err(message) && message@ == not_meant(matches@, class@),
        },
{
    if has_window(matches, active) {
        return Ok(active);
    }
    if matches.len() == 0 {
        return Err(
            append(copy_text("no managed X11 window matches WM_CLASS "), quoted(class).as_str()),
        );
    }
    if matches.len() == 1 {
        return Ok(matches[0]);
    }
    let m: String = append(copy_text("ambiguous WM_CLASS "), quoted(class).as_str());
    let m: String = append_number(append(m, ": "), matches.len() as u128);
    Err(append(m, " windows match and none is active; use a unique instance or class"))
}

/// A message that asks the window manager for something.
#[derive(Clone, Copy, Debug, Eq, PartialEq, Structural)]
pub struct ActivationRequest {
    /// How many bits each item of data has.
    pub format: u8,
    pub window: u32,
    /// The atom that says what is asked for.
    pub kind: u32,
    pub source: u32,
    pub time: u32,
    pub active: u32,
}

impl ActivationRequest {
    /// The data of the message.
    pub fn data(self) -> (data: [u32; 5])
        ensures
            data@ == seq![self.source, self.time, self.active, 0u32, 0u32],
    {
        [self.source, self.time, self.active, 0, 0]
    }
}

/// The message that activates a window, where it is not active. It speaks for a pager, at
/// the current time, and names the window that is active.
pub fn activation_request(target: u32, atom: u32, active: u32) -> (request: Option<
    ActivationRequest,
>)
    ensures
        request == if target == active {
            None
        } else {
            Some(
                ActivationRequest { format: 32, window: target, kind: atom, source: 2, time: 0, active },
            )
        },
{
    if target == active {
        return None;
    }
    Some(ActivationRequest { format: 32, window: target, kind: atom, source: 2, time: 0, active })
}

/// What is said of a display of XWayland.
pub open spec fn xwayland_refused() -> Seq<char> {
    "proportional cursor control requires native X11, but DISPLAY points to XWayland; --mouse-control direct opts into unverified uinput movement without global cursor feedback"@
}

/// What is said of a display that is not known to be native.
pub open spec fn unverified(session: Seq<char>) -> Seq<char> {
    "cannot verify native X11 for proportional cursor control: XDG_SESSION_TYPE="@ + session
        + ", and DISPLAY does not advertise XFree86-DGA; if this display is confirmed to be native Xorg, rerun with XDG_SESSION_TYPE=x11; otherwise --mouse-control direct opts into unverified uinput movement"@
}

/// Accepts a display that is known to be native X11: one that does not advertise XWAYLAND,
/// and either advertises XFree86-DGA, as Xorg does, or belongs to a session of that type.
pub fn validate_native_x11(session_type: Option<&str>, xwayland: bool, xfree86_dga: bool) -> (outcome:
    Result<(), String>)
    ensures
        if xwayland {
            outcome matches Err(message) && message@ == xwayland_refused()
        } else if xfree86_dga || (session_type matches Some(name) && name@ == "x11"@) {
            outcome is Ok
        } else {
            outcome matches Err(message) && message@ == unverified(
                match session_type {
                    Some(name) => name@,
                    None => "<unset>"@,
                },
            )
        },
{
    if xwayland {
        return Err(
            copy_text(
                "proportional cursor control requires native X11, but DISPLAY points to XWayland; --mouse-control direct opts into unverified uinput movement without global cursor feedback",
            ),
        );
    }
    let named: bool = match session_type {
        Some(name) => same_text(name, "x11"),
        None => false,
    };
    if xfree86_dga || named {
        return Ok(());
    }
    let session: &str = match session_type {
        Some(name) => name,
        None => "<unset>",
    };
    let m: String = append(
        copy_text(
            "cannot verify native X11 for proportional cursor control: XDG_SESSION_TYPE=",
        ),
        session,
    );
    Err(
        append(
            m,
            ", and DISPLAY does not advertise XFree86-DGA; if this display is confirmed to be native Xorg, rerun with XDG_SESSION_TYPE=x11; otherwise --mouse-control direct opts into unverified uinput movement",
        ),
    )
}

/// Whether a name is among those of extensions.
pub open spec fn advertises(extensions: Seq<Vec<u8>>, name: Seq<char>) -> bool {
    exists|index: int|
        0 <= index < extensions.len() && (#[trigger] extensions[index])@ == bytes::encoded(name)
}

/// Decides whether a name is among those of extensions.
pub fn has_extension(extensions: &Vec<Vec<u8>>, name: &str) -> (yes: bool)
    ensures
        yes == advertises(extensions@, name@),
{
    let mut index: usize = 0;
    while index < extensions.len()
        invariant
            index <= extensions.len(),
            forall|at: int|
                0 <= at < index ==> (#[trigger] extensions@[at])@ != bytes::encoded(name@),
        decreases extensions.len() - index,
    {
        if is_encoded(&extensions[index], name) {
            return true;
        }
        index += 1;
    }
    false
}

/// Accepts a display by its extensions and the type of its session.
pub fn require_native_x11(extensions: &Vec<Vec<u8>>, session_type: Option<&str>) -> (outcome: Result<
    (),
    String,
>)
    ensures
        if advertises(extensions@, "XWAYLAND"@) {
            outcome matches Err(message) && message@ == xwayland_refused()
        } else if advertises(extensions@, "XFree86-DGA"@) || (session_type matches Some(name)
            && name@ == "x11"@) {
            outcome is Ok
        } else {
            outcome matches Err(message) && message@ == unverified(
                match session_type {
                    Some(name) => name@,
                    None => "<unset>"@,
                },
            )
        },
{
    validate_native_x11(
        session_type,
        has_extension(extensions, "XWAYLAND"),
        has_extension(extensions, "XFree86-DGA"),
    )
}

/// The screen that is used: the one that is asked for, else the default.
pub fn choose_screen(requested: Option<usize>, default_screen: usize, screens: usize) -> (screen: Result<
    usize,
    String,
>)
    ensures
        ({
            let wanted = match requested {
                Some(screen) => screen,
                None => default_screen,
            };
            if wanted < screens {
                screen == Ok::<usize, String>(wanted)
            } else {
                screen matches Err(message) && message@ == "X11 screen "@ + number::decimal(
                    wanted as nat,
                ) + " does not exist"@
            }
        }),
{
    let wanted: usize = match requested {
        Some(screen) => screen,
        None => default_screen,
    };
    if wanted < screens {
        Ok(wanted)
    } else {
        let m: String = append_number(copy_text("X11 screen "), wanted as u128);
        Err(append(m, " does not exist"))
    }
}

/// Accepts version 2.1 of XInput or a newer one.
pub fn check_xinput(major: u16, minor: u16) -> (outcome: Result<(), String>)
    ensures
        if major > 2 || (major == 2 && minor >= 1) {
            outcome is Ok
        } else {
            outcome matches Err(message) && message@
                == "XInput 2.1 or newer is required, server provides "@ + number::decimal(
                major as nat,
            ) + "."@ + number::decimal(minor as nat)
        },
{
    if major > 2 || (major == 2 && minor >= 1) {
        return Ok(());
    }
    let m: String = append_number(
        copy_text("XInput 2.1 or newer is required, server provides "),
        major as u128,
    );
    Err(append_number(append(m, "."), minor as u128))
}

/// What the display says of the pointer.
#[derive(Clone, Copy, Debug, Eq, PartialEq, Structural)]
pub struct PointerReply {
    /// Whether the pointer is on the screen that was asked about.
    pub same_screen: bool,
    pub root_x: i16,
    pub root_y: i16,
    /// The window below the root that the pointer is in.
    pub child: u32,
}

/// Where the pointer is on a screen with a root window.
pub fn locate(reply: PointerReply, screen: usize, root: u32) -> (location: Result<
    CursorLocation,
    String,
>)
    ensures
        if reply.same_screen {
            location == Ok::<CursorLocation, String>(
                CursorLocation {
                    x: reply.root_x,
                    y: reply.root_y,
                    screen,
                    window: if reply.child == NO_WINDOW {
                        root
                    } else {
                        reply.child
                    },
                },
            )
        } else {
            location matches Err(message) && message@ == "pointer is not on X11 screen "@
                + number::decimal(screen as nat)
        },
{
    if !reply.same_screen {
        return Err(append_number(copy_text("pointer is not on X11 screen "), screen as u128));
    }
    let window: u32 = if reply.child == NO_WINDOW {
        root
    } else {
        reply.child
    };
    Ok(CursorLocation { x: reply.root_x, y: reply.root_y, screen, window })
}

/// What is said of a home position outside the screen.
pub open spec fn home_outside(x: i16, y: i16, screen: usize, width: u16, height: u16) -> Seq<char> {
    "home position ("@ + number::signed(x as int) + ", "@ + number::signed(y as int)
        + ") is outside X11 screen "@ + number::decimal(screen as nat) + " ("@ + number::decimal(
        width as nat,
    ) + "x"@ + number::decimal(height as nat) + ")"@
}

/// Accepts a home position on a screen.
pub fn check_home(x: i16, y: i16, screen: usize, width: u16, height: u16) -> (outcome: Result<
    (),
    String,
>)
    ensures
        if 0 <= x < width && 0 <= y < height {
            outcome is Ok
        } else {
            outcome matches Err(message) && message@ == home_outside(x, y, screen, width, height)
        },
{
    if x >= 0 && y >= 0 && (x as i32) < (width as i32) && (y as i32) < (height as i32) {
        return Ok(());
    }
    let m: String = append_signed(copy_text("home position ("), x as i64);
    let m: String = append_signed(append(m, ", "), y as i64);
    let m: String = append_number(append(m, ") is outside X11 screen "), screen as u128);
    let m: String = append_number(append(m, " ("), width as u128);
    let m: String = append_number(append(m, "x"), height as u128);
    Err(append(m, ")"))
}

/// What is said of a pointer that did not go where it was sent.
pub open spec fn calibration_failed(x: i16, y: i16, location: CursorLocation) -> Seq<char> {
    "X11 pointer calibration failed: requested ("@ + number::signed(x as int) + ", "@
        + number::signed(y as int) + "), got ("@ + number::signed(location.x as int) + ", "@
        + number::signed(location.y as int) + ")"@
}

/// Accepts a pointer that is where it was sent.
pub fn check_calibration(x: i16, y: i16, location: CursorLocation) -> (outcome: Result<
    CursorLocation,
    String,
>)
    ensures
        if location.x == x && location.y == y {
            outcome == Ok::<CursorLocation, String>(location)
        } else {
            outcome matches Err(message) && message@ == calibration_failed(x, y, location)
        },
{
    if location.x == x && location.y == y {
        return Ok(location);
    }
    let m: String = append_signed(
        copy_text("X11 pointer calibration failed: requested ("),
        x as i64,
    );
    let m: String = append_signed(append(m, ", "), y as i64);
    let m: String = append_signed(append(m, "), got ("), location.x as i64);
    let m: String = append_signed(append(m, ", "), location.y as i64);
    Err(append(m, ")"))
}

/// Accepts a desktop in which every place has pointer coordinates.
pub fn check_dimensions(width: u16, height: u16) -> (size: Result<(u16, u16), String>)
    ensures
        if 0 < width <= MAX_DESKTOP && 0 < height <= MAX_DESKTOP {
            size == Ok::<(u16, u16), String>((width, height))
        } else {
            size matches Err(message) && message@
                == "X11 desktop dimensions exceed the supported pointer coordinate range"@
        },
        size is Ok <==> 0 < width <= 32_768 && 0 < height <= 32_768,
{
    if width > 0 && height > 0 && width <= MAX_DESKTOP && height <= MAX_DESKTOP {
        Ok((width, height))
    } else {
        Err(copy_text("X11 desktop dimensions exceed the supported pointer coordinate range"))
    }
}

/// The pointer coordinates of a place.
pub fn warp_target(position: Point) -> (target: Result<(i16, i16), String>)
    ensures
        if !(i16::MIN <= position.x <= i16::MAX) {
            target matches Err(message) && message@ == "cursor x exceeds X11 coordinate range"@
        } else if !(i16::MIN <= position.y <= i16::MAX) {
            target matches Err(message) && message@ == "cursor y exceeds X11 coordinate range"@
        } else {
            target matches Ok((x, y)) && x == position.x && y == position.y
        },
{
    if position.x < -32_768 || position.x > 32_767 {
        return Err(copy_text("cursor x exceeds X11 coordinate range"));
    }
    if position.y < -32_768 || position.y > 32_767 {
        return Err(copy_text("cursor y exceeds X11 coordinate range"));
    }
    Ok((position.x as i16, position.y as i16))
}

/// Every place of an accepted desktop has pointer coordinates.
pub proof fn law_accepted_desktops_can_be_pointed_at(width: u16, height: u16, position: Point)
    requires
        0 < width <= MAX_DESKTOP,
        0 < height <= MAX_DESKTOP,
        0 <= position.x < width,
        0 <= position.y < height,
    ensures
        i16::MIN <= position.x <= i16::MAX,
        i16::MIN <= position.y <= i16::MAX,
{
}

/// The numbers of buttons: the first three in a row from the left, and two at the side
/// behind those of the wheels, which stand for no button.
pub proof fn law_buttons_by_number(detail: u32)
    ensures
        numbered_button(detail) == Some(Button::Left) <==> detail == 1,
        numbered_button(detail) == Some(Button::Middle) <==> detail == 2,
        numbered_button(detail) == Some(Button::Right) <==> detail == 3,
        numbered_button(detail) == Some(Button::Side) <==> detail == 8,
        numbered_button(detail) == Some(Button::Extra) <==> detail == 9,
{
}

/// A window has a class where that is its instance or its class, in capital or small
/// letters; what else stands in the property does not count.
pub proof fn law_window_has_its_two_names(
    instance: Seq<u8>,
    named: Seq<u8>,
    other: Seq<u8>,
    class: Seq<char>,
)
    requires
        !instance.contains(0u8),
        !named.contains(0u8),
        !other.contains(0u8),
        class.len() > 0,
    ensures
        ({
            let wanted = bytes::lowered(bytes::encoded(class));
            let value = ((instance.push(0u8) + named).push(0u8) + other);
            class_matches(value, class) <==> bytes::lowered(instance) == wanted || bytes::lowered(
                named,
            ) == wanted
        }),
        forall|value: Seq<u8>| !#[trigger] class_matches(value, Seq::empty()),
{
    let wanted = bytes::lowered(bytes::encoded(class));
    let value = (instance.push(0u8) + named).push(0u8) + other;
    text::lemma_split_one(instance, 0u8);
    text::lemma_split_push(instance, named, 0u8);
    text::lemma_split_push(instance.push(0u8) + named, other, 0u8);
    let fields = text::split(value, 0u8);
    assert(fields[0] == instance);
    assert(fields[1] == named);
    assert(fields.len() == 3);
}

/// The window that is meant is the active one where it has the class, else the only one
/// that has it; among several none is meant, nor among none.
pub proof fn law_meant_window(matches: Seq<u32>, active: u32)
    ensures
        matches.contains(active) ==> meant(matches, active) == Some(active),
        !matches.contains(active) && matches.len() == 1 ==> meant(matches, active) == Some(
            matches[0],
        ),
        !matches.contains(active) && matches.len() != 1 ==> meant(matches, active) is None,
        meant(matches, active) matches Some(window) ==> matches.contains(window),
{
    if matches.len() == 1 {
        assert(matches[0] == matches[0]);
    }
}

/// Where no window is meant, it is told whether none has the class or how many do.
pub proof fn law_missing_window_is_told(matches: Seq<u32>, class: Seq<char>)
    ensures
        matches.len() == 0 ==> text::ends(not_meant(matches, class), text::quoted_text(class)),
        matches.len() > 0 ==> text::occurs(
            not_meant(matches, class),
            text::quoted_text(class) + ": "@ + number::decimal(matches.len()) + " windows"@,
        ),
{
    let shown = text::quoted_text(class);
    text::lemma_part_occurs("no managed X11 window matches WM_CLASS "@, shown, Seq::empty());
    reveal_strlit(" windows");
    reveal_strlit(" windows match and none is active; use a unique instance or class");
    let long = " windows match and none is active; use a unique instance or class"@;
    let rest = long.skip(8);
    assert(long =~= " windows"@ + rest);
    let part = shown + ": "@ + number::decimal(matches.len()) + " windows"@;
    text::lemma_part_occurs("ambiguous WM_CLASS "@, part, rest);
    assert(ambiguous(class, matches.len()) =~= "ambiguous WM_CLASS "@ + part + rest);
}

/// A place is shown with its two coordinates first, then its screen and its window.
pub proof fn law_place_is_shown(location: CursorLocation)
    ensures
        text::begins(
            location.shown(),
            "x:"@ + number::signed(location.x as int) + " y:"@ + number::signed(location.y as int),
        ),
        text::ends(
            location.shown(),
            " screen:"@ + number::decimal(location.screen as nat) + " window:"@ + number::decimal(
                location.window as nat,
            ),
        ),
{
    let start = "x:"@ + number::signed(location.x as int) + " y:"@ + number::signed(
        location.y as int,
    );
    let end = " screen:"@ + number::decimal(location.screen as nat) + " window:"@
        + number::decimal(location.window as nat);
    let shown = location.shown();
    assert(shown =~= start + end);
    assert(shown.take(start.len() as int) =~= start);
    assert(shown.skip(shown.len() - end.len()) =~= end);
}

/// A pointer that did not go where it was sent is told with the place that was asked for
/// first and the place where it is last.
pub proof fn law_failed_calibration_is_told(x: i16, y: i16, location: CursorLocation)
    ensures
        text::begins(
            calibration_failed(x, y, location),
            "X11 pointer calibration failed: requested ("@ + number::signed(x as int) + ", "@
                + number::signed(y as int) + ")"@,
        ),
        text::ends(
            calibration_failed(x, y, location),
            "got ("@ + number::signed(location.x as int) + ", "@ + number::signed(location.y as int)
                + ")"@,
        ),
{
    reveal_strlit("), got (");
    reveal_strlit(")");
    reveal_strlit("got (");
    let start = "X11 pointer calibration failed: requested ("@ + number::signed(x as int) + ", "@
        + number::signed(y as int) + ")"@;
    let end = "got ("@ + number::signed(location.x as int) + ", "@ + number::signed(
        location.y as int,
    ) + ")"@;
    let said = calibration_failed(x, y, location);
    assert("), got ("@ =~= ")"@ + seq![',', ' '] + "got ("@);
    assert(said =~= start + seq![',', ' '] + end);
    assert(said.take(start.len() as int) =~= start);
    assert(said.skip(said.len() - end.len()) =~= end);
}

/// A home position outside the screen is told with the position first and the size of the
/// screen last.
pub proof fn law_home_outside_is_told(x: i16, y: i16, screen: usize, width: u16, height: u16)
    ensures
        text::begins(
            home_outside(x, y, screen, width, height),
            "home position ("@ + number::signed(x as int) + ", "@ + number::signed(y as int),
        ),
        text::ends(
            home_outside(x, y, screen, width, height),
            " X11 screen "@ + number::decimal(screen as nat) + " ("@ + number::decimal(width as nat)
                + "x"@ + number::decimal(height as nat) + ")"@,
        ),
{
    reveal_strlit(") is outside X11 screen ");
    reveal_strlit(" X11 screen ");
    let middle = ") is outside X11 screen "@;
    let cut = middle.take(12);
    assert(middle =~= cut + " X11 screen "@);
    let start = "home position ("@ + number::signed(x as int) + ", "@ + number::signed(y as int);
    let end = " X11 screen "@ + number::decimal(screen as nat) + " ("@ + number::decimal(
        width as nat,
    ) + "x"@ + number::decimal(height as nat) + ")"@;
    let said = home_outside(x, y, screen, width, height);
    assert(said =~= start + cut + end);
    assert(said.take(start.len() as int) =~= start);
    assert(said.skip(said.len() - end.len()) =~= end);
}

/// An extension is advertised where its name is among those that are.
pub proof fn law_advertised_extensions(extensions: Seq<Vec<u8>>, one: Vec<u8>, name: Seq<char>)
    ensures
        !advertises(Seq::empty(), name),
        advertises(extensions.push(one), name) <==> advertises(extensions, name) || one@
            == bytes::encoded(name),
{
    let more = extensions.push(one);
    if advertises(extensions, name) {
        let index = choose|index: int|
            0 <= index < extensions.len() && (#[trigger] extensions[index])@ == bytes::encoded(
                name,
            );
        assert(more[index] == extensions[index]);
    }
    if one@ == bytes::encoded(name) {
        assert(more[extensions.len() as int] == one);
    }
    if advertises(more, name) {
        let index = choose|index: int|
            0 <= index < more.len() && (#[trigger] more[index])@ == bytes::encoded(name);
        if index < extensions.len() {
            assert(extensions[index] == more[index]);
        }
    }
}

/// A display that is not known to be native is told with the type of its session.
pub proof fn law_unverified_display_is_told(session: Seq<char>)
    ensures
        text::occurs(unverified(session), "XDG_SESSION_TYPE="@ + session),
{
    let first = "cannot verify native X11 for proportional cursor control: XDG_SESSION_TYPE="@;
    reveal_strlit("cannot verify native X11 for proportional cursor control: XDG_SESSION_TYPE=");
    reveal_strlit("XDG_SESSION_TYPE=");
    let size = first.len() - "XDG_SESSION_TYPE="@.len();
    let start = first.take(size);
    assert(first =~= start + "XDG_SESSION_TYPE="@);
    let part = "XDG_SESSION_TYPE="@ + session;
    let said = unverified(session);
    let rest = said.skip((start + part).len() as int);
    text::lemma_part_occurs(start, part, rest);
    assert(said =~= start + part + rest);
}

} // verus!
