use computeruse::focus::{focus_window, ClassReply, Focus, FocusStep, WindowsReply};
use computeruse::x11::{
    activation_request, check_calibration, check_dimensions, check_home, check_xinput,
    choose_screen, convert_button_event, locate, matching_window, require_native_x11,
    validate_native_x11, warp_target, wm_class_matches, x11_button, CursorLocation, PointerReply,
};
use computeruse::{Button, ButtonState, MouseEvent, Point, Timestamp};
use x11rb::protocol::xproto::{AtomEnum, ClientMessageEvent};

#[test]
fn matches_exact_wm_class_instance_or_class_ignoring_ascii_case() {
    for class in ["firefox", "FIREFOX", "Navigator", "navigator"] {
        assert!(wm_class_matches(b"firefox\0Navigator\0", class));
    }
    assert!(wm_class_matches(b"firefox\0firefox\0", "Firefox"));
    for class in ["", "fire", "fox", "firefox-esr", " firefox", "Other"] {
        assert!(!wm_class_matches(b"firefox\0Navigator\0", class));
    }
    assert!(!wm_class_matches(b"other\0Other\0firefox\0", "firefox"));
    assert!(!wm_class_matches(b"", "firefox"));
}

#[test]
fn selects_active_match_or_unique_match_but_never_arbitrary_window() {
    assert_eq!(matching_window(&[10, 20], 20, "firefox").unwrap(), 20);
    assert_eq!(matching_window(&[10], 30, "firefox").unwrap(), 10);
    assert!(
        matching_window(&[], 30, "firefox")
            .unwrap_err()
            .to_string()
            .contains("no managed X11 window")
    );
    for matches in [&[10, 20][..], &[20, 10][..]] {
        let error = matching_window(matches, 30, "firefox")
            .unwrap_err()
            .to_string();
        assert!(error.contains("ambiguous WM_CLASS \"firefox\""));
    }
    assert_eq!(
        matching_window(&[], 30, "a\"b").unwrap_err(),
        "no managed X11 window matches WM_CLASS \"a\\\"b\""
    );
    assert_eq!(
        matching_window(&[1, 2, 3], 30, "term").unwrap_err(),
        "ambiguous WM_CLASS \"term\": 3 windows match and none is active; use a unique \
         instance or class"
    );
}

#[test]
fn activation_is_idempotent_and_uses_ewmh_pager_request() {
    assert!(activation_request(10, 99, 10).is_none());
    for active in [x11rb::NONE, 20] {
        let request = activation_request(10, 99, active).unwrap();
        let request =
            ClientMessageEvent::new(request.format, request.window, request.kind, request.data());
        assert_eq!(
            request.response_type,
            x11rb::protocol::xproto::CLIENT_MESSAGE_EVENT
        );
        assert_eq!(request.format, 32);
        assert_eq!(request.window, 10);
        assert_eq!(request.type_, 99);
        assert_eq!(
            request.data.as_data32(),
            [2, x11rb::CURRENT_TIME, active, 0, 0]
        );
    }
}

#[test]
fn native_x11_detection_handles_stale_and_missing_session_metadata() {
    for session_type in [Some("x11"), Some("wayland"), Some("tty"), Some(""), None] {
        for (xwayland, xfree86_dga) in
            [(false, false), (false, true), (true, false), (true, true)]
        {
            let result = validate_native_x11(session_type, xwayland, xfree86_dga);
            assert_eq!(
                result.is_ok(),
                !xwayland && (xfree86_dga || session_type == Some("x11")),
                "session={session_type:?}, XWAYLAND={xwayland}, XFree86-DGA={xfree86_dga}"
            );
        }
    }
}

#[test]
fn unverified_session_errors_report_the_session_value_and_remedy() {
    for session_type in [Some("wayland"), None] {
        let error = validate_native_x11(session_type, false, false)
            .unwrap_err()
            .to_string();
        assert!(error.contains(&format!(
            "XDG_SESSION_TYPE={}",
            session_type.unwrap_or("<unset>")
        )));
        assert!(error.contains("confirmed to be native Xorg"));
        assert!(error.contains("--mouse-control direct"));
    }
    let error = validate_native_x11(Some("x11"), true, false)
        .unwrap_err()
        .to_string();
    assert!(error.contains("DISPLAY points to XWayland"));
}

#[test]
fn maps_xinput_buttons_and_ignores_wheel_details() {
    assert_eq!(x11_button(1), Some(Button::Left));
    assert_eq!(x11_button(2), Some(Button::Middle));
    assert_eq!(x11_button(3), Some(Button::Right));
    assert_eq!(x11_button(8), Some(Button::Side));
    assert_eq!(x11_button(9), Some(Button::Extra));
    for detail in 4..=7 {
        assert_eq!(x11_button(detail), None);
    }
}

#[test]
fn raw_button_events_become_mouse_events() {
    let time = Timestamp { bits: 77 };
    assert_eq!(
        convert_button_event(3, ButtonState::Up, time),
        Some(MouseEvent::Button { button: Button::Right, state: ButtonState::Up, time })
    );
    assert_eq!(convert_button_event(5, ButtonState::Down, time), None);
}

#[test]
fn extensions_tell_the_kind_of_server() {
    let names = |list: &[&str]| list.iter().map(|name| name.as_bytes().to_vec()).collect();
    assert!(require_native_x11(&names(&["MIT-SHM", "XFree86-DGA"]), Some("wayland")).is_ok());
    assert!(require_native_x11(&names(&["XFree86-DGA", "XWAYLAND"]), Some("x11")).is_err());
    assert!(require_native_x11(&names(&["XFree86-DGA2"]), None).is_err());
    assert!(require_native_x11(&names(&[]), Some("x11")).is_ok());
}

#[test]
fn screens_and_versions_are_checked() {
    assert_eq!(choose_screen(None, 1, 2), Ok(1));
    assert_eq!(choose_screen(Some(0), 1, 2), Ok(0));
    assert_eq!(
        choose_screen(Some(2), 1, 2),
        Err("X11 screen 2 does not exist".to_string())
    );
    assert!(check_xinput(2, 1).is_ok());
    assert!(check_xinput(3, 0).is_ok());
    assert_eq!(
        check_xinput(2, 0),
        Err("XInput 2.1 or newer is required, server provides 2.0".to_string())
    );
    assert!(check_xinput(1, 9).is_err());
}

#[test]
fn pointer_is_located_and_calibrated() {
    let reply = PointerReply { same_screen: true, root_x: -3, root_y: 4, child: 0 };
    let location = locate(reply, 1, 500).unwrap();
    assert_eq!(location, CursorLocation { x: -3, y: 4, screen: 1, window: 500 });
    assert_eq!(location.text(), "x:-3 y:4 screen:1 window:500");
    let reply = PointerReply { child: 9, ..reply };
    assert_eq!(locate(reply, 1, 500).unwrap().window, 9);
    let reply = PointerReply { same_screen: false, ..reply };
    assert_eq!(
        locate(reply, 1, 500),
        Err("pointer is not on X11 screen 1".to_string())
    );

    assert!(check_home(960, 540, 0, 961, 541).is_ok());
    assert_eq!(
        check_home(960, 540, 0, 960, 1080),
        Err("home position (960, 540) is outside X11 screen 0 (960x1080)".to_string())
    );
    assert!(check_home(-1, 0, 0, 10, 10).is_err());
    assert_eq!(check_calibration(-3, 4, location), Ok(location));
    assert_eq!(
        check_calibration(960, 540, location),
        Err(
            "X11 pointer calibration failed: requested (960, 540), got (-3, 4)".to_string()
        )
    );
}

#[test]
fn desktops_and_places_are_within_the_coordinate_range() {
    assert_eq!(check_dimensions(1, 32_768), Ok((1, 32_768)));
    for (width, height) in [(0, 1), (1, 0), (32_769, 1), (1, u16::MAX)] {
        assert_eq!(
            check_dimensions(width, height),
            Err("X11 desktop dimensions exceed the supported pointer coordinate range".to_string())
        );
    }
    assert_eq!(warp_target(Point { x: 32_767, y: -32_768 }), Ok((32_767, -32_768)));
    assert_eq!(
        warp_target(Point { x: 32_768, y: 0 }),
        Err("cursor x exceeds X11 coordinate range".to_string())
    );
    assert_eq!(
        warp_target(Point { x: 0, y: -32_769 }),
        Err("cursor y exceeds X11 coordinate range".to_string())
    );
}

/// A window manager that activates a window some looks after it was asked.
struct Desktop {
    atoms: Vec<&'static str>,
    clients: Vec<(u32, &'static [u8])>,
    active: u32,
    requested: Option<u32>,
    delay: usize,
    sent: usize,
    now: u128,
}

impl Desktop {
    fn new(clients: Vec<(u32, &'static [u8])>, active: u32) -> Self {
        Desktop {
            atoms: vec!["", "_NET_CLIENT_LIST", "_NET_ACTIVE_WINDOW"],
            clients,
            active,
            requested: None,
            delay: 3,
            sent: 0,
            now: 0,
        }
    }

    fn windows(&self, property: u32) -> WindowsReply {
        let windows = match self.atoms[property as usize] {
            "_NET_CLIENT_LIST" => self.clients.iter().map(|(window, _)| *window).collect(),
            _ => vec![self.active],
        };
        WindowsReply { kind: u32::from(AtomEnum::WINDOW), format: 32, windows }
    }

    fn focus(&mut self, class: &str) -> Result<(), String> {
        let (mut focus, mut step): (Focus, FocusStep) = focus_window(class)?;
        let mut atoms_known = 0;
        let mut targeted = false;
        loop {
            step = match step {
                FocusStep::Atom { name } => {
                    atoms_known += 1;
                    let atom = self.atoms.iter().position(|known| *known == name);
                    focus.atom(atom.unwrap_or(0) as u32)
                }
                FocusStep::Windows { property } => {
                    assert_eq!(atoms_known, 2);
                    let reply = self.windows(property);
                    if self.atoms[property as usize] == "_NET_CLIENT_LIST" {
                        focus.listed(reply)
                    } else if targeted {
                        focus.checked(reply)
                    } else {
                        focus.found_active(reply)
                    }
                }
                FocusStep::Class { window } => {
                    let class = self.clients.iter().find(|(id, _)| *id == window).unwrap().1;
                    focus.classified(ClassReply {
                        kind: u32::from(AtomEnum::STRING),
                        format: 8,
                        value: class.to_vec(),
                    })
                }
                FocusStep::Send { request } => {
                    self.sent += 1;
                    self.requested = Some(request.window);
                    focus.sent()
                }
                FocusStep::Clock => {
                    targeted = true;
                    focus.timed(self.now)
                }
                FocusStep::Attributes { .. } => {
                    if self.delay == 0 {
                        if let Some(window) = self.requested {
                            self.active = window;
                        }
                    } else {
                        self.delay -= 1;
                    }
                    focus.viewed(true)
                }
                FocusStep::Pause { nanoseconds } => {
                    assert_eq!(nanoseconds, 20_000_000);
                    self.now += u128::from(nanoseconds);
                    focus.paused()
                }
                FocusStep::Finished(outcome) => return outcome,
            };
        }
    }
}

#[test]
fn inactive_window_is_activated_and_waited_for() {
    let mut desktop = Desktop::new(vec![(10, b"term\0XTerm\0"), (20, b"firefox\0Navigator\0")], 10);
    assert_eq!(desktop.focus("navigator"), Ok(()));
    assert_eq!(desktop.active, 20);
    assert_eq!(desktop.sent, 1);
    assert_eq!(desktop.now, 60_000_000);
}

#[test]
fn active_window_is_not_asked_for() {
    let mut desktop = Desktop::new(vec![(10, b"term\0XTerm\0"), (20, b"term\0XTerm\0")], 20);
    assert_eq!(desktop.focus("XTERM"), Ok(()));
    assert_eq!(desktop.sent, 0);
    assert_eq!(desktop.now, 0);
}

#[test]
fn window_manager_that_does_not_react_is_given_up() {
    let mut desktop = Desktop::new(vec![(10, b"a\0A\0"), (31, b"term\0XTerm\0")], 10);
    desktop.delay = usize::MAX;
    assert_eq!(
        desktop.focus("term"),
        Err(
            "timed out waiting for window 0x1f (\"term\") to become active and viewable; \
             window manager did not acknowledge activation"
                .to_string()
        )
    );
    assert_eq!(desktop.now, 2_000_000_000);
}

#[test]
fn focus_reports_what_is_missing() {
    let expected = Err("window class must be nonempty and contain no NUL bytes".to_string());
    assert_eq!(Desktop::new(vec![], 0).focus(""), expected);
    assert_eq!(Desktop::new(vec![], 0).focus("a\0b"), expected);

    let mut desktop = Desktop::new(vec![], 0);
    desktop.atoms = vec!["", "_NET_CLIENT_LIST"];
    assert_eq!(
        desktop.focus("term"),
        Err("window manager does not provide EWMH _NET_ACTIVE_WINDOW".to_string())
    );
    desktop.atoms = vec![""];
    assert_eq!(
        desktop.focus("term"),
        Err("window manager does not provide EWMH _NET_CLIENT_LIST".to_string())
    );
    assert_eq!(
        Desktop::new(vec![(1, b"a\0b\0")], 1).focus("term"),
        Err("no managed X11 window matches WM_CLASS \"term\"".to_string())
    );
}

#[test]
fn broken_properties_are_reported() {
    let (mut focus, _) = focus_window("term").unwrap();
    focus.atom(5);
    focus.atom(6);
    let reply = WindowsReply { kind: 0, format: 0, windows: vec![] };
    assert!(matches!(
        focus.listed(reply),
        FocusStep::Finished(Err(message))
            if message == "window manager has missing or invalid EWMH _NET_CLIENT_LIST"
    ));

    let (mut focus, _) = focus_window("term").unwrap();
    focus.atom(5);
    focus.atom(6);
    let list = WindowsReply { kind: 33, format: 32, windows: vec![] };
    assert!(matches!(focus.listed(list), FocusStep::Windows { property: 6 }));
    let none = WindowsReply { kind: 33, format: 32, windows: vec![] };
    assert!(matches!(
        focus.found_active(none),
        FocusStep::Finished(Err(message))
            if message == "invalid EWMH _NET_ACTIVE_WINDOW length"
    ));
}
