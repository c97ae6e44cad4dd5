use sysmon_panel::panel::{check_idle, check_invert, handle_buttons, Buttons, Navigation, PanelState};

fn press(up: bool, down: bool, star: bool) -> Buttons {
    Buttons { star, hash: false, up, down }
}

#[test]
fn start_state() {
    let s = PanelState::initial();
    assert!(s.display_on && !s.is_inverted && s.main_menus);
    assert_eq!(s.current_page, 0);
}

#[test]
fn up_and_down_move_back_and_wrap() {
    let s = PanelState::initial();
    let (s1, o1) = handle_buttons(s, press(true, false, false), 2);
    assert_eq!(s1.current_page, 1);
    assert_eq!(o1.navigation, Navigation::Up);
    assert!(o1.pressed && !o1.wake_display);
    let (s2, o2) = handle_buttons(s1, press(false, true, false), 2);
    assert_eq!(s2.current_page, 0);
    assert_eq!(o2.navigation, Navigation::Down);
    let (s3, _) = handle_buttons(PanelState { current_page: 2, ..s }, press(true, true, false), 3);
    assert_eq!(s3.current_page, 1);
}

#[test]
fn other_buttons_only_restart_idle_clock() {
    let s = PanelState::initial();
    let (s1, o1) = handle_buttons(s, press(false, false, true), 2);
    assert_eq!(s1, s);
    assert!(o1.pressed);
    assert_eq!(o1.navigation, Navigation::Stay);
    let (s2, o2) = handle_buttons(s, press(false, false, false), 2);
    assert_eq!(s2, s);
    assert!(!o2.pressed);
}

#[test]
fn press_wakes_dark_screen() {
    let s = PanelState { display_on: false, current_page: 1, ..PanelState::initial() };
    let (s1, o1) = handle_buttons(s, press(true, false, false), 2);
    assert!(s1.display_on && o1.wake_display);
    assert_eq!(s1.current_page, 1);
    assert_eq!(o1.navigation, Navigation::Stay);
}

#[test]
fn inversion_alternates() {
    let s = PanelState::initial();
    let (s1, v1) = check_invert(s, 5_000_000_000);
    assert_eq!(v1, Some(false));
    assert!(s1.is_inverted);
    let (s2, v2) = check_invert(s1, 4_000_000_001);
    assert_eq!(v2, Some(true));
    assert_eq!(s2, s);
    let (s3, v3) = check_invert(s2, 4_000_000_000);
    assert_eq!(v3, None);
    assert_eq!(s3, s2);
}

#[test]
fn idle_screen_goes_dark() {
    let s = PanelState::initial();
    assert_eq!(check_idle(s, 29_999_999_999), (s, true));
    let (s1, lit) = check_idle(s, 30_000_000_000);
    assert!(!lit);
    assert!(!s1.display_on);
    assert_eq!(s1.current_page, s.current_page);
}
