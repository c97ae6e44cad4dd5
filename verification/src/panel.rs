//! The panel's decisions: what the buttons do, when the screen renders a
//! page, when it flips its colours to spare the OLED, and when it goes dark.
//! The caller reads the buttons and the clocks, and carries out the actions.
use vstd::prelude::*;

verus! {

/// How long the screen stays on after the last button press, in nanoseconds (30 s).
pub const IDLE_TIMEOUT_NANOS: u128 = 30_000_000_000;

/// How long between colour inversions, in nanoseconds (4 s).
pub const INVERT_INTERVAL_NANOS: u128 = 4_000_000_000;

/// The state of the panel between two rounds of its loop.
#[derive(Clone, Copy, Debug, PartialEq, Eq, Structural)]
pub struct PanelState {
    pub display_on: bool,
    pub is_inverted: bool,
    pub current_page: usize,
    pub main_menus: bool,
}

/// Which buttons read as pressed in a round.
#[derive(Clone, Copy, Debug, PartialEq, Eq, Structural)]
pub struct Buttons {
    pub star: bool,
    pub hash: bool,
    pub up: bool,
    pub down: bool,
}

/// Which way a press moved through the pages.
#[derive(Clone, Copy, Debug, PartialEq, Eq, Structural)]
pub enum Navigation {
    Stay,
    Up,
    Down,
}

/// What the buttons of a round ask for.
#[derive(Clone, Copy, Debug, PartialEq, Eq, Structural)]
pub struct ButtonOutcome {
    /// Some button was pressed: the idle clock starts again.
    pub pressed: bool,
    /// The screen was dark: turn its brightness back on.
    pub wake_display: bool,
    /// The page moved, and by which button.
    pub navigation: Navigation,
}

/// The state the panel starts in.
pub open spec fn initial_state() -> PanelState {
    PanelState { display_on: true, is_inverted: false, current_page: 0, main_menus: true }
}

/// The page before `current` among `count` pages, wrapping from the first to the last.
pub open spec fn previous_page(current: int, count: int) -> int {
    (current - 1) % count
}

/// The state and outcome after the buttons of a round.
pub open spec fn button_step(s: PanelState, b: Buttons, page_count: int) -> (PanelState, ButtonOutcome) {
    let pressed = b.star || b.hash || b.up || b.down;
    if !pressed {
        (s, ButtonOutcome { pressed: false, wake_display: false, navigation: Navigation::Stay })
    } else if !s.display_on {
        (
            PanelState { display_on: true, ..s },
            ButtonOutcome { pressed: true, wake_display: true, navigation: Navigation::Stay },
        )
    } else if s.main_menus && (b.up || b.down) {
        (
            PanelState { current_page: previous_page(s.current_page as int, page_count) as usize, ..s },
            ButtonOutcome {
                pressed: true,
                wake_display: false,
                navigation: if b.up {
                    Navigation::Up
                } else {
                    Navigation::Down
                },
            },
        )
    } else {
        (s, ButtonOutcome { pressed: true, wake_display: false, navigation: Navigation::Stay })
    }
}

/// Whether the screen stays lit, given the time since the last press: it
/// does within 30 s; after that it goes dark.
pub open spec fn idle_step(s: PanelState, since_press: u128) -> (PanelState, bool) {
    if since_press < IDLE_TIMEOUT_NANOS {
        (s, true)
    } else {
        (PanelState { display_on: false, ..s }, false)
    }
}

/// Whether to set the colour inversion, and to what, given the time since
/// the last inversion: more than 4 s after it, the inversion is set to the
/// state's flag, and the flag flips.
pub open spec fn invert_step(s: PanelState, since_invert: u128) -> (PanelState, Option<bool>) {
    if since_invert > INVERT_INTERVAL_NANOS {
        (PanelState { is_inverted: !s.is_inverted, ..s }, Some(s.is_inverted))
    } else {
        (s, None)
    }
}

/// The state after the screen's part of a round: when it stays lit the page
/// is drawn and the inversion may flip; else it goes dark.
pub open spec fn frame_step(s: PanelState, since_press: u128, since_invert: u128) -> PanelState {
    let (s1, lit) = idle_step(s, since_press);
    if lit {
        invert_step(s1, since_invert).0
    } else {
        s1
    }
}

impl PanelState {
    /// The state the panel starts in: screen on, not inverted, first page, in the main menus.
    pub fn initial() -> (s: Self)
        ensures
            s == initial_state(),
    {
        PanelState { display_on: true, is_inverted: false, current_page: 0, main_menus: true }
    }
}

/// The page before the first is the last.
proof fn lemma_previous_of_first(count: int)
    requires
        count > 0,
    ensures
        previous_page(0, count) == count - 1,
{
    vstd::arithmetic::div_mod::lemma_fundamental_div_mod_converse(-1int, count, -1int, count - 1);
}

/// Reacts to the buttons of a round. A press wakes a dark screen and does
/// nothing else; on a lit screen in the main menus, up or down moves to the
/// previous page (both buttons move the same way).
pub fn handle_buttons(state: PanelState, buttons: Buttons, page_count: usize) -> (r: (
    PanelState,
    ButtonOutcome,
))
    requires
        0 < page_count <= i32::MAX,
        state.current_page <= i32::MAX,
    ensures
        r == button_step(state, buttons, page_count as int),
{
    let pressed = buttons.star || buttons.hash || buttons.up || buttons.down;
    if !pressed {
        (state, ButtonOutcome { pressed: false, wake_display: false, navigation: Navigation::Stay })
    } else if !state.display_on {
        (
            PanelState { display_on: true, ..state },
            ButtonOutcome { pressed: true, wake_display: true, navigation: Navigation::Stay },
        )
    } else if state.main_menus && (buttons.up || buttons.down) {
        let page = if state.current_page == 0 {
            proof {
                lemma_previous_of_first(page_count as int);
            }
            page_count - 1
        } else {
            (state.current_page - 1) % page_count
        };
        assert(page as int == previous_page(state.current_page as int, page_count as int));
        let navigation = if buttons.up {
            Navigation::Up
        } else {
            Navigation::Down
        };
        (
            PanelState { current_page: page, ..state },
            ButtonOutcome { pressed: true, wake_display: false, navigation },
        )
    } else {
        (state, ButtonOutcome { pressed: true, wake_display: false, navigation: Navigation::Stay })
    }
}

/// Whether the screen stays lit, from the nanoseconds since the last press:
/// within 30 s it does and the page is to be drawn; after that it goes dark.
pub fn check_idle(state: PanelState, since_press: u128) -> (r: (PanelState, bool))
    ensures
        r == idle_step(state, since_press),
{
    if since_press < IDLE_TIMEOUT_NANOS {
        (state, true)
    } else {
        (PanelState { display_on: false, ..state }, false)
    }
}

/// Whether to set the colour inversion now, from the nanoseconds since the
/// last one: after more than 4 s, to the state's flag, which then flips.
pub fn check_invert(state: PanelState, since_invert: u128) -> (r: (PanelState, Option<bool>))
    ensures
        r == invert_step(state, since_invert),
{
    if since_invert > INVERT_INTERVAL_NANOS {
        (PanelState { is_inverted: !state.is_inverted, ..state }, Some(state.is_inverted))
    } else {
        (state, None)
    }
}

/// The current page stays one of the pages through every round: a press
/// moves it within `0..page_count`, and the screen's part leaves it as it is.
pub proof fn law_page_in_range(
    s: PanelState,
    b: Buttons,
    page_count: int,
    since_press: u128,
    since_invert: u128,
)
    requires
        0 < page_count <= i32::MAX,
        s.current_page < page_count,
    ensures
        button_step(s, b, page_count).0.current_page < page_count,
        frame_step(s, since_press, since_invert).current_page == s.current_page,
{
}

/// The state after a series of rounds, each its buttons followed by a frame
/// at the given times since the last press and since the last inversion.
pub open spec fn run(s: PanelState, rounds: Seq<(Buttons, u128, u128)>, page_count: int) -> PanelState
    decreases rounds.len(),
{
    if rounds.len() == 0 {
        s
    } else {
        let prev = run(s, rounds.drop_last(), page_count);
        let r = rounds.last();
        frame_step(button_step(prev, r.0, page_count).0, r.1, r.2)
    }
}

/// Whatever rounds the panel goes through from its initial state, the
/// current page is one of the pages.
pub proof fn law_page_always_in_range(rounds: Seq<(Buttons, u128, u128)>, page_count: int)
    requires
        0 < page_count <= i32::MAX,
    ensures
        run(initial_state(), rounds, page_count).current_page < page_count,
    decreases rounds.len(),
{
    if rounds.len() > 0 {
        law_page_always_in_range(rounds.drop_last(), page_count);
        let prev = run(initial_state(), rounds.drop_last(), page_count);
        let r = rounds.last();
        law_page_in_range(prev, r.0, page_count, r.1, r.2);
        law_page_in_range(button_step(prev, r.0, page_count).0, r.0, page_count, r.1, r.2);
    }
}

/// Up and down move to the same page: the one before, wrapping from the
/// first page to the last.
pub proof fn law_up_and_down_agree(s: PanelState, page_count: int)
    requires
        0 < page_count <= i32::MAX,
        s.current_page < page_count,
        s.display_on,
        s.main_menus,
    ensures
        ({
            let up = button_step(s, Buttons { star: false, hash: false, up: true, down: false }, page_count);
            let down = button_step(s, Buttons { star: false, hash: false, up: false, down: true }, page_count);
            &&& up.0 == down.0
            &&& up.0.current_page == (if s.current_page == 0 { page_count - 1 } else { s.current_page - 1 })
        }),
{
    let c = s.current_page as int;
    if c == 0 {
        lemma_previous_of_first(page_count);
    } else {
        assert((c - 1) % page_count == c - 1) by {
            vstd::arithmetic::div_mod::lemma_small_mod((c - 1) as nat, page_count as nat);
        }
    }
}

/// A press on a dark screen only wakes it: the page and the other settings stay.
pub proof fn law_press_wakes_dark_screen(s: PanelState, b: Buttons, page_count: int)
    requires
        !s.display_on,
        b.star || b.hash || b.up || b.down,
    ensures
        button_step(s, b, page_count).0 == (PanelState { display_on: true, ..s }),
        button_step(s, b, page_count).1.wake_display,
        button_step(s, b, page_count).1.navigation == Navigation::Stay,
{
}

/// Each inversion sets the colours to the state's flag and flips the flag,
/// so two inversions in a row set opposite colours and restore the flag.
pub proof fn law_inversion_alternates(s: PanelState, i1: u128, i2: u128)
    requires
        i1 > INVERT_INTERVAL_NANOS,
        i2 > INVERT_INTERVAL_NANOS,
    ensures
        ({
            let (s1, v1) = invert_step(s, i1);
            let (s2, v2) = invert_step(s1, i2);
            &&& v1 == Some(s.is_inverted)
            &&& v2 == Some(!s.is_inverted)
            &&& s2 == s
        }),
{
}

/// Thirty seconds after the last press the screen goes dark, whatever the
/// inversion clock says; before that it stays lit and nothing else changes.
pub proof fn law_idle_screen_goes_dark(s: PanelState, since_press: u128, since_invert: u128)
    ensures
        since_press >= IDLE_TIMEOUT_NANOS ==> idle_step(s, since_press) == (
            PanelState { display_on: false, ..s },
            false,
        ) && frame_step(s, since_press, since_invert) == (PanelState { display_on: false, ..s }),
        since_press < IDLE_TIMEOUT_NANOS ==> idle_step(s, since_press) == (s, true),
{
}


/// Only the up and down buttons move through the pages, and on a lit screen
/// the star and hash buttons change nothing: they only restart the idle clock.
pub proof fn law_only_up_and_down_navigate(s: PanelState, b: Buttons, page_count: int)
    ensures
        !b.up && !b.down ==> button_step(s, b, page_count).0.current_page == s.current_page
            && button_step(s, b, page_count).1.navigation == Navigation::Stay,
        s.display_on && !b.up && !b.down ==> button_step(s, b, page_count) == (
            s,
            ButtonOutcome {
                pressed: b.star || b.hash,
                wake_display: false,
                navigation: Navigation::Stay,
            },
        ),
        button_step(s, b, page_count).1.navigation == Navigation::Up ==> b.up,
        button_step(s, b, page_count).1.navigation == Navigation::Down ==> b.down && !b.up,
        button_step(s, b, page_count).1.pressed == (b.star || b.hash || b.up || b.down),
{
}

} // verus!
