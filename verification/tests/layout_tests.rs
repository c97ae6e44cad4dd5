use sysmon_panel::layout::{is_icon_char, layout_text, on_screen, text_layout_fits, DrawOp};

#[test]
fn text_and_line_breaks() {
    let text = "ab\nc";
    let adv = vec![0; 4];
    assert!(text_layout_fits(text, &adv, 5, 10));
    assert_eq!(
        layout_text(text, &adv, 5, 10),
        vec![
            DrawOp::Text { ch: 'a', x: 5, y: 10 },
            DrawOp::Text { ch: 'b', x: 11, y: 10 },
            DrawOp::Text { ch: 'c', x: 5, y: 22 },
        ]
    );
}

#[test]
fn icons_advance_by_their_width() {
    let text = "\u{E0A9} 1";
    let adv = vec![11, 0, 0];
    assert_eq!(
        layout_text(text, &adv, 5, 10),
        vec![
            DrawOp::Icon { ch: '\u{E0A9}', x: 5, baseline: 18 },
            DrawOp::Text { ch: ' ', x: 16, y: 10 },
            DrawOp::Text { ch: '1', x: 22, y: 10 },
        ]
    );
}

#[test]
fn icon_range() {
    assert!(is_icon_char('\u{E000}'));
    assert!(is_icon_char('\u{F8FF}'));
    assert!(!is_icon_char('\u{D7FF}'));
    assert!(!is_icon_char('\u{F900}'));
    assert!(!is_icon_char('█'));
}

#[test]
fn overflow_does_not_fit() {
    assert!(!text_layout_fits("ab", &vec![0, 0], i32::MAX - 6, 0));
    assert!(text_layout_fits("a", &vec![0], i32::MAX - 6, 0));
    assert!(!text_layout_fits("\n", &vec![0], 0, i32::MAX - 11));
    assert!(!text_layout_fits("\u{E000}", &vec![0], 0, i32::MAX - 7));
    assert!(!text_layout_fits("\u{E000}", &vec![-5], i32::MIN + 4, 0));
}

#[test]
fn screen_bounds() {
    assert!(on_screen(0, 0));
    assert!(on_screen(127, 63));
    assert!(!on_screen(128, 0));
    assert!(!on_screen(0, 64));
    assert!(!on_screen(-1, 5));
}
