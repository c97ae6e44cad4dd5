//! Placement of text on the screen: each character of a page's text is
//! either a line break, an icon drawn from the icon font, or a character of
//! the fixed 6x10 font.
use vstd::prelude::*;
use crate::text::chars_of;

verus! {

/// Width of a character of the text font, in pixels.
pub const CHAR_WIDTH: i32 = 6;

/// Distance between text lines, in pixels.
pub const LINE_HEIGHT: i32 = 12;

/// How far below the line's top an icon's baseline sits, in pixels.
pub const ICON_BASELINE: i32 = 8;

/// Width of the screen, in pixels.
pub const SCREEN_WIDTH: i32 = 128;

/// Height of the screen, in pixels.
pub const SCREEN_HEIGHT: i32 = 64;

/// Characters of the Unicode private-use area, which the icon font draws.
pub open spec fn is_icon(c: char) -> bool {
    '\u{E000}' <= c && c <= '\u{F8FF}'
}

/// Whether `c` is drawn as an icon.
pub fn is_icon_char(c: char) -> (b: bool)
    ensures
        b == is_icon(c),
{
    '\u{E000}' <= c && c <= '\u{F8FF}'
}

/// Whether a pixel lies on the 128x64 screen.
pub fn on_screen(x: i32, y: i32) -> (b: bool)
    ensures
        b == (0 <= x < SCREEN_WIDTH && 0 <= y < SCREEN_HEIGHT),
{
    x >= 0 && x < SCREEN_WIDTH && y >= 0 && y < SCREEN_HEIGHT
}

/// What to draw for one character.
#[derive(Clone, Copy, Debug, PartialEq, Eq, Structural)]
pub enum DrawOp {
    /// A character of the text font, its baseline starting at (`x`, `y`).
    Text { ch: char, x: i32, y: i32 },
    /// An icon, its pen position at (`x`, `baseline`).
    Icon { ch: char, x: i32, baseline: i32 },
}

/// The pen position before the character at `n`, starting at (`sx`, `sy`):
/// a line break returns to `sx` one line lower; an icon moves right by its
/// advance `adv[n]`; any other character by the text font's width.
pub open spec fn cursor(text: Seq<char>, adv: Seq<i32>, sx: int, sy: int, n: int) -> (int, int)
    decreases n,
{
    if n <= 0 {
        (sx, sy)
    } else {
        let p = cursor(text, adv, sx, sy, n - 1);
        let c = text[n - 1];
        if c == '\n' {
            (sx, p.1 + LINE_HEIGHT)
        } else if is_icon(c) {
            (p.0 + adv[n - 1], p.1)
        } else {
            (p.0 + CHAR_WIDTH, p.1)
        }
    }
}

/// What is drawn for the character at `i` (not a line break).
pub open spec fn op_at(text: Seq<char>, adv: Seq<i32>, sx: int, sy: int, i: int) -> DrawOp {
    let p = cursor(text, adv, sx, sy, i);
    if is_icon(text[i]) {
        DrawOp::Icon { ch: text[i], x: p.0 as i32, baseline: (p.1 + ICON_BASELINE) as i32 }
    } else {
        DrawOp::Text { ch: text[i], x: p.0 as i32, y: p.1 as i32 }
    }
}

/// What is drawn for the first `n` characters, in order; line breaks draw nothing.
pub open spec fn layout(text: Seq<char>, adv: Seq<i32>, sx: int, sy: int, n: int) -> Seq<DrawOp>
    decreases n,
{
    if n <= 0 {
        Seq::empty()
    } else {
        let prev = layout(text, adv, sx, sy, n - 1);
        if text[n - 1] == '\n' {
            prev
        } else {
            prev.push(op_at(text, adv, sx, sy, n - 1))
        }
    }
}

pub open spec fn in_i32(v: int) -> bool {
    i32::MIN <= v <= i32::MAX
}

/// Every pen position, and every icon baseline, fits an `i32`.
pub open spec fn layout_fits(text: Seq<char>, adv: Seq<i32>, sx: int, sy: int) -> bool {
    forall|n: int|
        #![trigger cursor(text, adv, sx, sy, n)]
        0 <= n <= text.len() ==> {
            let p = cursor(text, adv, sx, sy, n);
            &&& in_i32(p.0)
            &&& in_i32(p.1)
            &&& (n < text.len() && is_icon(text[n]) ==> in_i32(p.1 + ICON_BASELINE))
        }
}

/// The layout when it fits, else none.
fn try_layout(text: &str, advances: &Vec<i32>, start_x: i32, start_y: i32) -> (r: Option<
    Vec<DrawOp>,
>)
    requires
        advances.len() == text@.len(),
    ensures
        r is Some <==> layout_fits(text@, advances@, start_x as int, start_y as int),
        r matches Some(ops) ==> ops@ == layout(
            text@,
            advances@,
            start_x as int,
            start_y as int,
            text@.len() as int,
        ),
{
    let chars = chars_of(text);
    let ghost t = text@;
    let ghost a = advances@;
    let ghost sx = start_x as int;
    let ghost sy = start_y as int;
    let mut ops: Vec<DrawOp> = Vec::new();
    let mut x: i32 = start_x;
    let mut y: i32 = start_y;
    let n = chars.len();
    for i in 0..n
        invariant
            n == chars.len() == t.len() == a.len(),
            chars@ == t,
            t == text@,
            a == advances@,
            sx == start_x,
            sy == start_y,
            (x as int, y as int) == cursor(t, a, sx, sy, i as int),
            ops@ == layout(t, a, sx, sy, i as int),
            forall|m: int|
                #![trigger cursor(t, a, sx, sy, m)]
                0 <= m <= i ==> {
                    let p = cursor(t, a, sx, sy, m);
                    &&& in_i32(p.0)
                    &&& in_i32(p.1)
                    &&& (m < t.len() && m < i && is_icon(t[m]) ==> in_i32(p.1 + ICON_BASELINE))
                },
    {
        let c = chars[i];
        let ghost next = cursor(t, a, sx, sy, i + 1);
        if c == '\n' {
            if y > i32::MAX - LINE_HEIGHT {
                assert(!in_i32(next.1));
                return None;
            }
            x = start_x;
            y = y + LINE_HEIGHT;
        } else if is_icon_char(c) {
            if y > i32::MAX - ICON_BASELINE {
                assert(!in_i32(cursor(t, a, sx, sy, i as int).1 + ICON_BASELINE));
                return None;
            }
            let adv = advances[i];
            let nx: i64 = x as i64 + adv as i64;
            if nx < i32::MIN as i64 || nx > i32::MAX as i64 {
                assert(!in_i32(next.0));
                return None;
            }
            ops.push(DrawOp::Icon { ch: c, x: x, baseline: y + ICON_BASELINE });
            x = nx as i32;
        } else {
            if x > i32::MAX - CHAR_WIDTH {
                assert(!in_i32(next.0));
                return None;
            }
            ops.push(DrawOp::Text { ch: c, x: x, y: y });
            x = x + CHAR_WIDTH;
        }
        assert((x as int, y as int) == next);
        assert(ops@ =~= layout(t, a, sx, sy, i + 1));
    }
    Some(ops)
}

/// Whether the layout of `text` from (`start_x`, `start_y`) fits (see `layout_fits`).
pub fn text_layout_fits(text: &str, advances: &Vec<i32>, start_x: i32, start_y: i32) -> (b: bool)
    requires
        advances.len() == text@.len(),
    ensures
        b == layout_fits(text@, advances@, start_x as int, start_y as int),
{
    try_layout(text, advances, start_x, start_y).is_some()
}

/// What to draw for `text`, from (`start_x`, `start_y`), given for each
/// character the advance of its icon (used where the character is an icon).
/// The pen starts at (`start_x`, `start_y`); text characters are drawn at
/// the pen and move it right by 6; icons are drawn with their baseline 8
/// below the pen and move it right by their advance; a line break draws
/// nothing and returns the pen to `start_x`, 12 lower.
pub fn layout_text(text: &str, advances: &Vec<i32>, start_x: i32, start_y: i32) -> (ops: Vec<
    DrawOp,
>)
    requires
        advances.len() == text@.len(),
        layout_fits(text@, advances@, start_x as int, start_y as int),
    ensures
        ops@ == layout(text@, advances@, start_x as int, start_y as int, text@.len() as int),
{
    match try_layout(text, advances, start_x, start_y) {
        Some(ops) => ops,
        None => Vec::new(),
    }
}


/// A line break returns the pen to the start column, one line lower; a text
/// character moves it right by the text font's width on the same line.
pub proof fn law_pen_moves(text: Seq<char>, adv: Seq<i32>, sx: int, sy: int, n: int)
    requires
        0 <= n < text.len(),
    ensures
        text[n] == '\n' ==> cursor(text, adv, sx, sy, n + 1) == (sx, cursor(
            text,
            adv,
            sx,
            sy,
            n,
        ).1 + LINE_HEIGHT),
        text[n] != '\n' && !is_icon(text[n]) ==> cursor(text, adv, sx, sy, n + 1) == (cursor(
            text,
            adv,
            sx,
            sy,
            n,
        ).0 + CHAR_WIDTH, cursor(text, adv, sx, sy, n).1),
{
}

/// How many of the first `n` characters are no line break.
pub open spec fn drawn_count(text: Seq<char>, n: int) -> int
    decreases n,
{
    if n <= 0 {
        0
    } else {
        drawn_count(text, n - 1) + if text[n - 1] == '\n' {
            0int
        } else {
            1int
        }
    }
}

/// The layout of the first `n` characters has one operation per character
/// that is no line break, and the operation of each names that character.
pub proof fn law_one_op_per_drawn_char(text: Seq<char>, adv: Seq<i32>, sx: int, sy: int, n: int)
    requires
        0 <= n <= text.len(),
    ensures
        layout(text, adv, sx, sy, n).len() == drawn_count(text, n),
        n > 0 && text[n - 1] != '\n' ==> layout(text, adv, sx, sy, n).last() == op_at(
            text,
            adv,
            sx,
            sy,
            n - 1,
        ),
    decreases n,
{
    if n > 0 {
        law_one_op_per_drawn_char(text, adv, sx, sy, n - 1);
    }
}


/// How many line breaks there are among the first `n` characters.
pub open spec fn breaks_before(text: Seq<char>, n: int) -> int
    decreases n,
{
    if n <= 0 {
        0
    } else {
        breaks_before(text, n - 1) + if text[n - 1] == '\n' {
            1int
        } else {
            0int
        }
    }
}

/// The pen is one line lower for each line break passed.
pub proof fn law_pen_line(text: Seq<char>, adv: Seq<i32>, sx: int, sy: int, n: int)
    requires
        0 <= n <= text.len(),
    ensures
        cursor(text, adv, sx, sy, n).1 == sy + LINE_HEIGHT * breaks_before(text, n),
    decreases n,
{
    if n > 0 {
        law_pen_line(text, adv, sx, sy, n - 1);
    }
}

proof fn lemma_layout_prefix(text: Seq<char>, adv: Seq<i32>, sx: int, sy: int, m: int, n: int, k: int)
    requires
        0 <= m <= n <= text.len(),
        0 <= k < layout(text, adv, sx, sy, m).len(),
    ensures
        k < layout(text, adv, sx, sy, n).len(),
        layout(text, adv, sx, sy, n)[k] == layout(text, adv, sx, sy, m)[k],
    decreases n - m,
{
    if m < n {
        lemma_layout_prefix(text, adv, sx, sy, m, n - 1, k);
    }
}

/// Every character but a line break is drawn where the pen is before it, as
/// the operation that comes after those of the drawn characters before it:
/// an icon at the pen's column with its baseline 8 below the pen's line,
/// `start_y + 12 * (line breaks before it) + 8`; any other character at the
/// pen, on that line. When the layout fits, these positions are exact.
pub proof fn law_ops_at_pen(text: Seq<char>, adv: Seq<i32>, sx: int, sy: int, i: int)
    requires
        0 <= i < text.len(),
        text[i] != '\n',
    ensures
        ({
            let ops = layout(text, adv, sx, sy, text.len() as int);
            let line_y = sy + LINE_HEIGHT * breaks_before(text, i);
            &&& 0 <= drawn_count(text, i) < ops.len()
            &&& is_icon(text[i]) ==> ops[drawn_count(text, i)] == DrawOp::Icon {
                ch: text[i],
                x: cursor(text, adv, sx, sy, i).0 as i32,
                baseline: (line_y + ICON_BASELINE) as i32,
            }
            &&& !is_icon(text[i]) ==> ops[drawn_count(text, i)] == DrawOp::Text {
                ch: text[i],
                x: cursor(text, adv, sx, sy, i).0 as i32,
                y: line_y as i32,
            }
            &&& layout_fits(text, adv, sx, sy) ==> in_i32(cursor(text, adv, sx, sy, i).0) && in_i32(
                line_y,
            ) && (is_icon(text[i]) ==> in_i32(line_y + ICON_BASELINE))
        }),
{
    law_one_op_per_drawn_char(text, adv, sx, sy, i);
    law_one_op_per_drawn_char(text, adv, sx, sy, i + 1);
    law_pen_line(text, adv, sx, sy, i);
    lemma_drawn_count_nonneg(text, i);
    let k = drawn_count(text, i);
    assert(layout(text, adv, sx, sy, i + 1)[k] == op_at(text, adv, sx, sy, i));
    lemma_layout_prefix(text, adv, sx, sy, i + 1, text.len() as int, k);
    if layout_fits(text, adv, sx, sy) {
        assert(0 <= i <= text.len());
        let p = cursor(text, adv, sx, sy, i);
    }
}

proof fn lemma_drawn_count_nonneg(text: Seq<char>, n: int)
    ensures
        drawn_count(text, n) >= 0,
    decreases n,
{
    if n > 0 {
        lemma_drawn_count_nonneg(text, n - 1);
    }
}

} // verus!
