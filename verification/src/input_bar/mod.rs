//! The input bar's geometry rules (shared by drawing and touch mapping)
//! and its selection helpers.
use vstd::prelude::*;

pub mod state;

pub use state::InputBarState;

verus! {

/// Bar height for one line (px).
pub const HEIGHT_PX: u32 = 220;

/// Line limit: beyond it the bar stops growing and scrolls inside.
pub const MAX_LINES: u32 = 5;

/// Height added per extra line (px) = the line height.
pub const LINE_STEP_PX: u32 = 63;

/// Vertical text padding inside the field (px), top and bottom.
pub const TEXT_PAD_Y: u32 = 40;

/// Selection menu bubble size (px).
pub const MENU_W: u32 = 640;
pub const MENU_H: u32 = 120;

/// Caret blink half period (ms).
pub const CARET_BLINK_MS: u64 = 530;

/// Long-press threshold for selection mode (ms).
pub const SELECT_LONG_PRESS_MS: u64 = 400;

/// Selection anchor: visual size and touch hot-zone side (px).
pub const ANCHOR_VISUAL_SIZE: u32 = 28;
pub const ANCHOR_HIT_SIZE: u32 = 48;

/// Send button width, side margin and field/button gap (px).
pub const SEND_W_PX: u32 = 140;
pub const MARGIN_X_PX: u32 = 60;
pub const GAP_PX: u32 = 40;

/// Field height to text viewport height (the padding taken off both
/// sides, never below zero).
pub fn text_view_h(field_h: u32) -> (h: u32)
    ensures
        h == if field_h >= 2 * TEXT_PAD_Y {
            field_h - 2 * TEXT_PAD_Y
        } else {
            0
        },
{
    if field_h >= 2 * TEXT_PAD_Y {
        field_h - 2 * TEXT_PAD_Y
    } else {
        0
    }
}

/// Line count to bar height: 0 counts as 1, more than `MAX_LINES` as
/// `MAX_LINES`.
pub open spec fn bar_height(lines: nat) -> nat {
    let n: nat = if lines < 1 {
        1
    } else if lines > MAX_LINES {
        MAX_LINES as nat
    } else {
        lines
    };
    (HEIGHT_PX + (n - 1) * LINE_STEP_PX) as nat
}

pub fn height_for_lines(lines: u32) -> (h: u32)
    ensures
        h == bar_height(lines as nat),
{
    let n = if lines < 1 {
        1
    } else if lines > MAX_LINES {
        MAX_LINES
    } else {
        lines
    };
    HEIGHT_PX + (n - 1) * LINE_STEP_PX
}

/// The word span a long press at char `pos` selects (chars `[s, e)`), with
/// `word[k]` telling whether char `k` is a word char: the whole run of word
/// chars around the pressed char; a non-word char alone; a press past the
/// end counts as on the last char; empty text selects nothing.
pub open spec fn word_span_ok(word: Seq<bool>, pos: int, r: Option<(usize, usize)>) -> bool {
    let n = word.len();
    if n == 0 {
        r is None
    } else {
        let p = if pos < n - 1 { pos } else { n - 1 };
        r matches Some((s, e)) && if word[p] {
            &&& s <= p < e <= n
            &&& forall|k: int| s <= k < e ==> #[trigger] word[k]
            &&& (s == 0 || !word[s - 1])
            &&& (e == n || !word[e as int])
        } else {
            s == p && e == p + 1
        }
    }
}

/// Long-press word selection (see `word_span_ok`): `word` classifies each
/// char of `text` (the terminal's word-char rule, applied by the caller).
pub fn word_span_at(text: &str, pos: usize, word: &[bool]) -> (r: Option<(usize, usize)>)
    requires
        word@.len() == text@.len(),
    ensures
        word_span_ok(word@, pos as int, r),
{
    let n = word.len();
    if n == 0 {
        return None;
    }
    let p = if pos < n - 1 { pos } else { n - 1 };
    if !word[p] {
        return Some((p, p + 1));
    }
    let mut s = p;
    while s > 0 && word[s - 1]
        invariant
            s <= p < n == word@.len(),
            forall|k: int| s <= k <= p ==> #[trigger] word@[k],
        decreases s,
    {
        s -= 1;
    }
    let mut e = p + 1;
    while e < n && word[e]
        invariant
            p < e <= n == word@.len(),
            forall|k: int| s <= k < e ==> #[trigger] word@[k],
        decreases n - e,
    {
        e += 1;
    }
    Some((s, e))
}

/// Word-pivot drag: the pivot word stays selected and the selection grows
/// toward the finger; a finger inside the word gives the word itself.
/// Always `start <= pivot.0 <= pivot.1 <= end` when the pivot is ordered.
pub fn pivot_drag_span(pivot: (usize, usize), idx: usize) -> (r: (usize, usize))
    ensures
        r == if idx < pivot.0 {
            (idx, pivot.1)
        } else if idx > pivot.1 {
            (pivot.0, idx)
        } else {
            pivot
        },
        pivot.0 <= pivot.1 ==> r.0 <= pivot.0 && pivot.1 <= r.1,
{
    let (ps, pe) = pivot;
    if idx < ps {
        (idx, pe)
    } else if idx > pe {
        (ps, idx)
    } else {
        (ps, pe)
    }
}

/// The effective-offset bound: strip minus field (0 when the strip is
/// shorter), as the i32 it is stored in.
pub open spec fn max_eff_spec(strip: u32, field_h: u32) -> i32 {
    if strip >= field_h {
        (strip - field_h) as i32
    } else {
        0
    }
}

/// Viewport geometry: (strip height = lines x line height, effective
/// scroll offset, top offset). Following pins the strip's bottom to the
/// field's bottom; otherwise the offset is clamped to [0, strip - field];
/// a strip shorter than the field is centred.
pub open spec fn viewport_spec(n_lines: u32, field_h: u32, follow: bool, scroll_px: i32) -> (u32, i32, u32) {
    let strip = (n_lines * LINE_STEP_PX) as u32;
    let max_eff = max_eff_spec(strip, field_h);
    let eff = if follow {
        max_eff
    } else if scroll_px < 0 {
        0
    } else if scroll_px > max_eff {
        max_eff
    } else {
        scroll_px
    };
    let top = if strip < field_h {
        ((field_h - strip) / 2) as u32
    } else {
        0
    };
    (strip, eff, top)
}

/// Computes the viewport geometry (see `viewport_spec`). The strip height
/// must fit in u32, and a clamped (non-following) offset needs a
/// non-negative bound.
pub fn viewport_geometry(n_lines: u32, field_h: u32, follow: bool, scroll_px: i32) -> (r: (u32, i32, u32))
    requires
        n_lines * LINE_STEP_PX <= u32::MAX,
        !follow ==> max_eff_spec((n_lines * LINE_STEP_PX) as u32, field_h) >= 0,
    ensures
        r == viewport_spec(n_lines, field_h, follow, scroll_px),
{
    let strip_h = n_lines * LINE_STEP_PX;
    let max_eff: i32 = if strip_h >= field_h {
        (strip_h - field_h) as i32
    } else {
        0
    };
    let eff = if follow {
        max_eff
    } else if scroll_px < 0 {
        0
    } else if scroll_px > max_eff {
        max_eff
    } else {
        scroll_px
    };
    let top_off = if strip_h < field_h {
        (field_h - strip_h) / 2
    } else {
        0
    };
    (strip_h, eff, top_off)
}

/// The part of the bar a touch hit.
#[derive(Debug, Clone, Copy, PartialEq, Eq, Structural)]
pub enum BarHit {
    /// The text field (tap = focus and raise the keyboard).
    Field,
    /// The send button (tap = Enter: take the text and send it).
    Send,
}

/// The selection anchor being dragged.
#[derive(Debug, Clone, Copy, PartialEq, Eq, Structural)]
pub enum SelAnchor {
    Neither,
    Left,
    Right,
}

/// A snapshot of the bar (what drawing, stats and probe replies read).
#[derive(Debug, Clone, PartialEq, Eq)]
pub struct BarSnap {
    pub text: String,
    pub focused: bool,
    /// Current wrapped line count.
    pub lines: u32,
    /// Caret insertion point (char index, 0 to len).
    pub cursor: usize,
    /// Whether the placement handle shows.
    pub handle: bool,
    /// IME composing text (empty: none).
    pub composing: String,
    /// Raw viewport pixel offset (clamped when drawing; ignored when following).
    pub scroll_px: i32,
    /// Tail-anchored viewport (typing) rather than a user-dragged one.
    pub follow: bool,
    /// In selection mode.
    pub selecting: bool,
    /// Selection start (char index, inclusive).
    pub selection_start: usize,
    /// Selection end (char index, exclusive).
    pub selection_end: usize,
}


/// The bar's band as `(top, bottom)` window rows (bottom exclusive): the
/// `bar_h` rows just above the keyboard inset; none when the window is too
/// short for it.
pub fn bar_band(win_h: u32, ime_bottom: u32, bar_h: u32) -> (r: Option<(u32, u32)>)
    ensures
        ime_bottom > win_h ==> r is None,
        ime_bottom <= win_h && bar_h > win_h - ime_bottom ==> r is None,
        ime_bottom <= win_h && bar_h <= win_h - ime_bottom ==> r == Some(
            ((win_h - ime_bottom - bar_h) as u32, (win_h - ime_bottom) as u32),
        ),
{
    if ime_bottom > win_h {
        return None;
    }
    let bottom = win_h - ime_bottom;
    if bar_h > bottom {
        return None;
    }
    Some((bottom - bar_h, bottom))
}

/// The left edge of the send button (it is `SEND_W_PX` wide, `MARGIN_X_PX`
/// in from the right edge); none when the window is narrower than that.
pub fn send_left(win_w: u32) -> (r: Option<u32>)
    ensures
        win_w >= MARGIN_X_PX + SEND_W_PX ==> r == Some((win_w - MARGIN_X_PX - SEND_W_PX) as u32),
        win_w < MARGIN_X_PX + SEND_W_PX ==> r is None,
{
    if win_w < MARGIN_X_PX + SEND_W_PX {
        None
    } else {
        Some(win_w - MARGIN_X_PX - SEND_W_PX)
    }
}

/// The text width available in the field, in pixels: the window less the
/// margins, the send button and the gap, then less the 70 px of inner
/// padding (saturating); none when the window cannot hold the chrome.
pub fn text_avail_px(buf_w: u32) -> (r: Option<u32>)
    ensures
        buf_w >= 2 * MARGIN_X_PX + SEND_W_PX + GAP_PX ==> r == Some(
            (if buf_w - (2 * MARGIN_X_PX + SEND_W_PX + GAP_PX) >= 70 {
                buf_w - (2 * MARGIN_X_PX + SEND_W_PX + GAP_PX) - 70
            } else {
                0
            }) as u32,
        ),
        buf_w < 2 * MARGIN_X_PX + SEND_W_PX + GAP_PX ==> r is None,
{
    if buf_w < 2 * MARGIN_X_PX + SEND_W_PX + GAP_PX {
        return None;
    }
    let field_w = buf_w - (2 * MARGIN_X_PX + SEND_W_PX + GAP_PX);
    Some(if field_w >= 70 { field_w - 70 } else { 0 })
}

} // verus!
