//! The input bar's state core: text, caret, IME composing text, selection,
//! viewport scrolling and focus. Positions are char indices. Sending the
//! text onward is the caller's (`enter` hands it over).
use vstd::prelude::*;
use super::{BarSnap, SelAnchor, LINE_STEP_PX};
use crate::text::{chars_of, string_from_chars, sub_vec};
use crate::ime_queue::{Inject, InjectV};

verus! {

broadcast use vstd::seq_lib::group_seq_properties;

/// The bar's state, mathematically.
pub struct BarV {
    pub text: Seq<char>,
    pub focused: bool,
    pub lines: u32,
    pub cursor: usize,
    pub handle: bool,
    pub composing: Option<Seq<char>>,
    pub scroll_px: i32,
    pub follow: bool,
    pub selecting: bool,
    pub sel_start: usize,
    pub sel_end: usize,
    pub anchor: SelAnchor,
}

/// `t` with `[a, b)` replaced by `s`.
pub open spec fn splice(t: Seq<char>, a: int, b: int, s: Seq<char>) -> Seq<char> {
    t.take(a) + s + t.skip(b)
}

pub open spec fn min_u(a: usize, b: nat) -> usize {
    if a <= b {
        a
    } else {
        b as usize
    }
}

/// Selection cleared.
pub open spec fn no_sel(b: BarV) -> BarV {
    BarV { selecting: false, sel_start: 0, sel_end: 0, anchor: SelAnchor::Neither, ..b }
}

/// Composing text committed at the caret (clamped), the caret after it.
pub open spec fn commit_v(b: BarV) -> BarV {
    match b.composing {
        Some(cs) => {
            let cur = min_u(b.cursor, b.text.len());
            BarV {
                text: splice(b.text, cur as int, cur as int, cs),
                cursor: (cur + cs.len()) as usize,
                composing: None,
                ..b
            }
        },
        None => b,
    }
}

/// The selected range clamped to the text.
pub open spec fn sel_range(b: BarV) -> (usize, usize) {
    (min_u(b.sel_start, b.text.len()), min_u(b.sel_end, b.text.len()))
}

/// The live selection deleted (caret to its start), when there is one.
pub open spec fn delete_sel_v(b: BarV) -> (BarV, bool) {
    if !b.selecting || b.sel_start >= b.sel_end {
        (b, false)
    } else {
        let (s, e) = sel_range(b);
        (
            BarV {
                text: splice(b.text, s as int, e as int, Seq::empty()),
                cursor: b.sel_start,
                handle: false,
                follow: true,
                ..no_sel(b)
            },
            true,
        )
    }
}

/// `s` inserted at the (clamped) caret, the caret after it.
pub open spec fn insert_at_caret(b: BarV, s: Seq<char>) -> BarV {
    let cur = min_u(b.cursor, b.text.len());
    BarV { text: splice(b.text, cur as int, cur as int, s), cursor: (cur + s.len()) as usize, ..b }
}

/// The text after the composing text was placed in it at the caret (what
/// is shown, measured and hit-tested).
pub open spec fn display_v(text: Seq<char>, cursor: usize, composing: Seq<char>) -> Seq<char> {
    if composing.len() == 0 {
        text
    } else {
        let cur = min_u(cursor, text.len());
        splice(text, cur as int, cur as int, composing)
    }
}

/// Text committed at the bar (see `InputBarState::insert_text`).
pub open spec fn insert_text_v(b: BarV, s: Seq<char>) -> BarV {
    let b0 = BarV { composing: None, follow: true, ..b };
    let b1 = if b0.selecting && b0.sel_start < b0.sel_end {
        let (ss, se) = sel_range(b0);
        BarV { text: splice(b0.text, ss as int, se as int, Seq::empty()), cursor: b0.sel_start, ..no_sel(b0) }
    } else {
        b0
    };
    BarV { handle: false, ..insert_at_caret(b1, s) }
}

/// Backspace at the bar (see `InputBarState::backspace`).
pub open spec fn backspace_v(b: BarV) -> BarV {
    match b.composing {
        Some(cs) => BarV {
            follow: true,
            composing: if cs.len() <= 1 {
                None
            } else {
                Some(cs.drop_last())
            },
            ..b
        },
        None => if b.selecting && b.sel_start < b.sel_end {
            delete_sel_v(b).0
        } else if b.cursor == 0 {
            b
        } else {
            let i = min_u((b.cursor - 1) as usize, b.text.len());
            let j = min_u(b.cursor, b.text.len());
            BarV {
                text: splice(b.text, i as int, j as int, Seq::empty()),
                cursor: (b.cursor - 1) as usize,
                handle: false,
                follow: true,
                ..b
            }
        },
    }
}

/// Typing inserts at the caret: with no live selection and a caret `c`
/// inside the text, the text becomes its first `c` chars, the typed text,
/// then the rest; the caret moves past the typed text and composing ends.
/// Over a live selection `[a, e)` the typed text replaces it and the
/// selection is gone.
pub proof fn lemma_insert_at_caret_or_over_selection(b: BarV, t: Seq<char>)
    requires
        b.cursor <= b.text.len(),
        b.sel_end <= b.text.len(),
        b.text.len() + t.len() <= usize::MAX,
    ensures
        !(b.selecting && b.sel_start < b.sel_end) ==> insert_text_v(b, t).text == b.text.take(b.cursor as int) + t
            + b.text.skip(b.cursor as int) && insert_text_v(b, t).cursor == b.cursor + t.len(),
        b.selecting && b.sel_start < b.sel_end ==> insert_text_v(b, t).text == b.text.take(b.sel_start as int) + t
            + b.text.skip(b.sel_end as int) && insert_text_v(b, t).cursor == b.sel_start + t.len()
            && !insert_text_v(b, t).selecting,
        insert_text_v(b, t).composing is None,
{
    let r = insert_text_v(b, t);
    if b.selecting && b.sel_start < b.sel_end {
        let cut = b.text.take(b.sel_start as int) + b.text.skip(b.sel_end as int);
        assert(cut.take(b.sel_start as int) =~= b.text.take(b.sel_start as int));
        assert(cut.skip(b.sel_start as int) =~= b.text.skip(b.sel_end as int));
        assert(r.text =~= b.text.take(b.sel_start as int) + t + b.text.skip(b.sel_end as int));
    } else {
        assert(r.text =~= b.text.take(b.cursor as int) + t + b.text.skip(b.cursor as int));
    }
}

/// Backspace undoes typing one char: with no composing text and no live
/// selection, typing `ch` at a caret inside the text and then pressing
/// backspace gives back the text and the caret.
pub proof fn lemma_type_then_backspace(b: BarV, ch: char)
    requires
        b.composing is None,
        !(b.selecting && b.sel_start < b.sel_end),
        b.cursor <= b.text.len(),
        b.text.len() < usize::MAX,
    ensures
        backspace_v(insert_text_v(b, seq![ch])).text == b.text,
        backspace_v(insert_text_v(b, seq![ch])).cursor == b.cursor,
{
    let b1 = insert_text_v(b, seq![ch]);
    let c = b.cursor as int;
    assert(b1.text =~= b.text.take(c) + seq![ch] + b.text.skip(c));
    assert(b1.text.take(c) =~= b.text.take(c));
    assert(b1.text.skip(c + 1) =~= b.text.skip(c));
    assert(b1.cursor == c + 1);
    assert(!(b1.selecting && b1.sel_start < b1.sel_end) && b1.composing is None);
    let b2 = backspace_v(b1);
    assert(b2.text =~= b1.text.take(c) + b1.text.skip(c + 1));
    assert(b.text.take(c) + b.text.skip(c) =~= b.text);
}

/// Backspace over a live selection deletes the whole selection: with no
/// composing text and a selection `[s, e)` inside the text, the text loses
/// exactly the chars `s..e`, the caret lands at `s` and the selection is
/// gone.
pub proof fn lemma_backspace_deletes_selection(b: BarV)
    requires
        b.composing is None,
        b.selecting,
        b.sel_start < b.sel_end <= b.text.len(),
    ensures
        backspace_v(b).text == b.text.take(b.sel_start as int) + b.text.skip(b.sel_end as int),
        backspace_v(b).text.len() == b.text.len() - (b.sel_end - b.sel_start),
        backspace_v(b).cursor == b.sel_start,
        !backspace_v(b).selecting,
{
}

/// Backspace without a selection deletes the one char before the caret:
/// with no composing text and no live selection, a caret at `c > 0` inside
/// the text removes exactly char `c - 1` and moves the caret back by one;
/// at the start it changes nothing.
pub proof fn lemma_backspace_deletes_char_before(b: BarV)
    requires
        b.composing is None,
        !(b.selecting && b.sel_start < b.sel_end),
        b.cursor <= b.text.len(),
    ensures
        b.cursor == 0 ==> backspace_v(b) == b,
        b.cursor > 0 ==> backspace_v(b).text == b.text.take(b.cursor - 1) + b.text.skip(b.cursor as int),
        b.cursor > 0 ==> backspace_v(b).text.len() + 1 == b.text.len(),
        b.cursor > 0 ==> backspace_v(b).cursor + 1 == b.cursor,
{
}

/// Backspace while composing edits only the composing text: its last char
/// goes (all of it when one char is left) and the committed text, the caret
/// and the selection stay.
pub proof fn lemma_backspace_composing(b: BarV, cs: Seq<char>)
    requires
        b.composing == Some(cs),
    ensures
        backspace_v(b).text == b.text,
        backspace_v(b).cursor == b.cursor,
        backspace_v(b).selecting == b.selecting,
        backspace_v(b).composing == if cs.len() <= 1 {
            None
        } else {
            Some(cs.take(cs.len() - 1))
        },
{
    if cs.len() > 1 {
        assert(cs.drop_last() =~= cs.take(cs.len() - 1));
    }
}

/// Keyboard input while the bar has focus: text goes in at the caret,
/// Enter (key 66) inserts a newline, Backspace (67) deletes, Esc (111)
/// unfocuses; other keys do nothing.
pub open spec fn bar_inject_v(b: BarV, item: InjectV) -> BarV {
    match item {
        InjectV::Text(s) => insert_text_v(b, s),
        InjectV::Key(66) => insert_text_v(b, seq!['\n']),
        InjectV::Key(67) => backspace_v(b),
        InjectV::Key(111) => BarV { focused: false, ..b },
        InjectV::Key(_) => b,
    }
}

fn splice_vec(t: &Vec<char>, a: usize, b: usize, s: &[char]) -> (r: Vec<char>)
    requires
        a <= b <= t@.len(),
    ensures
        r@ == splice(t@, a as int, b as int, s@),
{
    let mut r = sub_vec(t.as_slice(), 0, a);
    let mut i: usize = 0;
    while i < s.len()
        invariant
            i <= s@.len(),
            r@ == t@.take(a as int) + s@.take(i as int),
        decreases s.len() - i,
    {
        r.push(s[i]);
        i += 1;
        assert(r@ =~= t@.take(a as int) + s@.take(i as int));
    }
    let mut k = b;
    while k < t.len()
        invariant
            b <= k <= t@.len(),
            r@ == t@.take(a as int) + s@ + t@.subrange(b as int, k as int),
        decreases t.len() - k,
    {
        r.push(t[k]);
        k += 1;
        assert(r@ =~= t@.take(a as int) + s@ + t@.subrange(b as int, k as int));
    }
    assert(r@ =~= splice(t@, a as int, b as int, s@));
    r
}

/// The input bar (text, caret, composing text, selection, viewport).
pub struct InputBarState {
    text: Vec<char>,
    focused: bool,
    lines: u32,
    cursor: usize,
    composing: Option<Vec<char>>,
    scroll_px: i32,
    follow: bool,
    handle: bool,
    selecting: bool,
    selection_start: usize,
    selection_end: usize,
    sel_anchor: SelAnchor,
}

impl InputBarState {
    pub closed spec fn bar(&self) -> BarV {
        BarV {
            text: self.text@,
            focused: self.focused,
            lines: self.lines,
            cursor: self.cursor,
            handle: self.handle,
            composing: match self.composing {
                Some(c) => Some(c@),
                None => None,
            },
            scroll_px: self.scroll_px,
            follow: self.follow,
            selecting: self.selecting,
            sel_start: self.selection_start,
            sel_end: self.selection_end,
            anchor: self.sel_anchor,
        }
    }

    /// Empty, unfocused, one line, following.
    pub fn new() -> (s: Self)
        ensures
            s.bar() == (BarV {
                text: Seq::empty(),
                focused: false,
                lines: 1,
                cursor: 0,
                handle: false,
                composing: None,
                scroll_px: 0,
                follow: true,
                selecting: false,
                sel_start: 0,
                sel_end: 0,
                anchor: SelAnchor::Neither,
            }),
    {
        InputBarState {
            text: Vec::new(),
            focused: false,
            lines: 1,
            cursor: 0,
            composing: None,
            scroll_px: 0,
            follow: true,
            handle: false,
            selecting: false,
            selection_start: 0,
            selection_end: 0,
            sel_anchor: SelAnchor::Neither,
        }
    }

    /// A snapshot (no composing text reads as an empty string).
    pub fn snap(&self) -> (s: BarSnap)
        ensures
            s.text@ == self.bar().text,
            s.focused == self.bar().focused,
            s.lines == self.bar().lines,
            s.cursor == self.bar().cursor,
            s.handle == self.bar().handle,
            s.composing@ == match self.bar().composing {
                Some(c) => c,
                None => Seq::empty(),
            },
            s.scroll_px == self.bar().scroll_px,
            s.follow == self.bar().follow,
            s.selecting == self.bar().selecting,
            s.selection_start == self.bar().sel_start,
            s.selection_end == self.bar().sel_end,
    {
        let composing = match &self.composing {
            Some(c) => string_from_chars(c.as_slice()),
            None => String::new(),
        };
        BarSnap {
            text: string_from_chars(self.text.as_slice()),
            focused: self.focused,
            lines: self.lines,
            cursor: self.cursor,
            handle: self.handle,
            composing,
            scroll_px: self.scroll_px,
            follow: self.follow,
            selecting: self.selecting,
            selection_start: self.selection_start,
            selection_end: self.selection_end,
        }
    }

    fn commit_composing(&mut self)
        ensures
            final(self).bar() == commit_v(old(self).bar()),
    {
        match self.composing.take() {
            Some(cs) => {
                let len = self.text.len();
                let cur = if self.cursor <= len { self.cursor } else { len };
                let t = splice_vec(&self.text, cur, cur, cs.as_slice());
                self.text = t;
                let text_len = self.text.len();
                assert(cur + cs@.len() <= text_len);
                self.cursor = cur + cs.len();
            },
            None => {},
        }
    }

    /// Selection mode at `pos` (clamped), after committing the composing
    /// text: an empty selection, no handle, following.
    pub fn enter_selection(&mut self, pos: usize)
        ensures
            ({
                let b = commit_v(old(self).bar());
                let p = min_u(pos, b.text.len());
                final(self).bar() == (BarV {
                    selecting: true,
                    sel_start: p,
                    sel_end: p,
                    anchor: SelAnchor::Neither,
                    handle: false,
                    follow: true,
                    ..b
                })
            }),
    {
        self.commit_composing();
        let len = self.text.len();
        let p = if pos <= len { pos } else { len };
        self.selecting = true;
        self.selection_start = p;
        self.selection_end = p;
        self.sel_anchor = SelAnchor::Neither;
        self.handle = false;
        self.follow = true;
    }

    /// Dragging the left anchor to `pos` (clamped); crossing the right
    /// anchor swaps them and the finger then holds the right one. Returns
    /// the anchor the finger holds (`Left` outside selection mode).
    pub fn set_selection_start(&mut self, pos: usize) -> (a: SelAnchor)
        ensures
            !old(self).bar().selecting ==> (a == SelAnchor::Left && final(self).bar() == old(self).bar()),
            old(self).bar().selecting ==> ({
                let b = old(self).bar();
                let p = min_u(pos, b.text.len());
                &&& final(self).bar() == if p > b.sel_end {
                    BarV { sel_start: b.sel_end, sel_end: p, anchor: SelAnchor::Right, follow: true, ..b }
                } else {
                    BarV { sel_start: p, anchor: SelAnchor::Left, follow: true, ..b }
                }
                &&& a == final(self).bar().anchor
            }),
    {
        if !self.selecting {
            return SelAnchor::Left;
        }
        let len = self.text.len();
        let p = if pos <= len { pos } else { len };
        if p > self.selection_end {
            self.selection_start = self.selection_end;
            self.selection_end = p;
            self.sel_anchor = SelAnchor::Right;
        } else {
            self.selection_start = p;
            self.sel_anchor = SelAnchor::Left;
        }
        self.follow = true;
        self.sel_anchor
    }

    /// Dragging the right anchor (mirror of `set_selection_start`).
    pub fn set_selection_end(&mut self, pos: usize) -> (a: SelAnchor)
        ensures
            !old(self).bar().selecting ==> (a == SelAnchor::Right && final(self).bar() == old(self).bar()),
            old(self).bar().selecting ==> ({
                let b = old(self).bar();
                let p = min_u(pos, b.text.len());
                &&& final(self).bar() == if p < b.sel_start {
                    BarV { sel_end: b.sel_start, sel_start: p, anchor: SelAnchor::Left, follow: true, ..b }
                } else {
                    BarV { sel_end: p, anchor: SelAnchor::Right, follow: true, ..b }
                }
                &&& a == final(self).bar().anchor
            }),
    {
        if !self.selecting {
            return SelAnchor::Right;
        }
        let len = self.text.len();
        let p = if pos <= len { pos } else { len };
        if p < self.selection_start {
            self.selection_end = self.selection_start;
            self.selection_start = p;
            self.sel_anchor = SelAnchor::Left;
        } else {
            self.selection_end = p;
            self.sel_anchor = SelAnchor::Right;
        }
        self.follow = true;
        self.sel_anchor
    }

    /// Sets both ends at once (ordered, clamped; no anchor swapping).
    pub fn set_selection_span(&mut self, start: usize, end: usize)
        ensures
            !old(self).bar().selecting ==> final(self).bar() == old(self).bar(),
            old(self).bar().selecting ==> ({
                let b = old(self).bar();
                let lo = if start <= end { start } else { end };
                let hi = if start <= end { end } else { start };
                final(self).bar() == (BarV {
                    sel_start: min_u(lo, b.text.len()),
                    sel_end: min_u(hi, b.text.len()),
                    follow: true,
                    ..b
                })
            }),
    {
        if !self.selecting {
            return;
        }
        let len = self.text.len();
        let lo = if start <= end { start } else { end };
        let hi = if start <= end { end } else { start };
        self.selection_start = if lo <= len { lo } else { len };
        self.selection_end = if hi <= len { hi } else { len };
        self.follow = true;
    }

    /// The anchor being dragged (touch down).
    pub fn set_sel_anchor(&mut self, anchor: SelAnchor)
        ensures
            final(self).bar() == (BarV { anchor, ..old(self).bar() }),
    {
        self.sel_anchor = anchor;
    }

    /// Leaves selection mode with the caret at the selection's end.
    pub fn clear_selection(&mut self)
        ensures
            !old(self).bar().selecting ==> final(self).bar() == old(self).bar(),
            old(self).bar().selecting ==> final(self).bar() == (BarV {
                cursor: old(self).bar().sel_end,
                handle: false,
                ..no_sel(old(self).bar())
            }),
    {
        if !self.selecting {
            return;
        }
        self.cursor = self.selection_end;
        self.selecting = false;
        self.selection_start = 0;
        self.selection_end = 0;
        self.sel_anchor = SelAnchor::Neither;
        self.handle = false;
    }

    /// Selects everything (after committing the composing text).
    pub fn select_all(&mut self)
        ensures
            ({
                let b = commit_v(old(self).bar());
                final(self).bar() == (BarV {
                    selecting: true,
                    sel_start: 0,
                    sel_end: b.text.len() as usize,
                    anchor: SelAnchor::Neither,
                    handle: false,
                    follow: true,
                    ..b
                })
            }),
    {
        self.commit_composing();
        let len = self.text.len();
        self.selecting = true;
        self.selection_start = 0;
        self.selection_end = len;
        self.sel_anchor = SelAnchor::Neither;
        self.handle = false;
        self.follow = true;
    }

    /// The selected text; `None` without a non-empty selection.
    pub fn selected_text(&self) -> (r: Option<String>)
        ensures
            ({
                let b = self.bar();
                let (s, e) = sel_range(b);
                if !b.selecting || b.sel_start >= b.sel_end {
                    r is None
                } else {
                    r matches Some(t) && t@ == b.text.subrange(s as int, e as int)
                }
            }),
    {
        if !self.selecting || self.selection_start >= self.selection_end {
            return None;
        }
        let len = self.text.len();
        let s = if self.selection_start <= len { self.selection_start } else { len };
        let e = if self.selection_end <= len { self.selection_end } else { len };
        let v = sub_vec(self.text.as_slice(), s, e);
        Some(string_from_chars(v.as_slice()))
    }

    /// Up to `n` chars before the caret (before the selection in selection
    /// mode).
    pub fn text_before_cursor(&self, n: usize) -> (r: String)
        ensures
            ({
                let b = self.bar();
                let edge = min_u(if b.selecting { b.sel_start } else { b.cursor }, b.text.len());
                let k: nat = if n <= edge { n as nat } else { edge as nat };
                r@ == b.text.subrange(edge - k, edge as int)
            }),
    {
        let len = self.text.len();
        let e0 = if self.selecting { self.selection_start } else { self.cursor };
        let edge = if e0 <= len { e0 } else { len };
        let k = if n <= edge { n } else { edge };
        let v = sub_vec(self.text.as_slice(), edge - k, edge);
        string_from_chars(v.as_slice())
    }

    /// Up to `n` chars after the caret (after the selection in selection
    /// mode).
    pub fn text_after_cursor(&self, n: usize) -> (r: String)
        ensures
            ({
                let b = self.bar();
                let edge = min_u(if b.selecting { b.sel_end } else { b.cursor }, b.text.len());
                let k: nat = if n <= b.text.len() - edge { n as nat } else { (b.text.len() - edge) as nat };
                r@ == b.text.subrange(edge as int, edge + k)
            }),
    {
        let len = self.text.len();
        let e0 = if self.selecting { self.selection_end } else { self.cursor };
        let edge = if e0 <= len { e0 } else { len };
        let k = if n <= len - edge { n } else { len - edge };
        let v = sub_vec(self.text.as_slice(), edge, edge + k);
        string_from_chars(v.as_slice())
    }

    /// The input method sets the caret (`start == end`) or a selection
    /// directly (ordered, clamped; caret at the selection's end).
    pub fn set_caret_or_selection(&mut self, start: usize, end: usize)
        ensures
            ({
                let b = commit_v(old(self).bar());
                let lo = min_u(if start <= end { start } else { end }, b.text.len());
                let hi = min_u(if start <= end { end } else { start }, b.text.len());
                final(self).bar() == if lo == hi {
                    BarV { cursor: lo, follow: true, ..no_sel(b) }
                } else {
                    BarV {
                        selecting: true,
                        sel_start: lo,
                        sel_end: hi,
                        anchor: SelAnchor::Neither,
                        cursor: hi,
                        follow: true,
                        ..b
                    }
                }
            }),
    {
        self.commit_composing();
        let len = self.text.len();
        let lo0 = if start <= end { start } else { end };
        let hi0 = if start <= end { end } else { start };
        let lo = if lo0 <= len { lo0 } else { len };
        let hi = if hi0 <= len { hi0 } else { len };
        if lo == hi {
            self.selecting = false;
            self.selection_start = 0;
            self.selection_end = 0;
            self.sel_anchor = SelAnchor::Neither;
            self.cursor = lo;
        } else {
            self.selecting = true;
            self.selection_start = lo;
            self.selection_end = hi;
            self.sel_anchor = SelAnchor::Neither;
            self.cursor = hi;
        }
        self.follow = true;
    }

    /// The input method replaces `[start, end)` (ordered, clamped) with
    /// `text`; the caret goes after it and selection mode ends.
    pub fn replace_range(&mut self, start: usize, end: usize, text: &str)
        ensures
            ({
                let b = commit_v(old(self).bar());
                let lo = min_u(if start <= end { start } else { end }, b.text.len());
                let hi = min_u(if start <= end { end } else { start }, b.text.len());
                final(self).bar() == (BarV {
                    text: splice(b.text, lo as int, hi as int, text@),
                    cursor: (lo + text@.len()) as usize,
                    follow: true,
                    ..no_sel(b)
                })
            }),
    {
        self.commit_composing();
        let len = self.text.len();
        let lo0 = if start <= end { start } else { end };
        let hi0 = if start <= end { end } else { start };
        let lo = if lo0 <= len { lo0 } else { len };
        let hi = if hi0 <= len { hi0 } else { len };
        let ins = chars_of(text);
        let t = splice_vec(&self.text, lo, hi, ins.as_slice());
        self.text = t;
        let text_len = self.text.len();
        assert(lo + ins@.len() <= text_len);
        self.cursor = lo + ins.len();
        self.selecting = false;
        self.selection_start = 0;
        self.selection_end = 0;
        self.sel_anchor = SelAnchor::Neither;
        self.follow = true;
    }

    /// Deletes the selected text (caret to where it started); returns
    /// whether anything was deleted.
    pub fn delete_selection(&mut self) -> (r: bool)
        ensures
            (final(self).bar(), r) == delete_sel_v(old(self).bar()),
    {
        if !self.selecting || self.selection_start >= self.selection_end {
            return false;
        }
        let len = self.text.len();
        let s = if self.selection_start <= len { self.selection_start } else { len };
        let e = if self.selection_end <= len { self.selection_end } else { len };
        let t = splice_vec(&self.text, s, e, Vec::<char>::new().as_slice());
        self.text = t;
        self.cursor = self.selection_start;
        self.selecting = false;
        self.selection_start = 0;
        self.selection_end = 0;
        self.sel_anchor = SelAnchor::Neither;
        self.handle = false;
        self.follow = true;
        true
    }

    /// Types `s` at the caret, replacing the selection if there is one;
    /// any composing text is dropped and the handle hides.
    pub fn insert_or_replace(&mut self, s: &str)
        ensures
            ({
                let (b1, had) = delete_sel_v(old(self).bar());
                let b2 = BarV { composing: None, follow: true, ..b1 };
                final(self).bar() == BarV {
                    handle: false,
                    selecting: if had { false } else { b2.selecting },
                    ..insert_at_caret(b2, s@)
                }
            }),
    {
        let had = self.delete_selection();
        self.composing = None;
        self.follow = true;
        let len = self.text.len();
        let cur = if self.cursor <= len { self.cursor } else { len };
        let ins = chars_of(s);
        let t = splice_vec(&self.text, cur, cur, ins.as_slice());
        self.text = t;
        let text_len = self.text.len();
        assert(cur + ins@.len() <= text_len);
        self.cursor = cur + ins.len();
        self.handle = false;
        if had {
            self.selecting = false;
        }
    }

    /// Drags the viewport by whole lines (`LINE_STEP_PX` each).
    pub fn scroll_by(&mut self, lines: i32, field_h: u32)
        requires
            i32::MIN <= lines * LINE_STEP_PX <= i32::MAX,
            scroll_ok(old(self).bar(), (lines * LINE_STEP_PX) as i32, field_h),
        ensures
            final(self).bar() == scroll_v(old(self).bar(), (lines * LINE_STEP_PX) as i32, field_h),
    {
        self.scroll_by_px(lines * (LINE_STEP_PX as i32), field_h);
    }

    /// Drags the viewport by `px` (positive toward the end). Leaving the
    /// tail-following mode first seeds the offset at the tail; the result
    /// is clamped to [0, strip height - field height].
    pub fn scroll_by_px(&mut self, px: i32, field_h: u32)
        requires
            scroll_ok(old(self).bar(), px, field_h),
        ensures
            final(self).bar() == scroll_v(old(self).bar(), px, field_h),
    {
        let strip_h = self.lines * LINE_STEP_PX;
        let max_eff: i32 = if strip_h >= field_h {
            (strip_h - field_h) as i32
        } else {
            0
        };
        if self.follow {
            self.scroll_px = max_eff;
        }
        self.follow = false;
        let v = self.scroll_px + px;
        self.scroll_px = if v < 0 {
            0
        } else if v > max_eff {
            max_eff
        } else {
            v
        };
    }

    /// What is shown: the composing text placed at the caret.
    pub fn display_text(snap: &BarSnap) -> (r: String)
        ensures
            r@ == display_v(snap.text@, snap.cursor, snap.composing@),
    {
        let t = chars_of(snap.text.as_str());
        let c = chars_of(snap.composing.as_str());
        if c.len() == 0 {
            return string_from_chars(t.as_slice());
        }
        let cur = if snap.cursor <= t.len() { snap.cursor } else { t.len() };
        let v = splice_vec(&t, cur, cur, c.as_slice());
        string_from_chars(v.as_slice())
    }

    /// IME composing text (empty: none); it is shown at the caret but not
    /// part of the text.
    pub fn set_composing(&mut self, s: &str)
        ensures
            final(self).bar() == (BarV {
                follow: true,
                composing: if s@.len() == 0 {
                    None
                } else {
                    Some(s@)
                },
                ..old(self).bar()
            }),
    {
        self.follow = true;
        self.composing = if s.is_empty() {
            None
        } else {
            Some(chars_of(s))
        };
    }

    /// Commits the composing text at the caret (the caret follows it).
    pub fn finish_composing(&mut self)
        ensures
            final(self).bar() == commit_v(BarV { follow: true, ..old(self).bar() }),
    {
        self.follow = true;
        self.commit_composing();
    }

    /// The wrapped line count written back by the renderer (at least 1).
    pub fn set_lines(&mut self, lines: u32)
        ensures
            final(self).bar() == (BarV { lines: if lines < 1 { 1 } else { lines }, ..old(self).bar() }),
    {
        self.lines = if lines < 1 { 1 } else { lines };
    }

    pub fn lines(&self) -> (n: u32)
        ensures
            n == self.bar().lines,
    {
        self.lines
    }

    pub fn focus(&mut self)
        ensures
            final(self).bar() == (BarV { focused: true, ..old(self).bar() }),
    {
        self.focused = true;
    }

    pub fn unfocus(&mut self)
        ensures
            final(self).bar() == (BarV { focused: false, ..old(self).bar() }),
    {
        self.focused = false;
    }

    pub fn is_focused(&self) -> (b: bool)
        ensures
            b == self.bar().focused,
    {
        self.focused
    }

    pub fn cursor(&self) -> (c: usize)
        ensures
            c == self.bar().cursor,
    {
        self.cursor
    }

    /// A tap places the caret at `pos` (clamped) and shows the handle; the
    /// composing text is committed first (without moving the caret) and
    /// selection mode ends.
    pub fn set_cursor(&mut self, pos: usize)
        ensures
            ({
                let b = old(self).bar();
                let t = match b.composing {
                    Some(cs) => {
                        let cur = min_u(b.cursor, b.text.len());
                        splice(b.text, cur as int, cur as int, cs)
                    },
                    None => b.text,
                };
                final(self).bar() == (BarV {
                    text: t,
                    composing: None,
                    cursor: min_u(pos, t.len()),
                    handle: true,
                    ..no_sel(b)
                })
            }),
    {
        match self.composing.take() {
            Some(cs) => {
                let len = self.text.len();
                let cur = if self.cursor <= len { self.cursor } else { len };
                let t = splice_vec(&self.text, cur, cur, cs.as_slice());
                self.text = t;
            },
            None => {},
        }
        let len = self.text.len();
        self.cursor = if pos <= len { pos } else { len };
        self.handle = true;
        self.selecting = false;
        self.selection_start = 0;
        self.selection_end = 0;
        self.sel_anchor = SelAnchor::Neither;
    }

    /// Text committed by the IME or a key: replaces a live selection,
    /// else goes in at the caret; composing text is dropped; the handle
    /// hides.
    pub fn insert_text(&mut self, s: &str)
        ensures
            final(self).bar() == insert_text_v(old(self).bar(), s@),
    {
        self.composing = None;
        self.follow = true;
        if self.selecting && self.selection_start < self.selection_end {
            let len = self.text.len();
            let ss = if self.selection_start <= len { self.selection_start } else { len };
            let se = if self.selection_end <= len { self.selection_end } else { len };
            let t = splice_vec(&self.text, ss, se, Vec::<char>::new().as_slice());
            self.text = t;
            self.cursor = self.selection_start;
            self.selecting = false;
            self.selection_start = 0;
            self.selection_end = 0;
            self.sel_anchor = SelAnchor::Neither;
        }
        let len = self.text.len();
        let cur = if self.cursor <= len { self.cursor } else { len };
        let ins = chars_of(s);
        let t = splice_vec(&self.text, cur, cur, ins.as_slice());
        self.text = t;
        let text_len = self.text.len();
        assert(cur + ins@.len() <= text_len);
        self.cursor = cur + ins.len();
        self.handle = false;
    }

    /// Backspace: shortens the composing text if there is one; else deletes
    /// a live selection; else deletes the char before the caret.
    pub fn backspace(&mut self)
        ensures
            final(self).bar() == backspace_v(old(self).bar()),
    {
        match self.composing.take() {
            Some(cs) => {
                self.follow = true;
                if cs.len() <= 1 {
                    self.composing = None;
                } else {
                    let v = sub_vec(cs.as_slice(), 0, cs.len() - 1);
                    assert(v@ =~= cs@.drop_last());
                    self.composing = Some(v);
                }
                return;
            },
            None => {},
        }
        if self.selecting && self.selection_start < self.selection_end {
            self.delete_selection();
            return;
        }
        if self.cursor == 0 {
            return;
        }
        let idx = self.cursor - 1;
        let len = self.text.len();
        let i = if idx <= len { idx } else { len };
        let j = if self.cursor <= len { self.cursor } else { len };
        let t = splice_vec(&self.text, i, j, Vec::<char>::new().as_slice());
        self.text = t;
        self.cursor = idx;
        self.handle = false;
        self.follow = true;
    }

    /// Empties the bar (focus kept; caret, handle, composing text and
    /// selection reset).
    pub fn clear(&mut self)
        ensures
            final(self).bar() == (BarV {
                text: Seq::empty(),
                cursor: 0,
                handle: false,
                composing: None,
                follow: true,
                ..no_sel(old(self).bar())
            }),
    {
        self.text = Vec::new();
        self.cursor = 0;
        self.handle = false;
        self.composing = None;
        self.follow = true;
        self.selecting = false;
        self.selection_start = 0;
        self.selection_end = 0;
        self.sel_anchor = SelAnchor::Neither;
    }

    /// Enter: takes the text (the bar empties; focus kept); empty text
    /// sends nothing. The composing text does not go with it.
    pub fn enter(&mut self) -> (r: Option<String>)
        ensures
            old(self).bar().text.len() == 0 ==> (r is None && final(self).bar() == old(self).bar()),
            old(self).bar().text.len() > 0 ==> (r matches Some(t) && t@ == old(self).bar().text
                && final(self).bar() == (BarV {
                    text: Seq::empty(),
                    cursor: 0,
                    handle: false,
                    composing: None,
                    ..no_sel(old(self).bar())
                })),
    {
        if self.text.len() == 0 {
            return None;
        }
        let t = string_from_chars(self.text.as_slice());
        self.text = Vec::new();
        self.cursor = 0;
        self.handle = false;
        self.composing = None;
        self.selecting = false;
        self.selection_start = 0;
        self.selection_end = 0;
        self.sel_anchor = SelAnchor::Neither;
        Some(t)
    }

    /// Submit: `enter`; the taken text is returned for the caller to hand
    /// to its installed sender, once. Empty text is neither taken nor sent.
    pub fn submit(&mut self) -> (r: Option<String>)
        ensures
            old(self).bar().text.len() == 0 ==> (r is None && final(self).bar() == old(self).bar()),
            old(self).bar().text.len() > 0 ==> (r matches Some(t) && t@ == old(self).bar().text
                && final(self).bar() == (BarV {
                    text: Seq::empty(),
                    cursor: 0,
                    handle: false,
                    composing: None,
                    ..no_sel(old(self).bar())
                })),
    {
        self.enter()
    }

    /// Routes one keyboard injection to the focused bar (see `bar_inject_v`).
    pub fn apply_inject(&mut self, item: &Inject)
        ensures
            final(self).bar() == bar_inject_v(old(self).bar(), item@),
    {
        match item {
            Inject::Text(t) => {
                let ts = t.as_str();
                assert(ts@ == t@);
                assert(item@ == InjectV::Text(t@));
                self.insert_text(ts);
                assert(self.bar() == bar_inject_v(old(self).bar(), item@));
            },
            Inject::Key(66) => {
                proof {
                    reveal_strlit("\n");
                }
                let nl = "\n";
                assert(nl@ =~= seq!['\n']);
                self.insert_text(nl);
                assert(self.bar() == bar_inject_v(old(self).bar(), item@));
            },
            Inject::Key(67) => self.backspace(),
            Inject::Key(111) => self.unfocus(),
            Inject::Key(_) => {},
        }
    }
}

/// Scrolling is defined for these inputs: the strip height fits in u32,
/// the clamping bound is not negative, and the offset sum fits in i32.
pub open spec fn scroll_ok(b: BarV, px: i32, field_h: u32) -> bool {
    let strip = b.lines * LINE_STEP_PX;
    &&& strip <= u32::MAX
    &&& scroll_bound(strip as u32, field_h) >= 0
    &&& i32::MIN <= (if b.follow { scroll_bound(strip as u32, field_h) } else { b.scroll_px }) + px
        <= i32::MAX
}

/// Strip height minus field height (0 when shorter), as stored in i32.
pub open spec fn scroll_bound(strip: u32, field_h: u32) -> i32 {
    if strip >= field_h {
        (strip - field_h) as i32
    } else {
        0
    }
}

pub open spec fn scroll_v(b: BarV, px: i32, field_h: u32) -> BarV {
    let m = scroll_bound((b.lines * LINE_STEP_PX) as u32, field_h);
    let base = if b.follow { m } else { b.scroll_px };
    let v = base + px;
    BarV {
        follow: false,
        scroll_px: if v < 0 {
            0
        } else if v > m {
            m
        } else {
            v as i32
        },
        ..b
    }
}

} // verus!
