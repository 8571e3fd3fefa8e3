//! The glyph atlas: coverage pages packed shelf by shelf, one slot per
//! (font slot, char) rasterized once.
use vstd::prelude::*;
use std::collections::HashMap;

verus! {

broadcast use vstd::std_specs::hash::group_hash_axioms;

/// Atlas key: font slot (0 = main, 1 = CJK fallback) and char.
#[derive(Clone, Copy, PartialEq, Eq, Hash, Debug, Structural)]
pub struct GlyphKey {
    pub font: u8,
    pub c: char,
}

/// Where a glyph sits in the atlas and its offset from the cell origin.
#[derive(Clone, Copy, Debug, PartialEq, Eq, Structural)]
pub struct GlyphSlot {
    pub page: u16,
    /// Top-left pixel in the page.
    pub u0: u16,
    pub v0: u16,
    pub w: u16,
    pub h: u16,
    /// Horizontal offset from the cell origin (may be negative).
    pub off_x: i16,
    /// Vertical offset from the cell top (may be negative).
    pub off_y: i16,
}

/// One R8 coverage page, packed shelf by shelf.
#[derive(Debug)]
pub struct AtlasPage {
    pub w: u32,
    pub h: u32,
    pub coverage: Vec<u8>,
    /// Top of the current shelf.
    pub shelf_y: u32,
    /// Height of the current shelf (its tallest glyph).
    pub shelf_h: u32,
    /// Next free column on the current shelf.
    pub cursor_x: u32,
}

/// A grid cell as the GPU path sees it (colours already decided).
#[derive(Clone, Copy, Debug, PartialEq, Eq, Structural)]
pub struct GpuCell {
    pub px: u32,
    pub py: u32,
    pub fg: u32,
    pub bg: u32,
    pub c: char,
    /// First cell of a wide char (clip width two cells).
    pub wide: bool,
    /// Second cell of a wide char (no ink).
    pub spacer: bool,
}

/// The number a key is stored under (one per font slot and char).
pub open spec fn key_code(k: GlyphKey) -> u64 {
    (k.font as u64 * 0x110000 + k.c as u32) as u64
}


impl AtlasPage {
    /// (shelf top, shelf height, cursor) of the packing.
    pub open spec fn shelf(&self) -> (u32, u32, u32) {
        (self.shelf_y, self.shelf_h, self.cursor_x)
    }

    pub open spec fn page_ok(&self) -> bool {
        &&& 1 <= self.w
        &&& 1 <= self.h
        &&& self.w * self.h <= u32::MAX
        &&& self.coverage@.len() == self.w * self.h
        &&& self.shelf().2 <= self.w
        &&& self.shelf().0 + self.shelf().1 <= self.h
    }

    fn new(w: u32, h: u32) -> (p: Self)
        requires
            1 <= w,
            1 <= h,
            w * h <= u32::MAX,
        ensures
            p.page_ok(),
            p.w == w,
            p.h == h,
            p.shelf() == (0u32, 0u32, 0u32),
            p.coverage@ == Seq::new((w * h) as nat, |i: int| 0u8),
    {
        let n = (w * h) as usize;
        let mut coverage: Vec<u8> = Vec::new();
        let mut i: usize = 0;
        while i < n
            invariant
                i <= n,
                coverage@ == Seq::new(i as nat, |k: int| 0u8),
            decreases n - i,
        {
            coverage.push(0u8);
            i += 1;
            assert(coverage@ =~= Seq::new(i as nat, |k: int| 0u8));
        }
        AtlasPage { w, h, coverage, shelf_y: 0, shelf_h: 0, cursor_x: 0 }
    }
}

/// Shelf packing of a `w` x `h` glyph into a page of `pw` x `ph` whose
/// shelf is at `sy` (height `sh`) with cursor `cx`: a glyph that does not
/// fit the shelf's row starts a new shelf below; one that does not fit the
/// page goes to a fresh page. Gives (fresh page, x, y, shelf height after).
pub open spec fn place(pw: nat, ph: nat, sy: nat, sh: nat, cx: nat, w: nat, h: nat) -> (bool, nat, nat, nat) {
    let (cx1, sy1, sh1) = if cx + w > pw {
        (0nat, sy + sh, 0nat)
    } else {
        (cx, sy, sh)
    };
    if sy1 + h > ph {
        (true, 0, 0, h)
    } else {
        (false, cx1, sy1, if sh1 >= h { sh1 } else { h })
    }
}

/// `cov` with the `w` x `h` bitmap written at (x, y) of a page `pw` wide.
pub open spec fn blit(cov: Seq<u8>, pw: nat, x: nat, y: nat, w: nat, h: nat, bitmap: Seq<u8>) -> Seq<u8> {
    Seq::new(
        cov.len(),
        |i: int|
            if y <= i / (pw as int) < y + h && x <= i % (pw as int) < x + w {
                bitmap[(i / (pw as int) - y) * w + (i % (pw as int) - x)]
            } else {
                cov[i]
            },
    )
}

/// A slot lies inside its page.
pub open spec fn slot_fits(s: GlyphSlot, p: AtlasPage) -> bool {
    s.u0 + s.w <= p.w && s.v0 + s.h <= p.h
}

/// Two slots share no pixel: other pages, or rectangles side by side.
pub open spec fn slots_apart(a: GlyphSlot, b: GlyphSlot) -> bool {
    ||| a.page != b.page
    ||| a.u0 + a.w <= b.u0
    ||| b.u0 + b.w <= a.u0
    ||| a.v0 + a.h <= b.v0
    ||| b.v0 + b.h <= a.v0
}

/// A slot of the page still being filled lies above the current shelf, or
/// on it left of the cursor and no taller than it.
pub open spec fn behind_shelf(s: GlyphSlot, p: AtlasPage) -> bool {
    ||| s.v0 + s.h <= p.shelf_y
    ||| s.v0 == p.shelf_y && s.h <= p.shelf_h && s.u0 + s.w <= p.cursor_x
}

/// The packing: every slot inside its page, the last page's slots behind
/// its shelf, and no two slots overlapping.
pub open spec fn packing_ok(ps: Seq<AtlasPage>, m: Map<u64, GlyphSlot>) -> bool {
    &&& forall|k: u64| #[trigger] m.contains_key(k) ==> m[k].page < ps.len() && slot_fits(m[k], ps[m[k].page as int])
    &&& forall|k: u64| #[trigger] m.contains_key(k) && m[k].page == ps.len() - 1 ==> behind_shelf(m[k], ps.last())
    &&& forall|k1: u64, k2: u64| #[trigger] m.contains_key(k1) && #[trigger] m.contains_key(k2) && k1 != k2 ==> slots_apart(m[k1], m[k2])
}

/// Placing one new slot `s` at (x, y) on the last page (same shelf or a
/// new shelf) or at the origin of a fresh page keeps the packing.
proof fn lemma_place_keeps_packing(
    ps: Seq<AtlasPage>,
    m: Map<u64, GlyphSlot>,
    np: Seq<AtlasPage>,
    key: u64,
    s: GlyphSlot,
    pi: int,
    sh: nat,
)
    requires
        packing_ok(ps, m),
        ps.len() >= 1,
        !m.contains_key(key),
        forall|i: int| 0 <= i < ps.len() ==> #[trigger] ps[i].w == ps[0].w && ps[i].h == ps[0].h,
        pi == ps.len() - 1 || pi == ps.len(),
        np.len() == pi + 1,
        forall|i: int| 0 <= i < ps.len() - 1 ==> #[trigger] np[i] == ps[i],
        pi == ps.len() ==> np[ps.len() - 1] == ps.last() && s.u0 == 0 && s.v0 == 0,
        np[pi].w == ps[0].w && np[pi].h == ps[0].h,
        np[pi].shelf_y == s.v0 && np[pi].shelf_h == sh && np[pi].cursor_x == s.u0 + s.w,
        s.page == pi,
        s.h <= sh,
        s.u0 + s.w <= ps[0].w,
        s.v0 + s.h <= ps[0].h,
        pi == ps.len() - 1 ==> ({
            let l = ps.last();
            ||| s.v0 == l.shelf_y && s.u0 == l.cursor_x && sh >= l.shelf_h
            ||| s.u0 == 0 && s.v0 == l.shelf_y + l.shelf_h
        }),
    ensures
        packing_ok(np, m.insert(key, s)),
{
    let m2 = m.insert(key, s);
    let l = ps.last();
    assert forall|k: u64| #[trigger] m2.contains_key(k) implies m2[k].page < np.len() && slot_fits(m2[k], np[m2[k].page as int]) by {
        if k != key {
            let t = m[k];
            assert(t.page < ps.len() && slot_fits(t, ps[t.page as int]));
            if (t.page as int) < ps.len() - 1 {
                assert(np[t.page as int] == ps[t.page as int]);
            } else {
                assert(ps[t.page as int] == l);
            }
        }
    }
    assert forall|k: u64| #[trigger] m2.contains_key(k) && m2[k].page == np.len() - 1 implies behind_shelf(m2[k], np.last()) by {
        if k != key {
            let t = m[k];
            assert(m.contains_key(k));
            assert(t.page == ps.len() - 1);
            assert(behind_shelf(t, l));
        }
    }
    assert forall|k1: u64, k2: u64| #[trigger] m2.contains_key(k1) && #[trigger] m2.contains_key(k2) && k1 != k2 implies slots_apart(m2[k1], m2[k2]) by {
        if k1 == key {
            assert(m.contains_key(k2));
            let t = m[k2];
            if t.page == s.page {
                assert(t.page == ps.len() - 1);
                assert(behind_shelf(t, l));
            }
        } else if k2 == key {
            assert(m.contains_key(k1));
            let t = m[k1];
            if t.page == s.page {
                assert(t.page == ps.len() - 1);
                assert(behind_shelf(t, l));
            }
        } else {
            assert(m.contains_key(k1) && m.contains_key(k2));
        }
    }
}

/// Copying a glyph into a page: pixel (row, col) of the page holds the
/// glyph's pixel (row - y, col - x) inside the glyph's rectangle, and keeps
/// its old value everywhere else.
pub proof fn lemma_blit_pixel(cov: Seq<u8>, pw: nat, x: nat, y: nat, w: nat, h: nat, bitmap: Seq<u8>, row: nat, col: nat)
    requires
        col < pw,
        row * pw + col < cov.len(),
    ensures
        blit(cov, pw, x, y, w, h, bitmap)[(row * pw + col) as int] == if y <= row < y + h && x <= col < x + w {
            bitmap[(row - y) * w + (col - x)]
        } else {
            cov[(row * pw + col) as int]
        },
{
    lemma_rowcol(row as int, col as int, pw as int);
}

/// The glyph atlas: the same key is rasterized into it once.
#[derive(Debug)]
pub struct GlyphAtlas {
    pages: Vec<AtlasPage>,
    slots: HashMap<u64, GlyphSlot>,
}

proof fn lemma_rowcol(r: int, c: int, pw: int)
    requires
        0 <= r,
        0 <= c < pw,
    ensures
        (r * pw + c) / pw == r,
        (r * pw + c) % pw == c,
{
    vstd::arithmetic::div_mod::lemma_fundamental_div_mod_converse(r * pw + c, pw, r, c);
}

impl GlyphAtlas {
    pub closed spec fn pages_v(&self) -> Seq<AtlasPage> {
        self.pages@
    }

    /// Slots by key code.
    pub closed spec fn slot_map(&self) -> Map<u64, GlyphSlot> {
        self.slots@
    }

    /// Every page well formed and of the first page's size, and every
    /// placed glyph inside its page.
    pub open spec fn wf(&self) -> bool {
        &&& self.pages_v().len() >= 1
        &&& self.pages_v().len() <= u16::MAX + 1
        &&& forall|i: int| 0 <= i < self.pages_v().len() ==> #[trigger] self.pages_v()[i].page_ok()
            && self.pages_v()[i].w == self.pages_v()[0].w && self.pages_v()[i].h == self.pages_v()[0].h
    }

    /// No two glyphs share a pixel (see `packing_ok`).
    pub open spec fn packed(&self) -> bool {
        packing_ok(self.pages_v(), self.slot_map())
    }

    /// An atlas of one empty page (sides of 0 count as 1).
    pub fn new(page_w: u32, page_h: u32) -> (a: Self)
        requires
            (if page_w < 1 { 1 } else { page_w as int }) * (if page_h < 1 { 1 } else { page_h as int })
                <= u32::MAX,
        ensures
            a.wf(),
            a.pages_v().len() == 1,
            a.pages_v()[0].w == (if page_w < 1 { 1 } else { page_w }),
            a.pages_v()[0].h == (if page_h < 1 { 1 } else { page_h }),
            a.pages_v()[0].shelf() == (0u32, 0u32, 0u32),
            a.pages_v()[0].coverage@ == Seq::new((a.pages_v()[0].w * a.pages_v()[0].h) as nat, |i: int| 0u8),
            a.slot_map() == Map::<u64, GlyphSlot>::empty(),
            a.packed(),
    {
        let w = if page_w < 1 { 1 } else { page_w };
        let h = if page_h < 1 { 1 } else { page_h };
        let mut pages: Vec<AtlasPage> = Vec::new();
        pages.push(AtlasPage::new(w, h));
        GlyphAtlas { pages, slots: HashMap::new() }
    }

    /// The slot of a key, if it was inserted.
    pub fn slot(&self, key: &GlyphKey) -> (r: Option<GlyphSlot>)
        ensures
            r == if self.slot_map().contains_key(key_code(*key)) {
                Some(self.slot_map()[key_code(*key)])
            } else {
                None
            },
    {
        let code: u64 = key.font as u64 * 0x110000 + key.c as u32 as u64;
        match self.slots.get(&code) {
            Some(s) => Some(*s),
            None => None,
        }
    }

    pub fn pages(&self) -> (r: &[AtlasPage])
        ensures
            r@ == self.pages_v(),
    {
        self.pages.as_slice()
    }

    /// Inserts a rasterized glyph (font routing and rasterization are the
    /// caller's). The same key again returns its slot unchanged. Otherwise
    /// the glyph is shelf-packed into the last page (or a fresh one, see
    /// `place`) and its coverage copied in. The packing sums are u32: the
    /// cursor plus the width, and the shelf row plus the height, must fit.
    pub fn insert(&mut self, key: GlyphKey, w: u32, h: u32, bitmap: &[u8], off_x: i16, off_y: i16) -> (r: GlyphSlot)
        requires
            old(self).wf(),
            !old(self).slot_map().contains_key(key_code(key)) ==> {
                &&& 1 <= w <= old(self).pages_v()[0].w
                &&& 1 <= h <= old(self).pages_v()[0].h
                &&& bitmap@.len() == w * h
                &&& old(self).pages_v().len() < u16::MAX + 1
                &&& old(self).pages_v().last().cursor_x + w <= u32::MAX
                &&& (if old(self).pages_v().last().cursor_x + w > old(self).pages_v().last().w {
                    old(self).pages_v().last().shelf_y + old(self).pages_v().last().shelf_h
                } else {
                    old(self).pages_v().last().shelf_y as int
                }) + h <= u32::MAX
            },
        ensures
            final(self).wf(),
            old(self).packed() && old(self).pages_v()[0].w <= u16::MAX && old(self).pages_v()[0].h
                <= u16::MAX ==> final(self).packed(),
            old(self).slot_map().contains_key(key_code(key)) ==> r == old(self).slot_map()[key_code(
                key,
            )] && final(self).slot_map() == old(self).slot_map() && final(self).pages_v()
                == old(self).pages_v(),
            !old(self).slot_map().contains_key(key_code(key)) ==> ({
                let ps = old(self).pages_v();
                let last = ps.last();
                let (fresh, x, y, sh2) = place(
                    last.w as nat,
                    last.h as nat,
                    last.shelf().0 as nat,
                    last.shelf().1 as nat,
                    last.shelf().2 as nat,
                    w as nat,
                    h as nat,
                );
                let pi = if fresh { ps.len() } else { (ps.len() - 1) as nat };
                let np = final(self).pages_v();
                &&& np.len() == if fresh { ps.len() + 1 } else { ps.len() }
                &&& forall|i: int| 0 <= i < ps.len() - 1 ==> #[trigger] np[i] == ps[i]
                &&& fresh ==> np[ps.len() - 1] == last
                &&& r == GlyphSlot {
                    page: pi as u16,
                    u0: x as u16,
                    v0: y as u16,
                    w: w as u16,
                    h: h as u16,
                    off_x,
                    off_y,
                }
                &&& x + w <= last.w && y + h <= last.h
                &&& np[pi as int].shelf() == (y as u32, sh2 as u32, (x + w) as u32)
                &&& np[pi as int].coverage@ == blit(
                    if fresh {
                        Seq::new((last.w * last.h) as nat, |i: int| 0u8)
                    } else {
                        last.coverage@
                    },
                    last.w as nat,
                    x,
                    y,
                    w as nat,
                    h as nat,
                    bitmap@,
                )
                &&& !fresh ==> np[pi as int].w == last.w && np[pi as int].h == last.h
                &&& final(self).slot_map() == old(self).slot_map().insert(key_code(key), r)
            }),
    {
        let code: u64 = key.font as u64 * 0x110000 + key.c as u32 as u64;
        match self.slots.get(&code) {
            Some(s) => {
                return *s;
            },
            None => {},
        }
        let ghost ps = self.pages@;
        let n = self.pages.len();
        let mut page = self.pages.pop().unwrap();
        assert(page == ps.last());
        assert(ps[n - 1].page_ok());
        assert(ps[n - 1].w == ps[0].w && ps[n - 1].h == ps[0].h);
        let pw = page.w;
        let ph = page.h;
        let mut cursor_x = page.cursor_x;
        let mut shelf_y = page.shelf_y;
        let mut shelf_h = page.shelf_h;
        let mut page_i = n - 1;
        if cursor_x + w > pw {
            cursor_x = 0;
            shelf_y = shelf_y + shelf_h;
            shelf_h = 0;
        }
        if shelf_y + h > ph {
            self.pages.push(page);
            assert(self.pages@ =~= ps);
            page = AtlasPage::new(pw, ph);
            page_i = n;
            cursor_x = 0;
            shelf_y = 0;
            shelf_h = 0;
        }
        let ghost cov0 = page.coverage@;
        assert(self.pages@.len() == page_i);
        assert(forall|i: int| 0 <= i < self.pages@.len() ==> self.pages@[i] == ps[i]);
        assert(pw == ps[0].w && ph == ps[0].h);
        assert(w as int * h <= pw as int * ph) by (nonlinear_arith)
            requires
                w <= pw,
                h <= ph,
        ;
        let mut gy: u32 = 0;
        while gy < h
            invariant
                w as int * h <= u32::MAX,
                shelf_y + shelf_h <= ph,
                page.page_ok(),
                page.w == pw,
                page.h == ph,
                shelf_y + h <= ph,
                cursor_x + w <= pw,
                1 <= w,
                bitmap@.len() == w * h,
                gy <= h,
                page.coverage@.len() == cov0.len(),
                page.coverage@ == blit(cov0, pw as nat, cursor_x as nat, shelf_y as nat, w as nat, gy as nat, bitmap@),
            decreases h - gy,
        {
            let row: u32 = shelf_y + gy;
            proof {
                assert(row < ph);
                assert(row as int * pw + cursor_x + w <= pw * ph) by (nonlinear_arith)
                    requires
                        row < ph,
                        cursor_x + w <= pw,
                ;
                assert(gy as int * w + w <= w * h) by (nonlinear_arith)
                    requires
                        gy < h,
                ;
            }
            let dst: u32 = row * pw + cursor_x;
            assert(gy as int * w <= w as int * h) by (nonlinear_arith)
                requires
                    gy < h,
            ;
            let src: u32 = gy * w;
            let mut gx: u32 = 0;
            let ghost before = page.coverage@;
            while gx < w
                invariant
                    page.page_ok(),
                    page.w == pw,
                    page.h == ph,
                        gx <= w,
                    dst == row * pw + cursor_x,
                    src == gy * w,
                    row == shelf_y + gy,
                    gy < h,
                    row < ph,
                    cursor_x + w <= pw,
                    row as int * pw + cursor_x + w <= pw * ph,
                    gy as int * w + w <= w * h,
                    w as int * h <= u32::MAX,
                    bitmap@.len() == w * h,
                    page.coverage@.len() == before.len(),
                    forall|i: int|
                        0 <= i < before.len() ==> #[trigger] page.coverage@[i] == if dst <= i < dst
                            + gx {
                            bitmap@[src + (i - dst)]
                        } else {
                            before[i]
                        },
                decreases w - gx,
            {
                let b = bitmap[(src + gx) as usize];
                page.coverage.set((dst + gx) as usize, b);
                gx += 1;
            }
            proof {
                assert forall|i: int| 0 <= i < cov0.len() implies #[trigger] page.coverage@[i] == blit(
                    cov0,
                    pw as nat,
                    cursor_x as nat,
                    shelf_y as nat,
                    w as nat,
                    (gy + 1) as nat,
                    bitmap@,
                )[i] by {
                    let r = i / (pw as int);
                    let c = i % (pw as int);
                    vstd::arithmetic::div_mod::lemma_fundamental_div_mod(i, pw as int);
                    if dst <= i < dst + w {
                        lemma_rowcol(row as int, cursor_x + (i - dst), pw as int);
                        assert(i == row as int * pw + (cursor_x + (i - dst)));
                        assert(r == row && c == cursor_x + (i - dst));
                        assert((r - shelf_y) * w + (c - cursor_x) == src + (i - dst)) by (nonlinear_arith)
                            requires
                                r - shelf_y == gy,
                                src == gy * w,
                                c - cursor_x == i - dst,
                        ;
                    } else {
                        if r == row && cursor_x <= c < cursor_x + w {
                            assert(i == r * pw + c) by (nonlinear_arith)
                                requires
                                    r == i / (pw as int),
                                    c == i % (pw as int),
                                    pw > 0,
                            ;
                            assert(false);
                        }
                    }
                }
                assert(page.coverage@ =~= blit(
                    cov0,
                    pw as nat,
                    cursor_x as nat,
                    shelf_y as nat,
                    w as nat,
                    (gy + 1) as nat,
                    bitmap@,
                ));
            }
            gy += 1;
        }
        page.cursor_x = cursor_x + w;
        page.shelf_y = shelf_y;
        page.shelf_h = if shelf_h >= h { shelf_h } else { h };
        assert(page.page_ok());
        assert(self.pages@.len() == page_i);
        assert(forall|i: int| 0 <= i < self.pages@.len() ==> self.pages@[i] == ps[i]);
        let ghost pages_before = self.pages@;
        let ghost new_page = page;
        self.pages.push(page);
        let slot = GlyphSlot {
            page: page_i as u16,
            u0: cursor_x as u16,
            v0: shelf_y as u16,
            w: w as u16,
            h: h as u16,
            off_x,
            off_y,
        };
        self.slots.insert(code, slot);
        proof {
            assert forall|i: int| 0 <= i < self.pages@.len() implies #[trigger] self.pages@[i].page_ok()
                && self.pages@[i].w == self.pages@[0].w && self.pages@[i].h == self.pages@[0].h by {
                if i < self.pages@.len() - 1 {
                    assert(self.pages@[i] == pages_before[i]);
                    assert(pages_before[i] == ps[i]);
                    assert(ps[i].page_ok());
                }
                if self.pages@.len() > 1 {
                    assert(self.pages@[0] == ps[0]);
                }
            }
        }
        proof {
            if old(self).packed() && ps[0].w <= u16::MAX && ps[0].h <= u16::MAX {
                assert(self.packed()) by {
                    assert forall|i: int| 0 <= i < ps.len() implies #[trigger] ps[i].w == ps[0].w && ps[i].h == ps[0].h by {
                        assert(old(self).wf());
                        assert(ps[i].page_ok());
                    }
                    assert(self.pages@[page_i as int] == new_page);
                    if page_i == n {
                        assert(self.pages@[n - 1] == ps[n - 1]);
                    }
                    lemma_place_keeps_packing(ps, old(self).slot_map(), self.pages@, code, slot, page_i as int, new_page.shelf_h as nat);
                }
            }
        }
        slot
    }
}

} // verus!
