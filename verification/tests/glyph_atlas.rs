use kfm_na::glyph_atlas::{GlyphAtlas, GlyphKey};

#[test]
fn atlas_packs_shelves_and_pages() {
    let mut a = GlyphAtlas::new(8, 4);
    let k = |c| GlyphKey { font: 0, c };
    let s1 = a.insert(k('a'), 3, 2, &[1, 2, 3, 4, 5, 6], -1, 2);
    assert_eq!((s1.page, s1.u0, s1.v0, s1.w, s1.h, s1.off_x, s1.off_y), (0, 0, 0, 3, 2, -1, 2));
    let s2 = a.insert(k('b'), 4, 1, &[9; 4], 0, 0);
    assert_eq!((s2.page, s2.u0, s2.v0), (0, 3, 0));
    let s3 = a.insert(k('c'), 2, 2, &[7; 4], 0, 0);
    assert_eq!((s3.page, s3.u0, s3.v0), (0, 0, 2));
    let s4 = a.insert(k('d'), 8, 3, &[5; 24], 0, 0);
    assert_eq!((s4.page, s4.u0, s4.v0), (1, 0, 0));
    assert_eq!(a.pages().len(), 2);
    let p0 = &a.pages()[0].coverage;
    assert_eq!(&p0[0..8], &[1, 2, 3, 9, 9, 9, 9, 0]);
    assert_eq!(&p0[8..16], &[4, 5, 6, 0, 0, 0, 0, 0]);
    assert_eq!(&p0[16..24], &[7, 7, 0, 0, 0, 0, 0, 0]);
    let again = a.insert(k('a'), 1, 1, &[0], 0, 0);
    assert_eq!((again.u0, again.w), (0, 3));
    assert_eq!(a.slot(&k('b')).map(|s| s.u0), Some(3));
    assert!(a.slot(&GlyphKey { font: 1, c: 'b' }).is_none());
}

#[test]
fn atlas_glyphs_never_overlap() {
    let mut a = GlyphAtlas::new(16, 8);
    let mut placed = Vec::new();
    for (i, c) in "abcdefghijklmnopqrstuvwxyz".chars().enumerate() {
        let w = (i % 5 + 1) as u32;
        let h = (i % 3 + 1) as u32;
        let s = a.insert(GlyphKey { font: 0, c }, w, h, &vec![1u8; (w * h) as usize], 0, 0);
        assert!(s.u0 as u32 + s.w as u32 <= 16 && s.v0 as u32 + s.h as u32 <= 8);
        placed.push(s);
    }
    for (i, p) in placed.iter().enumerate() {
        for q in &placed[i + 1..] {
            let apart = p.page != q.page
                || p.u0 + p.w <= q.u0
                || q.u0 + q.w <= p.u0
                || p.v0 + p.h <= q.v0
                || q.v0 + q.h <= p.v0;
            assert!(apart, "{p:?} overlaps {q:?}");
        }
    }
}

#[test]
fn atlas_starts_with_one_blank_page() {
    let a = GlyphAtlas::new(0, 0);
    assert_eq!(a.pages().len(), 1);
    assert_eq!((a.pages()[0].w, a.pages()[0].h), (1, 1));
    assert_eq!(a.pages()[0].coverage, vec![0u8]);
    let b = GlyphAtlas::new(4, 3);
    assert_eq!(b.pages()[0].coverage, vec![0u8; 12]);
    assert!(b.slot(&GlyphKey { font: 0, c: 'a' }).is_none());
}
