//! Flight-recorder tape: record wire format, whole-tape decoding (truncation
//! tolerant, unknown kinds skipped) and keep-newest compaction.
//!
//! Record layout: `[u64 ts_ms][u8 kind][u8 name_len][name][u32 a][u32 b]
//! [u32 payload_len][payload]`, little-endian. Kind 1 = output (a = b = 0,
//! payload = bytes); kind 2 = resize (a = cols, b = rows, payload = cell_w,
//! cell_h as two u32).
use vstd::prelude::*;
use vstd::bytes::*;
use vstd::utf8::*;
use vstd::slice::slice_subrange;
use crate::text::{lossy_string, lossy, extend_bytes, sub_vec};

verus! {

broadcast use vstd::seq_lib::group_seq_properties;

/// Tape magic (first bytes of every tape).
pub const REC_MAGIC: [u8; 9] = [75u8, 70u8, 77u8, 82u8, 69u8, 67u8, 48u8, 49u8, 10u8];

/// Tape size cap: above it the writer compacts, keeping the newest records.
pub const REC_FILE_CAP: usize = 2097152;

pub open spec fn magic() -> Seq<u8> {
    seq![75u8, 70u8, 77u8, 82u8, 69u8, 67u8, 48u8, 49u8, 10u8]
}

/// One record (owned, decoding side).
#[derive(Debug, Clone, PartialEq, Eq)]
pub enum RecEvent {
    Output { ts_ms: u64, name: String, data: Vec<u8> },
    Resize { ts_ms: u64, name: String, cols: u32, rows: u32, cell_w: u32, cell_h: u32 },
}

/// Mathematical view of a record.
pub enum RecView {
    Output { ts_ms: u64, name: Seq<char>, data: Seq<u8> },
    Resize { ts_ms: u64, name: Seq<char>, cols: u32, rows: u32, cell_w: u32, cell_h: u32 },
}

impl View for RecEvent {
    type V = RecView;

    open spec fn view(&self) -> RecView {
        match self {
            RecEvent::Output { ts_ms, name, data } => RecView::Output {
                ts_ms: *ts_ms,
                name: name@,
                data: data@,
            },
            RecEvent::Resize { ts_ms, name, cols, rows, cell_w, cell_h } => RecView::Resize {
                ts_ms: *ts_ms,
                name: name@,
                cols: *cols,
                rows: *rows,
                cell_w: *cell_w,
                cell_h: *cell_h,
            },
        }
    }
}

impl RecView {
    pub open spec fn ts(self) -> u64 {
        match self {
            RecView::Output { ts_ms, .. } => ts_ms,
            RecView::Resize { ts_ms, .. } => ts_ms,
        }
    }

    pub open spec fn name(self) -> Seq<char> {
        match self {
            RecView::Output { name, .. } => name,
            RecView::Resize { name, .. } => name,
        }
    }

    pub open spec fn kind(self) -> u8 {
        match self {
            RecView::Output { .. } => 1,
            RecView::Resize { .. } => 2,
        }
    }

    pub open spec fn a(self) -> u32 {
        match self {
            RecView::Output { .. } => 0,
            RecView::Resize { cols, .. } => cols,
        }
    }

    pub open spec fn b(self) -> u32 {
        match self {
            RecView::Output { .. } => 0,
            RecView::Resize { rows, .. } => rows,
        }
    }

    pub open spec fn payload(self) -> Seq<u8> {
        match self {
            RecView::Output { data, .. } => data,
            RecView::Resize { cell_w, cell_h, .. } => spec_u32_to_le_bytes(cell_w)
                + spec_u32_to_le_bytes(cell_h),
        }
    }

    /// Name bytes as written (UTF-8, cut at 255 bytes).
    pub open spec fn name_field(self) -> Seq<u8> {
        let nb = encode_utf8(self.name());
        if nb.len() <= 255 {
            nb
        } else {
            nb.take(255)
        }
    }
}

/// The encoding of one record.
pub open spec fn rec_enc(ev: RecView) -> Seq<u8> {
    let nf = ev.name_field();
    let p = ev.payload();
    spec_u64_to_le_bytes(ev.ts()) + seq![ev.kind(), nf.len() as u8] + nf + spec_u32_to_le_bytes(
        ev.a(),
    ) + spec_u32_to_le_bytes(ev.b()) + spec_u32_to_le_bytes(p.len() as u32) + p
}

/// Concatenated encodings of a record sequence.
pub open spec fn rec_enc_all(evs: Seq<RecView>) -> Seq<u8>
    decreases evs.len(),
{
    if evs.len() == 0 {
        Seq::empty()
    } else {
        rec_enc(evs[0]) + rec_enc_all(evs.drop_first())
    }
}

/// One decoding step on a record area: the records it yields (none for an
/// unknown kind) and how many bytes it consumes; `None` when what is left is
/// shorter than a full record (a truncated tail).
pub open spec fn rec_step(cur: Seq<u8>) -> Option<(Seq<RecView>, int)> {
    if cur.len() < 10 {
        None
    } else {
        let ts = spec_u64_from_le_bytes(cur.take(8));
        let kind = cur[8];
        let nlen = cur[9] as int;
        let rest = cur.skip(10);
        if rest.len() < nlen + 12 {
            None
        } else {
            let name = lossy(rest.take(nlen));
            let a = spec_u32_from_le_bytes(rest.subrange(nlen, nlen + 4));
            let b = spec_u32_from_le_bytes(rest.subrange(nlen + 4, nlen + 8));
            let plen = spec_u32_from_le_bytes(rest.subrange(nlen + 8, nlen + 12)) as int;
            if rest.len() < nlen + 12 + plen {
                None
            } else {
                let payload = rest.subrange(nlen + 12, nlen + 12 + plen);
                let head = if kind == 1 {
                    seq![RecView::Output { ts_ms: ts, name, data: payload }]
                } else if kind == 2 && plen == 8 {
                    seq![
                        RecView::Resize {
                            ts_ms: ts,
                            name,
                            cols: a,
                            rows: b,
                            cell_w: spec_u32_from_le_bytes(payload.take(4)),
                            cell_h: spec_u32_from_le_bytes(payload.skip(4)),
                        },
                    ]
                } else {
                    Seq::empty()
                };
                Some((head, 10 + nlen + 12 + plen))
            }
        }
    }
}

/// The records the decoder recovers from a record area (no magic).
pub open spec fn rec_records(cur: Seq<u8>) -> Seq<RecView>
    decreases cur.len(),
{
    match rec_step(cur) {
        Some((h, n)) => if 0 < n <= cur.len() {
            h + rec_records(cur.skip(n))
        } else {
            Seq::empty()
        },
        None => Seq::empty(),
    }
}

/// Whole-tape decoding: `None` when the magic is missing.
pub open spec fn rec_decode(buf: Seq<u8>) -> Option<Seq<RecView>> {
    if buf.len() >= 9 && buf.take(9) == magic() {
        Some(rec_records(buf.skip(9)))
    } else {
        None
    }
}

/// A record whose encoding decodes back to itself: its name fits the
/// 255-byte name field and its payload length fits the u32 length field.
pub open spec fn rec_fits(ev: RecView) -> bool {
    encode_utf8(ev.name()).len() <= 255 && ev.payload().len() < 0x1_0000_0000
}

impl RecEvent {
    pub fn ts_ms(&self) -> (t: u64)
        ensures
            t == self@.ts(),
    {
        match self {
            RecEvent::Output { ts_ms, .. } => *ts_ms,
            RecEvent::Resize { ts_ms, .. } => *ts_ms,
        }
    }
}

fn push_u32(out: &mut Vec<u8>, x: u32)
    ensures
        final(out)@ == old(out)@ + spec_u32_to_le_bytes(x),
{
    let b = u32_to_le_bytes(x);
    extend_bytes(out, b.as_slice(), 0, 4);
    assert(b@.subrange(0, 4) =~= b@);
}

/// Encodes one record.
pub fn rec_encode(ev: &RecEvent) -> (out: Vec<u8>)
    ensures
        out@ == rec_enc(ev@),
{
    let mut out: Vec<u8> = Vec::new();
    let tb = u64_to_le_bytes(ev.ts_ms());
    extend_bytes(&mut out, tb.as_slice(), 0, 8);
    assert(tb@.subrange(0, 8) =~= tb@);
    let (kind, name, a, b): (u8, &String, u32, u32) = match ev {
        RecEvent::Output { name, .. } => (1, name, 0, 0),
        RecEvent::Resize { name, cols, rows, .. } => (2, name, *cols, *rows),
    };
    out.push(kind);
    let nb = name.as_str().as_bytes();
    let n: usize = if nb.len() < 255 { nb.len() } else { 255 };
    out.push(n as u8);
    extend_bytes(&mut out, nb, 0, n);
    assert(nb@.subrange(0, n as int) =~= ev@.name_field());
    push_u32(&mut out, a);
    push_u32(&mut out, b);
    match ev {
        RecEvent::Output { data, .. } => {
            push_u32(&mut out, data.len() as u32);
            extend_bytes(&mut out, data.as_slice(), 0, data.len());
            assert(data@.subrange(0, data@.len() as int) =~= data@);
        },
        RecEvent::Resize { cell_w, cell_h, .. } => {
            push_u32(&mut out, 8);
            push_u32(&mut out, *cell_w);
            push_u32(&mut out, *cell_h);
            proof {
                lemma_auto_spec_u32_to_from_le_bytes();
            }
        },
    }
    assert(out@ =~= rec_enc(ev@));
    out
}

fn read_u32(buf: &[u8], at: usize) -> (x: u32)
    requires
        at + 4 <= buf.len(),
    ensures
        x == spec_u32_from_le_bytes(buf@.subrange(at as int, at + 4)),
{
    let s = slice_subrange(buf, at, at + 4);
    u32_from_le_bytes(s)
}

fn decode_one(buf: &[u8], pos: usize) -> (r: Option<(Option<RecEvent>, usize)>)
    requires
        pos <= buf.len(),
    ensures
        match rec_step(buf@.skip(pos as int)) {
            None => r is None,
            Some((h, n)) => r matches Some((o, next)) && next == pos + n && 0 < n && next
                <= buf.len() && match o {
                None => h == Seq::<RecView>::empty(),
                Some(e) => h == seq![e@],
            },
        },
{
    let ghost cur = buf@.skip(pos as int);
    if buf.len() - pos < 10 {
        return None;
    }
    let tb = slice_subrange(buf, pos, pos + 8);
    let ts = u64_from_le_bytes(tb);
    assert(tb@ =~= cur.take(8));
    let kind = buf[pos + 8];
    let nlen = buf[pos + 9] as usize;
    let rest = pos + 10;
    let ghost rs = cur.skip(10);
    if buf.len() - rest < nlen + 12 {
        return None;
    }
    let nb = slice_subrange(buf, rest, rest + nlen);
    assert(nb@ =~= rs.take(nlen as int));
    let name = lossy_string(nb);
    let a = read_u32(buf, rest + nlen);
    assert(buf@.subrange((rest + nlen) as int, rest + nlen + 4) =~= rs.subrange(nlen as int, nlen + 4));
    let b = read_u32(buf, rest + nlen + 4);
    assert(buf@.subrange((rest + nlen + 4) as int, rest + nlen + 8) =~= rs.subrange(nlen + 4, nlen + 8));
    let plen = read_u32(buf, rest + nlen + 8) as usize;
    assert(buf@.subrange((rest + nlen + 8) as int, rest + nlen + 12) =~= rs.subrange(nlen + 8, nlen + 12));
    if buf.len() - rest - nlen - 12 < plen {
        return None;
    }
    let ps = rest + nlen + 12;
    let ghost payload = rs.subrange(nlen + 12, nlen + 12 + plen);
    assert(buf@.subrange(ps as int, ps + plen) =~= payload);
    let next = ps + plen;
    if kind == 1 {
        let data = sub_vec(buf, ps, ps + plen);
        Some((Some(RecEvent::Output { ts_ms: ts, name, data }), next))
    } else if kind == 2 && plen == 8 {
        let cw = read_u32(buf, ps);
        let ch = read_u32(buf, ps + 4);
        assert(buf@.subrange(ps as int, ps + 4) =~= payload.take(4));
        assert(buf@.subrange(ps + 4, ps + 8) =~= payload.skip(4));
        Some((Some(RecEvent::Resize { ts_ms: ts, name, cols: a, rows: b, cell_w: cw, cell_h: ch }), next))
    } else {
        Some((None, next))
    }
}

/// Decodes a whole tape: it must start with the magic; a truncated last
/// record is dropped silently; records of unknown kind are skipped.
pub fn rec_decode_all(buf: &[u8]) -> (r: Result<Vec<RecEvent>, String>)
    ensures
        match r {
            Ok(evs) => rec_decode(buf@) == Some(evs@.map_values(|e: RecEvent| e@)),
            Err(_) => rec_decode(buf@) is None,
        },
{
    if buf.len() < 9 || !magic_ok(buf) {
        return Err(String::from_str("坏魔数:不是记录仪文件"));
    }
    let mut evs: Vec<RecEvent> = Vec::new();
    let mut pos: usize = 9;
    loop
        invariant
            9 <= pos <= buf.len(),
            rec_records(buf@.skip(9)) == evs@.map_values(|e: RecEvent| e@) + rec_records(
                buf@.skip(pos as int),
            ),
        ensures
            rec_records(buf@.skip(9)) == evs@.map_values(|e: RecEvent| e@),
        decreases buf.len() - pos,
    {
        let ghost cur = buf@.skip(pos as int);
        let ghost old_evs = evs@.map_values(|e: RecEvent| e@);
        match decode_one(buf, pos) {
            None => {
                assert(rec_records(cur) =~= Seq::<RecView>::empty());
                assert(old_evs + Seq::<RecView>::empty() =~= old_evs);
                break;
            },
            Some((o, next)) => {
                assert(cur.skip(next - pos) =~= buf@.skip(next as int));
                match o {
                    Some(e) => {
                        evs.push(e);
                        assert(evs@.map_values(|e: RecEvent| e@) =~= old_evs.push(e@));
                    },
                    None => {},
                }
                assert(evs@.map_values(|e: RecEvent| e@) + rec_records(buf@.skip(next as int))
                    =~= old_evs + rec_records(cur));
                pos = next;
            },
        }
    }
    Ok(evs)
}

fn magic_ok(buf: &[u8]) -> (r: bool)
    requires
        buf.len() >= 9,
    ensures
        r == (buf@.take(9) == magic()),
{
    let mut i: usize = 0;
    while i < 9
        invariant
            i <= 9 <= buf.len(),
            forall|j: int| 0 <= j < i ==> buf@[j] == magic()[j],
        decreases 9 - i,
    {
        if buf[i] != REC_MAGIC[i] {
            assert(buf@.take(9)[i as int] != magic()[i as int]);
            return false;
        }
        i += 1;
    }
    assert(buf@.take(9) =~= magic());
    true
}

/// How many of the newest records compaction keeps: walking from the newest
/// back, a record is kept while its encoding fits the remaining budget; the
/// newest one is always kept.
pub open spec fn compact_keep(evs: Seq<RecView>, budget: int, kept_any: bool) -> nat
    decreases evs.len(),
{
    if evs.len() == 0 {
        0
    } else {
        let sz = rec_enc(evs.last()).len() as int;
        if sz > budget && kept_any {
            0
        } else {
            1 + compact_keep(evs.drop_last(), if budget >= sz { budget - sz } else { 0 }, true)
        }
    }
}

/// The compacted tape: unchanged within the cap or when it does not decode;
/// otherwise the magic followed by the re-encoded kept (newest) records.
pub open spec fn rec_compacted(buf: Seq<u8>, cap: int) -> Seq<u8> {
    if buf.len() <= cap {
        buf
    } else {
        match rec_decode(buf) {
            None => buf,
            Some(evs) => {
                let k = compact_keep(evs, if cap >= 9 { cap - 9 } else { 0 }, false);
                magic() + rec_enc_all(evs.skip(evs.len() - k))
            },
        }
    }
}

proof fn lemma_keep_bound(evs: Seq<RecView>, budget: int, kept_any: bool)
    ensures
        compact_keep(evs, budget, kept_any) <= evs.len(),
        evs.len() > 0 && !kept_any ==> compact_keep(evs, budget, kept_any) >= 1,
    decreases evs.len(),
{
    if evs.len() > 0 {
        let sz = rec_enc(evs.last()).len() as int;
        lemma_keep_bound(evs.drop_last(), if budget >= sz { budget - sz } else { 0 }, true);
    }
}

proof fn lemma_enc_all_push(evs: Seq<RecView>, e: RecView)
    ensures
        rec_enc_all(seq![e] + evs) == rec_enc(e) + rec_enc_all(evs),
{
    assert((seq![e] + evs).drop_first() =~= evs);
}

/// Shrinks an over-cap tape to its newest records (the magic stays); a
/// single record larger than the cap is still kept. A tape within the cap,
/// or one that does not decode, is returned unchanged.
pub fn rec_compact(buf: &[u8], cap: usize) -> (out: Vec<u8>)
    ensures
        out@ == rec_compacted(buf@, cap as int),
{
    if buf.len() <= cap {
        return sub_vec(buf, 0, buf.len());
    }
    let evs = match rec_decode_all(buf) {
        Ok(evs) => evs,
        Err(_) => {
            return sub_vec(buf, 0, buf.len());
        },
    };
    let ghost ev = evs@.map_values(|e: RecEvent| e@);
    let n = evs.len();
    let mut budget: usize = if cap >= 9 { cap - 9 } else { 0 };
    let mut i = n;
    let ghost b0 = budget as int;
    // walk from the newest record back while the budget allows
    loop
        invariant
            i <= n == evs@.len(),
            ev == evs@.map_values(|e: RecEvent| e@),
            compact_keep(ev, b0, false) == (n - i) + compact_keep(
                ev.take(i as int),
                budget as int,
                i < n,
            ),
        ensures
            compact_keep(ev, b0, false) == n - i,
        decreases i,
    {
        if i == 0 {
            break;
        }
        let sz = rec_encode(&evs[i - 1]).len();
        assert(ev.take(i as int).last() == ev[i - 1]);
        assert(ev.take(i as int).drop_last() =~= ev.take(i - 1));
        if sz > budget && i < n {
            break;
        }
        budget = if budget >= sz { budget - sz } else { 0 };
        i -= 1;
    }
    let mut out: Vec<u8> = Vec::new();
    extend_bytes(&mut out, &REC_MAGIC, 0, 9);
    assert(REC_MAGIC@.subrange(0, 9) =~= magic());
    let mut j = i;
    while j < n
        invariant
            i <= j <= n == evs@.len(),
            ev == evs@.map_values(|e: RecEvent| e@),
            out@ + rec_enc_all(ev.subrange(j as int, n as int)) == magic() + rec_enc_all(
                ev.skip(i as int),
            ),
        decreases n - j,
    {
        let e = rec_encode(&evs[j]);
        extend_bytes(&mut out, e.as_slice(), 0, e.len());
        proof {
            assert(e@.subrange(0, e@.len() as int) =~= e@);
            lemma_enc_all_push(ev.subrange(j + 1, n as int), ev[j as int]);
            assert(seq![ev[j as int]] + ev.subrange(j + 1, n as int) =~= ev.subrange(
                j as int,
                n as int,
            ));
        }
        j += 1;
    }
    proof {
        assert(ev.subrange(n as int, n as int) =~= Seq::<RecView>::empty());
        assert(ev.skip(i as int) =~= ev.skip(ev.len() - (n - i)));
    }
    out
}

/// Compaction law: an over-cap tape that decodes to records which re-encode
/// faithfully compacts to a tape that decodes to a suffix of those records
/// (the newest ones, in order), never empty when there was a record.
pub proof fn lemma_compact_keeps_newest(buf: Seq<u8>, cap: int)
    requires
        buf.len() > cap,
        rec_decode(buf) is Some,
        forall|i: int|
            0 <= i < rec_decode(buf)->0.len() ==> rec_fits(#[trigger] rec_decode(buf)->0[i]),
    ensures
        ({
            let evs = rec_decode(buf)->0;
            let kept = rec_decode(rec_compacted(buf, cap))->0;
            &&& rec_decode(rec_compacted(buf, cap)) is Some
            &&& kept.len() <= evs.len()
            &&& kept == evs.skip(evs.len() - kept.len())
            &&& evs.len() > 0 ==> kept.len() > 0
        }),
{
    let evs = rec_decode(buf)->0;
    let b = if cap >= 9 { cap - 9 } else { 0 };
    let k = compact_keep(evs, b, false);
    lemma_keep_bound(evs, b, false);
    let suf = evs.skip(evs.len() - k);
    assert forall|i: int| 0 <= i < suf.len() implies rec_fits(#[trigger] suf[i]) by {
        assert(suf[i] == evs[evs.len() - k + i]);
    }
    lemma_rec_roundtrip(suf);
}

/// Tape round trip: every sequence of records whose names fit the 255-byte
/// name field (and payloads the u32 length field) decodes back to exactly
/// itself from the magic followed by the records' encodings.
pub proof fn lemma_rec_roundtrip(evs: Seq<RecView>)
    requires
        forall|i: int| 0 <= i < evs.len() ==> rec_fits(#[trigger] evs[i]),
    ensures
        rec_decode(magic() + rec_enc_all(evs)) == Some(evs),
{
    let buf = magic() + rec_enc_all(evs);
    assert(buf.take(9) =~= magic());
    assert(buf.skip(9) =~= rec_enc_all(evs));
    lemma_records_enc_all(evs);
}

proof fn lemma_records_enc_all(evs: Seq<RecView>)
    requires
        forall|i: int| 0 <= i < evs.len() ==> rec_fits(#[trigger] evs[i]),
    ensures
        rec_records(rec_enc_all(evs)) == evs,
    decreases evs.len(),
{
    if evs.len() == 0 {
        assert(rec_step(Seq::<u8>::empty()) is None);
        assert(rec_records(rec_enc_all(evs)) =~= evs);
    } else {
        let e = evs[0];
        let rest = evs.drop_first();
        assert forall|i: int| 0 <= i < rest.len() implies rec_fits(#[trigger] rest[i]) by {
            assert(rest[i] == evs[i + 1]);
        }
        lemma_records_enc_all(rest);
        lemma_step_enc(e, rec_enc_all(rest));
        let buf = rec_enc(e) + rec_enc_all(rest);
        assert(buf.skip(rec_enc(e).len() as int) =~= rec_enc_all(rest));
        assert(seq![e] + rest =~= evs);
    }
}

/// Decoding the encoding of a record whose payload fits the u32 length
/// field, followed by anything, consumes exactly that encoding (the name
/// field is cut at 255 bytes, so every name fits the frame).
pub proof fn lemma_step_len(e: RecView, tail: Seq<u8>)
    requires
        e.payload().len() < 0x1_0000_0000,
    ensures
        rec_step(rec_enc(e) + tail) matches Some((_, n)) && n == rec_enc(e).len(),
{
    lemma_auto_spec_u64_to_from_le_bytes();
    lemma_auto_spec_u32_to_from_le_bytes();
    let nf = e.name_field();
    assert(nf.len() <= 255);
    assert(spec_u64_to_le_bytes(e.ts()).len() == 8);
    let p = e.payload();
    let nlen = nf.len() as int;
    let plen = p.len() as int;
    let buf = rec_enc(e) + tail;
    assert(buf[9] == nf.len() as u8);
    assert((nf.len() as u8) as int == nlen);
    let rest = buf.skip(10);
    assert(rest.subrange(nlen + 8, nlen + 12) =~= spec_u32_to_le_bytes(p.len() as u32));
    assert((p.len() as u32) as int == plen);
}

/// A cut-off record (a strict prefix of the encoding of a record whose
/// payload fits the u32 length field, whatever its name) is no complete
/// record.
pub proof fn lemma_cut_record(e: RecView, k: int)
    requires
        e.payload().len() < 0x1_0000_0000,
        0 <= k < rec_enc(e).len(),
    ensures
        rec_step(rec_enc(e).take(k)) is None,
{
    lemma_step_len(e, Seq::empty());
    let full = rec_enc(e) + Seq::<u8>::empty();
    assert(full =~= rec_enc(e));
    let t = rec_enc(e).take(k);
    if t.len() >= 10 {
        assert(t.take(8) =~= full.take(8));
        assert(t[8] == full[8] && t[9] == full[9]);
        let nlen = t[9] as int;
        let rest_t = t.skip(10);
        let rest_f = full.skip(10);
        if rest_t.len() >= nlen + 12 {
            assert(rest_t.subrange(nlen + 8, nlen + 12) =~= rest_f.subrange(nlen + 8, nlen + 12));
        }
    }
}

proof fn lemma_records_enc_all_cut(evs: Seq<RecView>, t: Seq<u8>)
    requires
        forall|i: int| 0 <= i < evs.len() ==> rec_fits(#[trigger] evs[i]),
        rec_step(t) is None,
    ensures
        rec_records(rec_enc_all(evs) + t) == evs,
    decreases evs.len(),
{
    if evs.len() == 0 {
        assert(rec_enc_all(evs) + t =~= t);
        assert(rec_records(t) =~= evs);
    } else {
        let e = evs[0];
        let rest = evs.drop_first();
        assert forall|i: int| 0 <= i < rest.len() implies rec_fits(#[trigger] rest[i]) by {
            assert(rest[i] == evs[i + 1]);
        }
        lemma_records_enc_all_cut(rest, t);
        lemma_step_enc(e, rec_enc_all(rest) + t);
        let buf = rec_enc(e) + (rec_enc_all(rest) + t);
        assert(rec_enc_all(evs) + t =~= buf);
        assert(buf.skip(rec_enc(e).len() as int) =~= rec_enc_all(rest) + t);
        assert(seq![e] + rest =~= evs);
    }
}

/// Tape round trip with a cut tail: the magic, the encodings of fitting
/// records, then a record the process died writing (any strict prefix,
/// possibly empty, of the encoding of a record whose payload fits the u32
/// length field — its name may be of any length) decodes to exactly those
/// records; the cut record is dropped silently.
pub proof fn lemma_rec_roundtrip_cut(evs: Seq<RecView>, e: RecView, k: int)
    requires
        forall|i: int| 0 <= i < evs.len() ==> rec_fits(#[trigger] evs[i]),
        e.payload().len() < 0x1_0000_0000,
        0 <= k < rec_enc(e).len(),
    ensures
        rec_decode(magic() + rec_enc_all(evs) + rec_enc(e).take(k)) == Some(evs),
{
    let t = rec_enc(e).take(k);
    let buf = magic() + rec_enc_all(evs) + t;
    assert(buf.take(9) =~= magic());
    assert(buf.skip(9) =~= rec_enc_all(evs) + t);
    lemma_cut_record(e, k);
    lemma_records_enc_all_cut(evs, t);
}

/// Decoding the encoding of one fitting record, followed by anything, yields
/// that record and consumes exactly its encoding.
pub proof fn lemma_step_enc(e: RecView, tail: Seq<u8>)
    requires
        rec_fits(e),
    ensures
        rec_step(rec_enc(e) + tail) == Some((seq![e], rec_enc(e).len() as int)),
{
    lemma_auto_spec_u64_to_from_le_bytes();
    lemma_auto_spec_u32_to_from_le_bytes();
    vstd::utf8::encode_utf8_valid_utf8(e.name());
    vstd::utf8::encode_utf8_decode_utf8(e.name());
    let nf = e.name_field();
    assert(nf == encode_utf8(e.name()));
    let p = e.payload();
    let nlen = nf.len() as int;
    let plen = p.len() as int;
    let buf = rec_enc(e) + tail;
    let t8 = spec_u64_to_le_bytes(e.ts());
    assert(buf.take(8) =~= t8);
    assert(buf[8] == e.kind());
    assert(buf[9] == nf.len() as u8);
    assert((nf.len() as u8) as int == nlen);
    let rest = buf.skip(10);
    assert(rest.take(nlen) =~= nf);
    assert(rest.subrange(nlen, nlen + 4) =~= spec_u32_to_le_bytes(e.a()));
    assert(rest.subrange(nlen + 4, nlen + 8) =~= spec_u32_to_le_bytes(e.b()));
    assert(rest.subrange(nlen + 8, nlen + 12) =~= spec_u32_to_le_bytes(p.len() as u32));
    assert((p.len() as u32) as int == plen);
    assert(rest.subrange(nlen + 12, nlen + 12 + plen) =~= p);
    assert(lossy(nf) == e.name());
    match e {
        RecView::Output { .. } => {},
        RecView::Resize { cell_w, cell_h, .. } => {
            assert(p.take(4) =~= spec_u32_to_le_bytes(cell_w));
            assert(p.skip(4) =~= spec_u32_to_le_bytes(cell_h));
        },
    }
}

} // verus!
