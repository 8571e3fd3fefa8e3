//! Signal-level crash lines, formatted into a fixed caller buffer without
//! allocating (they are written from a signal handler). Output that does
//! not fit is cut at the end of the buffer.
use vstd::prelude::*;
use crate::text::{chars_of, split_lines, lines, idx_of, lemma_idx_of, find_char, contains_seq, contains_chars};
use crate::http1::{parse_hex, parse_hex_spec};

verus! {

/// `data` written into `b` from index `n` on, cut at the end of `b`.
pub open spec fn put(b: Seq<u8>, n: nat, data: Seq<u8>) -> Seq<u8> {
    Seq::new(b.len(), |i: int| if n <= i < n + data.len() { data[i - n] } else { b[i] })
}

/// Where the write position ends up.
pub open spec fn put_end(blen: nat, n: nat, dlen: nat) -> nat {
    if n + dlen <= blen {
        n + dlen
    } else {
        blen
    }
}

/// Lowercase hex digit.
pub open spec fn hex_char(d: nat) -> u8 {
    if d < 10 {
        (48 + d) as u8
    } else {
        (97 + d - 10) as u8
    }
}

/// Lowercase hex digits, most significant first, no leading zeros.
pub open spec fn hex_seq(v: nat) -> Seq<u8>
    decreases v,
{
    if v < 16 {
        seq![hex_char(v)]
    } else {
        hex_seq(v / 16).push(hex_char(v % 16))
    }
}

/// Decimal digits, most significant first, no leading zeros.
pub open spec fn dec_seq(v: nat) -> Seq<u8>
    decreases v,
{
    if v < 10 {
        seq![(48 + v) as u8]
    } else {
        dec_seq(v / 10).push((48 + v % 10) as u8)
    }
}

/// `SIGNAL sig=<|sig| decimal> addr=0x<addr hex>\n`.
pub open spec fn signal_line(sig: i32, addr: usize) -> Seq<u8> {
    let a = if sig < 0 {
        -sig
    } else {
        sig as int
    };
    seq![83u8, 73, 71, 78, 65, 76, 32, 115, 105, 103, 61] + dec_seq(a as nat) + seq![
        32u8,
        97,
        100,
        100,
        114,
        61,
        48,
        120,
    ] + hex_seq(addr as nat) + seq![10u8]
}

/// `PC pc=0x<pc> in=libkfm_na off=0x<pc - base>\n` when `pc` lies in
/// `[base, end)` with `base` set; otherwise `PC pc=0x<pc> in=foreign\n`.
pub open spec fn pc_line(pc: usize, base: usize, end: usize) -> Seq<u8> {
    let head = seq![80u8, 67, 32, 112, 99, 61, 48, 120] + hex_seq(pc as nat);
    if base != 0 && pc >= base && pc < end {
        head + " in=libkfm_na off=0x"@.map_values(|c: char| c as u8) + hex_seq((pc - base) as nat)
            + seq![10u8]
    } else {
        head + " in=foreign"@.map_values(|c: char| c as u8) + seq![10u8]
    }
}

proof fn lemma_put_then(b: Seq<u8>, n: nat, d1: Seq<u8>, d2: Seq<u8>)
    requires
        n <= b.len(),
    ensures
        put(put(b, n, d1), put_end(b.len(), n, d1.len()), d2) == put(b, n, d1 + d2),
        put_end(b.len(), put_end(b.len(), n, d1.len()), d2.len()) == put_end(
            b.len(),
            n,
            (d1 + d2).len(),
        ),
{
    assert(put(put(b, n, d1), put_end(b.len(), n, d1.len()), d2) =~= put(b, n, d1 + d2));
}

/// Writes one byte at `*n` if it fits.
fn push_byte(x: u8, buf: &mut [u8], n: &mut usize)
    requires
        *old(n) <= old(buf)@.len(),
    ensures
        final(buf)@ == put(old(buf)@, *old(n) as nat, seq![x]),
        *final(n) == put_end(old(buf)@.len(), *old(n) as nat, 1),
{
    if *n < buf.len() {
        buf[*n] = x;
        *n = *n + 1;
    }
    assert(buf@ =~= put(old(buf)@, *old(n) as nat, seq![x]));
}

fn push_bytes(bytes: &[u8], buf: &mut [u8], n: &mut usize)
    requires
        *old(n) <= old(buf)@.len(),
    ensures
        final(buf)@ == put(old(buf)@, *old(n) as nat, bytes@),
        *final(n) == put_end(old(buf)@.len(), *old(n) as nat, bytes@.len()),
{
    let mut i: usize = 0;
    assert(old(buf)@ =~= put(old(buf)@, *old(n) as nat, bytes@.take(0)));
    while i < bytes.len()
        invariant
            i <= bytes@.len(),
            *old(n) <= old(buf)@.len(),
            buf@.len() == old(buf)@.len(),
            *n <= buf@.len(),
            buf@ == put(old(buf)@, *old(n) as nat, bytes@.take(i as int)),
            *n == put_end(old(buf)@.len(), *old(n) as nat, i as nat),
        decreases bytes.len() - i,
    {
        proof {
            lemma_put_then(old(buf)@, *old(n) as nat, bytes@.take(i as int), seq![bytes@[i as int]]);
            assert(bytes@.take(i as int) + seq![bytes@[i as int]] =~= bytes@.take(i + 1));
        }
        push_byte(bytes[i], buf, n);
        i += 1;
    }
    assert(bytes@.take(i as int) =~= bytes@);
}

fn hex_digit_byte(d: usize) -> (x: u8)
    requires
        d < 16,
    ensures
        x == hex_char(d as nat),
{
    if d < 10 {
        (48 + d) as u8
    } else {
        (97 + d - 10) as u8
    }
}

/// Hex digits of `v`, written at `*n`.
fn push_hex(v: usize, buf: &mut [u8], n: &mut usize)
    requires
        *old(n) <= old(buf)@.len(),
    ensures
        final(buf)@ == put(old(buf)@, *old(n) as nat, hex_seq(v as nat)),
        *final(n) == put_end(old(buf)@.len(), *old(n) as nat, hex_seq(v as nat).len()),
    decreases v,
{
    if v >= 16 {
        push_hex(v / 16, buf, n);
        proof {
            lemma_put_then(
                old(buf)@,
                *old(n) as nat,
                hex_seq((v / 16) as nat),
                seq![hex_char((v % 16) as nat)],
            );
        }
        push_byte(hex_digit_byte(v % 16), buf, n);
    } else {
        push_byte(hex_digit_byte(v), buf, n);
    }
}

/// Decimal digits of `v`, written at `*n`.
fn push_dec_bytes(v: u32, buf: &mut [u8], n: &mut usize)
    requires
        *old(n) <= old(buf)@.len(),
    ensures
        final(buf)@ == put(old(buf)@, *old(n) as nat, dec_seq(v as nat)),
        *final(n) == put_end(old(buf)@.len(), *old(n) as nat, dec_seq(v as nat).len()),
    decreases v,
{
    if v >= 10 {
        push_dec_bytes(v / 10, buf, n);
        proof {
            lemma_put_then(
                old(buf)@,
                *old(n) as nat,
                dec_seq((v / 10) as nat),
                seq![(48 + v % 10) as u8],
            );
        }
        push_byte((48 + v % 10) as u8, buf, n);
    } else {
        push_byte((48 + v) as u8, buf, n);
    }
}

/// The crash line `SIGNAL sig=11 addr=0xdeadbeef\n` (see `signal_line`),
/// written from the start of `buf`; returns how many bytes were written.
pub fn format_signal_line(sig: i32, addr: usize, buf: &mut [u8]) -> (n: usize)
    ensures
        final(buf)@ == put(old(buf)@, 0, signal_line(sig, addr)),
        n == put_end(old(buf)@.len(), 0, signal_line(sig, addr).len()),
{
    let mut n: usize = 0;
    let ghost b0 = buf@;
    let p1: [u8; 11] = [83u8, 73, 71, 78, 65, 76, 32, 115, 105, 103, 61];
    assert(p1@ =~= seq![83u8, 73, 71, 78, 65, 76, 32, 115, 105, 103, 61]);
    push_bytes(&p1, buf, &mut n);
    let a: u32 = if sig < 0 {
        if sig == i32::MIN {
            2147483648u32
        } else {
            (-sig) as u32
        }
    } else {
        sig as u32
    };
    let ghost b1 = buf@;
    let ghost n1 = n;
    push_dec_bytes(a, buf, &mut n);
    proof {
        lemma_put_then(b0, 0, p1@, dec_seq(a as nat));
    }
    let p2: [u8; 8] = [32u8, 97, 100, 100, 114, 61, 48, 120];
    assert(p2@ =~= seq![32u8, 97, 100, 100, 114, 61, 48, 120]);
    push_bytes(&p2, buf, &mut n);
    proof {
        lemma_put_then(b0, 0, p1@ + dec_seq(a as nat), p2@);
    }
    push_hex(addr, buf, &mut n);
    proof {
        lemma_put_then(b0, 0, p1@ + dec_seq(a as nat) + p2@, hex_seq(addr as nat));
    }
    push_byte(10u8, buf, &mut n);
    proof {
        lemma_put_then(b0, 0, p1@ + dec_seq(a as nat) + p2@ + hex_seq(addr as nat), seq![10u8]);
        assert(p1@ + dec_seq(a as nat) + p2@ + hex_seq(addr as nat) + seq![10u8] =~= signal_line(
            sig,
            addr,
        ));
    }
    n
}

/// The program-counter line (see `pc_line`), written from the start of
/// `buf`; returns how many bytes were written. Unresolved bounds (base 0)
/// report `foreign`.
pub fn format_pc_line(pc: usize, base: usize, end: usize, buf: &mut [u8]) -> (n: usize)
    ensures
        final(buf)@ == put(old(buf)@, 0, pc_line(pc, base, end)),
        n == put_end(old(buf)@.len(), 0, pc_line(pc, base, end).len()),
{
    let mut n: usize = 0;
    let ghost b0 = buf@;
    let p1: [u8; 8] = [80u8, 67, 32, 112, 99, 61, 48, 120];
    assert(p1@ =~= seq![80u8, 67, 32, 112, 99, 61, 48, 120]);
    push_bytes(&p1, buf, &mut n);
    push_hex(pc, buf, &mut n);
    proof {
        lemma_put_then(b0, 0, p1@, hex_seq(pc as nat));
    }
    let ghost head = p1@ + hex_seq(pc as nat);
    if base != 0 && pc >= base && pc < end {
        let p2: [u8; 20] = [
            32u8, 105, 110, 61, 108, 105, 98, 107, 102, 109, 95, 110, 97, 32, 111, 102, 102, 61,
            48, 120,
        ];
        proof {
            reveal_strlit(" in=libkfm_na off=0x");
        }
        assert(p2@ =~= " in=libkfm_na off=0x"@.map_values(|c: char| c as u8));
        push_bytes(&p2, buf, &mut n);
        proof {
            lemma_put_then(b0, 0, head, p2@);
        }
        push_hex(pc - base, buf, &mut n);
        proof {
            lemma_put_then(b0, 0, head + p2@, hex_seq((pc - base) as nat));
        }
        push_byte(10u8, buf, &mut n);
        proof {
            lemma_put_then(b0, 0, head + p2@ + hex_seq((pc - base) as nat), seq![10u8]);
            assert(head + p2@ + hex_seq((pc - base) as nat) + seq![10u8] =~= pc_line(pc, base, end));
        }
    } else {
        let p2: [u8; 11] = [32u8, 105, 110, 61, 102, 111, 114, 101, 105, 103, 110];
        proof {
            reveal_strlit(" in=foreign");
        }
        assert(p2@ =~= " in=foreign"@.map_values(|c: char| c as u8));
        push_bytes(&p2, buf, &mut n);
        proof {
            lemma_put_then(b0, 0, head, p2@);
        }
        push_byte(10u8, buf, &mut n);
        proof {
            lemma_put_then(b0, 0, head + p2@, seq![10u8]);
            assert(head + p2@ + seq![10u8] =~= pc_line(pc, base, end));
        }
    }
    n
}


// ---------------------------------------------------------------------------
// The library's own mapping, read off `/proc/self/maps` when the hook is
// installed: the PC line reports offsets inside it.
// ---------------------------------------------------------------------------

/// The file name whose mappings are looked up.
pub open spec fn lib_file() -> Seq<char> {
    seq!['l', 'i', 'b', 'k', 'f', 'm', '_', 'n', 'a', '.', 's', 'o']
}

/// The address range of one maps line: the text before its first ' ',
/// split at its first '-', both halves read as `usize::from_str_radix(_, 16)`.
pub open spec fn maps_line_range(line: Seq<char>) -> Option<(usize, usize)> {
    let sp = idx_of(line, ' ');
    if sp >= line.len() {
        None
    } else {
        let rng = line.take(sp as int);
        let dash = idx_of(rng, '-');
        if dash >= rng.len() {
            None
        } else {
            match (parse_hex_spec(rng.take(dash as int)), parse_hex_spec(rng.skip(dash as int + 1))) {
                (Some(a), Some(b)) => if a <= usize::MAX && b <= usize::MAX {
                    Some((a as usize, b as usize))
                } else {
                    None
                },
                _ => None,
            }
        }
    }
}

/// Lowest start and highest end over the lines naming the library whose
/// range reads; starts from `(usize::MAX, 0)`.
pub open spec fn so_fold(ls: Seq<Seq<char>>) -> (usize, usize)
    decreases ls.len(),
{
    if ls.len() == 0 {
        (usize::MAX, 0)
    } else {
        let (lo, hi) = so_fold(ls.drop_last());
        let l = ls.last();
        if contains_seq(l, lib_file()) {
            match maps_line_range(l) {
                Some((a, b)) => (if a < lo { a } else { lo }, if b > hi { b } else { hi }),
                None => (lo, hi),
            }
        } else {
            (lo, hi)
        }
    }
}

/// The library's mapped range in a maps listing, when one was found and
/// it is not empty.
pub open spec fn so_range_spec(maps: Seq<char>) -> Option<(usize, usize)> {
    let (lo, hi) = so_fold(lines(maps));
    if lo != usize::MAX && hi > lo {
        Some((lo, hi))
    } else {
        None
    }
}

fn line_range(line: &[char]) -> (r: Option<(usize, usize)>)
    ensures
        r == maps_line_range(line@),
{
    proof {
        lemma_idx_of(line@, ' ');
    }
    let sp = find_char(line, 0, ' ');
    assert(line@.skip(0) =~= line@);
    if sp >= line.len() {
        return None;
    }
    let ghost rng = line@.take(sp as int);
    proof {
        lemma_idx_of(rng, '-');
        assert(rng.skip(0) =~= rng);
        assert forall|j: int| 0 <= j < idx_of(rng, '-') implies line@[j] != '-' by {
            assert(rng[j] == line@[j]);
        }
    }
    let mut dash: usize = 0;
    while dash < sp && line[dash] != '-'
        invariant
            dash <= sp < line@.len(),
            rng == line@.take(sp as int),
            idx_of(rng, '-') <= rng.len(),
            forall|j: int| 0 <= j < idx_of(rng, '-') ==> line@[j] != '-',
            idx_of(rng, '-') < rng.len() ==> rng[idx_of(rng, '-') as int] == '-',
            dash <= idx_of(rng, '-'),
        decreases sp - dash,
    {
        dash += 1;
    }
    assert(dash == idx_of(rng, '-')) by {
        if dash < sp {
            assert(rng[dash as int] == line@[dash as int]);
        }
    }
    if dash >= sp {
        return None;
    }
    let a_cs = crate::text::sub_vec(line, 0, dash);
    let b_cs = crate::text::sub_vec(line, dash + 1, sp);
    assert(a_cs@ =~= rng.take(dash as int));
    assert(b_cs@ =~= rng.skip(dash as int + 1));
    match (parse_hex(a_cs.as_slice()), parse_hex(b_cs.as_slice())) {
        (Some(a), Some(b)) => {
            if a <= usize::MAX as u64 && b <= usize::MAX as u64 {
                Some((a as usize, b as usize))
            } else {
                None
            }
        },
        _ => None,
    }
}

/// Finds the library's mapped range in a `/proc/self/maps` listing (see
/// `so_range_spec`); `None` leaves PC lines reporting `foreign`.
pub fn so_range(maps: &str) -> (r: Option<(usize, usize)>)
    ensures
        r == so_range_spec(maps@),
{
    let cs = chars_of(maps);
    let ls = split_lines(cs.as_slice());
    let ghost lv = ls@.map_values(|w: Vec<char>| w@);
    let pat: [char; 12] = ['l', 'i', 'b', 'k', 'f', 'm', '_', 'n', 'a', '.', 's', 'o'];
    assert(pat@ =~= lib_file());
    let mut lo: usize = usize::MAX;
    let mut hi: usize = 0;
    let mut i: usize = 0;
    assert(lv.take(0) =~= Seq::<Seq<char>>::empty());
    while i < ls.len()
        invariant
            i <= ls@.len(),
            lv == ls@.map_values(|w: Vec<char>| w@),
            lv == lines(maps@),
            pat@ == lib_file(),
            (lo, hi) == so_fold(lv.take(i as int)),
        decreases ls.len() - i,
    {
        let line = ls[i].as_slice();
        assert(lv.take(i + 1).drop_last() =~= lv.take(i as int));
        assert(lv.take(i + 1).last() == line@);
        if contains_chars(line, &pat) {
            match line_range(line) {
                Some((a, b)) => {
                    if a < lo {
                        lo = a;
                    }
                    if b > hi {
                        hi = b;
                    }
                },
                None => {},
            }
        }
        i += 1;
    }
    assert(lv.take(i as int) =~= lv);
    if lo != usize::MAX && hi > lo {
        Some((lo, hi))
    } else {
        None
    }
}

} // verus!
