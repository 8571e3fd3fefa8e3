//! Character and byte helpers shared by the protocol modules: building
//! strings from char sequences, decimal rendering of integers, ASCII case
//! folding and Unicode white space, all stated over `Seq<char>` / `Seq<u8>`.
use vstd::prelude::*;
use vstd::utf8::*;

verus! {

/// What `String::from_utf8_lossy` yields for the given bytes.
pub uninterp spec fn utf8_lossy(bytes: Seq<u8>) -> Seq<char>;

/// Lossy UTF-8 decoding: valid input decodes exactly (std documents that
/// valid UTF-8 comes back unchanged); for invalid input the result is named.
pub open spec fn lossy(bytes: Seq<u8>) -> Seq<char> {
    if valid_utf8(bytes) {
        decode_utf8(bytes)
    } else {
        utf8_lossy(bytes)
    }
}

/// `String::from_utf8_lossy(bytes).into_owned()`: claims the result is
/// `lossy(bytes)` — the exact decoding when the bytes are valid UTF-8, and
/// the name `utf8_lossy` of the bytes (replacement chars) otherwise.
#[verifier::external_body]
pub fn lossy_string(bytes: &[u8]) -> (s: String)
    ensures
        valid_utf8(bytes@) ==> s@ == decode_utf8(bytes@),
        !valid_utf8(bytes@) ==> s@ == utf8_lossy(bytes@),
{
    String::from_utf8_lossy(bytes).into_owned()
}

/// `String::push`: appends one char.
#[verifier::external_body]
pub fn string_push(s: &mut String, c: char)
    ensures
        final(s)@ == old(s)@.push(c),
{
    s.push(c);
}

/// The chars of a string slice, in order (`str::chars` collected).
#[verifier::external_body]
pub fn chars_of(s: &str) -> (v: Vec<char>)
    ensures
        v@ == s@,
{
    s.chars().collect()
}

/// Appends every char of `cs` to `out`.
pub fn push_chars(out: &mut String, cs: &[char])
    ensures
        final(out)@ == old(out)@ + cs@,
{
    let mut i: usize = 0;
    while i < cs.len()
        invariant
            i <= cs.len(),
            out@ == old(out)@ + cs@.take(i as int),
        decreases cs.len() - i,
    {
        string_push(out, cs[i]);
        i += 1;
        assert(cs@.take(i as int) =~= cs@.take(i - 1) + seq![cs@[i - 1]]);
    }
    assert(cs@.take(cs.len() as int) =~= cs@);
}

/// A fresh string holding exactly the given chars.
pub fn string_from_chars(cs: &[char]) -> (s: String)
    ensures
        s@ == cs@,
{
    let mut s = String::new();
    push_chars(&mut s, cs);
    s
}

/// Appends a string slice.
pub fn push_str(out: &mut String, s: &str)
    ensures
        final(out)@ == old(out)@ + s@,
{
    out.append(s);
}

/// Decimal digits of a natural number, most significant first, no leading zeros.
pub open spec fn dec(n: nat) -> Seq<char>
    decreases n,
{
    if n < 10 {
        seq![digit_char((n % 10) as nat)]
    } else {
        dec(n / 10).push(digit_char((n % 10) as nat))
    }
}

/// The ASCII digit for a value below ten.
pub open spec fn digit_char(d: nat) -> char {
    (('0' as u32) + d) as char
}

/// Signed decimal rendering (a leading '-' for negative values).
pub open spec fn dec_int(i: int) -> Seq<char> {
    if i < 0 {
        seq!['-'] + dec((-i) as nat)
    } else {
        dec(i as nat)
    }
}

fn digit(d: u64) -> (c: char)
    requires
        d < 10,
    ensures
        c == digit_char(d as nat),
{
    let chars: [char; 10] = ['0', '1', '2', '3', '4', '5', '6', '7', '8', '9'];
    let c = chars[d as usize];
    assert(c == digit_char(d as nat)) by {
        assert(('0' as u32) == 48);
        assert(chars[d as int] == (48 + d) as char) by {
            assert(('1' as u32) == 49);
        }
    }
    c
}

/// Appends the decimal rendering of `n`.
pub fn push_dec(out: &mut String, n: u64)
    ensures
        final(out)@ == old(out)@ + dec(n as nat),
    decreases n,
{
    if n < 10 {
        string_push(out, digit(n));
        assert(dec(n as nat) =~= seq![digit_char((n % 10) as nat)]);
    } else {
        push_dec(out, n / 10);
        string_push(out, digit(n % 10));
        assert(old(out)@ + dec((n / 10) as nat) + seq![digit_char((n % 10) as nat)]
            =~= old(out)@ + dec(n as nat));
    }
}

/// Appends the decimal rendering of a signed value.
pub fn push_dec_i64(out: &mut String, v: i64)
    ensures
        final(out)@ == old(out)@ + dec_int(v as int),
{
    if v < 0 {
        string_push(out, '-');
        let m: u64 = if v == i64::MIN {
            9223372036854775808u64
        } else {
            (-v) as u64
        };
        push_dec(out, m);
        assert(old(out)@.push('-') + dec(m as nat) =~= old(out)@ + dec_int(v as int));
    } else {
        push_dec(out, v as u64);
    }
}

/// Decimal rendering of a u128, written by splitting into u64 halves of the
/// base-10 expansion.
pub fn push_dec_u128(out: &mut String, n: u128)
    ensures
        final(out)@ == old(out)@ + dec(n as nat),
    decreases n,
{
    if n < 10 {
        string_push(out, digit(n as u64));
        assert(dec(n as nat) =~= seq![digit_char((n % 10) as nat)]);
    } else {
        push_dec_u128(out, n / 10);
        string_push(out, digit((n % 10) as u64));
        assert(old(out)@ + dec((n / 10) as nat) + seq![digit_char((n % 10) as nat)]
            =~= old(out)@ + dec(n as nat));
    }
}

/// `true` / `false` as Rust's `Display` writes them.
pub open spec fn bool_text(b: bool) -> Seq<char> {
    if b {
        seq!['t', 'r', 'u', 'e']
    } else {
        seq!['f', 'a', 'l', 's', 'e']
    }
}

pub fn push_bool(out: &mut String, b: bool)
    ensures
        final(out)@ == old(out)@ + bool_text(b),
{
    if b {
        push_chars(out, &['t', 'r', 'u', 'e']);
        assert(seq!['t', 'r', 'u', 'e'] =~= bool_text(b));
    } else {
        push_chars(out, &['f', 'a', 'l', 's', 'e']);
        assert(seq!['f', 'a', 'l', 's', 'e'] =~= bool_text(b));
    }
}

/// Unicode `White_Space` (what `char::is_whitespace` tests).
pub open spec fn is_ws(c: char) -> bool {
    let u = c as u32;
    (0x09 <= u <= 0x0D) || u == 0x20 || u == 0x85 || u == 0xA0 || u == 0x1680 || (0x2000 <= u
        <= 0x200A) || u == 0x2028 || u == 0x2029 || u == 0x202F || u == 0x205F || u == 0x3000
}

pub fn is_whitespace(c: char) -> (b: bool)
    ensures
        b == is_ws(c),
{
    let u = c as u32;
    (0x09 <= u && u <= 0x0D) || u == 0x20 || u == 0x85 || u == 0xA0 || u == 0x1680 || (0x2000
        <= u && u <= 0x200A) || u == 0x2028 || u == 0x2029 || u == 0x202F || u == 0x205F || u
        == 0x3000
}

/// Number of leading white-space chars.
pub open spec fn lead_ws(s: Seq<char>) -> nat
    decreases s.len(),
{
    if s.len() > 0 && is_ws(s[0]) {
        1 + lead_ws(s.drop_first())
    } else {
        0
    }
}

/// Number of trailing white-space chars.
pub open spec fn trail_ws(s: Seq<char>) -> nat
    decreases s.len(),
{
    if s.len() > 0 && is_ws(s.last()) {
        1 + trail_ws(s.drop_last())
    } else {
        0
    }
}

/// `str::trim_end`.
pub open spec fn trim_end(s: Seq<char>) -> Seq<char> {
    s.take(s.len() - trail_ws(s))
}

/// `str::trim_start`.
pub open spec fn trim_start(s: Seq<char>) -> Seq<char> {
    s.skip(lead_ws(s) as int)
}

/// `str::trim`.
pub open spec fn trim(s: Seq<char>) -> Seq<char> {
    trim_start(trim_end(s))
}

pub proof fn lemma_trail_ws_bound(s: Seq<char>)
    ensures
        trail_ws(s) <= s.len(),
        forall|i: int| s.len() - trail_ws(s) <= i < s.len() ==> is_ws(#[trigger] s[i]),
        trail_ws(s) < s.len() ==> !is_ws(s[s.len() - trail_ws(s) - 1]),
    decreases s.len(),
{
    if s.len() > 0 && is_ws(s.last()) {
        lemma_trail_ws_bound(s.drop_last());
        assert forall|i: int| s.len() - trail_ws(s) <= i < s.len() implies is_ws(#[trigger] s[i]) by {
            if i < s.len() - 1 {
                assert(s[i] == s.drop_last()[i]);
            }
        }
        if trail_ws(s) < s.len() {
            assert(s[s.len() - trail_ws(s) - 1] == s.drop_last()[s.len() - trail_ws(s) - 1]);
        }
    }
}

pub proof fn lemma_lead_ws_bound(s: Seq<char>)
    ensures
        lead_ws(s) <= s.len(),
        forall|i: int| 0 <= i < lead_ws(s) ==> is_ws(#[trigger] s[i]),
        lead_ws(s) < s.len() ==> !is_ws(s[lead_ws(s) as int]),
    decreases s.len(),
{
    if s.len() > 0 && is_ws(s[0]) {
        lemma_lead_ws_bound(s.drop_first());
        assert forall|i: int| 0 <= i < lead_ws(s) implies is_ws(#[trigger] s[i]) by {
            if i > 0 {
                assert(s[i] == s.drop_first()[i - 1]);
            }
        }
    }
}

/// Index just past the last non-white char of `s[..end]`.
pub fn trim_end_index(s: &[char], end: usize) -> (r: usize)
    requires
        end <= s.len(),
    ensures
        r <= end,
        r == end - trail_ws(s@.take(end as int)),
{
    let mut r = end;
    while r > 0 && is_whitespace(s[r - 1])
        invariant
            r <= end <= s.len(),
            trail_ws(s@.take(end as int)) == (end - r) + trail_ws(s@.take(r as int)),
        decreases r,
    {
        assert(s@.take(r as int).drop_last() =~= s@.take(r - 1));
        r -= 1;
    }
    r
}

/// Index of the first non-white char of `s[start..end]` (or `end`).
pub fn trim_start_index(s: &[char], start: usize, end: usize) -> (r: usize)
    requires
        start <= end <= s.len(),
    ensures
        start <= r <= end,
        r == start + lead_ws(s@.subrange(start as int, end as int)),
{
    let mut r = start;
    while r < end && is_whitespace(s[r])
        invariant
            start <= r <= end <= s.len(),
            lead_ws(s@.subrange(start as int, end as int)) == (r - start) + lead_ws(
                s@.subrange(r as int, end as int),
            ),
        decreases end - r,
    {
        assert(s@.subrange(r as int, end as int).drop_first() =~= s@.subrange(r + 1, end as int));
        r += 1;
    }
    r
}

/// A fresh copy of `s[from..to]` with surrounding white space removed.
pub fn trimmed(s: &[char], from: usize, to: usize) -> (v: Vec<char>)
    requires
        from <= to <= s.len(),
    ensures
        v@ == trim(s@.subrange(from as int, to as int)),
{
    let ghost w = s@.subrange(from as int, to as int);
    let e = trim_end_index(s, to);
    proof {
        lemma_trail_ws_bound(s@.take(to as int));
        lemma_trail_ws_bound(w);
        lemma_trail_ws_bound(s@.take(from as int));
    }
    let e1 = if e < from { from } else { e };
    proof {
        lemma_trail_ws_tail(s@.take(to as int), w);
        assert(w.take(e1 - from) =~= s@.subrange(from as int, e1 as int));
    }
    let st = trim_start_index(s, from, e1);
    let v = sub_vec(s, st, e1);
    assert(v@ =~= trim(w));
    v
}

/// Trailing white space of a string is that of any suffix holding it.
proof fn lemma_trail_ws_tail(s: Seq<char>, w: Seq<char>)
    requires
        w.len() <= s.len(),
        w =~= s.skip(s.len() - w.len()),
    ensures
        trail_ws(w) == if trail_ws(s) <= w.len() { trail_ws(s) } else { w.len() },
    decreases w.len(),
{
    if w.len() > 0 {
        assert(w.last() == s.last());
        if is_ws(s.last()) {
            assert(w.drop_last() =~= s.drop_last().skip(s.drop_last().len() - w.drop_last().len()));
            lemma_trail_ws_tail(s.drop_last(), w.drop_last());
        }
    }
}

/// ASCII lowercase of one char (`char::to_ascii_lowercase`).
pub open spec fn ascii_lower(c: char) -> char {
    if 'A' <= c <= 'Z' {
        ((c as u32) + 32) as char
    } else {
        c
    }
}

pub fn to_ascii_lower(c: char) -> (r: char)
    ensures
        r == ascii_lower(c),
{
    if 'A' <= c && c <= 'Z' {
        ((c as u8) + 32) as char
    } else {
        c
    }
}

/// Case-insensitive ASCII equality of two char sequences (`eq_ignore_ascii_case`).
pub open spec fn eq_ignore_case(a: Seq<char>, b: Seq<char>) -> bool {
    a.len() == b.len() && forall|i: int| 0 <= i < a.len() ==> ascii_lower(#[trigger] a[i])
        == ascii_lower(b[i])
}

pub fn eq_ignore_ascii_case(a: &[char], b: &[char]) -> (r: bool)
    ensures
        r == eq_ignore_case(a@, b@),
{
    if a.len() != b.len() {
        return false;
    }
    let mut i: usize = 0;
    while i < a.len()
        invariant
            a.len() == b.len(),
            i <= a.len(),
            forall|j: int| 0 <= j < i ==> ascii_lower(#[trigger] a@[j]) == ascii_lower(b@[j]),
        decreases a.len() - i,
    {
        if to_ascii_lower(a[i]) != to_ascii_lower(b[i]) {
            return false;
        }
        i += 1;
    }
    true
}

/// `true` when `a` starts with `p`.
pub fn starts_with(a: &[char], p: &[char]) -> (r: bool)
    ensures
        r == (p@.len() <= a@.len() && a@.take(p@.len() as int) == p@),
{
    if p.len() > a.len() {
        return false;
    }
    let mut i: usize = 0;
    while i < p.len()
        invariant
            p.len() <= a.len(),
            i <= p.len(),
            a@.take(i as int) == p@.take(i as int),
        decreases p.len() - i,
    {
        if a[i] != p[i] {
            assert(a@.take(p@.len() as int)[i as int] != p@[i as int]);
            return false;
        }
        i += 1;
        assert(a@.take(i as int) =~= p@.take(i as int));
    }
    assert(p@.take(p@.len() as int) =~= p@);
    true
}

/// Appends bytes `s[from..to]` to `out`.
pub fn extend_bytes(out: &mut Vec<u8>, s: &[u8], from: usize, to: usize)
    requires
        from <= to <= s.len(),
    ensures
        final(out)@ == old(out)@ + s@.subrange(from as int, to as int),
{
    let mut i = from;
    while i < to
        invariant
            from <= i <= to <= s.len(),
            out@ == old(out)@ + s@.subrange(from as int, i as int),
        decreases to - i,
    {
        out.push(s[i]);
        i += 1;
        assert(s@.subrange(from as int, i as int) =~= s@.subrange(from as int, i - 1).push(
            s@[i - 1],
        ));
    }
}

/// Copies `s[from..to]` into a fresh vector.
pub fn sub_vec<T: Copy>(s: &[T], from: usize, to: usize) -> (v: Vec<T>)
    requires
        from <= to <= s.len(),
    ensures
        v@ == s@.subrange(from as int, to as int),
{
    let mut v: Vec<T> = Vec::new();
    let mut i = from;
    while i < to
        invariant
            from <= i <= to <= s.len(),
            v@ == s@.subrange(from as int, i as int),
        decreases to - i,
    {
        v.push(s[i]);
        i += 1;
        assert(v@ =~= s@.subrange(from as int, i as int));
    }
    v
}

/// Value of a run of ASCII digits (no sign).
pub open spec fn digits_val(s: Seq<char>) -> nat
    decreases s.len(),
{
    if s.len() == 0 {
        0
    } else {
        digits_val(s.drop_last()) * 10 + ((s.last() as u32) - ('0' as u32)) as nat
    }
}

pub open spec fn is_digit(c: char) -> bool {
    '0' <= c <= '9'
}

pub open spec fn all_digits(s: Seq<char>) -> bool {
    forall|i: int| 0 <= i < s.len() ==> is_digit(#[trigger] s[i])
}

/// `str::parse::<u64>`: an optional '+', then one or more ASCII digits whose
/// value fits in u64.
pub open spec fn parse_u64_spec(s: Seq<char>) -> Option<u64> {
    let d = if s.len() > 0 && s[0] == '+' {
        s.drop_first()
    } else {
        s
    };
    if d.len() > 0 && all_digits(d) && digits_val(d) <= u64::MAX {
        Some(digits_val(d) as u64)
    } else {
        None
    }
}

/// Parses a decimal u64 as `str::parse::<u64>` does.
pub fn parse_u64(s: &[char]) -> (r: Option<u64>)
    ensures
        r == parse_u64_spec(s@),
{
    let start: usize = if s.len() > 0 && s[0] == '+' { 1 } else { 0 };
    let ghost d = if s@.len() > 0 && s@[0] == '+' { s@.drop_first() } else { s@ };
    assert(d =~= s@.skip(start as int));
    assert(parse_u64_spec(s@) == (if d.len() > 0 && all_digits(d) && digits_val(d) <= u64::MAX {
        Some(digits_val(d) as u64)
    } else {
        None::<u64>
    }));
    if start >= s.len() {
        return None;
    }
    let mut v: u64 = 0;
    let mut i = start;
    while i < s.len()
        invariant
            start <= i <= s.len(),
            d =~= s@.skip(start as int),
            all_digits(s@.subrange(start as int, i as int)),
            parse_u64_spec(s@) == (if d.len() > 0 && all_digits(d) && digits_val(d) <= u64::MAX {
                Some(digits_val(d) as u64)
            } else {
                None::<u64>
            }),
            v as nat == digits_val(s@.subrange(start as int, i as int)),
        decreases s.len() - i,
    {
        let c = s[i];
        if !('0' <= c && c <= '9') {
            assert(d[i - start] == c);
            assert(!is_digit(d[i - start]));
            assert(!all_digits(d));
            return None;
        }
        let dv = (c as u32 - '0' as u32) as u64;
        assert(s@.subrange(start as int, i + 1).drop_last() =~= s@.subrange(start as int, i as int));
        if v > (u64::MAX - dv) / 10 {
            proof {
                assert(s@.subrange(start as int, i + 1) =~= d.take((i - start) as int + 1));
                if all_digits(d) {
                    lemma_digits_val_prefix_mono(d, (i - start) as int + 1);
                }
                assert(digits_val(d.take((i - start) as int + 1)) == v * 10 + dv);
                assert(v * 10 + dv > u64::MAX) by (nonlinear_arith)
                    requires
                        v > (u64::MAX - dv) / 10,
                        dv < 10,
                ;
                assert(!(all_digits(d) && digits_val(d) <= u64::MAX));
            }
            return None;
        }
        v = v * 10 + dv;
        i += 1;
    }
    assert(s@.subrange(start as int, s.len() as int) =~= d);
    Some(v)
}

proof fn lemma_digits_val_prefix_mono(d: Seq<char>, k: int)
    requires
        0 <= k <= d.len(),
        all_digits(d),
    ensures
        digits_val(d.take(k)) <= digits_val(d),
    decreases d.len(),
{
    if k < d.len() {
        assert(d.drop_last().take(k) =~= d.take(k));
        assert forall|i: int| 0 <= i < d.drop_last().len() implies is_digit(#[trigger] d.drop_last()[i]) by {
            assert(d.drop_last()[i] == d[i]);
        }
        lemma_digits_val_prefix_mono(d.drop_last(), k);
    } else {
        assert(d.take(k) =~= d);
    }
}

/// Length of the leading run of non-white chars.
pub open spec fn word_len(s: Seq<char>) -> nat
    decreases s.len(),
{
    if s.len() > 0 && !is_ws(s[0]) {
        1 + word_len(s.drop_first())
    } else {
        0
    }
}

/// `str::split_whitespace`: the maximal runs of non-white chars, in order.
pub open spec fn words(s: Seq<char>) -> Seq<Seq<char>>
    decreases s.len(),
{
    let t = trim_start(s);
    if t.len() == 0 || lead_ws(s) > s.len() {
        Seq::empty()
    } else {
        let w = word_len(t);
        if w == 0 || w > t.len() {
            Seq::empty()
        } else {
            seq![t.take(w as int)] + words(t.skip(w as int))
        }
    }
}

proof fn lemma_word_len(s: Seq<char>)
    ensures
        word_len(s) <= s.len(),
        forall|i: int| 0 <= i < word_len(s) ==> !is_ws(#[trigger] s[i]),
        word_len(s) < s.len() ==> is_ws(s[word_len(s) as int]),
    decreases s.len(),
{
    if s.len() > 0 && !is_ws(s[0]) {
        lemma_word_len(s.drop_first());
        assert forall|i: int| 0 <= i < word_len(s) implies !is_ws(#[trigger] s[i]) by {
            if i > 0 {
                assert(s[i] == s.drop_first()[i - 1]);
            }
        }
    }
}

/// Splits on white space (`str::split_whitespace` collected).
pub fn split_words(s: &[char]) -> (v: Vec<Vec<char>>)
    ensures
        v@.map_values(|w: Vec<char>| w@) == words(s@),
{
    let mut v: Vec<Vec<char>> = Vec::new();
    let mut pos: usize = 0;
    assert(s@.skip(0) =~= s@);
    assert(v@.map_values(|w: Vec<char>| w@) + words(s@) =~= words(s@));
    loop
        invariant
            pos <= s.len(),
            words(s@) == v@.map_values(|w: Vec<char>| w@) + words(s@.skip(pos as int)),
        ensures
            words(s@) == v@.map_values(|w: Vec<char>| w@),
        decreases s.len() - pos,
    {
        let ghost cur = s@.skip(pos as int);
        let start = trim_start_index(s, pos, s.len());
        assert(s@.subrange(pos as int, s.len() as int) =~= cur);
        proof {
            lemma_lead_ws_bound(cur);
        }
        let ghost t = trim_start(cur);
        assert(t =~= s@.skip(start as int));
        if start == s.len() {
            assert(words(cur) =~= Seq::<Seq<char>>::empty());
            assert(v@.map_values(|w: Vec<char>| w@) + Seq::<Seq<char>>::empty() =~= v@.map_values(|w: Vec<char>| w@));
            break;
        }
        let mut e = start;
        while e < s.len() && !is_whitespace(s[e])
            invariant
                start <= e <= s.len(),
                forall|i: int| start <= i < e ==> !is_ws(#[trigger] s@[i]),
            decreases s.len() - e,
        {
            e += 1;
        }
        proof {
            lemma_word_len(t);
            assert(word_len(t) == e - start) by {
                if word_len(t) < e - start {
                    assert(t[word_len(t) as int] == s@[start + word_len(t)]);
                } else if word_len(t) > e - start {
                    assert(t[e - start] == s@[e as int]);
                }
            }
        }
        let w = sub_vec(s, start, e);
        let ghost old_v = v@.map_values(|w: Vec<char>| w@);
        assert(t.take((e - start) as int) =~= s@.subrange(start as int, e as int));
        assert(w@ == t.take((e - start) as int));
        v.push(w);
        assert(v@.map_values(|w: Vec<char>| w@) =~= old_v.push(t.take((e - start) as int)));
        assert(t.skip((e - start) as int) =~= s@.skip(e as int));
        assert(words(cur) == seq![t.take((e - start) as int)] + words(s@.skip(e as int)));
        assert(v@.map_values(|w: Vec<char>| w@) + words(s@.skip(e as int)) =~= old_v + words(cur));
        pos = e;
    }
    v
}

/// `str::lines`: pieces between '\n'; a trailing '\r' is dropped from a
/// piece that ended at a '\n'; no final empty piece.
pub open spec fn lines(s: Seq<char>) -> Seq<Seq<char>>
    decreases s.len(),
{
    if s.len() == 0 {
        Seq::empty()
    } else {
        let i = idx_of(s, '\n');
        if i >= s.len() {
            seq![s]
        } else {
            let piece = s.take(i as int);
            let line = if piece.len() > 0 && piece.last() == '\r' {
                piece.drop_last()
            } else {
                piece
            };
            seq![line] + lines(s.skip(i as int + 1))
        }
    }
}

/// Index of the first occurrence of `c` (the length when absent).
pub open spec fn idx_of(s: Seq<char>, c: char) -> nat
    decreases s.len(),
{
    if s.len() == 0 {
        0
    } else if s[0] == c {
        0
    } else {
        1 + idx_of(s.drop_first(), c)
    }
}

pub proof fn lemma_idx_of(s: Seq<char>, c: char)
    ensures
        idx_of(s, c) <= s.len(),
        forall|j: int| 0 <= j < idx_of(s, c) ==> s[j] != c,
        idx_of(s, c) < s.len() ==> s[idx_of(s, c) as int] == c,
    decreases s.len(),
{
    if s.len() > 0 && s[0] != c {
        lemma_idx_of(s.drop_first(), c);
        assert forall|j: int| 0 <= j < idx_of(s, c) implies s[j] != c by {
            if j > 0 {
                assert(s[j] == s.drop_first()[j - 1]);
            }
        }
    }
}

/// Index of the first `c` in `s[from..]` (or `s.len()` when absent).
pub fn find_char(s: &[char], from: usize, c: char) -> (r: usize)
    requires
        from <= s.len(),
    ensures
        from <= r <= s.len(),
        r - from == idx_of(s@.skip(from as int), c),
{
    let mut i = from;
    assert(s@.skip(from as int) =~= s@.skip(i as int));
    while i < s.len() && s[i] != c
        invariant
            from <= i <= s.len(),
            idx_of(s@.skip(from as int), c) == (i - from) + idx_of(s@.skip(i as int), c),
        decreases s.len() - i,
    {
        assert(s@.skip(i as int).drop_first() =~= s@.skip(i + 1));
        i += 1;
    }
    i
}

fn line_piece(s: &[char], pos: usize) -> (r: (Vec<char>, usize))
    requires
        pos < s.len(),
    ensures
        pos < r.1 <= s.len(),
        lines(s@.skip(pos as int)) == seq![r.0@] + lines(s@.skip(r.1 as int)),
{
    let ghost cur = s@.skip(pos as int);
    let i = find_char(s, pos, '\n');
    if i == s.len() {
        let w = sub_vec(s, pos, s.len());
        assert(w@ =~= cur);
        assert(s@.skip(s.len() as int) =~= Seq::<char>::empty());
        assert(lines(Seq::<char>::empty()) =~= Seq::<Seq<char>>::empty());
        assert(seq![cur] + Seq::<Seq<char>>::empty() =~= seq![cur]);
        (w, s.len())
    } else {
        let end = if i > pos && s[i - 1] == '\r' { i - 1 } else { i };
        let w = sub_vec(s, pos, end);
        proof {
            assert(cur.skip(i - pos + 1) =~= s@.skip(i + 1));
            let piece = cur.take(i - pos);
            if i > pos && s@[i - 1] == '\r' {
                assert(piece.drop_last() =~= w@);
            } else {
                assert(piece =~= w@);
            }
        }
        (w, i + 1)
    }
}

/// Splits into lines as `str::lines` does.
pub fn split_lines(s: &[char]) -> (v: Vec<Vec<char>>)
    ensures
        v@.map_values(|w: Vec<char>| w@) == lines(s@),
{
    let mut v: Vec<Vec<char>> = Vec::new();
    let mut pos: usize = 0;
    assert(s@.skip(0) =~= s@);
    assert(v@.map_values(|w: Vec<char>| w@) + lines(s@) =~= lines(s@));
    while pos < s.len()
        invariant
            pos <= s.len(),
            lines(s@) == v@.map_values(|w: Vec<char>| w@) + lines(s@.skip(pos as int)),
        decreases s.len() - pos,
    {
        let ghost old_v = v@.map_values(|w: Vec<char>| w@);
        let (w, next) = line_piece(s, pos);
        let ghost wv = w@;
        v.push(w);
        assert(v@.map_values(|w: Vec<char>| w@) =~= old_v.push(wv));
        assert(v@.map_values(|w: Vec<char>| w@) + lines(s@.skip(next as int)) =~= old_v + lines(
            s@.skip(pos as int),
        ));
        pos = next;
    }
    assert(s@.skip(pos as int) =~= Seq::<char>::empty());
    assert(lines(Seq::<char>::empty()) =~= Seq::<Seq<char>>::empty());
    assert(v@.map_values(|w: Vec<char>| w@) + Seq::<Seq<char>>::empty() =~= v@.map_values(|w: Vec<char>| w@));
    v
}

/// `<str as PartialEq>::eq`: true exactly when the two slices hold the same chars.
#[verifier::external_body]
pub fn str_eq(a: &str, b: &str) -> (r: bool)
    ensures
        r == (a@ == b@),
{
    a == b
}

/// Index of the last occurrence of `c` (-1 when absent).
pub open spec fn last_idx_of(s: Seq<char>, c: char) -> int
    decreases s.len(),
{
    if s.len() == 0 {
        -1
    } else if s.last() == c {
        s.len() - 1
    } else {
        last_idx_of(s.drop_last(), c)
    }
}

pub fn rfind_char(s: &[char], c: char) -> (r: Option<usize>)
    ensures
        match r {
            Some(i) => i < s.len() && last_idx_of(s@, c) == i,
            None => last_idx_of(s@, c) == -1,
        },
{
    let mut i = s.len();
    assert(s@.take(i as int) =~= s@);
    while i > 0 && s[i - 1] != c
        invariant
            i <= s.len(),
            last_idx_of(s@, c) == last_idx_of(s@.take(i as int), c),
        decreases i,
    {
        assert(s@.take(i as int).drop_last() =~= s@.take(i - 1));
        i -= 1;
    }
    if i == 0 {
        assert(s@.take(0) =~= Seq::<char>::empty());
        None
    } else {
        Some(i - 1)
    }
}

/// `s` holds `p` as a contiguous run.
pub open spec fn contains_seq(s: Seq<char>, p: Seq<char>) -> bool {
    exists|i: int| 0 <= i && i + p.len() <= s.len() && #[trigger] s.subrange(i, i + p.len()) == p
}

pub fn contains_chars(s: &[char], p: &[char]) -> (r: bool)
    ensures
        r == contains_seq(s@, p@),
{
    if p.len() > s.len() {
        return false;
    }
    let mut i: usize = 0;
    let last = s.len() - p.len();
    while i <= last
        invariant
            p.len() <= s.len(),
            last == s.len() - p.len(),
            i <= last + 1,
            forall|k: int| 0 <= k < i ==> #[trigger] s@.subrange(k, k + p@.len()) != p@,
        decreases s.len() - i,
    {
        let mut j: usize = 0;
        let mut same = true;
        while j < p.len()
            invariant
                i + p.len() <= s.len(),
                j <= p.len(),
                same == forall|m: int| 0 <= m < j ==> s@[i + m] == p@[m],
            decreases p.len() - j,
        {
            if s[i + j] != p[j] {
                same = false;
            }
            j += 1;
        }
        if same {
            assert(s@.subrange(i as int, i + p@.len()) =~= p@);
            return true;
        }
        assert(exists|m: int| 0 <= m < p.len() && s@[i + m] != p@[m]);
        assert(s@.subrange(i as int, i + p@.len()) != p@) by {
            let m = choose|m: int| 0 <= m < p.len() && s@[i + m] != p@[m];
            assert(s@.subrange(i as int, i + p@.len())[m] != p@[m]);
        }
        i += 1;
    }
    assert forall|k: int| 0 <= k && k + p@.len() <= s@.len() implies #[trigger] s@.subrange(k, k + p@.len()) != p@ by {
        assert(k < i);
    }
    false
}

} // verus!
