//! Hand-written HTTP/1.1 client core (the direct-API brain's transport), in
//! sans-IO form: request serialization, response head parsing, and the body
//! framing state machine (chunked / content-length / until-EOF) driven by a
//! byte buffer that the caller refills from its socket.
use vstd::prelude::*;
use vstd::utf8::encode_utf8;
use crate::text::{
    idx_of, find_char, contains_seq, contains_chars, trimmed, string_from_chars, push_str, push_dec, chars_of, eq_ignore_case, eq_ignore_ascii_case, extend_bytes, sub_vec,
    lossy_string, lossy, split_words, words, parse_u64, parse_u64_spec, trim, trim_end_index,
    trim_start_index, dec, ascii_lower, to_ascii_lower, is_ws, lead_ws, trail_ws, trim_end, trim_start,
};

verus! {

broadcast use vstd::seq_lib::group_seq_properties;

/// An outgoing request.
#[derive(Debug, Clone)]
pub struct Request {
    pub method: String,
    pub path: String,
    pub headers: Vec<(String, String)>,
    pub body: Vec<u8>,
}

/// The header lines as written (`name: value\r\n` each).
pub open spec fn header_text(hs: Seq<(String, String)>) -> Seq<char>
    decreases hs.len(),
{
    if hs.len() == 0 {
        Seq::empty()
    } else {
        header_text(hs.drop_last()) + hs.last().0@ + ": "@ + hs.last().1@ + "\r\n"@
    }
}

/// Some header is named Content-Length (ASCII case ignored).
pub open spec fn has_content_length(hs: Seq<(String, String)>) -> bool {
    exists|i: int| 0 <= i < hs.len() && eq_ignore_case(#[trigger] hs[i].0@, "content-length"@)
}

/// The request head text: request line, headers, a Content-Length line
/// when the caller gave none, and the blank line.
pub open spec fn request_head(req: Request) -> Seq<char> {
    req.method@ + " "@ + req.path@ + " HTTP/1.1\r\n"@ + header_text(req.headers@) + (if has_content_length(req.headers@) {
        Seq::empty()
    } else {
        "Content-Length: "@ + dec(req.body@.len()) + "\r\n"@
    }) + "\r\n"@
}

/// Wire bytes of a request: the UTF-8 head followed by the body.
pub open spec fn request_bytes(req: Request) -> Seq<u8> {
    encode_utf8(request_head(req)) + req.body@
}

/// Serializes a request. A Content-Length header is added when the caller
/// gave none (otherwise the peer may wait for a body); Host is not added.
pub fn serialize_request(req: &Request) -> (out: Vec<u8>)
    ensures
        out@ == request_bytes(*req),
{
    let mut s = String::new();
    push_str(&mut s, req.method.as_str());
    push_str(&mut s, " ");
    push_str(&mut s, req.path.as_str());
    push_str(&mut s, " HTTP/1.1\r\n");
    let ghost s0 = s@;
    let cl = chars_of("content-length");
    let mut has_len = false;
    let mut i: usize = 0;
    while i < req.headers.len()
        invariant
            i <= req.headers@.len(),
            cl@ == "content-length"@,
            s@ == s0 + header_text(req.headers@.take(i as int)),
            has_len == exists|j: int| 0 <= j < i && eq_ignore_case(#[trigger] req.headers@[j].0@, "content-length"@),
        decreases req.headers.len() - i,
    {
        let k = chars_of(req.headers[i].0.as_str());
        if eq_ignore_ascii_case(k.as_slice(), cl.as_slice()) {
            has_len = true;
        }
        push_str(&mut s, req.headers[i].0.as_str());
        push_str(&mut s, ": ");
        push_str(&mut s, req.headers[i].1.as_str());
        push_str(&mut s, "\r\n");
        assert(req.headers@.take(i + 1).drop_last() =~= req.headers@.take(i as int));
        i += 1;
    }
    assert(req.headers@.take(req.headers.len() as int) =~= req.headers@);
    let ghost s1 = s@;
    if !has_len {
        push_str(&mut s, "Content-Length: ");
        push_dec(&mut s, req.body.len() as u64);
        push_str(&mut s, "\r\n");
    }
    push_str(&mut s, "\r\n");
    assert(s@ =~= request_head(*req));
    let hb = s.as_str().as_bytes();
    let mut out: Vec<u8> = Vec::new();
    extend_bytes(&mut out, hb, 0, hb.len());
    extend_bytes(&mut out, req.body.as_slice(), 0, req.body.len());
    assert(out@ =~= request_bytes(*req));
    out
}

/// A parsed response head.
#[derive(Debug, Clone)]
pub struct Head {
    pub status: u16,
    pub headers: Vec<(String, String)>,
}

/// How the body is framed.
#[derive(Debug, Clone, Copy, PartialEq, Eq)]
pub enum BodyKind {
    Chunked,
    Len(u64),
    /// No length information: read until the connection closes.
    Eof,
}

/// Index of the first header named `name` (ASCII case ignored), or the count.
pub open spec fn header_index(hs: Seq<(String, String)>, name: Seq<char>) -> nat
    decreases hs.len(),
{
    if hs.len() == 0 {
        0
    } else if eq_ignore_case(hs[0].0@, name) {
        0
    } else {
        1 + header_index(hs.drop_first(), name)
    }
}

/// Value of the first header named `name`.
pub open spec fn header_spec(hs: Seq<(String, String)>, name: Seq<char>) -> Option<Seq<char>> {
    let i = header_index(hs, name);
    if i < hs.len() {
        Some(hs[i as int].1@)
    } else {
        None
    }
}

/// Body framing from the head: Transfer-Encoding mentioning "chunked"
/// (ASCII case ignored) wins; otherwise a Content-Length that parses as u64
/// (surrounding white space ignored); otherwise until EOF.
pub open spec fn body_kind_spec(hs: Seq<(String, String)>) -> BodyKind {
    match header_spec(hs, "transfer-encoding"@) {
        Some(te) if contains_seq(te.map_values(|c: char| ascii_lower(c)), "chunked"@) => BodyKind::Chunked,
        _ => match header_spec(hs, "content-length"@) {
            Some(cl) => match parse_u64_spec(trim(cl)) {
                Some(n) => BodyKind::Len(n),
                None => BodyKind::Eof,
            },
            None => BodyKind::Eof,
        },
    }
}

fn lower_chars(s: &str) -> (v: Vec<char>)
    ensures
        v@ == s@.map_values(|c: char| ascii_lower(c)),
{
    let cs = chars_of(s);
    let mut v: Vec<char> = Vec::new();
    let mut i: usize = 0;
    while i < cs.len()
        invariant
            i <= cs.len(),
            cs@ == s@,
            v@ == cs@.take(i as int).map_values(|c: char| ascii_lower(c)),
        decreases cs.len() - i,
    {
        v.push(to_ascii_lower(cs[i]));
        i += 1;
        assert(v@ =~= cs@.take(i as int).map_values(|c: char| ascii_lower(c)));
    }
    assert(cs@.take(cs.len() as int) =~= cs@);
    v
}

impl Head {
    fn header_pos(&self, name: &str) -> (r: usize)
        ensures
            r == header_index(self.headers@, name@),
            r <= self.headers@.len(),
    {
        let n = chars_of(name);
        let mut i: usize = 0;
        assert(self.headers@.skip(0) =~= self.headers@);
        while i < self.headers.len()
            invariant
                i <= self.headers@.len(),
                n@ == name@,
                header_index(self.headers@, name@) == i + header_index(self.headers@.skip(i as int), name@),
            decreases self.headers.len() - i,
        {
            assert(self.headers@.skip(i as int)[0] == self.headers@[i as int]);
            let k = chars_of(self.headers[i].0.as_str());
            if eq_ignore_ascii_case(k.as_slice(), n.as_slice()) {
                return i;
            }
            assert(self.headers@.skip(i as int).drop_first() =~= self.headers@.skip(i + 1));
            i += 1;
        }
        i
    }

    /// Case-insensitive header lookup (the first match).
    pub fn header(&self, name: &str) -> (r: Option<&str>)
        ensures
            match r {
                Some(v) => header_spec(self.headers@, name@) == Some(v@),
                None => header_spec(self.headers@, name@) is None,
            },
    {
        let i = self.header_pos(name);
        if i < self.headers.len() {
            Some(self.headers[i].1.as_str())
        } else {
            None
        }
    }

    /// How the body is framed (see `body_kind_spec`).
    pub fn body_kind(&self) -> (k: BodyKind)
        ensures
            k == body_kind_spec(self.headers@),
    {
        if let Some(te) = self.header("transfer-encoding") {
            let low = lower_chars(te);
            let ch = chars_of("chunked");
            if contains_chars(low.as_slice(), ch.as_slice()) {
                return BodyKind::Chunked;
            }
        }
        if let Some(cl) = self.header("content-length") {
            let cs = chars_of(cl);
            let e1 = trim_end_index(cs.as_slice(), cs.len());
            assert(cs@.take(cs.len() as int) =~= cs@);
            let st = trim_start_index(cs.as_slice(), 0, e1);
            assert(cs@.subrange(0, e1 as int) =~= cs@.take(e1 as int));
            let t = sub_vec(cs.as_slice(), st, e1);
            assert(t@ =~= trim(cl@));
            if let Some(n) = parse_u64(t.as_slice()) {
                return BodyKind::Len(n);
            }
        }
        BodyKind::Eof
    }
}


// ---------------------------------------------------------------------------
// Receive side, sans-IO: the caller owns the socket and a byte buffer; the
// functions below take what they need off the front of that buffer and say
// when more bytes (or the knowledge that the peer closed) are needed.
// ---------------------------------------------------------------------------

/// An HTTP-level failure, by the kind the socket layer reports it as.
#[derive(Debug, Clone)]
pub enum HttpError {
    /// The peer closed before a required part arrived.
    UnexpectedEof(String),
    /// The bytes do not follow HTTP/1.1.
    InvalidData(String),
}

pub enum HttpErrorV {
    UnexpectedEof(Seq<char>),
    InvalidData(Seq<char>),
}

impl View for HttpError {
    type V = HttpErrorV;

    open spec fn view(&self) -> HttpErrorV {
        match self {
            HttpError::UnexpectedEof(m) => HttpErrorV::UnexpectedEof(m@),
            HttpError::InvalidData(m) => HttpErrorV::InvalidData(m@),
        }
    }
}

/// Index of the first `\n` byte (the length when absent).
pub open spec fn nl_pos(b: Seq<u8>) -> nat
    decreases b.len(),
{
    if b.len() == 0 {
        0
    } else if b[0] == 10u8 {
        0
    } else {
        1 + nl_pos(b.drop_first())
    }
}

pub proof fn lemma_nl_pos(b: Seq<u8>)
    ensures
        nl_pos(b) <= b.len(),
        nl_pos(b) < b.len() ==> b[nl_pos(b) as int] == 10u8,
    decreases b.len(),
{
    if b.len() > 0 && b[0] != 10u8 {
        lemma_nl_pos(b.drop_first());
    }
}

pub proof fn lemma_nl_pos_append(b: Seq<u8>, c: Seq<u8>)
    requires
        nl_pos(b) < b.len(),
    ensures
        nl_pos(b + c) == nl_pos(b),
    decreases b.len(),
{
    if b[0] != 10u8 {
        assert((b + c).drop_first() =~= b.drop_first() + c);
        lemma_nl_pos_append(b.drop_first(), c);
    }
}

/// Line reading is safe to feed in pieces: once a complete line is in
/// the buffer, the line taken and what remains do not depend on bytes that
/// arrive later, nor on whether the peer has closed.
pub proof fn lemma_line_step_prefix(b: Seq<u8>, c: Seq<u8>, closed1: bool, closed2: bool)
    requires
        nl_pos(b) < b.len(),
    ensures
        line_step(b + c, closed2) == (line_step(b, closed1).0, line_step(b, closed1).1 + c),
{
    lemma_nl_pos(b);
    lemma_nl_pos_append(b, c);
    let p = nl_pos(b);
    assert((b + c).take(p as int) =~= b.take(p as int));
    assert((b + c).skip(p as int + 1) =~= b.skip(p as int + 1) + c);
}

/// A line without a trailing `\r`.
pub open spec fn strip_cr(l: Seq<u8>) -> Seq<u8> {
    if l.len() > 0 && l.last() == 13u8 {
        l.drop_last()
    } else {
        l
    }
}

/// What one attempt to take a line off the buffer yields.
pub enum LineTake {
    Line(Vec<u8>),
    /// No complete line yet and the peer has not closed.
    NeedMore,
    /// The peer closed and nothing is left.
    Closed,
}

pub enum LineV {
    Line(Seq<u8>),
    NeedMore,
    Closed,
}

impl View for LineTake {
    type V = LineV;

    open spec fn view(&self) -> LineV {
        match self {
            LineTake::Line(l) => LineV::Line(l@),
            LineTake::NeedMore => LineV::NeedMore,
            LineTake::Closed => LineV::Closed,
        }
    }
}

/// Line reading: up to the first `\n` (dropped, with a `\r` before it);
/// once the peer has closed, whatever is left is the last line.
/// Yields the outcome and the buffer that remains.
pub open spec fn line_step(b: Seq<u8>, closed: bool) -> (LineV, Seq<u8>) {
    let p = nl_pos(b);
    if p < b.len() {
        (LineV::Line(strip_cr(b.take(p as int))), b.skip(p as int + 1))
    } else if !closed {
        (LineV::NeedMore, b)
    } else if b.len() > 0 {
        (LineV::Line(b), Seq::empty())
    } else {
        (LineV::Closed, b)
    }
}

/// Takes one line off the front of `buf` (see `line_step`); `closed` says
/// that the peer has closed the connection.
pub fn take_line(buf: &mut Vec<u8>, closed: bool) -> (r: LineTake)
    ensures
        (r@, final(buf)@) == line_step(old(buf)@, closed),
{
    let ghost b = buf@;
    let mut i: usize = 0;
    assert(b.skip(0) =~= b);
    while i < buf.len() && buf[i] != 10u8
        invariant
            i <= buf@.len(),
            buf@ == b,
            nl_pos(b) == i + nl_pos(b.skip(i as int)),
        decreases buf.len() - i,
    {
        assert(b.skip(i as int).drop_first() =~= b.skip(i + 1));
        i += 1;
    }
    if i < buf.len() {
        let end = if i > 0 && buf[i - 1] == 13u8 { i - 1 } else { i };
        let line = sub_vec(buf.as_slice(), 0, end);
        let rest = sub_vec(buf.as_slice(), i + 1, buf.len());
        *buf = rest;
        assert(line@ =~= strip_cr(b.take(i as int)));
        assert(rest@ =~= b.skip(i + 1));
        LineTake::Line(line)
    } else if !closed {
        LineTake::NeedMore
    } else if buf.len() > 0 {
        let line = sub_vec(buf.as_slice(), 0, buf.len());
        *buf = Vec::new();
        assert(line@ =~= b);
        assert(buf@ =~= Seq::<u8>::empty());
        LineTake::Line(line)
    } else {
        LineTake::Closed
    }
}

/// Status code of a status line: its second white-space separated word, as
/// a u16 (`"HTTP/1.1 200 OK"` gives 200).
pub open spec fn status_spec(line: Seq<char>) -> Option<u16> {
    let ws = words(line);
    if ws.len() >= 2 {
        match parse_u64_spec(ws[1]) {
            Some(n) => if n <= u16::MAX {
                Some(n as u16)
            } else {
                None
            },
            None => None,
        }
    } else {
        None
    }
}

/// Reads the status code out of a status line.
pub fn parse_status_line(line: &str) -> (r: Option<u16>)
    ensures
        r == status_spec(line@),
{
    let cs = chars_of(line);
    let ws = split_words(cs.as_slice());
    if ws.len() < 2 {
        return None;
    }
    assert(ws@.map_values(|w: Vec<char>| w@)[1] == ws@[1]@);
    match parse_u64(ws[1].as_slice()) {
        Some(n) => if n <= 65535 {
            Some(n as u16)
        } else {
            None
        },
        None => None,
    }
}

/// A header line `name: value` split at its first colon, both sides
/// trimmed; a line without a colon gives nothing.
pub open spec fn header_line_spec(line: Seq<char>) -> Option<(Seq<char>, Seq<char>)> {
    let i = idx_of(line, ':');
    if i < line.len() {
        Some((trim(line.take(i as int)), trim(line.skip(i as int + 1))))
    } else {
        None
    }
}

/// Splits a header line (see `header_line_spec`).
pub fn parse_header_line(line: &str) -> (r: Option<(String, String)>)
    ensures
        match r {
            Some((k, v)) => header_line_spec(line@) == Some((k@, v@)),
            None => header_line_spec(line@) is None,
        },
{
    let cs = chars_of(line);
    let i = find_char(cs.as_slice(), 0, ':');
    assert(cs@.skip(0) =~= cs@);
    if i < cs.len() {
        let k = trimmed(cs.as_slice(), 0, i);
        let v = trimmed(cs.as_slice(), i + 1, cs.len());
        assert(cs@.subrange(0, i as int) =~= cs@.take(i as int));
        assert(cs@.subrange(i + 1, cs.len() as int) =~= cs@.skip(i + 1));
        Some((string_from_chars(k.as_slice()), string_from_chars(v.as_slice())))
    } else {
        None
    }
}

/// The header pairs as char sequences.
pub open spec fn pairs_view(hs: Seq<(String, String)>) -> Seq<(Seq<char>, Seq<char>)> {
    hs.map_values(|p: (String, String)| (p.0@, p.1@))
}

/// Response head assembly, one line at a time: first the status line,
/// then header lines up to the blank line.
pub struct HeadReader {
    /// The status code once the status line is in.
    pub status: Option<u16>,
    pub headers: Vec<(String, String)>,
}

/// What feeding one line to a `HeadReader` gives.
pub enum HeadProgress {
    More(HeadReader),
    Done(Head),
    Fail(HttpError),
}

impl HeadReader {
    pub fn new() -> (r: Self)
        ensures
            r.status is None,
            r.headers@.len() == 0,
    {
        HeadReader { status: None, headers: Vec::new() }
    }

    /// Feeds the next line (`None`: the peer closed with nothing left).
    /// Before the status line, a close is `UnexpectedEof("空响应")` and a
    /// status line without a readable code is `InvalidData("坏状态行: "
    /// + line)`. After it, a close or a blank line ends the head; a header
    /// line without a colon is skipped.
    pub fn on_line(self, line: Option<&[u8]>) -> (p: HeadProgress)
        ensures
            match self.status {
                None => match line {
                    None => p matches HeadProgress::Fail(e) && e@ == HttpErrorV::UnexpectedEof(
                        "空响应"@,
                    ),
                    Some(l) => match status_spec(lossy(l@)) {
                        Some(c) => p matches HeadProgress::More(h) && h.status == Some(c)
                            && h.headers@.len() == 0,
                        None => p matches HeadProgress::Fail(e) && e@ == HttpErrorV::InvalidData(
                            "坏状态行: "@ + lossy(l@),
                        ),
                    },
                },
                Some(c) => match line {
                    Some(l) if lossy(l@).len() > 0 => p matches HeadProgress::More(h)
                        && h.status == Some(c) && pairs_view(h.headers@) == match header_line_spec(
                        lossy(l@),
                    ) {
                        Some(kv) => pairs_view(self.headers@).push(kv),
                        None => pairs_view(self.headers@),
                    },
                    _ => p matches HeadProgress::Done(h) && h.status == c && pairs_view(h.headers@)
                        == pairs_view(self.headers@),
                },
            },
    {
        let HeadReader { status, mut headers } = self;
        match status {
            None => match line {
                None => HeadProgress::Fail(HttpError::UnexpectedEof("空响应".to_owned())),
                Some(l) => {
                    let s = lossy_string(l);
                    match parse_status_line(s.as_str()) {
                        Some(c) => HeadProgress::More(HeadReader { status: Some(c), headers: Vec::new() }),
                        None => {
                            let mut m = "坏状态行: ".to_owned();
                            push_str(&mut m, s.as_str());
                            HeadProgress::Fail(HttpError::InvalidData(m))
                        },
                    }
                },
            },
            Some(c) => match line {
                Some(l) => {
                    let s = lossy_string(l);
                    if s.as_str().is_empty() {
                        return HeadProgress::Done(Head { status: c, headers });
                    }
                    match parse_header_line(s.as_str()) {
                        Some(kv) => {
                            let ghost before = headers@;
                            headers.push(kv);
                            assert(pairs_view(headers@) =~= pairs_view(before).push((kv.0@, kv.1@)));
                        },
                        None => {},
                    }
                    HeadProgress::More(HeadReader { status: Some(c), headers })
                },
                None => HeadProgress::Done(Head { status: c, headers }),
            },
        }
    }
}


/// Value of one hex digit.
pub open spec fn hex_digit(c: char) -> Option<nat> {
    if '0' <= c <= '9' {
        Some(((c as u32) - ('0' as u32)) as nat)
    } else if 'a' <= c <= 'f' {
        Some(((c as u32) - ('a' as u32) + 10) as nat)
    } else if 'A' <= c <= 'F' {
        Some(((c as u32) - ('A' as u32) + 10) as nat)
    } else {
        None
    }
}

pub open spec fn all_hex(s: Seq<char>) -> bool {
    forall|i: int| 0 <= i < s.len() ==> #[trigger] hex_digit(s[i]) is Some
}

/// Value of a run of hex digits.
pub open spec fn hex_val(s: Seq<char>) -> nat
    decreases s.len(),
{
    if s.len() == 0 {
        0
    } else {
        hex_val(s.drop_last()) * 16 + match hex_digit(s.last()) {
            Some(d) => d,
            None => 0,
        }
    }
}

/// `u64::from_str_radix(s, 16)`: an optional '+', then one or more hex
/// digits whose value fits in u64.
pub open spec fn parse_hex_spec(s: Seq<char>) -> Option<u64> {
    let d = if s.len() > 0 && s[0] == '+' {
        s.drop_first()
    } else {
        s
    };
    if d.len() > 0 && all_hex(d) && hex_val(d) <= u64::MAX {
        Some(hex_val(d) as u64)
    } else {
        None
    }
}

proof fn lemma_hex_val_prefix_mono(d: Seq<char>, k: int)
    requires
        0 <= k <= d.len(),
    ensures
        hex_val(d.take(k)) <= hex_val(d),
    decreases d.len(),
{
    if k < d.len() {
        assert(d.drop_last().take(k) =~= d.take(k));
        lemma_hex_val_prefix_mono(d.drop_last(), k);
    } else {
        assert(d.take(k) =~= d);
    }
}

proof fn lemma_all_hex_push(s: Seq<char>, c: char)
    requires
        all_hex(s),
        hex_digit(c) is Some,
    ensures
        all_hex(s.push(c)),
{
    assert forall|k: int| 0 <= k < s.push(c).len() implies #[trigger] hex_digit(s.push(c)[k]) is Some by {
        if k < s.len() {
            assert(s.push(c)[k] == s[k]);
        }
    }
}

/// Parses hex digits as `u64::from_str_radix(_, 16)` does.
#[verifier::rlimit(60)]
pub fn parse_hex(s: &[char]) -> (r: Option<u64>)
    ensures
        r == parse_hex_spec(s@),
{
    let start: usize = if s.len() > 0 && s[0] == '+' { 1 } else { 0 };
    let ghost d = if s@.len() > 0 && s@[0] == '+' { s@.drop_first() } else { s@ };
    assert(d =~= s@.skip(start as int));
    assert(parse_hex_spec(s@) == (if d.len() > 0 && all_hex(d) && hex_val(d) <= u64::MAX {
        Some(hex_val(d) as u64)
    } else {
        None::<u64>
    }));
    if start >= s.len() {
        return None;
    }
    let mut v: u64 = 0;
    let mut i = start;
    while i < s.len()
        invariant
            start <= i <= s.len(),
            d =~= s@.skip(start as int),
            all_hex(s@.subrange(start as int, i as int)),
            v as nat == hex_val(s@.subrange(start as int, i as int)),
            parse_hex_spec(s@) == (if d.len() > 0 && all_hex(d) && hex_val(d) <= u64::MAX {
                Some(hex_val(d) as u64)
            } else {
                None::<u64>
            }),
        decreases s.len() - i,
    {
        let c = s[i];
        let dv: u64 = if '0' <= c && c <= '9' {
            (c as u32 - '0' as u32) as u64
        } else if 'a' <= c && c <= 'f' {
            (c as u32 - 'a' as u32 + 10) as u64
        } else if 'A' <= c && c <= 'F' {
            (c as u32 - 'A' as u32 + 10) as u64
        } else {
            assert(d[i - start] == c);
            assert(!all_hex(d));
            return None;
        };
        assert(hex_digit(c) == Some(dv as nat));
        assert(s@.subrange(start as int, i + 1).drop_last() =~= s@.subrange(start as int, i as int));
        if v > (u64::MAX - dv) / 16 {
            proof {
                assert(s@.subrange(start as int, i + 1) =~= d.take((i - start) as int + 1));
                lemma_hex_val_prefix_mono(d, (i - start) as int + 1);
                assert(hex_val(d.take((i - start) as int + 1)) == v * 16 + dv);
                assert(v * 16 + dv > u64::MAX) by (nonlinear_arith)
                    requires
                        v > (u64::MAX - dv) / 16,
                        dv < 16,
                ;
            }
            return None;
        }
        proof {
            lemma_all_hex_push(s@.subrange(start as int, i as int), c);
            assert(s@.subrange(start as int, i + 1) =~= s@.subrange(start as int, i as int).push(c));
        }
        v = v * 16 + dv;
        i += 1;
    }
    assert(s@.subrange(start as int, s.len() as int) =~= d);
    Some(v)
}

/// Where the body reader is.
#[derive(Debug, Clone, Copy, PartialEq, Eq, Structural)]
pub enum BodyState {
    /// Content-Length framing: bytes still owed.
    Len(u64),
    /// Read until the peer closes.
    Eof,
    /// Next is a chunk-size line.
    ChunkSize,
    /// Inside a chunk: bytes still owed.
    ChunkData(u64),
    /// The line ending after a chunk's data.
    ChunkCrlf,
    /// After the last (zero) chunk: trailer lines up to a blank line.
    Trailers,
    Done,
}

/// Outcome of one body step that did not fail.
#[derive(Debug, Clone, Copy, PartialEq, Eq, Structural)]
pub enum BodyPoll {
    /// This many bytes were handed out; 0 means the body is over (or the
    /// caller asked for none).
    Read(usize),
    /// The buffer must be refilled (or the close noticed) first.
    NeedMore,
    /// The state moved without handing out bytes: step again.
    Continue,
}

pub enum PollV {
    Read,
    NeedMore,
    Continue,
    Fail(HttpErrorV),
}

pub open spec fn poll_view(r: Result<BodyPoll, HttpError>) -> PollV {
    match r {
        Ok(BodyPoll::Read(_)) => PollV::Read,
        Ok(BodyPoll::NeedMore) => PollV::NeedMore,
        Ok(BodyPoll::Continue) => PollV::Continue,
        Err(e) => PollV::Fail(e@),
    }
}

pub open spec fn min_nat(a: nat, b: nat) -> nat {
    if a <= b {
        a
    } else {
        b
    }
}

/// Reading up to `min(cap, owed)` bytes: all of them when buffered, a short
/// read only once the peer has closed. Gives (owed after, buffer after,
/// bytes handed out, outcome).
pub open spec fn take_owed(owed: u64, b: Seq<u8>, cap: nat, closed: bool) -> (u64, Seq<u8>, Seq<u8>, PollV) {
    let n = min_nat(cap, owed as nat);
    if n == 0 {
        (owed, b, Seq::empty(), PollV::Read)
    } else if b.len() >= n {
        ((owed - n) as u64, b.skip(n as int), b.take(n as int), PollV::Read)
    } else if closed {
        ((owed - b.len()) as u64, Seq::empty(), b, PollV::Read)
    } else {
        (owed, b, Seq::empty(), PollV::NeedMore)
    }
}

/// The chunk-size field of a size line: the text before any `;`, trimmed.
pub open spec fn chunk_size_field(line: Seq<char>) -> Seq<char> {
    trim(line.take(idx_of(line, ';') as int))
}

/// One step of the body state machine: (next state, buffer after, bytes
/// handed out, outcome). Chunk-size lines are hex with optional `;`
/// extensions; a missing size line is `UnexpectedEof("chunk 尺寸行缺失")`,
/// a bad one `InvalidData("坏 chunk 尺寸: " + line)`.
pub open spec fn body_step(st: BodyState, b: Seq<u8>, cap: nat, closed: bool) -> (
    BodyState,
    Seq<u8>,
    Seq<u8>,
    PollV,
) {
    match st {
        BodyState::Done => (st, b, Seq::empty(), PollV::Read),
        BodyState::Len(owed) => if owed == 0 {
            (BodyState::Done, b, Seq::empty(), PollV::Read)
        } else {
            let (o, b2, d, p) = take_owed(owed, b, cap, closed);
            (BodyState::Len(o), b2, d, p)
        },
        BodyState::Eof => if b.len() > 0 {
            let n = min_nat(cap, b.len());
            (st, b.skip(n as int), b.take(n as int), PollV::Read)
        } else if closed {
            (st, b, Seq::empty(), PollV::Read)
        } else {
            (st, b, Seq::empty(), PollV::NeedMore)
        },
        BodyState::ChunkSize => {
            let (lv, b2) = line_step(b, closed);
            match lv {
                LineV::NeedMore => (st, b, Seq::empty(), PollV::NeedMore),
                LineV::Closed => (
                    st,
                    b2,
                    Seq::empty(),
                    PollV::Fail(HttpErrorV::UnexpectedEof("chunk 尺寸行缺失"@)),
                ),
                LineV::Line(l) => match parse_hex_spec(chunk_size_field(lossy(l))) {
                    None => (
                        st,
                        b2,
                        Seq::empty(),
                        PollV::Fail(HttpErrorV::InvalidData("坏 chunk 尺寸: "@ + lossy(l))),
                    ),
                    Some(n) => (
                        if n == 0 {
                            BodyState::Trailers
                        } else {
                            BodyState::ChunkData(n)
                        },
                        b2,
                        Seq::empty(),
                        PollV::Continue,
                    ),
                },
            }
        },
        BodyState::ChunkData(owed) => if owed == 0 {
            (BodyState::ChunkCrlf, b, Seq::empty(), PollV::Continue)
        } else {
            let (o, b2, d, p) = take_owed(owed, b, cap, closed);
            (BodyState::ChunkData(o), b2, d, p)
        },
        BodyState::ChunkCrlf => {
            let (lv, b2) = line_step(b, closed);
            match lv {
                LineV::NeedMore => (st, b, Seq::empty(), PollV::NeedMore),
                _ => (BodyState::ChunkSize, b2, Seq::empty(), PollV::Continue),
            }
        },
        BodyState::Trailers => {
            let (lv, b2) = line_step(b, closed);
            match lv {
                LineV::NeedMore => (st, b, Seq::empty(), PollV::NeedMore),
                LineV::Closed => (BodyState::Done, b2, Seq::empty(), PollV::Continue),
                LineV::Line(l) => (
                    if l.len() == 0 {
                        BodyState::Done
                    } else {
                        BodyState::Trailers
                    },
                    b2,
                    Seq::empty(),
                    PollV::Continue,
                ),
            }
        },
    }
}

proof fn lemma_take_owed_more(owed: u64, b: Seq<u8>, c: Seq<u8>, cap: nat)
    requires
        take_owed(owed, b, cap, false).3 != PollV::NeedMore,
    ensures
        ({
            let (o1, b1, d1, p1) = take_owed(owed, b, cap, false);
            let (o2, b2, d2, p2) = take_owed(owed, b + c, cap, false);
            o2 == o1 && b2 == b1 + c && d2 == d1 && p2 == p1
        }),
{
    let n = min_nat(cap, owed as nat);
    if n != 0 {
        assert((b + c).take(n as int) =~= b.take(n as int));
        assert((b + c).skip(n as int) =~= b.skip(n as int) + c);
    }
}

proof fn lemma_line_state_more(st: BodyState, b: Seq<u8>, c: Seq<u8>, cap: nat)
    requires
        st is ChunkSize || st is ChunkCrlf || st is Trailers,
        body_step(st, b, cap, false).3 != PollV::NeedMore,
    ensures
        ({
            let (s1, b1, d1, p1) = body_step(st, b, cap, false);
            let (s2, b2, d2, p2) = body_step(st, b + c, cap, false);
            s2 == s1 && b2 == b1 + c && d2 == d1 && p2 == p1
        }),
{
    lemma_nl_pos(b);
    if nl_pos(b) < b.len() {
        lemma_line_step_prefix(b, c, false, false);
    }
}

/// Body decoding is safe to feed in pieces: a step that could be decided on
/// the bytes at hand (it did not ask for more) takes the same bytes, hands
/// out the same body bytes and reaches the same state when more bytes have
/// arrived behind them; those bytes stay buffered. The exception is a body
/// read until close, which hands out what is buffered up to the caller's
/// limit: there the law is stated when the limit is already buffered.
pub proof fn lemma_body_step_more_bytes(st: BodyState, b: Seq<u8>, c: Seq<u8>, cap: nat)
    requires
        body_step(st, b, cap, false).3 != PollV::NeedMore,
        st is Eof ==> cap <= b.len(),
    ensures
        ({
            let (s1, b1, d1, p1) = body_step(st, b, cap, false);
            let (s2, b2, d2, p2) = body_step(st, b + c, cap, false);
            s2 == s1 && b2 == b1 + c && d2 == d1 && p2 == p1
        }),
{
    match st {
        BodyState::Len(owed) => {
            if owed != 0 {
                lemma_take_owed_more(owed, b, c, cap);
            }
        },
        BodyState::ChunkData(owed) => {
            if owed != 0 {
                lemma_take_owed_more(owed, b, c, cap);
            }
        },
        BodyState::Eof => {
            if b.len() > 0 {
                assert((b + c).take(cap as int) =~= b.take(cap as int));
                assert((b + c).skip(cap as int) =~= b.skip(cap as int) + c);
            }
        },
        BodyState::Done => {},
        _ => {
            lemma_line_state_more(st, b, c, cap);
        },
    }
}

/// The state a body of the given framing starts in.
pub open spec fn start_state(kind: BodyKind) -> BodyState {
    match kind {
        BodyKind::Chunked => BodyState::ChunkSize,
        BodyKind::Len(n) => BodyState::Len(n),
        BodyKind::Eof => BodyState::Eof,
    }
}

/// Moves the first `n` buffered bytes to `out`.
fn move_front(buf: &mut Vec<u8>, n: usize, out: &mut Vec<u8>)
    requires
        n <= old(buf)@.len(),
    ensures
        final(buf)@ == old(buf)@.skip(n as int),
        final(out)@ == old(out)@ + old(buf)@.take(n as int),
{
    extend_bytes(out, buf.as_slice(), 0, n);
    let rest = sub_vec(buf.as_slice(), n, buf.len());
    *buf = rest;
    assert(old(buf)@.subrange(0, n as int) =~= old(buf)@.take(n as int));
    assert(rest@ =~= old(buf)@.skip(n as int));
}

/// Reads toward `owed` (see `take_owed`).
fn read_owed(owed: u64, buf: &mut Vec<u8>, cap: usize, closed: bool, out: &mut Vec<u8>) -> (r: (
    u64,
    BodyPoll,
))
    ensures
        ({
            let (o, b2, d, p) = take_owed(owed, old(buf)@, cap as nat, closed);
            &&& r.0 == o
            &&& final(buf)@ == b2
            &&& final(out)@ == old(out)@ + d
            &&& poll_view(Ok(r.1)) == p
            &&& r.1 matches BodyPoll::Read(k) ==> k == d.len()
        }),
{
    let n: usize = if (cap as u64) < owed { cap } else { owed as usize };
    if n == 0 {
        assert(old(out)@ + Seq::<u8>::empty() =~= old(out)@);
        (owed, BodyPoll::Read(0))
    } else if buf.len() >= n {
        move_front(buf, n, out);
        (owed - n as u64, BodyPoll::Read(n))
    } else if closed {
        let k = buf.len();
        move_front(buf, k, out);
        assert(old(buf)@.take(k as int) =~= old(buf)@);
        assert(old(buf)@.skip(k as int) =~= Seq::<u8>::empty());
        (owed - k as u64, BodyPoll::Read(k))
    } else {
        assert(old(out)@ + Seq::<u8>::empty() =~= old(out)@);
        (owed, BodyPoll::NeedMore)
    }
}

/// The body framing state machine (chunked / content-length / until-EOF),
/// safe to feed in arbitrary pieces.
pub struct BodyDecoder {
    pub state: BodyState,
}

impl BodyDecoder {
    pub fn new(kind: BodyKind) -> (d: Self)
        ensures
            d.state == start_state(kind),
    {
        let state = match kind {
            BodyKind::Chunked => BodyState::ChunkSize,
            BodyKind::Len(n) => BodyState::Len(n),
            BodyKind::Eof => BodyState::Eof,
        };
        BodyDecoder { state }
    }

    /// One step (see `body_step`): takes what it needs off `buf`, appends
    /// body bytes (at most `cap`) to `out`; `closed` says the peer closed.
    pub fn poll(&mut self, buf: &mut Vec<u8>, cap: usize, closed: bool, out: &mut Vec<u8>) -> (r: Result<
        BodyPoll,
        HttpError,
    >)
        ensures
            ({
                let (st, b2, d, p) = body_step(old(self).state, old(buf)@, cap as nat, closed);
                &&& final(self).state == st
                &&& final(buf)@ == b2
                &&& final(out)@ == old(out)@ + d
                &&& poll_view(r) == p
                &&& r matches Ok(BodyPoll::Read(k)) ==> k == d.len()
            }),
    {
        assert(old(out)@ + Seq::<u8>::empty() =~= old(out)@);
        match self.state {
            BodyState::Done => Ok(BodyPoll::Read(0)),
            BodyState::Len(owed) => {
                if owed == 0 {
                    self.state = BodyState::Done;
                    return Ok(BodyPoll::Read(0));
                }
                let (o, p) = read_owed(owed, buf, cap, closed, out);
                self.state = BodyState::Len(o);
                Ok(p)
            },
            BodyState::Eof => {
                if buf.len() > 0 {
                    let n = if cap < buf.len() { cap } else { buf.len() };
                    move_front(buf, n, out);
                    Ok(BodyPoll::Read(n))
                } else if closed {
                    Ok(BodyPoll::Read(0))
                } else {
                    Ok(BodyPoll::NeedMore)
                }
            },
            BodyState::ChunkSize => {
                let ghost b = buf@;
                match take_line(buf, closed) {
                    LineTake::NeedMore => Ok(BodyPoll::NeedMore),
                    LineTake::Closed => Err(HttpError::UnexpectedEof("chunk 尺寸行缺失".to_owned())),
                    LineTake::Line(l) => {
                        let s = lossy_string(l.as_slice());
                        let cs = chars_of(s.as_str());
                        let semi = find_char(cs.as_slice(), 0, ';');
                        assert(cs@.skip(0) =~= cs@);
                        let field = trimmed(cs.as_slice(), 0, semi);
                        assert(cs@.subrange(0, semi as int) =~= cs@.take(semi as int));
                        match parse_hex(field.as_slice()) {
                            None => {
                                let mut m = "坏 chunk 尺寸: ".to_owned();
                                push_str(&mut m, s.as_str());
                                Err(HttpError::InvalidData(m))
                            },
                            Some(n) => {
                                self.state = if n == 0 {
                                    BodyState::Trailers
                                } else {
                                    BodyState::ChunkData(n)
                                };
                                Ok(BodyPoll::Continue)
                            },
                        }
                    },
                }
            },
            BodyState::ChunkData(owed) => {
                if owed == 0 {
                    self.state = BodyState::ChunkCrlf;
                    return Ok(BodyPoll::Continue);
                }
                let (o, p) = read_owed(owed, buf, cap, closed, out);
                self.state = BodyState::ChunkData(o);
                Ok(p)
            },
            BodyState::ChunkCrlf => {
                match take_line(buf, closed) {
                    LineTake::NeedMore => Ok(BodyPoll::NeedMore),
                    _ => {
                        self.state = BodyState::ChunkSize;
                        Ok(BodyPoll::Continue)
                    },
                }
            },
            BodyState::Trailers => {
                match take_line(buf, closed) {
                    LineTake::NeedMore => Ok(BodyPoll::NeedMore),
                    LineTake::Closed => {
                        self.state = BodyState::Done;
                        Ok(BodyPoll::Continue)
                    },
                    LineTake::Line(l) => {
                        if l.len() == 0 {
                            self.state = BodyState::Done;
                        }
                        Ok(BodyPoll::Continue)
                    },
                }
            },
        }
    }
}

/// The lower-case hex digit of a value below 16.
pub open spec fn hex_char(d: nat) -> char {
    seq!['0', '1', '2', '3', '4', '5', '6', '7', '8', '9', 'a', 'b', 'c', 'd', 'e', 'f'][d as int]
}

/// The hex numeral of `n` (lower case, no leading zeros), as HTTP/1.1
/// writes chunk sizes.
pub open spec fn hex_text(n: nat) -> Seq<char>
    decreases n,
{
    if n < 16 {
        seq![hex_char(n)]
    } else {
        hex_text(n / 16).push(hex_char(n % 16))
    }
}

proof fn lemma_hex_char(d: nat)
    requires
        d < 16,
    ensures
        hex_digit(hex_char(d)) == Some(d),
        !is_ws(hex_char(d)),
        hex_char(d) != ';',
        hex_char(d) != '+',
        '0' <= hex_char(d) <= 'f',
{
    let t = seq!['0', '1', '2', '3', '4', '5', '6', '7', '8', '9', 'a', 'b', 'c', 'd', 'e', 'f'];
    assert(hex_char(d) == t[d as int]);
    if d == 0 { assert(t[0] == '0'); } else if d == 1 { assert(t[1] == '1'); } else if d == 2 { assert(t[2] == '2'); }
    else if d == 3 { assert(t[3] == '3'); } else if d == 4 { assert(t[4] == '4'); } else if d == 5 { assert(t[5] == '5'); }
    else if d == 6 { assert(t[6] == '6'); } else if d == 7 { assert(t[7] == '7'); } else if d == 8 { assert(t[8] == '8'); }
    else if d == 9 { assert(t[9] == '9'); } else if d == 10 { assert(t[10] == 'a'); } else if d == 11 { assert(t[11] == 'b'); }
    else if d == 12 { assert(t[12] == 'c'); } else if d == 13 { assert(t[13] == 'd'); } else if d == 14 { assert(t[14] == 'e'); }
    else { assert(t[15] == 'f'); }
}

proof fn lemma_hex_text(n: nat)
    ensures
        hex_text(n).len() > 0,
        all_hex(hex_text(n)),
        hex_val(hex_text(n)) == n,
        forall|i: int| 0 <= i < hex_text(n).len() ==> !is_ws(#[trigger] hex_text(n)[i]) && hex_text(n)[i] != ';',
        forall|i: int| 0 <= i < hex_text(n).len() ==> '0' <= #[trigger] hex_text(n)[i] <= 'f',
        hex_text(n)[0] != '+',
    decreases n,
{
    if n < 16 {
        lemma_hex_char(n);
        assert(hex_text(n).drop_last() =~= Seq::<char>::empty());
        assert(hex_val(Seq::<char>::empty()) == 0);
        assert(hex_val(hex_text(n)) == 0 * 16 + n);
    } else {
        let p = hex_text(n / 16);
        lemma_hex_text(n / 16);
        lemma_hex_char(n % 16);
        let t = hex_text(n);
        assert(t.drop_last() =~= p);
        assert(t[0] == p[0]);
        assert forall|i: int| 0 <= i < t.len() implies #[trigger] hex_digit(t[i]) is Some by {
            if i < p.len() {
                assert(t[i] == p[i]);
            }
        }
        assert forall|i: int| 0 <= i < t.len() implies !is_ws(#[trigger] t[i]) && t[i] != ';' by {
            if i < p.len() {
                assert(t[i] == p[i]);
            }
        }
        assert forall|i: int| 0 <= i < t.len() implies '0' <= #[trigger] t[i] <= 'f' by {
            if i < p.len() {
                assert(t[i] == p[i]);
            }
        }
        assert(hex_val(t) == hex_val(p) * 16 + n % 16);
        assert(n == (n / 16) * 16 + n % 16) by (nonlinear_arith);
    }
}

proof fn lemma_idx_absent(s: Seq<char>, c: char)
    requires
        forall|i: int| 0 <= i < s.len() ==> s[i] != c,
    ensures
        idx_of(s, c) == s.len(),
    decreases s.len(),
{
    if s.len() > 0 {
        assert forall|i: int| 0 <= i < s.drop_first().len() implies s.drop_first()[i] != c by {
            assert(s.drop_first()[i] == s[i + 1]);
        }
        lemma_idx_absent(s.drop_first(), c);
    }
}

/// Chunk sizes are read as hex: a chunk-size line that reads as the hex
/// numeral of `n` consumes the line and opens a chunk of exactly `n` bytes
/// (the last chunk when `n` is 0), whatever the buffer holds after it
/// ("10" opens 16 bytes, "1a" opens 26).
pub proof fn lemma_chunk_size_is_hex(b: Seq<u8>, cap: nat, closed: bool, n: u64)
    requires
        line_step(b, closed).0 matches LineV::Line(l) && lossy(l) == hex_text(n as nat),
    ensures
        body_step(BodyState::ChunkSize, b, cap, closed) == (
            if n == 0 {
                BodyState::Trailers
            } else {
                BodyState::ChunkData(n)
            },
            line_step(b, closed).1,
            Seq::<u8>::empty(),
            PollV::Continue,
        ),
{
    let t = hex_text(n as nat);
    lemma_hex_text(n as nat);
    lemma_idx_absent(t, ';');
    assert(t.take(t.len() as int) =~= t);
    assert(trail_ws(t) == 0);
    assert(trim_end(t) =~= t);
    assert(lead_ws(t) == 0);
    assert(trim_start(t) =~= t);
    assert(chunk_size_field(t) == t);
    assert(parse_hex_spec(t) == Some(n));
}

/// One chunk of the chunked coding: its size in hex, CRLF, its bytes, CRLF.
pub open spec fn chunk_enc(d: Seq<u8>) -> Seq<u8> {
    encode_utf8(hex_text(d.len())) + seq![13u8, 10u8] + d + seq![13u8, 10u8]
}

/// The chunked coding of a list of chunks: each chunk, then the last chunk
/// (size 0) and the empty line that ends the trailers.
pub open spec fn chunked_enc(cs: Seq<Seq<u8>>) -> Seq<u8>
    decreases cs.len(),
{
    if cs.len() == 0 {
        encode_utf8(hex_text(0)) + seq![13u8, 10u8, 13u8, 10u8]
    } else {
        chunk_enc(cs[0]) + chunked_enc(cs.drop_first())
    }
}

/// The chunks' bytes, one after another.
pub open spec fn chunks_concat(cs: Seq<Seq<u8>>) -> Seq<u8>
    decreases cs.len(),
{
    if cs.len() == 0 {
        Seq::empty()
    } else {
        cs[0] + chunks_concat(cs.drop_first())
    }
}

/// Reading a body to its end: up to `fuel` steps while no step fails or
/// waits; the bytes handed out and the state reached.
pub open spec fn read_all(st: BodyState, b: Seq<u8>, cap: nat, closed: bool, fuel: nat) -> (Seq<u8>, BodyState)
    decreases fuel,
{
    if fuel == 0 || st is Done {
        (Seq::empty(), st)
    } else {
        let (st2, b2, d, p) = body_step(st, b, cap, closed);
        match p {
            PollV::Read | PollV::Continue => {
                let r = read_all(st2, b2, cap, closed, (fuel - 1) as nat);
                (d + r.0, r.1)
            },
            _ => (Seq::empty(), st2),
        }
    }
}

proof fn lemma_nl_pos_skip(x: Seq<u8>, y: Seq<u8>)
    requires
        forall|i: int| 0 <= i < x.len() ==> x[i] != 10u8,
    ensures
        nl_pos(x + y) == x.len() + nl_pos(y),
    decreases x.len(),
{
    if x.len() > 0 {
        assert((x + y).drop_first() =~= x.drop_first() + y);
        assert forall|i: int| 0 <= i < x.drop_first().len() implies x.drop_first()[i] != 10u8 by {
            assert(x.drop_first()[i] == x[i + 1]);
        }
        lemma_nl_pos_skip(x.drop_first(), y);
    } else {
        assert(x + y =~= y);
    }
}

/// The size line of `n`, as bytes: it decodes to the hex numeral and holds
/// no CR or LF.
proof fn lemma_size_bytes(n: nat)
    ensures
        lossy(encode_utf8(hex_text(n))) == hex_text(n),
        forall|i: int| 0 <= i < encode_utf8(hex_text(n)).len() ==> #[trigger] encode_utf8(hex_text(n))[i] != 10u8
            && encode_utf8(hex_text(n))[i] != 13u8,
{
    let t = hex_text(n);
    lemma_hex_text(n);
    vstd::utf8::encode_utf8_valid_utf8(t);
    vstd::utf8::encode_utf8_decode_utf8(t);
    assert(vstd::utf8::is_ascii_chars(t));
    vstd::utf8::is_ascii_chars_encode_utf8(t);
    let e = encode_utf8(t);
    assert forall|i: int| 0 <= i < e.len() implies #[trigger] e[i] != 10u8 && e[i] != 13u8 by {
        assert(t[i] as u8 == e[i]);
        assert('0' <= t[i] <= 'f');
    }
}

/// A size line followed by CRLF is read as that line.
proof fn lemma_size_line(n: nat, rest: Seq<u8>, closed: bool)
    ensures
        line_step(encode_utf8(hex_text(n)) + seq![13u8, 10u8] + rest, closed) == (
            LineV::Line(encode_utf8(hex_text(n))),
            rest,
        ),
{
    let h = encode_utf8(hex_text(n));
    lemma_size_bytes(n);
    let b = h + seq![13u8, 10u8] + rest;
    assert(b =~= h + (seq![13u8, 10u8] + rest));
    lemma_nl_pos_skip(h, seq![13u8, 10u8] + rest);
    lemma_crlf_nl(rest);
    assert(b.take(h.len() as int + 1) =~= h.push(13u8));
    assert(h.push(13u8).drop_last() =~= h);
    assert(b.skip(h.len() as int + 2) =~= rest);
}

/// A CRLF line is read as an empty line.
proof fn lemma_crlf_line(rest: Seq<u8>, closed: bool)
    ensures
        line_step(seq![13u8, 10u8] + rest, closed) == (LineV::Line(Seq::<u8>::empty()), rest),
{
    let b = seq![13u8, 10u8] + rest;
    lemma_crlf_nl(rest);
    assert(b.take(1) =~= seq![13u8]);
    assert(seq![13u8].drop_last() =~= Seq::<u8>::empty());
    assert(b.skip(2) =~= rest);
}

proof fn lemma_crlf_nl(rest: Seq<u8>)
    ensures
        nl_pos(seq![13u8, 10u8] + rest) == 1,
{
    let b = seq![13u8, 10u8] + rest;
    let c = seq![10u8] + rest;
    assert(b[0] == 13u8);
    assert(b.drop_first() =~= c);
    assert(c[0] == 10u8);
    assert(nl_pos(c) == 0);
}

/// One step of `read_all` that hands out `d` and goes on.
proof fn lemma_read_all_step(st: BodyState, b: Seq<u8>, cap: nat, closed: bool, fuel: nat, st2: BodyState, b2: Seq<u8>, d: Seq<u8>, p: PollV)
    requires
        !(st is Done),
        body_step(st, b, cap, closed) == (st2, b2, d, p),
        p is Read || p is Continue,
    ensures
        read_all(st, b, cap, closed, fuel + 1) == (
            d + read_all(st2, b2, cap, closed, fuel).0,
            read_all(st2, b2, cap, closed, fuel).1,
        ),
{
}

proof fn lemma_chunk_data_step(d: Seq<u8>, tail: Seq<u8>, cap: nat, closed: bool)
    requires
        0 < d.len() <= cap,
        d.len() <= u64::MAX,
    ensures
        body_step(BodyState::ChunkData(d.len() as u64), d + (seq![13u8, 10u8] + tail), cap, closed) == (
            BodyState::ChunkData(0),
            seq![13u8, 10u8] + tail,
            d,
            PollV::Read,
        ),
{
    let b1 = d + (seq![13u8, 10u8] + tail);
    assert(b1.take(d.len() as int) =~= d);
    assert(b1.skip(d.len() as int) =~= seq![13u8, 10u8] + tail);
}

proof fn lemma_crlf_step(tail: Seq<u8>, cap: nat, closed: bool)
    ensures
        body_step(BodyState::ChunkCrlf, seq![13u8, 10u8] + tail, cap, closed) == (
            BodyState::ChunkSize,
            tail,
            Seq::<u8>::empty(),
            PollV::Continue,
        ),
        body_step(BodyState::Trailers, seq![13u8, 10u8] + tail, cap, closed) == (
            BodyState::Done,
            tail,
            Seq::<u8>::empty(),
            PollV::Continue,
        ),
{
    lemma_crlf_line(tail, closed);
}

proof fn lemma_size_step(n: u64, b1: Seq<u8>, cap: nat, closed: bool)
    ensures
        body_step(BodyState::ChunkSize, encode_utf8(hex_text(n as nat)) + seq![13u8, 10u8] + b1, cap, closed) == (
            if n == 0 {
                BodyState::Trailers
            } else {
                BodyState::ChunkData(n)
            },
            b1,
            Seq::<u8>::empty(),
            PollV::Continue,
        ),
{
    lemma_size_line(n as nat, b1, closed);
    lemma_size_bytes(n as nat);
    lemma_chunk_size_is_hex(encode_utf8(hex_text(n as nat)) + seq![13u8, 10u8] + b1, cap, closed, n);
}

proof fn lemma_read_chunk(d: Seq<u8>, tail: Seq<u8>, cap: nat, closed: bool, fuel: nat)
    requires
        0 < d.len() <= cap,
        d.len() <= u64::MAX,
    ensures
        read_all(BodyState::ChunkSize, chunk_enc(d) + tail, cap, closed, fuel + 4) == (
            d + read_all(BodyState::ChunkSize, tail, cap, closed, fuel).0,
            read_all(BodyState::ChunkSize, tail, cap, closed, fuel).1,
        ),
{
    let n = d.len() as u64;
    let h = encode_utf8(hex_text(d.len()));
    let b0 = chunk_enc(d) + tail;
    let b2 = seq![13u8, 10u8] + tail;
    let b1 = d + b2;
    assert(b0 =~= h + seq![13u8, 10u8] + b1);
    let e = Seq::<u8>::empty();
    lemma_size_step(n, b1, cap, closed);
    lemma_chunk_data_step(d, tail, cap, closed);
    lemma_crlf_step(tail, cap, closed);
    assert(body_step(BodyState::ChunkData(0), b2, cap, closed) == (BodyState::ChunkCrlf, b2, e, PollV::Continue));
    lemma_read_all_step(BodyState::ChunkCrlf, b2, cap, closed, fuel, BodyState::ChunkSize, tail, e, PollV::Continue);
    lemma_read_all_step(BodyState::ChunkData(0), b2, cap, closed, fuel + 1, BodyState::ChunkCrlf, b2, e, PollV::Continue);
    lemma_read_all_step(BodyState::ChunkData(n), b1, cap, closed, fuel + 2, BodyState::ChunkData(0), b2, d, PollV::Read);
    lemma_read_all_step(BodyState::ChunkSize, b0, cap, closed, fuel + 3, BodyState::ChunkData(n), b1, e, PollV::Continue);
    let r = read_all(BodyState::ChunkSize, tail, cap, closed, fuel).0;
    assert(e + (e + (d + (e + r))) =~= d + r);
}

/// Chunked bodies round-trip: reading the chunked coding of any chunks
/// (each non-empty and no longer than the read cap), followed by anything,
/// hands out exactly the chunks' bytes in order and ends the body.
pub proof fn lemma_chunked_roundtrip(cs: Seq<Seq<u8>>, rest: Seq<u8>, cap: nat, closed: bool)
    requires
        forall|i: int| 0 <= i < cs.len() ==> 0 < (#[trigger] cs[i]).len() <= cap && cs[i].len() <= u64::MAX,
    ensures
        read_all(BodyState::ChunkSize, chunked_enc(cs) + rest, cap, closed, 4 * cs.len() + 2) == (
            chunks_concat(cs),
            BodyState::Done,
        ),
    decreases cs.len(),
{
    if cs.len() == 0 {
        let h = encode_utf8(hex_text(0));
        let b0 = chunked_enc(cs) + rest;
        let b1 = seq![13u8, 10u8] + rest;
        let e = Seq::<u8>::empty();
        assert(b0 =~= h + seq![13u8, 10u8] + b1);
        lemma_size_step(0, b1, cap, closed);
        lemma_crlf_step(rest, cap, closed);
        lemma_read_all_step(BodyState::Trailers, b1, cap, closed, 0, BodyState::Done, rest, e, PollV::Continue);
        lemma_read_all_step(BodyState::ChunkSize, b0, cap, closed, 1, BodyState::Trailers, b1, e, PollV::Continue);
        assert(e + (e + e) =~= e);
        assert(chunks_concat(cs) =~= e);
    } else {
        let t = cs.drop_first();
        assert forall|i: int| 0 <= i < t.len() implies 0 < (#[trigger] t[i]).len() <= cap && t[i].len() <= u64::MAX by {
            assert(t[i] == cs[i + 1]);
        }
        lemma_chunked_roundtrip(t, rest, cap, closed);
        assert(cs[0] == cs[0]);
        assert(chunked_enc(cs) + rest =~= chunk_enc(cs[0]) + (chunked_enc(t) + rest));
        lemma_read_chunk(cs[0], chunked_enc(t) + rest, cap, closed, 4 * t.len() + 2);
        assert(4 * cs.len() + 2 == (4 * t.len() + 2) + 4);
    }
}

/// Content-Length bodies are read exactly: with `n` bytes owed and those
/// bytes buffered (followed by anything), reading in steps of at most
/// `cap >= 1` bytes hands out exactly those `n` bytes and ends the body,
/// leaving what follows unread.
pub proof fn lemma_length_body_exact(d: Seq<u8>, rest: Seq<u8>, cap: nat, closed: bool, fuel: nat)
    requires
        cap >= 1,
        d.len() <= u64::MAX,
        fuel >= d.len() + 1,
    ensures
        read_all(BodyState::Len(d.len() as u64), d + rest, cap, closed, fuel) == (d, BodyState::Done),
    decreases d.len(),
{
    let n = d.len() as u64;
    let e = Seq::<u8>::empty();
    if n == 0 {
        assert(body_step(BodyState::Len(0), d + rest, cap, closed) == (BodyState::Done, d + rest, e, PollV::Read));
        lemma_read_all_step(BodyState::Len(0), d + rest, cap, closed, (fuel - 1) as nat, BodyState::Done, d + rest, e, PollV::Read);
        assert(d =~= e);
        assert(e + e =~= e);
    } else {
        let k = min_nat(cap, n as nat);
        let b = d + rest;
        let d2 = d.skip(k as int);
        assert(b.take(k as int) =~= d.take(k as int));
        assert(b.skip(k as int) =~= d2 + rest);
        assert(body_step(BodyState::Len(n), b, cap, closed) == (
            BodyState::Len((n - k) as u64),
            d2 + rest,
            d.take(k as int),
            PollV::Read,
        ));
        lemma_length_body_exact(d2, rest, cap, closed, (fuel - 1) as nat);
        lemma_read_all_step(BodyState::Len(n), b, cap, closed, (fuel - 1) as nat, BodyState::Len((n - k) as u64), d2 + rest, d.take(k as int), PollV::Read);
        assert(d.take(k as int) + d2 =~= d);
    }
}

/// Until-close bodies hand out everything buffered: once the peer has
/// closed, reading in steps of at most `cap >= 1` bytes hands out exactly
/// the buffered bytes.
pub proof fn lemma_until_close_exact(b: Seq<u8>, cap: nat, fuel: nat)
    requires
        cap >= 1,
        fuel >= b.len() + 1,
    ensures
        read_all(BodyState::Eof, b, cap, true, fuel).0 == b,
    decreases b.len(),
{
    let e = Seq::<u8>::empty();
    if b.len() == 0 {
        assert(body_step(BodyState::Eof, b, cap, true) == (BodyState::Eof, b, e, PollV::Read));
        lemma_read_all_step(BodyState::Eof, b, cap, true, (fuel - 1) as nat, BodyState::Eof, b, e, PollV::Read);
        lemma_until_close_empty(cap, (fuel - 1) as nat);
        assert(b =~= e);
        assert(e + e =~= e);
    } else {
        let k = min_nat(cap, b.len());
        lemma_read_all_step(BodyState::Eof, b, cap, true, (fuel - 1) as nat, BodyState::Eof, b.skip(k as int), b.take(k as int), PollV::Read);
        lemma_until_close_exact(b.skip(k as int), cap, (fuel - 1) as nat);
        assert(b.take(k as int) + b.skip(k as int) =~= b);
    }
}

proof fn lemma_until_close_empty(cap: nat, fuel: nat)
    ensures
        read_all(BodyState::Eof, Seq::empty(), cap, true, fuel).0 == Seq::<u8>::empty(),
    decreases fuel,
{
    let e = Seq::<u8>::empty();
    if fuel > 0 {
        assert(body_step(BodyState::Eof, e, cap, true) == (BodyState::Eof, e, e, PollV::Read));
        lemma_read_all_step(BodyState::Eof, e, cap, true, (fuel - 1) as nat, BodyState::Eof, e, e, PollV::Read);
        lemma_until_close_empty(cap, (fuel - 1) as nat);
        assert(e + e =~= e);
    }
}

} // verus!
