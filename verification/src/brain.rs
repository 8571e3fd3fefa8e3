//! The AI brain's protocol layer, pure: bytes to SSE frames, upstream
//! OpenAI stream chunks to the internal chat events, events to the
//! accumulated run, and the upstream request and error bodies.
use vstd::prelude::*;
use vstd::string::StringSliceAdditionalSpecFns;
use crate::text::{
    lossy, lossy_string, chars_of, string_from_chars, push_str, push_dec, dec, trim, trimmed,
    str_eq, extend_bytes, sub_vec,
};
use crate::http1::{nl_pos, strip_cr, lemma_nl_pos, lemma_nl_pos_append};
use crate::json::{
    Json, JsonV, json_v, json_vs, json_es, jget, jstr, key_index, json_parse, json_text,
    parse_json, json_to_text,
};

verus! {

broadcast use vstd::seq_lib::group_seq_properties;

/// The internal chat events (deltas split by kind).
#[derive(Debug, Clone, PartialEq, Eq)]
pub enum ChatEvent {
    MessageStart,
    /// A text block has `tool_use` None; a tool-use block carries
    /// (tool_use_id, tool_name).
    ContentBlockStart { index: u32, tool_use: Option<(String, String)> },
    TextDelta { index: u32, text: String },
    ThinkingDelta { index: u32, text: String },
    InputJsonDelta { index: u32, text: String },
    ContentBlockStop { index: u32 },
    ToolResult { tool_use_id: String, text: String, is_error: bool },
    MessageStop,
    Done,
    Error { content: String },
    RuleWarning { content: String },
}

pub enum ChatEventV {
    MessageStart,
    ContentBlockStart { index: u32, tool_use: Option<(Seq<char>, Seq<char>)> },
    TextDelta { index: u32, text: Seq<char> },
    ThinkingDelta { index: u32, text: Seq<char> },
    InputJsonDelta { index: u32, text: Seq<char> },
    ContentBlockStop { index: u32 },
    ToolResult { tool_use_id: Seq<char>, text: Seq<char>, is_error: bool },
    MessageStop,
    Done,
    Error { content: Seq<char> },
    RuleWarning { content: Seq<char> },
}

impl View for ChatEvent {
    type V = ChatEventV;

    open spec fn view(&self) -> ChatEventV {
        match self {
            ChatEvent::MessageStart => ChatEventV::MessageStart,
            ChatEvent::ContentBlockStart { index, tool_use } => ChatEventV::ContentBlockStart {
                index: *index,
                tool_use: match tool_use {
                    Some((a, b)) => Some((a@, b@)),
                    None => None,
                },
            },
            ChatEvent::TextDelta { index, text } => ChatEventV::TextDelta { index: *index, text: text@ },
            ChatEvent::ThinkingDelta { index, text } => ChatEventV::ThinkingDelta {
                index: *index,
                text: text@,
            },
            ChatEvent::InputJsonDelta { index, text } => ChatEventV::InputJsonDelta {
                index: *index,
                text: text@,
            },
            ChatEvent::ContentBlockStop { index } => ChatEventV::ContentBlockStop { index: *index },
            ChatEvent::ToolResult { tool_use_id, text, is_error } => ChatEventV::ToolResult {
                tool_use_id: tool_use_id@,
                text: text@,
                is_error: *is_error,
            },
            ChatEvent::MessageStop => ChatEventV::MessageStop,
            ChatEvent::Done => ChatEventV::Done,
            ChatEvent::Error { content } => ChatEventV::Error { content: content@ },
            ChatEvent::RuleWarning { content } => ChatEventV::RuleWarning { content: content@ },
        }
    }
}

pub open spec fn events_v(v: Seq<ChatEvent>) -> Seq<ChatEventV> {
    v.map_values(|e: ChatEvent| e@)
}

pub open spec fn strings_v(v: Seq<String>) -> Seq<Seq<char>> {
    v.map_values(|s: String| s@)
}

// ========== SSE framing ==========

/// Data lines joined with `\n` (the SSE rule for multi-line data).
pub open spec fn join_nl(s: Seq<Seq<char>>) -> Seq<char>
    decreases s.len(),
{
    if s.len() == 0 {
        Seq::empty()
    } else if s.len() == 1 {
        s[0]
    } else {
        join_nl(s.drop_last()) + seq!['\n'] + s.last()
    }
}

/// What one line does to the pending data lines: a blank line closes a
/// frame when data is pending (blank lines alone make no frame); `:` lines
/// are comments; `data:` lines add their value (one leading space
/// dropped); other fields are ignored. Gives (frame closed, pending after).
pub open spec fn sse_line(acc: Seq<Seq<char>>, line: Seq<char>) -> (Option<Seq<char>>, Seq<Seq<char>>) {
    if line.len() == 0 {
        if acc.len() == 0 {
            (None, acc)
        } else {
            (Some(join_nl(acc)), Seq::empty())
        }
    } else if line[0] == ':' {
        (None, acc)
    } else if line.len() >= 5 && line.take(5) == seq!['d', 'a', 't', 'a', ':'] {
        let rest = line.skip(5);
        (None, acc.push(if rest.len() > 0 && rest[0] == ' ' {
            rest.skip(1)
        } else {
            rest
        }))
    } else {
        (None, acc)
    }
}

/// The first complete line of `b`: (decoded text without `\r\n`, rest).
pub open spec fn sse_first_line(b: Seq<u8>) -> (Seq<char>, Seq<u8>) {
    let p = nl_pos(b);
    (lossy(strip_cr(b.take(p as int))), b.skip(p as int + 1))
}

/// Runs complete lines until a frame closes: (frame, rest, pending after).
pub open spec fn sse_next(b: Seq<u8>, acc: Seq<Seq<char>>) -> (Option<Seq<char>>, Seq<u8>, Seq<Seq<char>>)
    decreases b.len(),
{
    if nl_pos(b) >= b.len() {
        (None, b, acc)
    } else {
        let (line, rest) = sse_first_line(b);
        let (f, acc2) = sse_line(acc, line);
        match f {
            Some(fr) => (Some(fr), rest, acc2),
            None => sse_next(rest, acc2),
        }
    }
}

/// Runs all complete lines: (every frame closed, in order; the incomplete
/// tail; pending data lines after).
pub open spec fn sse_all(b: Seq<u8>, acc: Seq<Seq<char>>) -> (Seq<Seq<char>>, Seq<u8>, Seq<Seq<char>>)
    decreases b.len(),
{
    if nl_pos(b) >= b.len() {
        (Seq::empty(), b, acc)
    } else {
        let (line, rest) = sse_first_line(b);
        let (f, acc2) = sse_line(acc, line);
        let (fs, r, a) = sse_all(rest, acc2);
        (
            match f {
                Some(fr) => seq![fr] + fs,
                None => fs,
            },
            r,
            a,
        )
    }
}

/// SSE framing does not depend on how the byte stream was cut: taking all
/// frames of `b`, then appending `c` to what was left and taking all
/// frames again, gives the same frames, tail and pending data as taking
/// all frames of `b + c` at once.
pub proof fn lemma_sse_pieces(b: Seq<u8>, c: Seq<u8>, acc: Seq<Seq<char>>)
    ensures
        ({
            let (f1, r1, a1) = sse_all(b, acc);
            let (f2, r2, a2) = sse_all(r1 + c, a1);
            sse_all(b + c, acc) == (f1 + f2, r2, a2)
        }),
    decreases b.len(),
{
    let (f1, r1, a1) = sse_all(b, acc);
    if nl_pos(b) >= b.len() {
        assert(f1 + sse_all(r1 + c, a1).0 =~= sse_all(r1 + c, a1).0);
    } else {
        lemma_nl_pos(b);
        lemma_nl_pos_append(b, c);
        let p = nl_pos(b);
        assert((b + c).take(p as int) =~= b.take(p as int));
        assert((b + c).skip(p as int + 1) =~= b.skip(p as int + 1) + c);
        let (line, rest) = sse_first_line(b);
        let (f, acc2) = sse_line(acc, line);
        lemma_sse_pieces(rest, c, acc2);
        let (g1, s1, t1) = sse_all(rest, acc2);
        let (g2, s2, t2) = sse_all(s1 + c, t1);
        match f {
            Some(fr) => {
                assert(seq![fr] + g1 + g2 =~= seq![fr] + (g1 + g2));
            },
            None => {},
        }
    }
}

/// The chunks joined into one byte stream.
pub open spec fn join_chunks(cs: Seq<Seq<u8>>) -> Seq<u8>
    decreases cs.len(),
{
    if cs.len() == 0 {
        Seq::empty()
    } else {
        cs[0] + join_chunks(cs.drop_first())
    }
}

/// A parser with pending bytes `r` and frame data `a` fed the chunks one by
/// one, draining every complete frame after each: (all frames, pending
/// bytes, frame data) at the end.
pub open spec fn sse_feed_chunks(cs: Seq<Seq<u8>>, r: Seq<u8>, a: Seq<Seq<char>>) -> (Seq<Seq<char>>, Seq<u8>, Seq<Seq<char>>)
    decreases cs.len(),
{
    if cs.len() == 0 {
        (Seq::empty(), r, a)
    } else {
        let (f1, r1, a1) = sse_all(r + cs[0], a);
        let (f2, r2, a2) = sse_feed_chunks(cs.drop_first(), r1, a1);
        (f1 + f2, r2, a2)
    }
}

/// SSE framing under any cutting: feeding a stream in any number of chunks
/// (draining after each) gives the same frames, pending bytes and frame
/// data as feeding it whole, from any drained parser state (pending bytes
/// hold no complete line).
pub proof fn lemma_sse_chunks(cs: Seq<Seq<u8>>, r: Seq<u8>, a: Seq<Seq<char>>)
    requires
        nl_pos(r) >= r.len(),
    ensures
        sse_feed_chunks(cs, r, a) == sse_all(r + join_chunks(cs), a),
    decreases cs.len(),
{
    if cs.len() == 0 {
        assert(r + join_chunks(cs) =~= r);
    } else {
        let c0 = cs[0];
        let rest = join_chunks(cs.drop_first());
        lemma_sse_pieces(r + c0, rest, a);
        let (f1, r1, a1) = sse_all(r + c0, a);
        lemma_sse_drained(r + c0, a);
        lemma_sse_chunks(cs.drop_first(), r1, a1);
        assert(r + c0 + rest =~= r + join_chunks(cs));
        let (f2, r2, a2) = sse_feed_chunks(cs.drop_first(), r1, a1);
        assert((f1 + f2, r2, a2) == sse_all(r + join_chunks(cs), a));
    }
}

/// What draining leaves pending holds no complete line.
pub proof fn lemma_sse_drained(b: Seq<u8>, acc: Seq<Seq<char>>)
    ensures
        nl_pos(sse_all(b, acc).1) >= sse_all(b, acc).1.len(),
    decreases b.len(),
{
    if nl_pos(b) < b.len() {
        lemma_nl_pos(b);
        let (line, rest) = sse_first_line(b);
        let (f, acc2) = sse_line(acc, line);
        lemma_sse_drained(rest, acc2);
    }
}

/// Incremental SSE parser: tolerates arbitrary cuts, glued frames, half
/// frames, CRLF and comment lines. Yields each frame's data payload.
pub struct SseParser {
    buf: Vec<u8>,
    data_lines: Vec<String>,
}

impl SseParser {
    /// Bytes received but not yet consumed as complete lines.
    pub closed spec fn pending(&self) -> Seq<u8> {
        self.buf@
    }

    /// Data lines of the frame under way.
    pub closed spec fn data(&self) -> Seq<Seq<char>> {
        strings_v(self.data_lines@)
    }

    pub fn new() -> (p: Self)
        ensures
            p.pending() == Seq::<u8>::empty(),
            p.data() == Seq::<Seq<char>>::empty(),
    {
        let p = SseParser { buf: Vec::new(), data_lines: Vec::new() };
        assert(p.data() =~= Seq::<Seq<char>>::empty());
        p
    }

    /// Feeds bytes cut anywhere.
    pub fn feed(&mut self, bytes: &[u8])
        ensures
            final(self).pending() == old(self).pending() + bytes@,
            final(self).data() == old(self).data(),
    {
        extend_bytes(&mut self.buf, bytes, 0, bytes.len());
        assert(bytes@.subrange(0, bytes@.len() as int) =~= bytes@);
    }

    /// Takes the first complete line off the buffer, if there is one.
    fn take_line(&mut self) -> (r: Option<String>)
        ensures
            final(self).data_lines == old(self).data_lines,
            nl_pos(old(self).buf@) >= old(self).buf@.len() ==> (r is None && final(self).buf@
                == old(self).buf@),
            nl_pos(old(self).buf@) < old(self).buf@.len() ==> (r matches Some(l)
                && (l@, final(self).buf@) == sse_first_line(old(self).buf@)),
    {
        let ghost b = self.buf@;
        let mut i: usize = 0;
        assert(b.skip(0) =~= b);
        while i < self.buf.len() && self.buf[i] != 10u8
            invariant
                i <= self.buf@.len(),
                self.buf@ == b,
                nl_pos(b) == i + nl_pos(b.skip(i as int)),
            decreases self.buf.len() - i,
        {
            assert(b.skip(i as int).drop_first() =~= b.skip(i + 1));
            i += 1;
        }
        if i >= self.buf.len() {
            return None;
        }
        let end = if i > 0 && self.buf[i - 1] == 13u8 { i - 1 } else { i };
        let raw = sub_vec(self.buf.as_slice(), 0, end);
        let rest = sub_vec(self.buf.as_slice(), i + 1, self.buf.len());
        self.buf = rest;
        assert(raw@ =~= strip_cr(b.take(i as int)));
        assert(rest@ =~= b.skip(i + 1));
        Some(lossy_string(raw.as_slice()))
    }

    /// Joins and clears the pending data lines.
    fn take_frame(&mut self) -> (r: String)
        ensures
            r@ == join_nl(old(self).data()),
            final(self).data() == Seq::<Seq<char>>::empty(),
            final(self).buf == old(self).buf,
    {
        let mut s = String::new();
        let mut i: usize = 0;
        while i < self.data_lines.len()
            invariant
                i <= self.data_lines@.len(),
                s@ == join_nl(strings_v(self.data_lines@).take(i as int)),
            decreases self.data_lines.len() - i,
        {
            if i > 0 {
                push_str(&mut s, "\n");
                proof {
                    reveal_strlit("\n");
                }
            }
            push_str(&mut s, self.data_lines[i].as_str());
            let ghost t = strings_v(self.data_lines@).take(i + 1);
            assert(t.drop_last() =~= strings_v(self.data_lines@).take(i as int));
            i += 1;
        }
        assert(strings_v(self.data_lines@).take(self.data_lines@.len() as int) =~= strings_v(
            self.data_lines@,
        ));
        self.data_lines = Vec::new();
        assert(strings_v(self.data_lines@) =~= Seq::<Seq<char>>::empty());
        s
    }

    /// Applies one line (see `sse_line`).
    fn on_line(&mut self, line: String) -> (r: Option<String>)
        ensures
            (match r {
                Some(f) => Some(f@),
                None => None::<Seq<char>>,
            }, final(self).data()) == sse_line(old(self).data(), line@),
            final(self).buf == old(self).buf,
    {
        let cs = chars_of(line.as_str());
        if cs.len() == 0 {
            if self.data_lines.len() == 0 {
                return None;
            }
            return Some(self.take_frame());
        }
        if cs[0] == ':' {
            return None;
        }
        if cs.len() >= 5 && cs[0] == 'd' && cs[1] == 'a' && cs[2] == 't' && cs[3] == 'a' && cs[4]
            == ':' {
            assert(cs@.take(5) =~= seq!['d', 'a', 't', 'a', ':']);
            let from: usize = if cs.len() > 5 && cs[5] == ' ' { 6 } else { 5 };
            let v = sub_vec(cs.as_slice(), from, cs.len());
            let ghost rest = cs@.skip(5);
            assert(v@ =~= (if rest.len() > 0 && rest[0] == ' ' {
                rest.skip(1)
            } else {
                rest
            }));
            let ghost before = self.data_lines@;
            self.data_lines.push(string_from_chars(v.as_slice()));
            assert(strings_v(self.data_lines@) =~= strings_v(before).push(v@));
            return None;
        }
        proof {
            if cs@.len() >= 5 && cs@.take(5) == seq!['d', 'a', 't', 'a', ':'] {
                assert(cs@.take(5)[0] == 'd');
                assert(cs@.take(5)[1] == 'a');
                assert(cs@.take(5)[2] == 't');
                assert(cs@.take(5)[3] == 'a');
                assert(cs@.take(5)[4] == ':');
            }
        }
        None
    }

    /// The next complete frame's payload; `None` while no frame is
    /// complete (a half frame stays buffered).
    pub fn next_frame(&mut self) -> (r: Option<String>)
        ensures
            ({
                let (f, rest, acc) = sse_next(old(self).pending(), old(self).data());
                &&& match r {
                    Some(s) => f == Some(s@),
                    None => f is None,
                }
                &&& final(self).pending() == rest
                &&& final(self).data() == acc
            }),
    {
        loop
            invariant
                sse_next(self.pending(), self.data()) == sse_next(old(self).pending(), old(self).data()),
            decreases self.buf@.len(),
        {
            let ghost b = self.buf@;
            proof {
                lemma_nl_pos(b);
            }
            match self.take_line() {
                None => {
                    return None;
                },
                Some(line) => {
                    match self.on_line(line) {
                        Some(f) => {
                            return Some(f);
                        },
                        None => {},
                    }
                },
            }
        }
    }

    /// Takes every complete frame now in the buffer.
    pub fn drain_frames(&mut self) -> (out: Vec<String>)
        ensures
            ({
                let (fs, rest, acc) = sse_all(old(self).pending(), old(self).data());
                &&& strings_v(out@) == fs
                &&& final(self).pending() == rest
                &&& final(self).data() == acc
            }),
    {
        let mut out: Vec<String> = Vec::new();
        loop
            invariant
                ({
                    let (fs, rest, acc) = sse_all(old(self).pending(), old(self).data());
                    let (fs2, rest2, acc2) = sse_all(self.pending(), self.data());
                    &&& fs == strings_v(out@) + fs2
                    &&& rest == rest2
                    &&& acc == acc2
                }),
            decreases self.buf@.len(),
        {
            let ghost b = self.buf@;
            proof {
                lemma_nl_pos(b);
            }
            match self.take_line() {
                None => {
                    assert(strings_v(out@) + Seq::<Seq<char>>::empty() =~= strings_v(out@));
                    return out;
                },
                Some(line) => {
                    match self.on_line(line) {
                        Some(f) => {
                            let ghost before = out@;
                            out.push(f);
                            assert(strings_v(out@) =~= strings_v(before).push(f@));
                            let ghost tail = sse_all(self.pending(), self.data()).0;
                            assert(strings_v(before) + (seq![f@] + tail) =~= strings_v(out@)
                                + tail);
                        },
                        None => {},
                    }
                },
            }
        }
    }
}

// ========== Upstream OpenAI chunks to internal events ==========

/// `MessageStart` + `ContentBlockStart` of block 0, unless already started.
pub open spec fn lazy_start(started: bool) -> Seq<ChatEventV> {
    if started {
        Seq::empty()
    } else {
        seq![ChatEventV::MessageStart, ChatEventV::ContentBlockStart { index: 0, tool_use: None }]
    }
}

/// Events of the first choice of a chunk: non-empty reasoning text, then
/// non-empty content text (each preceded by the lazy start), then, when a
/// finish reason is present and the message has started, the block and
/// message stops. Gives (started after, events).
pub open spec fn choice_events(started: bool, choice: JsonV) -> (bool, Seq<ChatEventV>) {
    let delta = jget(choice, "delta"@);
    let rc = match delta {
        Some(d) => jstr(jget(d, "reasoning_content"@)),
        None => None,
    };
    let ct = match delta {
        Some(d) => jstr(jget(d, "content"@)),
        None => None,
    };
    let (s1, e1) = match rc {
        Some(t) if t.len() > 0 => (true, lazy_start(started).push(
            ChatEventV::ThinkingDelta { index: 0, text: t },
        )),
        _ => (started, Seq::empty()),
    };
    let (s2, e2) = match ct {
        Some(t) if t.len() > 0 => (true, e1 + lazy_start(s1).push(
            ChatEventV::TextDelta { index: 0, text: t },
        )),
        _ => (s1, e1),
    };
    if jstr(jget(choice, "finish_reason"@)) is Some && s2 {
        (s2, e2 + seq![ChatEventV::ContentBlockStop { index: 0 }, ChatEventV::MessageStop])
    } else {
        (s2, e2)
    }
}

/// Events of one parsed chunk: a chunk without a non-empty `choices` array
/// gives nothing; otherwise the first choice's events.
pub open spec fn chunk_events_spec(started: bool, chunk: JsonV) -> (bool, Seq<ChatEventV>) {
    match jget(chunk, "choices"@) {
        Some(JsonV::Array(cs)) => if cs.len() > 0 {
            choice_events(started, cs[0])
        } else {
            (started, Seq::empty())
        },
        _ => (started, Seq::empty()),
    }
}

/// Translation of one frame payload (surrounding white space ignored):
/// `[DONE]` gives `Done`; text that is not JSON gives one `Error`; otherwise
/// the parsed chunk's events.
pub open spec fn translate_spec(started: bool, payload: Seq<char>) -> (bool, Seq<ChatEventV>) {
    let p = trim(payload);
    if p == "[DONE]"@ {
        (started, seq![ChatEventV::Done])
    } else {
        match json_parse(p) {
            Err(e) => (started, seq![ChatEventV::Error { content: "上游帧 JSON 解析失败: "@ + e }]),
            Ok(chunk) => chunk_events_spec(started, chunk),
        }
    }
}

pub proof fn lemma_json_vs(s: Seq<Json>)
    ensures
        json_vs(s).len() == s.len(),
        forall|i: int| 0 <= i < s.len() ==> #[trigger] json_vs(s)[i] == json_v(s[i]),
    decreases s.len(),
{
    if s.len() > 0 {
        lemma_json_vs(s.drop_last());
    }
}

pub proof fn lemma_json_es(s: Seq<(String, Json)>)
    ensures
        json_es(s).len() == s.len(),
        forall|i: int| 0 <= i < s.len() ==> #[trigger] json_es(s)[i] == (s[i].0@, json_v(s[i].1)),
    decreases s.len(),
{
    if s.len() > 0 {
        lemma_json_es(s.drop_last());
    }
}

/// `Value::get`: the member named `key` of an object.
pub fn json_get<'a>(j: &'a Json, key: &str) -> (r: Option<&'a Json>)
    ensures
        match r {
            Some(x) => jget(j@, key@) == Some(x@),
            None => jget(j@, key@) is None,
        },
{
    match j {
        Json::Object(es) => {
            proof {
                lemma_json_es(es@);
            }
            let ghost ev = json_es(es@);
            let mut i: usize = 0;
            assert(ev.skip(0) =~= ev);
            assert(j@ == JsonV::Object(ev));
            while i < es.len()
                invariant
                    j@ == JsonV::Object(ev),
                    i <= es@.len(),
                    ev == json_es(es@),
                    ev.len() == es@.len(),
                    forall|k: int| 0 <= k < es@.len() ==> #[trigger] ev[k] == (es@[k].0@, json_v(
                        es@[k].1,
                    )),
                    key_index(ev, key@) == i + key_index(ev.skip(i as int), key@),
                decreases es.len() - i,
            {
                assert(ev.skip(i as int)[0] == ev[i as int]);
                if str_eq(es[i].0.as_str(), key) {
                    assert(j@ == JsonV::Object(ev));
                    assert(key_index(ev.skip(i as int), key@) == 0);
                    return Some(&es[i].1);
                }
                assert(ev.skip(i as int).drop_first() =~= ev.skip(i + 1));
                i += 1;
            }
            assert(j@ == JsonV::Object(ev));
            None
        },
        _ => None,
    }
}

/// `Value::as_str` on an optional member.
pub fn json_str<'a>(j: Option<&'a Json>) -> (r: Option<&'a str>)
    ensures
        match r {
            Some(s) => jstr(match j {
                Some(x) => Some(x@),
                None => None,
            }) == Some(s@),
            None => jstr(match j {
                Some(x) => Some(x@),
                None => None,
            }) is None,
        },
{
    match j {
        Some(Json::Str(s)) => Some(s.as_str()),
        _ => None,
    }
}

/// Upstream OpenAI stream chunks to internal events. Its only state is
/// whether the message has started (the first content lazily emits
/// `MessageStart` + `ContentBlockStart`).
pub struct OpenAiTranslator {
    started: bool,
}

impl OpenAiTranslator {
    pub closed spec fn is_started(&self) -> bool {
        self.started
    }

    pub fn new() -> (t: Self)
        ensures
            !t.is_started(),
    {
        OpenAiTranslator { started: false }
    }

    fn lazy_start(&mut self, out: &mut Vec<ChatEvent>)
        ensures
            final(self).started,
            events_v(final(out)@) == events_v(old(out)@) + lazy_start(old(self).started),
    {
        let ghost before = out@;
        if !self.started {
            self.started = true;
            out.push(ChatEvent::MessageStart);
            out.push(ChatEvent::ContentBlockStart { index: 0, tool_use: None });
            assert(events_v(out@) =~= events_v(before) + lazy_start(false));
        } else {
            assert(events_v(out@) =~= events_v(before) + lazy_start(true));
        }
    }

    fn choice(&mut self, choice: &Json) -> (out: Vec<ChatEvent>)
        ensures
            (final(self).started, events_v(out@)) == choice_events(old(self).started, choice@),
    {
        let mut out: Vec<ChatEvent> = Vec::new();
        let delta = json_get(choice, "delta");
        let rc = match delta {
            Some(d) => json_str(json_get(d, "reasoning_content")),
            None => None,
        };
        let ct = match delta {
            Some(d) => json_str(json_get(d, "content")),
            None => None,
        };
        assert(events_v(out@) =~= Seq::<ChatEventV>::empty());
        match rc {
            Some(t) => {
                if !t.is_empty() {
                    self.lazy_start(&mut out);
                    let ghost before = out@;
                    out.push(ChatEvent::ThinkingDelta { index: 0, text: t.to_owned() });
                    assert(events_v(out@) =~= events_v(before).push(
                        ChatEventV::ThinkingDelta { index: 0, text: t@ },
                    ));
                }
            },
            None => {},
        }
        match ct {
            Some(t) => {
                if !t.is_empty() {
                    self.lazy_start(&mut out);
                    let ghost before = out@;
                    out.push(ChatEvent::TextDelta { index: 0, text: t.to_owned() });
                    assert(events_v(out@) =~= events_v(before).push(
                        ChatEventV::TextDelta { index: 0, text: t@ },
                    ));
                }
            },
            None => {},
        }
        let fin = json_str(json_get(choice, "finish_reason"));
        if fin.is_some() && self.started {
            let ghost before = out@;
            out.push(ChatEvent::ContentBlockStop { index: 0 });
            out.push(ChatEvent::MessageStop);
            assert(events_v(out@) =~= events_v(before) + seq![
                ChatEventV::ContentBlockStop { index: 0 },
                ChatEventV::MessageStop,
            ]);
        }
        out
    }

    /// Translates one frame payload into zero or more events (see
    /// `translate_spec`): silent frames are normal (role-only, empty delta,
    /// usage-only); a bad JSON frame becomes one `Error` event.
    pub fn translate_payload(&mut self, payload: &str) -> (out: Vec<ChatEvent>)
        ensures
            (final(self).is_started(), events_v(out@)) == translate_spec(
                old(self).is_started(),
                payload@,
            ),
    {
        let cs = chars_of(payload);
        let tv = trimmed(cs.as_slice(), 0, cs.len());
        assert(cs@.subrange(0, cs@.len() as int) =~= payload@);
        let t = string_from_chars(tv.as_slice());
        let mut out: Vec<ChatEvent> = Vec::new();
        if str_eq(t.as_str(), "[DONE]") {
            out.push(ChatEvent::Done);
            assert(events_v(out@) =~= seq![ChatEventV::Done]);
            return out;
        }
        let chunk = match parse_json(t.as_str()) {
            Ok(v) => v,
            Err(e) => {
                let mut m = "上游帧 JSON 解析失败: ".to_owned();
                push_str(&mut m, e.as_str());
                out.push(ChatEvent::Error { content: m });
                assert(events_v(out@) =~= seq![ChatEventV::Error { content: m@ }]);
                return out;
            },
        };
        self.chunk_events(&chunk)
    }

    /// Events of one parsed stream chunk (see `chunk_events_spec`).
    pub fn chunk_events(&mut self, chunk: &Json) -> (out: Vec<ChatEvent>)
        ensures
            (final(self).is_started(), events_v(out@)) == chunk_events_spec(
                old(self).is_started(),
                chunk@,
            ),
    {
        let out: Vec<ChatEvent> = Vec::new();
        match json_get(chunk, "choices") {
            Some(Json::Array(cs)) => {
                proof {
                    lemma_json_vs(cs@);
                }
                if cs.len() > 0 {
                    return self.choice(&cs[0]);
                }
            },
            _ => {},
        }
        assert(events_v(out@) =~= Seq::<ChatEventV>::empty());
        out
    }
}


/// Events of a whole upstream SSE text: every complete frame, translated
/// in order by one translator.
pub open spec fn upstream_events(raw: Seq<u8>) -> Seq<ChatEventV> {
    upstream_events_from(false, sse_all(raw, Seq::empty()).0)
}

pub open spec fn upstream_events_from(started: bool, frames: Seq<Seq<char>>) -> Seq<ChatEventV>
    decreases frames.len(),
{
    if frames.len() == 0 {
        Seq::empty()
    } else {
        let (s2, evs) = translate_spec(started, frames[0]);
        evs + upstream_events_from(s2, frames.drop_first())
    }
}

/// The events of a whole upstream SSE text, through the same parser and
/// translator as the live stream (a last frame without its blank line is
/// not complete and yields nothing).
pub fn events_from_upstream_sse(raw: &str) -> (out: Vec<ChatEvent>)
    ensures
        events_v(out@) == upstream_events(raw.spec_bytes()),
{
    let mut p = SseParser::new();
    p.feed(raw.as_bytes());
    assert(Seq::<u8>::empty() + raw.spec_bytes() =~= raw.spec_bytes());
    let frames = p.drain_frames();
    let mut tr = OpenAiTranslator::new();
    let mut out: Vec<ChatEvent> = Vec::new();
    let mut i: usize = 0;
    assert(strings_v(frames@).skip(0) =~= strings_v(frames@));
    while i < frames.len()
        invariant
            i <= frames@.len(),
            strings_v(frames@) == sse_all(raw.spec_bytes(), Seq::empty()).0,
            upstream_events(raw.spec_bytes()) == events_v(out@) + upstream_events_from(
                tr.is_started(),
                strings_v(frames@).skip(i as int),
            ),
        decreases frames.len() - i,
    {
        let ghost s0 = tr.is_started();
        let evs = tr.translate_payload(frames[i].as_str());
        let ghost before = out@;
        let mut k: usize = 0;
        while k < evs.len()
            invariant
                k <= evs@.len(),
                events_v(out@) == events_v(before) + events_v(evs@.take(k as int)),
            decreases evs.len() - k,
        {
            let ghost o = out@;
            out.push(evs[k].clone_event());
            assert(events_v(out@) =~= events_v(o).push(evs@[k as int]@));
            assert(events_v(evs@.take(k + 1)) =~= events_v(evs@.take(k as int)).push(evs@[k as int]@));
            k += 1;
        }
        assert(evs@.take(evs@.len() as int) =~= evs@);
        assert(strings_v(frames@).skip(i as int)[0] == frames@[i as int]@);
        assert(strings_v(frames@).skip(i as int).drop_first() =~= strings_v(frames@).skip(i + 1));
        i += 1;
    }
    assert(strings_v(frames@).skip(i as int) =~= Seq::<Seq<char>>::empty());
    assert(events_v(out@) + Seq::<ChatEventV>::empty() =~= events_v(out@));
    out
}

impl ChatEvent {
    /// A copy with the same view.
    pub fn clone_event(&self) -> (e: ChatEvent)
        ensures
            e@ == self@,
    {
        match self {
            ChatEvent::MessageStart => ChatEvent::MessageStart,
            ChatEvent::ContentBlockStart { index, tool_use } => ChatEvent::ContentBlockStart {
                index: *index,
                tool_use: match tool_use {
                    Some((a, b)) => Some((a.clone(), b.clone())),
                    None => None,
                },
            },
            ChatEvent::TextDelta { index, text } => ChatEvent::TextDelta { index: *index, text: text.clone() },
            ChatEvent::ThinkingDelta { index, text } => ChatEvent::ThinkingDelta {
                index: *index,
                text: text.clone(),
            },
            ChatEvent::InputJsonDelta { index, text } => ChatEvent::InputJsonDelta {
                index: *index,
                text: text.clone(),
            },
            ChatEvent::ContentBlockStop { index } => ChatEvent::ContentBlockStop { index: *index },
            ChatEvent::ToolResult { tool_use_id, text, is_error } => ChatEvent::ToolResult {
                tool_use_id: tool_use_id.clone(),
                text: text.clone(),
                is_error: *is_error,
            },
            ChatEvent::MessageStop => ChatEvent::MessageStop,
            ChatEvent::Done => ChatEvent::Done,
            ChatEvent::Error { content } => ChatEvent::Error { content: content.clone() },
            ChatEvent::RuleWarning { content } => ChatEvent::RuleWarning { content: content.clone() },
        }
    }
}

// ========== Run accumulation (with reasoning relocation) ==========

/// Folds the event stream into the final message. On a normal end
/// (`MessageStop` / `Done`) with empty text and non-empty thinking, the
/// thinking is relocated to be the text.
pub struct RunAccumulator {
    text: String,
    thinking: String,
    relocated: bool,
}

/// (text, thinking, relocated) after one event.
pub open spec fn acc_step(st: (Seq<char>, Seq<char>, bool), ev: ChatEventV) -> (Seq<char>, Seq<char>, bool) {
    match ev {
        ChatEventV::TextDelta { text, .. } => (st.0 + text, st.1, st.2),
        ChatEventV::ThinkingDelta { text, .. } => (st.0, st.1 + text, st.2),
        ChatEventV::MessageStop | ChatEventV::Done => if st.0.len() == 0 && st.1.len() > 0 {
            (st.1, Seq::empty(), true)
        } else {
            st
        },
        _ => st,
    }
}

/// The accumulator after a whole event sequence from a fresh start.
pub open spec fn acc_fold(evs: Seq<ChatEventV>) -> (Seq<char>, Seq<char>, bool)
    decreases evs.len(),
{
    if evs.len() == 0 {
        (Seq::empty(), Seq::empty(), false)
    } else {
        acc_step(acc_fold(evs.drop_last()), evs.last())
    }
}

impl RunAccumulator {
    pub closed spec fn state(&self) -> (Seq<char>, Seq<char>, bool) {
        (self.text@, self.thinking@, self.relocated)
    }

    pub fn new() -> (a: Self)
        ensures
            a.state() == acc_fold(Seq::empty()),
    {
        RunAccumulator { text: String::new(), thinking: String::new(), relocated: false }
    }

    pub fn apply(&mut self, ev: &ChatEvent)
        ensures
            final(self).state() == acc_step(old(self).state(), ev@),
    {
        match ev {
            ChatEvent::TextDelta { text, .. } => push_str(&mut self.text, text.as_str()),
            ChatEvent::ThinkingDelta { text, .. } => push_str(&mut self.thinking, text.as_str()),
            ChatEvent::MessageStop | ChatEvent::Done => self.maybe_relocate(),
            _ => {},
        }
    }

    fn maybe_relocate(&mut self)
        ensures
            final(self).state() == (if old(self).text@.len() == 0 && old(self).thinking@.len() > 0 {
                (old(self).thinking@, Seq::<char>::empty(), true)
            } else {
                old(self).state()
            }),
    {
        if self.text.as_str().is_empty() && !self.thinking.as_str().is_empty() {
            let mut t = String::new();
            std::mem::swap(&mut t, &mut self.thinking);
            self.text = t;
            self.relocated = true;
        }
    }

    pub fn final_text(&self) -> (s: &str)
        ensures
            s@ == self.state().0,
    {
        self.text.as_str()
    }

    pub fn thinking(&self) -> (s: &str)
        ensures
            s@ == self.state().1,
    {
        self.thinking.as_str()
    }

    /// Whether the thinking was relocated to be the text.
    pub fn relocated(&self) -> (b: bool)
        ensures
            b == self.state().2,
    {
        self.relocated
    }
}

/// Nothing is lost: after any event sequence, the text and thinking
/// together hold every text delta and every thinking delta, the text part
/// coming first unless a relocation happened (then the thinking came
/// first and became the text).
pub open spec fn deltas(evs: Seq<ChatEventV>, thinking: bool) -> Seq<char>
    decreases evs.len(),
{
    if evs.len() == 0 {
        Seq::empty()
    } else {
        deltas(evs.drop_last(), thinking) + match evs.last() {
            ChatEventV::TextDelta { text, .. } => if thinking {
                Seq::empty()
            } else {
                text
            },
            ChatEventV::ThinkingDelta { text, .. } => if thinking {
                text
            } else {
                Seq::empty()
            },
            _ => Seq::empty(),
        }
    }
}

/// The accumulator loses no delta. Without a relocation the text is every
/// text delta and the thinking every thinking delta, in order. After one,
/// the thinking deltas up to it lead the text, followed by every text
/// delta, and the thinking holds the thinking deltas since.
pub proof fn lemma_accumulator_keeps_deltas(evs: Seq<ChatEventV>)
    ensures
        ({
            let (t, h, rel) = acc_fold(evs);
            let tt = deltas(evs, false);
            let hh = deltas(evs, true);
            &&& !rel ==> t == tt && h == hh
            &&& rel ==> h.len() <= hh.len() && t == hh.take(hh.len() - h.len()) + tt && h
                == hh.skip(hh.len() - h.len())
        }),
    decreases evs.len(),
{
    if evs.len() > 0 {
        let prev = evs.drop_last();
        lemma_accumulator_keeps_deltas(prev);
        let (t0, h0, r0) = acc_fold(prev);
        let tt0 = deltas(prev, false);
        let hh0 = deltas(prev, true);
        let (t, h, rel) = acc_fold(evs);
        let tt = deltas(evs, false);
        let hh = deltas(evs, true);
        match evs.last() {
            ChatEventV::TextDelta { text, .. } => {
                assert(tt == tt0 + text);
                assert(hh =~= hh0);
                if r0 {
                    assert(t =~= hh.take(hh.len() - h.len()) + tt);
                }
            },
            ChatEventV::ThinkingDelta { text, .. } => {
                assert(hh == hh0 + text);
                assert(tt =~= tt0);
                if r0 {
                    assert(hh.take(hh.len() - h.len()) =~= hh0.take(hh0.len() - h0.len()));
                    assert(h =~= hh.skip(hh.len() - h.len()));
                }
            },
            ChatEventV::MessageStop | ChatEventV::Done => {
                assert(tt =~= tt0);
                assert(hh =~= hh0);
                if t0.len() == 0 && h0.len() > 0 {
                    if r0 {
                        assert(hh0.take(hh0.len() - h0.len()).len() == 0);
                    }
                    assert(hh.take(hh.len() - h.len()) =~= hh);
                    assert(hh.skip(hh.len() - h.len()) =~= Seq::<char>::empty());
                    assert(t =~= hh.take(hh.len() - h.len()) + tt);
                }
            },
            _ => {
                assert(tt =~= tt0);
                assert(hh =~= hh0);
            },
        }
    }
}


// ========== Upstream HTTP errors and the request body ==========

/// Longest raw error body quoted in an error event, in chars.
pub const ERROR_BODY_CAP: usize = 300;

/// A parse outcome, mathematically.
pub open spec fn parsed_view(r: Result<Json, String>) -> Result<JsonV, Seq<char>> {
    match r {
        Ok(j) => Ok(j@),
        Err(m) => Err(m@),
    }
}

/// The detail of a non-200 reply from the body and its parse outcome:
/// `error.message` when the body parsed to JSON holding one, else the body
/// cut to its first 300 chars.
pub open spec fn http_error_detail_from(parsed: Result<JsonV, Seq<char>>, body: Seq<char>) -> Seq<char> {
    let raw = if body.len() <= ERROR_BODY_CAP {
        body
    } else {
        body.take(ERROR_BODY_CAP as int)
    };
    match parsed {
        Ok(v) => match jget(v, "error"@) {
            Some(e) => match jstr(jget(e, "message"@)) {
                Some(m) => m,
                None => raw,
            },
            None => raw,
        },
        Err(_) => raw,
    }
}

/// The detail of a non-200 reply (see `http_error_detail_from`), with the
/// body parsed as JSON.
pub open spec fn http_error_detail(body: Seq<char>) -> Seq<char> {
    http_error_detail_from(json_parse(body), body)
}

/// The detail of a non-200 reply, given the body and its parse outcome.
pub fn http_error_detail_of(parsed: &Result<Json, String>, body: &str) -> (d: String)
    ensures
        d@ == http_error_detail_from(parsed_view(*parsed), body@),
{
    let mut detail: Option<String> = None;
    match parsed {
        Ok(v) => match json_get(v, "error") {
            Some(e) => match json_str(json_get(e, "message")) {
                Some(m) => {
                    detail = Some(m.to_owned());
                },
                None => {},
            },
            None => {},
        },
        Err(_) => {},
    }
    match detail {
        Some(d) => d,
        None => {
            let cs = chars_of(body);
            if cs.len() <= ERROR_BODY_CAP {
                body.to_owned()
            } else {
                let head = sub_vec(cs.as_slice(), 0, ERROR_BODY_CAP);
                assert(head@ =~= body@.take(ERROR_BODY_CAP as int));
                string_from_chars(head.as_slice())
            }
        },
    }
}

/// A non-200 reply as an `Error` event: `API 请求失败: <status> — <detail>`.
pub fn error_event_from_http(status: u16, body: &str) -> (e: ChatEvent)
    ensures
        e@ == (ChatEventV::Error {
            content: "API 请求失败: "@ + dec(status as nat) + " — "@ + http_error_detail(body@),
        }),
{
    let parsed = parse_json(body);
    let d = http_error_detail_of(&parsed, body);
    let mut content = "API 请求失败: ".to_owned();
    push_dec(&mut content, status as u64);
    push_str(&mut content, " — ");
    push_str(&mut content, d.as_str());
    ChatEvent::Error { content }
}

/// The streaming chat/completions request body, as a JSON value: model,
/// `stream: true`, `stream_options.include_usage: true`, and the messages
/// as `{role, content}` objects.
pub open spec fn chat_request_v(model: Seq<char>, messages: Seq<(String, String)>) -> JsonV {
    JsonV::Object(
        seq![
            ("model"@, JsonV::Str(model)),
            ("stream"@, JsonV::Bool(true)),
            ("stream_options"@, JsonV::Object(seq![("include_usage"@, JsonV::Bool(true))])),
            ("messages"@, JsonV::Array(messages.map_values(|m: (String, String)| message_v(m.0@, m.1@)))),
        ],
    )
}

pub open spec fn message_v(role: Seq<char>, content: Seq<char>) -> JsonV {
    JsonV::Object(seq![("role"@, JsonV::Str(role)), ("content"@, JsonV::Str(content))])
}

fn str_member(k: &str, v: &str) -> (e: (String, Json))
    ensures
        e.0@ == k@,
        e.1@ == JsonV::Str(v@),
{
    (k.to_owned(), Json::Str(v.to_owned()))
}

proof fn lemma_json_es_push(s: Seq<(String, Json)>, e: (String, Json))
    ensures
        json_es(s.push(e)) == json_es(s).push((e.0@, json_v(e.1))),
{
    assert(s.push(e).drop_last() =~= s);
}

proof fn lemma_json_vs_push(s: Seq<Json>, e: Json)
    ensures
        json_vs(s.push(e)) == json_vs(s).push(json_v(e)),
{
    assert(s.push(e).drop_last() =~= s);
}

/// The request body text (serde_json's compact rendering of
/// `chat_request_v`).
pub fn build_chat_request(model: &str, messages: &[(String, String)]) -> (s: String)
    ensures
        s@ == json_text(chat_request_v(model@, messages@)),
{
    let mut msgs: Vec<Json> = Vec::new();
    let mut i: usize = 0;
    while i < messages.len()
        invariant
            i <= messages@.len(),
            json_vs(msgs@) == messages@.take(i as int).map_values(
                |m: (String, String)| message_v(m.0@, m.1@),
            ),
        decreases messages.len() - i,
    {
        let mut m: Vec<(String, Json)> = Vec::new();
        let r = str_member("role", messages[i].0.as_str());
        proof {
            lemma_json_es_push(m@, r);
        }
        m.push(r);
        let c = str_member("content", messages[i].1.as_str());
        proof {
            lemma_json_es_push(m@, c);
        }
        m.push(c);
        let obj = Json::Object(m);
        assert(obj@ == message_v(messages@[i as int].0@, messages@[i as int].1@)) by {
            assert(json_es(Seq::<(String, Json)>::empty()) =~= Seq::<(Seq<char>, JsonV)>::empty());
            assert(json_es(m@) =~= seq![("role"@, JsonV::Str(messages@[i as int].0@)), ("content"@, JsonV::Str(messages@[i as int].1@))]);
        }
        proof {
            lemma_json_vs_push(msgs@, obj);
        }
        msgs.push(obj);
        assert(messages@.take(i + 1).map_values(|m: (String, String)| message_v(m.0@, m.1@))
            =~= messages@.take(i as int).map_values(|m: (String, String)| message_v(m.0@, m.1@)).push(
            message_v(messages@[i as int].0@, messages@[i as int].1@),
        ));
        i += 1;
    }
    assert(messages@.take(messages@.len() as int) =~= messages@);
    let mut opts: Vec<(String, Json)> = Vec::new();
    let inc = ("include_usage".to_owned(), Json::Bool(true));
    proof {
        lemma_json_es_push(opts@, inc);
    }
    opts.push(inc);
    let mut top: Vec<(String, Json)> = Vec::new();
    let e0 = str_member("model", model);
    proof {
        lemma_json_es_push(top@, e0);
    }
    top.push(e0);
    let e1 = ("stream".to_owned(), Json::Bool(true));
    proof {
        lemma_json_es_push(top@, e1);
    }
    top.push(e1);
    let e2 = ("stream_options".to_owned(), Json::Object(opts));
    proof {
        lemma_json_es_push(top@, e2);
    }
    top.push(e2);
    let e3 = ("messages".to_owned(), Json::Array(msgs));
    proof {
        lemma_json_es_push(top@, e3);
    }
    top.push(e3);
    let req = Json::Object(top);
    assert(req@ == chat_request_v(model@, messages@)) by {
        assert(json_es(Seq::<(String, Json)>::empty()) =~= Seq::<(Seq<char>, JsonV)>::empty());
        assert(json_es(opts@) =~= seq![("include_usage"@, JsonV::Bool(true))]);
        assert(json_es(top@) =~= seq![
            ("model"@, JsonV::Str(model@)),
            ("stream"@, JsonV::Bool(true)),
            ("stream_options"@, JsonV::Object(seq![("include_usage"@, JsonV::Bool(true))])),
            ("messages"@, JsonV::Array(messages@.map_values(|m: (String, String)| message_v(m.0@, m.1@)))),
        ]);
    }
    json_to_text(&req)
}

} // verus!
