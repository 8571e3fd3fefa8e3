//! The direct-API brain's pure part: splitting the provider's base URL,
//! building the chat request, and turning body bytes into events up to the
//! end of the run. The socket, TLS and the run thread are the shell's part.
use vstd::prelude::*;
use crate::text::{
    chars_of, idx_of, find_char, lemma_idx_of, sub_vec, string_from_chars, push_str, parse_u64,
    parse_u64_spec, push_chars, extend_bytes,
};
use crate::brain::{
    ChatEvent, ChatEventV, events_v, strings_v, SseParser, OpenAiTranslator, sse_all, translate_spec,
    build_chat_request, chat_request_v,
};
use crate::http1::Request;
use crate::json::json_text;

verus! {

/// `str::parse::<u16>`.
pub open spec fn parse_u16_spec(s: Seq<char>) -> Option<u16> {
    match parse_u64_spec(s) {
        Some(n) => if n <= u16::MAX {
            Some(n as u16)
        } else {
            None
        },
        None => None,
    }
}

/// `https://host[:port]/base/path` split into (host, port, base path):
/// the port defaults to 443 and the path to `/`; anything but `https://`
/// is refused (`只支持 https: <url>`), as is a port that is not a u16
/// (`坏端口: <authority>`).
pub open spec fn https_url_spec(url: Seq<char>) -> Result<(Seq<char>, u16, Seq<char>), Seq<char>> {
    let scheme = seq!['h', 't', 't', 'p', 's', ':', '/', '/'];
    if url.len() < 8 || url.take(8) != scheme {
        Err("只支持 https: "@ + url)
    } else {
        let rest = url.skip(8);
        let i = idx_of(rest, '/');
        let authority = rest.take(i as int);
        let path = if i < rest.len() {
            rest.skip(i as int)
        } else {
            seq!['/']
        };
        let j = idx_of(authority, ':');
        if j < authority.len() {
            match parse_u16_spec(authority.skip(j as int + 1)) {
                Some(p) => Ok((authority.take(j as int), p, path)),
                None => Err("坏端口: "@ + authority),
            }
        } else {
            Ok((authority, 443u16, path))
        }
    }
}

pub fn parse_https_url(url: &str) -> (r: Result<(String, u16, String), String>)
    ensures
        match r {
            Ok((h, p, path)) => https_url_spec(url@) == Ok::<(Seq<char>, u16, Seq<char>), Seq<char>>(
                (h@, p, path@),
            ),
            Err(e) => https_url_spec(url@) == Err::<(Seq<char>, u16, Seq<char>), Seq<char>>(e@),
        },
{
    let cs = chars_of(url);
    let ghost scheme = seq!['h', 't', 't', 'p', 's', ':', '/', '/'];
    if !(cs.len() >= 8 && cs[0] == 'h' && cs[1] == 't' && cs[2] == 't' && cs[3] == 'p' && cs[4]
        == 's' && cs[5] == ':' && cs[6] == '/' && cs[7] == '/') {
        proof {
            if cs@.len() >= 8 && cs@.take(8) == scheme {
                assert(cs@.take(8)[0] == 'h' && cs@.take(8)[1] == 't' && cs@.take(8)[2] == 't'
                    && cs@.take(8)[3] == 'p' && cs@.take(8)[4] == 's' && cs@.take(8)[5] == ':'
                    && cs@.take(8)[6] == '/' && cs@.take(8)[7] == '/');
            }
        }
        let mut e = "只支持 https: ".to_owned();
        push_str(&mut e, url);
        return Err(e);
    }
    assert(cs@.take(8) =~= scheme);
    let ghost rest = cs@.skip(8);
    let i = find_char(cs.as_slice(), 8, '/');
    proof {
        lemma_idx_of(rest, '/');
    }
    let auth = sub_vec(cs.as_slice(), 8, i);
    assert(auth@ =~= rest.take((i - 8) as int));
    let path = if i < cs.len() {
        let p = sub_vec(cs.as_slice(), i, cs.len());
        assert(p@ =~= rest.skip((i - 8) as int));
        string_from_chars(p.as_slice())
    } else {
        "/".to_owned()
    };
    proof {
        reveal_strlit("/");
    }
    let ghost spath = if (i - 8) < rest.len() {
        rest.skip((i - 8) as int)
    } else {
        seq!['/']
    };
    assert(path@ =~= spath);
    assert(idx_of(rest, '/') == i - 8);
    let j = find_char(auth.as_slice(), 0, ':');
    assert(auth@.skip(0) =~= auth@);
    proof {
        lemma_idx_of(auth@, ':');
    }
    if j < auth.len() {
        let ptext = sub_vec(auth.as_slice(), j + 1, auth.len());
        assert(ptext@ =~= auth@.skip(j as int + 1));
        match parse_u64(ptext.as_slice()) {
            Some(n) => {
                if n <= 65535 {
                    let host = sub_vec(auth.as_slice(), 0, j);
                    assert(host@ =~= auth@.take(j as int));
                    return Ok((string_from_chars(host.as_slice()), n as u16, path));
                }
            },
            None => {},
        }
        let mut e = "坏端口: ".to_owned();
        push_str(&mut e, string_from_chars(auth.as_slice()).as_str());
        Err(e)
    } else {
        Ok((string_from_chars(auth.as_slice()), 443, path))
    }
}


/// `s.trim_end_matches('/')`.
pub open spec fn trim_slashes(s: Seq<char>) -> Seq<char>
    decreases s.len(),
{
    if s.len() > 0 && s.last() == '/' {
        trim_slashes(s.drop_last())
    } else {
        s
    }
}

/// The completions endpoint under a base path.
pub open spec fn completions_path_spec(base: Seq<char>) -> Seq<char> {
    trim_slashes(base) + "/chat/completions"@
}

/// `<base path without trailing '/'>/chat/completions`.
pub fn completions_path(base: &str) -> (p: String)
    ensures
        p@ == completions_path_spec(base@),
{
    let cs = chars_of(base);
    let mut end = cs.len();
    assert(cs@.take(end as int) =~= cs@);
    while end > 0 && cs[end - 1] == '/'
        invariant
            end <= cs@.len(),
            trim_slashes(cs@) == trim_slashes(cs@.take(end as int)),
        decreases end,
    {
        assert(cs@.take(end as int).drop_last() =~= cs@.take(end - 1));
        end -= 1;
    }
    assert(trim_slashes(cs@.take(end as int)) == cs@.take(end as int));
    let head = sub_vec(cs.as_slice(), 0, end);
    let mut p = String::new();
    push_chars(&mut p, head.as_slice());
    push_str(&mut p, "/chat/completions");
    assert(head@ =~= cs@.take(end as int));
    p
}

/// The header list of a chat request, in order.
pub open spec fn chat_headers(host: Seq<char>, key: Seq<char>) -> Seq<(Seq<char>, Seq<char>)> {
    seq![
        ("Host"@, host),
        ("Authorization"@, "Bearer "@ + key),
        ("Content-Type"@, "application/json"@),
        ("Accept"@, "text/event-stream"@),
        ("Connection"@, "close"@),
    ]
}

/// The HTTP request that opens a streamed chat run: `POST` to the
/// completions path, bearer key, JSON body, event-stream accepted, and the
/// connection closed after the answer.
pub fn chat_http_request(host: &str, key: &str, base_path: &str, model: &str, messages: &[(String, String)]) -> (r: Request)
    ensures
        r.method@ == "POST"@,
        r.path@ == completions_path_spec(base_path@),
        r.headers@.map_values(|h: (String, String)| (h.0@, h.1@)) == chat_headers(host@, key@),
        r.body@ == vstd::utf8::encode_utf8(json_text(chat_request_v(model@, messages@))),
{
    let body = build_chat_request(model, messages);
    let mut auth = "Bearer ".to_owned();
    push_str(&mut auth, key);
    let headers: Vec<(String, String)> = vec![
        ("Host".to_owned(), host.to_owned()),
        ("Authorization".to_owned(), auth),
        ("Content-Type".to_owned(), "application/json".to_owned()),
        ("Accept".to_owned(), "text/event-stream".to_owned()),
        ("Connection".to_owned(), "close".to_owned()),
    ];
    assert(headers@.map_values(|h: (String, String)| (h.0@, h.1@)) =~= chat_headers(host@, key@));
    let bb = body.as_str().as_bytes();
    let mut bytes: Vec<u8> = Vec::new();
    extend_bytes(&mut bytes, bb, 0, bb.len());
    assert(bytes@ =~= bb@);
    Request { method: "POST".to_owned(), path: completions_path(base_path), headers, body: bytes }
}


/// The translator state after a run of frames, and every event they give.
pub open spec fn run_frames(started: bool, frames: Seq<Seq<char>>) -> (bool, Seq<ChatEventV>)
    decreases frames.len(),
{
    if frames.len() == 0 {
        (started, Seq::empty())
    } else {
        let (s2, evs) = translate_spec(started, frames[0]);
        let (s3, rest) = run_frames(s2, frames.drop_first());
        (s3, evs + rest)
    }
}

proof fn lemma_events_v_push(s: Seq<ChatEvent>, e: ChatEvent)
    ensures
        events_v(s.push(e)) == events_v(s).push(e@),
{
    assert(events_v(s.push(e)) =~= events_v(s).push(e@));
}

/// `k` is where the first `Done` stands.
pub open spec fn first_done(evs: Seq<ChatEventV>, k: int) -> bool {
    &&& 0 <= k < evs.len()
    &&& evs[k] is Done
    &&& forall|j: int| 0 <= j < k ==> !(#[trigger] evs[j] is Done)
}

pub open spec fn no_done(evs: Seq<ChatEventV>) -> bool {
    forall|j: int| 0 <= j < evs.len() ==> !(#[trigger] evs[j] is Done)
}

/// One streamed chat answer: SSE framing and translation of the body, which
/// ends at the first `Done` (what follows it is never delivered).
pub struct ChatStream {
    parser: SseParser,
    translator: OpenAiTranslator,
}

impl ChatStream {
    pub closed spec fn pending(&self) -> Seq<u8> {
        self.parser.pending()
    }

    pub closed spec fn data(&self) -> Seq<Seq<char>> {
        self.parser.data()
    }

    pub closed spec fn started(&self) -> bool {
        self.translator.is_started()
    }

    pub fn new() -> (s: Self)
        ensures
            s.pending() == Seq::<u8>::empty(),
            s.data() == Seq::<Seq<char>>::empty(),
            !s.started(),
    {
        ChatStream { parser: SseParser::new(), translator: OpenAiTranslator::new() }
    }

    /// Feeds one piece of the body. Returns the events of the frames it
    /// completes, in order, cut after the first `Done`, and whether that
    /// `Done` came (the run is then over, and the translator's state is of
    /// no further use).
    pub fn on_bytes(&mut self, bytes: &[u8]) -> (r: (Vec<ChatEvent>, bool))
        ensures
            ({
                let (fs, rest, acc) = sse_all(old(self).pending() + bytes@, old(self).data());
                let (st, evs) = run_frames(old(self).started(), fs);
                &&& r.1 ==> exists|k: int| first_done(evs, k) && events_v(r.0@) == evs.take(k + 1)
                &&& !r.1 ==> no_done(evs) && events_v(r.0@) == evs
                &&& final(self).pending() == rest && final(self).data() == acc
                &&& !r.1 ==> final(self).started() == st
            }),
    {
        self.parser.feed(bytes);
        let frames = self.parser.drain_frames();
        let ghost fs = strings_v(frames@);
        assert(fs == sse_all(old(self).pending() + bytes@, old(self).data()).0);
        let ghost total = run_frames(old(self).started(), fs).1;
        let mut out: Vec<ChatEvent> = Vec::new();
        let mut i: usize = 0;
        assert(fs.skip(0) =~= fs);
        assert(events_v(out@) + run_frames(self.translator.is_started(), fs.skip(0)).1 =~= total);
        while i < frames.len()
            invariant
                i <= frames@.len(),
                fs == strings_v(frames@),
                fs == sse_all(old(self).pending() + bytes@, old(self).data()).0,
                fs.len() == frames@.len(),
                total == run_frames(old(self).started(), fs).1,
                run_frames(old(self).started(), fs).0 == run_frames(self.translator.is_started(), fs.skip(i as int)).0,
                total == events_v(out@) + run_frames(self.translator.is_started(), fs.skip(i as int)).1,
                no_done(events_v(out@)),
                self.parser.pending() == sse_all(old(self).pending() + bytes@, old(self).data()).1,
                self.parser.data() == sse_all(old(self).pending() + bytes@, old(self).data()).2,
            decreases frames.len() - i,
        {
            let ghost s_before = self.translator.is_started();
            let ghost prior = events_v(out@);
            assert(fs.skip(i as int)[0] == fs[i as int]);
            assert(fs[i as int] == frames@[i as int]@);
            assert(fs.skip(i as int).drop_first() =~= fs.skip(i + 1));
            let evs = self.translator.translate_payload(frames[i].as_str());
            let ghost ev = events_v(evs@);
            let ghost tail = run_frames(self.translator.is_started(), fs.skip(i + 1)).1;
            assert(total == prior + ev + tail) by {
                assert(prior + (ev + tail) =~= prior + ev + tail);
            }
            let mut j: usize = 0;
            while j < evs.len()
                invariant
                    j <= evs@.len(),
                    ev == events_v(evs@),
                    ev.len() == evs@.len(),
                    events_v(out@) == prior + ev.take(j as int),
                    no_done(prior),
                    forall|m: int| 0 <= m < j ==> !(#[trigger] ev[m] is Done),
                    total == prior + ev + tail,
                    total == run_frames(old(self).started(), fs).1,
                    fs == sse_all(old(self).pending() + bytes@, old(self).data()).0,
                    self.parser.pending() == sse_all(old(self).pending() + bytes@, old(self).data()).1,
                    self.parser.data() == sse_all(old(self).pending() + bytes@, old(self).data()).2,
                decreases evs.len() - j,
            {
                let e = evs[j].clone_event();
                let is_done = match e {
                    ChatEvent::Done => true,
                    _ => false,
                };
                assert(ev[j as int] == evs@[j as int]@);
                let ghost before = out@;
                out.push(e);
                proof {
                    lemma_events_v_push(before, e);
                    assert(prior + ev.take(j + 1) =~= (prior + ev.take(j as int)).push(ev[j as int]));
                }
                if is_done {
                    proof {
                        let k = prior.len() + j;
                        assert(total[k] == ev[j as int]);
                        assert forall|m: int| 0 <= m < k implies !(#[trigger] total[m] is Done) by {
                            if m < prior.len() {
                                assert(total[m] == prior[m]);
                            } else {
                                assert(total[m] == ev[m - prior.len()]);
                            }
                        }
                        assert(first_done(total, k));
                        assert(events_v(out@) =~= total.take(k + 1));
                        assert(exists|k2: int| first_done(total, k2) && events_v(out@) == total.take(k2 + 1));
                    }
                    return (out, true);
                }
                j += 1;
            }
            assert(ev.take(ev.len() as int) =~= ev);
            assert(no_done(events_v(out@))) by {
                assert forall|m: int| 0 <= m < events_v(out@).len() implies !(#[trigger] events_v(out@)[m] is Done) by {
                    if m >= prior.len() {
                        assert(events_v(out@)[m] == ev[m - prior.len()]);
                    }
                }
            }
            assert(total == events_v(out@) + tail) by {
                assert(prior + ev + tail =~= events_v(out@) + tail);
            }
            i += 1;
        }
        assert(fs.skip(i as int) =~= Seq::<Seq<char>>::empty());
        assert(events_v(out@) + Seq::<ChatEventV>::empty() =~= events_v(out@));
        (out, false)
    }
}

} // verus!
