//! The AI chat message core: user and assistant messages, the streaming
//! assistant tail with its thinking kept apart, and the full-history
//! projection sent upstream. Thinking and text are accounted separately;
//! when a stream closes with empty text and non-empty thinking, the
//! thinking becomes the text.
use vstd::prelude::*;
use crate::brain::{ChatEvent, ChatEventV};
use crate::text::push_str;

verus! {

broadcast use vstd::seq_lib::group_seq_properties;

/// A message: (from the user, text, thinking).
pub type MsgV = (bool, Seq<char>, Seq<char>);

pub open spec fn msgs_v(v: Seq<(bool, String, String)>) -> Seq<MsgV> {
    v.map_values(|m: (bool, String, String)| (m.0, m.1@, m.2@))
}

/// The chat state, mathematically: messages, the streaming tail, the
/// thinking buffer.
pub struct ChatV {
    pub messages: Seq<MsgV>,
    pub streaming: Option<Seq<char>>,
    pub thinking: Seq<char>,
}

/// Closing the stream: the tail becomes a message (an empty stream makes
/// none); empty text with non-empty thinking makes the thinking the text.
pub open spec fn flush_v(c: ChatV) -> ChatV {
    let text = match c.streaming {
        Some(s) => s,
        None => Seq::empty(),
    };
    let th = c.thinking;
    ChatV {
        messages: if text.len() == 0 {
            if th.len() > 0 {
                c.messages.push((false, th, Seq::empty()))
            } else {
                c.messages
            }
        } else {
            c.messages.push((false, text, th))
        },
        streaming: None,
        thinking: Seq::empty(),
    }
}

/// One stream event: start (closing any unfinished stream), text delta,
/// thinking delta (both open the stream implicitly), stop/done (close), or
/// error (close, then a `【错误】` message). Tool events are ignored.
pub open spec fn apply_v(c: ChatV, ev: ChatEventV) -> ChatV {
    match ev {
        ChatEventV::MessageStart => ChatV { streaming: Some(Seq::empty()), ..flush_v(c) },
        ChatEventV::TextDelta { text, .. } => ChatV {
            streaming: Some(
                match c.streaming {
                    Some(s) => s,
                    None => Seq::empty(),
                } + text,
            ),
            ..c
        },
        ChatEventV::ThinkingDelta { text, .. } => ChatV {
            streaming: Some(
                match c.streaming {
                    Some(s) => s,
                    None => Seq::empty(),
                },
            ),
            thinking: c.thinking + text,
            ..c
        },
        ChatEventV::MessageStop | ChatEventV::Done => flush_v(c),
        ChatEventV::Error { content } => {
            let f = flush_v(c);
            ChatV { messages: f.messages.push((false, "【错误】"@ + content, Seq::empty())), ..f }
        },
        _ => c,
    }
}

/// An error keeps what was streamed: the unfinished reply (its text with
/// its thinking, or the thinking alone when no text came) becomes an
/// assistant message first, then the error message `【错误】<content>`
/// follows; the stream is closed.
pub proof fn lemma_error_keeps_stream(c: ChatV, content: Seq<char>)
    ensures
        ({
            let after = apply_v(c, ChatEventV::Error { content });
            let err = (false, "【错误】"@ + content, Seq::<char>::empty());
            let text = match c.streaming {
                Some(t) => t,
                None => Seq::<char>::empty(),
            };
            &&& after.streaming is None
            &&& after.thinking.len() == 0
            &&& (text.len() > 0 ==> after.messages == c.messages + seq![(false, text, c.thinking), err])
            &&& (text.len() == 0 && c.thinking.len() > 0 ==> after.messages
                == c.messages + seq![(false, c.thinking, Seq::<char>::empty()), err])
            &&& (text.len() == 0 && c.thinking.len() == 0 ==> after.messages == c.messages.push(err))
        }),
{
    let after = apply_v(c, ChatEventV::Error { content });
    let err = (false, "【错误】"@ + content, Seq::<char>::empty());
    match c.streaming {
        Some(t) => {
            if t.len() > 0 {
                assert(after.messages =~= c.messages + seq![(false, t, c.thinking), err]);
            } else if c.thinking.len() > 0 {
                assert(after.messages =~= c.messages + seq![(false, c.thinking, Seq::<char>::empty()), err]);
            }
        },
        None => {
            if c.thinking.len() > 0 {
                assert(after.messages =~= c.messages + seq![(false, c.thinking, Seq::<char>::empty()), err]);
            }
        },
    }
}

/// The reply streamed so far (empty when no stream is open).
pub open spec fn stream_tail(c: ChatV) -> Seq<char> {
    match c.streaming {
        Some(t) => t,
        None => Seq::empty(),
    }
}

/// No event loses a message: the messages before an event stay, in order,
/// at the front of the messages after it; only closing the stream (start,
/// stop, done, error) adds any.
pub proof fn lemma_messages_only_grow(c: ChatV, ev: ChatEventV)
    ensures
        apply_v(c, ev).messages.len() >= c.messages.len(),
        apply_v(c, ev).messages.take(c.messages.len() as int) == c.messages,
        !(ev is MessageStart || ev is MessageStop || ev is Done || ev is Error) ==> apply_v(c, ev).messages
            == c.messages,
{
    assert(apply_v(c, ev).messages.take(c.messages.len() as int) =~= c.messages);
}

/// Closing the stream keeps what was streamed: on start, stop, done or
/// error, a non-empty reply becomes the next message with its thinking (or
/// the thinking alone does, when no text came); the thinking is cleared,
/// and the stream is closed (a start opens a fresh empty one).
pub proof fn lemma_close_keeps_stream(c: ChatV, ev: ChatEventV)
    requires
        ev is MessageStart || ev is MessageStop || ev is Done || ev is Error,
    ensures
        ({
            let after = apply_v(c, ev);
            let k = c.messages.len() as int;
            &&& stream_tail(c).len() > 0 ==> after.messages.len() > k && after.messages[k] == (
                false,
                stream_tail(c),
                c.thinking,
            )
            &&& stream_tail(c).len() == 0 && c.thinking.len() > 0 ==> after.messages.len() > k
                && after.messages[k] == (false, c.thinking, Seq::<char>::empty())
            &&& after.thinking.len() == 0
            &&& after.streaming == if ev is MessageStart {
                Some(Seq::<char>::empty())
            } else {
                None::<Seq<char>>
            }
        }),
{
}

/// Deltas extend the open reply: a text delta appends its text to the
/// streamed reply (opening it when none is open), a thinking delta appends
/// to the thinking; neither touches the messages.
pub proof fn lemma_deltas_append(c: ChatV, index: u32, text: Seq<char>)
    ensures
        apply_v(c, ChatEventV::TextDelta { index, text }).streaming == Some(stream_tail(c) + text),
        apply_v(c, ChatEventV::TextDelta { index, text }).thinking == c.thinking,
        apply_v(c, ChatEventV::ThinkingDelta { index, text }).thinking == c.thinking + text,
        apply_v(c, ChatEventV::ThinkingDelta { index, text }).streaming == Some(stream_tail(c)),
{
}

/// The history sent upstream: (role, text) of every message.
pub open spec fn history_v(ms: Seq<MsgV>) -> Seq<(Seq<char>, Seq<char>)> {
    ms.map_values(|m: MsgV| (if m.0 { "user"@ } else { "assistant"@ }, m.1))
}

/// `a + b` wrapping at 2^64.
pub open spec fn wrap_inc(a: u64) -> u64 {
    if a < u64::MAX {
        (a + 1) as u64
    } else {
        0
    }
}

/// The chat core (one per conversation page).
pub struct AiChatState {
    messages: Vec<(bool, String, String)>,
    streaming: Option<String>,
    thinking: String,
    generation: u64,
}

impl AiChatState {
    pub closed spec fn chat(&self) -> ChatV {
        ChatV {
            messages: msgs_v(self.messages@),
            streaming: match self.streaming {
                Some(s) => Some(s@),
                None => None,
            },
            thinking: self.thinking@,
        }
    }

    pub closed spec fn gen(&self) -> u64 {
        self.generation
    }

    pub fn new() -> (s: Self)
        ensures
            s.chat() == (ChatV { messages: Seq::empty(), streaming: None, thinking: Seq::empty() }),
            s.gen() == 0,
    {
        let s = AiChatState {
            messages: Vec::new(),
            streaming: None,
            thinking: String::new(),
            generation: 0,
        };
        assert(msgs_v(s.messages@) =~= Seq::<MsgV>::empty());
        s
    }

    /// Change counter (bumped by every send and event; a redraw is due
    /// when it moved).
    pub fn generation(&self) -> (g: u64)
        ensures
            g == self.gen(),
    {
        self.generation
    }

    fn bump(&mut self)
        ensures
            final(self).gen() == wrap_inc(old(self).gen()),
            final(self).chat() == old(self).chat(),
    {
        self.generation = if self.generation < u64::MAX { self.generation + 1 } else { 0 };
    }

    fn flush(&mut self)
        ensures
            final(self).chat() == flush_v(old(self).chat()),
            final(self).gen() == old(self).gen(),
    {
        let text = match self.streaming.take() {
            Some(s) => s,
            None => String::new(),
        };
        let mut th = String::new();
        std::mem::swap(&mut th, &mut self.thinking);
        let ghost before = self.messages@;
        if text.as_str().is_empty() {
            if !th.as_str().is_empty() {
                self.messages.push((false, th, String::new()));
                assert(msgs_v(self.messages@) =~= msgs_v(before).push((false, old(self).thinking@, Seq::empty())));
            }
        } else {
            let ghost tv = text@;
            let ghost hv = th@;
            self.messages.push((false, text, th));
            assert(msgs_v(self.messages@) =~= msgs_v(before).push((false, tv, hv)));
        }
    }

    /// A user message: appended, and the whole history returned as
    /// (role, text) pairs including it ("user" / "assistant").
    pub fn user_send(&mut self, text: &str) -> (h: Vec<(String, String)>)
        ensures
            final(self).chat() == (ChatV {
                messages: old(self).chat().messages.push((true, text@, Seq::empty())),
                ..old(self).chat()
            }),
            final(self).gen() == wrap_inc(old(self).gen()),
            h@.map_values(|p: (String, String)| (p.0@, p.1@)) == history_v(final(self).chat().messages),
    {
        self.bump();
        let ghost before = self.messages@;
        self.messages.push((true, text.to_owned(), String::new()));
        assert(msgs_v(self.messages@) =~= msgs_v(before).push((true, text@, Seq::empty())));
        let mut h: Vec<(String, String)> = Vec::new();
        let mut i: usize = 0;
        while i < self.messages.len()
            invariant
                i <= self.messages@.len(),
                h@.map_values(|p: (String, String)| (p.0@, p.1@)) == history_v(
                    msgs_v(self.messages@),
                ).take(i as int),
            decreases self.messages.len() - i,
        {
            let role = if self.messages[i].0 { "user".to_owned() } else { "assistant".to_owned() };
            let ghost hb = h@;
            h.push((role, self.messages[i].1.clone()));
            assert(h@.map_values(|p: (String, String)| (p.0@, p.1@)) =~= hb.map_values(
                |p: (String, String)| (p.0@, p.1@),
            ).push(history_v(msgs_v(self.messages@))[i as int]));
            i += 1;
            assert(history_v(msgs_v(self.messages@)).take(i as int) =~= history_v(
                msgs_v(self.messages@),
            ).take(i - 1).push(history_v(msgs_v(self.messages@))[i - 1]));
        }
        assert(history_v(msgs_v(self.messages@)).take(i as int) =~= history_v(
            msgs_v(self.messages@),
        ));
        h
    }

    /// Applies one stream event (see `apply_v`).
    pub fn apply(&mut self, ev: &ChatEvent)
        ensures
            final(self).chat() == apply_v(old(self).chat(), ev@),
            final(self).gen() == wrap_inc(old(self).gen()),
    {
        self.bump();
        match ev {
            ChatEvent::MessageStart => {
                self.flush();
                self.streaming = Some(String::new());
            },
            ChatEvent::TextDelta { text, .. } => {
                let mut s = match self.streaming.take() {
                    Some(s) => s,
                    None => String::new(),
                };
                push_str(&mut s, text.as_str());
                self.streaming = Some(s);
            },
            ChatEvent::ThinkingDelta { text, .. } => {
                if self.streaming.is_none() {
                    self.streaming = Some(String::new());
                }
                push_str(&mut self.thinking, text.as_str());
            },
            ChatEvent::MessageStop | ChatEvent::Done => self.flush(),
            ChatEvent::Error { content } => {
                self.flush();
                let mut m = "【错误】".to_owned();
                push_str(&mut m, content.as_str());
                let ghost before = self.messages@;
                let ghost mv = m@;
                self.messages.push((false, m, String::new()));
                assert(msgs_v(self.messages@) =~= msgs_v(before).push((false, mv, Seq::empty())));
            },
            _ => {},
        }
    }

    /// The messages plus the streaming tail (with its live thinking), in
    /// order.
    pub fn snap(&self) -> (out: Vec<(bool, String, String)>)
        ensures
            msgs_v(out@) == match self.chat().streaming {
                Some(s) => self.chat().messages.push((false, s, self.chat().thinking)),
                None => self.chat().messages,
            },
    {
        let mut out: Vec<(bool, String, String)> = Vec::new();
        let mut i: usize = 0;
        while i < self.messages.len()
            invariant
                i <= self.messages@.len(),
                msgs_v(out@) == msgs_v(self.messages@).take(i as int),
            decreases self.messages.len() - i,
        {
            let m = &self.messages[i];
            let ghost ob = out@;
            out.push((m.0, m.1.clone(), m.2.clone()));
            assert(msgs_v(out@) =~= msgs_v(ob).push(msgs_v(self.messages@)[i as int]));
            i += 1;
            assert(msgs_v(self.messages@).take(i as int) =~= msgs_v(self.messages@).take(i - 1).push(
                msgs_v(self.messages@)[i - 1],
            ));
        }
        assert(msgs_v(self.messages@).take(i as int) =~= msgs_v(self.messages@));
        match &self.streaming {
            Some(s) => {
                let ghost ob = out@;
                out.push((false, s.clone(), self.thinking.clone()));
                assert(msgs_v(out@) =~= msgs_v(ob).push((false, s@, self.thinking@)));
            },
            None => {},
        }
        out
    }

    /// A stream is open.
    pub fn is_streaming(&self) -> (b: bool)
        ensures
            b == self.chat().streaming is Some,
    {
        self.streaming.is_some()
    }

    /// The thinking phase is live: the stream is open, no text has come
    /// yet, and thinking has.
    pub fn thinking_live(&self) -> (b: bool)
        ensures
            b == (self.chat().streaming matches Some(s) && s.len() == 0 && self.chat().thinking.len()
                > 0),
    {
        match &self.streaming {
            Some(s) => s.as_str().is_empty() && !self.thinking.as_str().is_empty(),
            None => false,
        }
    }
}

/// Closing a stream never makes an empty assistant message: if every
/// assistant message had text before an event, every one has text after.
pub proof fn lemma_no_empty_assistant_message(c: ChatV, ev: ChatEventV)
    requires
        forall|i: int| 0 <= i < c.messages.len() && !(#[trigger] c.messages[i]).0 ==> c.messages[i].1.len() > 0,
    ensures
        forall|i: int|
            0 <= i < apply_v(c, ev).messages.len() && !(#[trigger] apply_v(c, ev).messages[i]).0
                ==> apply_v(c, ev).messages[i].1.len() > 0,
{
    let f = flush_v(c);
    assert forall|i: int| 0 <= i < f.messages.len() && !(#[trigger] f.messages[i]).0 implies f.messages[i].1.len() > 0 by {
        if i < c.messages.len() {
            assert(f.messages[i] == c.messages[i]);
        }
    }
    match ev {
        ChatEventV::Error { content } => {
            let m = f.messages.push((false, "【错误】"@ + content, Seq::empty()));
            assert forall|i: int| 0 <= i < m.len() && !(#[trigger] m[i]).0 implies m[i].1.len() > 0 by {
                if i < f.messages.len() {
                    assert(m[i] == f.messages[i]);
                } else {
                    reveal_strlit("【错误】");
                }
            }
        },
        _ => {},
    }
}

} // verus!
