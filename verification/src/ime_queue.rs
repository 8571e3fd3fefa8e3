//! The IME injection queue: committed text (and shortcut-row key codes)
//! queued by the input-method side, drained in FIFO order by the event loop.
use vstd::prelude::*;
use std::collections::VecDeque;

verus! {

/// One injection: committed text, or a raw key code translated on the
/// draining side.
#[derive(Debug, Clone, PartialEq, Eq)]
pub enum Inject {
    Text(String),
    Key(i32),
}

pub enum InjectV {
    Text(Seq<char>),
    Key(i32),
}

impl View for Inject {
    type V = InjectV;

    open spec fn view(&self) -> InjectV {
        match self {
            Inject::Text(s) => InjectV::Text(s@),
            Inject::Key(k) => InjectV::Key(*k),
        }
    }
}

pub open spec fn injects_v(s: Seq<Inject>) -> Seq<InjectV> {
    s.map_values(|i: Inject| i@)
}

/// FIFO queue of pending injections.
pub struct ImeQueue {
    q: VecDeque<Inject>,
}

impl ImeQueue {
    /// Pending injections, oldest first.
    pub closed spec fn items(&self) -> Seq<InjectV> {
        injects_v(self.q@)
    }

    pub fn new() -> (q: Self)
        ensures
            q.items() == Seq::<InjectV>::empty(),
    {
        let q = ImeQueue { q: VecDeque::new() };
        assert(q.items() =~= Seq::<InjectV>::empty());
        q
    }

    /// Queues committed text; empty text is not injected.
    pub fn push_text(&mut self, text: &str)
        ensures
            final(self).items() == if text@.len() == 0 {
                old(self).items()
            } else {
                old(self).items().push(InjectV::Text(text@))
            },
    {
        if text.is_empty() {
            return;
        }
        let ghost before = self.q@;
        self.q.push_back(Inject::Text(text.to_owned()));
        assert(injects_v(self.q@) =~= injects_v(before).push(InjectV::Text(text@)));
    }

    /// Takes every pending injection, oldest first; the queue is empty after.
    pub fn drain(&mut self) -> (out: Vec<Inject>)
        ensures
            injects_v(out@) == old(self).items(),
            final(self).items() == Seq::<InjectV>::empty(),
    {
        let mut out: Vec<Inject> = Vec::new();
        while self.q.len() > 0
            invariant
                injects_v(out@) + injects_v(self.q@) == old(self).items(),
            decreases self.q@.len(),
        {
            let ghost q0 = self.q@;
            let ghost o0 = out@;
            match self.q.pop_front() {
                Some(x) => {
                    out.push(x);
                    assert(injects_v(out@) =~= injects_v(o0).push(x@));
                    assert(injects_v(q0) =~= seq![x@] + injects_v(self.q@));
                    assert(injects_v(out@) + injects_v(self.q@) =~= injects_v(o0) + injects_v(q0));
                },
                None => {},
            }
        }
        assert(injects_v(self.q@) =~= Seq::<InjectV>::empty());
        assert(injects_v(out@) + Seq::<InjectV>::empty() =~= injects_v(out@));
        out
    }
}

} // verus!
