//! The terminal connection's plain data: its configuration, the commands
//! sent toward it, the channel pair a spawned connection hands back, the
//! result of an echo round trip, and the rule for commands that arrive
//! before the session is open (inputs are kept in order, only the latest
//! resize is kept).
use vstd::prelude::*;
use std::collections::VecDeque;
use std::sync::mpsc::{Receiver, Sender};
use crate::session::SessionEvent;

verus! {

/// The result of one echo round trip (open, collect output, exit).
#[derive(Debug)]
pub struct EchoRun {
    pub session_id: String,
    /// Output data, in order.
    pub outputs: Vec<String>,
    pub exit_code: i32,
}

/// Commands from the app toward a live terminal connection.
#[derive(Debug)]
pub enum TermCmd {
    /// Key bytes (kept while the session is not open, then sent in order).
    Input(String),
    /// A resize (only the latest is kept before the session opens).
    Resize { cols: u32, rows: u32 },
    Close,
}

/// Where to connect and what to run (`None`: an interactive shell).
#[derive(Debug, Clone, PartialEq, Eq)]
pub struct ConnConfig {
    pub url: String,
    pub command: Option<String>,
}

impl Default for ConnConfig {
    /// The local loopback endpoint, interactive shell.
    fn default() -> (c: Self)
        ensures
            c.url@ == "ws://127.0.0.1:8021/ws"@,
            c.command is None,
    {
        ConnConfig { url: "ws://127.0.0.1:8021/ws".to_owned(), command: None }
    }
}

#[verifier::external_type_specification]
#[verifier::external_body]
#[verifier::reject_recursive_types(T)]
pub struct ExSender<T>(Sender<T>);

/// An established terminal connection: the bare channel pair, owned by
/// the caller.
pub struct TermHandle {
    /// App to connection.
    pub outbound: Sender<TermCmd>,
    /// Connection to app.
    pub events: Receiver<SessionEvent>,
}

/// Commands held back until the session opens.
pub struct OutboundQueue {
    pending_input: VecDeque<String>,
    last_resize: Option<(u32, u32)>,
}

pub open spec fn strings_v(v: Seq<String>) -> Seq<Seq<char>> {
    v.map_values(|s: String| s@)
}

impl OutboundQueue {
    pub closed spec fn pending(&self) -> Seq<Seq<char>> {
        strings_v(self.pending_input@)
    }

    pub closed spec fn resize(&self) -> Option<(u32, u32)> {
        self.last_resize
    }

    pub fn new() -> (q: Self)
        ensures
            q.pending() == Seq::<Seq<char>>::empty(),
            q.resize() is None,
    {
        let q = OutboundQueue { pending_input: VecDeque::new(), last_resize: None };
        assert(q.pending() =~= Seq::<Seq<char>>::empty());
        q
    }

    /// Input for the session: sent now when it is open (returned), else
    /// kept in order.
    pub fn on_input(&mut self, open: bool, input: String) -> (r: Option<String>)
        ensures
            open ==> (r matches Some(s) && s@ == input@ && final(self).pending() == old(self).pending()),
            !open ==> r is None && final(self).pending() == old(self).pending().push(input@),
            final(self).resize() == old(self).resize(),
    {
        if open {
            Some(input)
        } else {
            let ghost before = self.pending_input@;
            let ghost iv = input@;
            self.pending_input.push_back(input);
            assert(strings_v(self.pending_input@) =~= strings_v(before).push(iv));
            None
        }
    }

    /// A resize is always remembered (the latest only); it is also sent now
    /// when the session is open.
    pub fn on_resize(&mut self, open: bool, cols: u32, rows: u32) -> (send_now: bool)
        ensures
            final(self).resize() == Some((cols, rows)),
            final(self).pending() == old(self).pending(),
            send_now == open,
    {
        self.last_resize = Some((cols, rows));
        open
    }

    /// The session opened: what to send now, in order — the remembered
    /// resize first, then every held input. Both are cleared.
    pub fn on_opened(&mut self) -> (r: (Option<(u32, u32)>, Vec<String>))
        ensures
            r.0 == old(self).resize(),
            strings_v(r.1@) == old(self).pending(),
            final(self).resize() is None,
            final(self).pending() == Seq::<Seq<char>>::empty(),
    {
        let resize = self.last_resize;
        self.last_resize = None;
        let mut out: Vec<String> = Vec::new();
        while self.pending_input.len() > 0
            invariant
                self.last_resize is None,
                strings_v(out@) + strings_v(self.pending_input@) == old(self).pending(),
            decreases self.pending_input@.len(),
        {
            let ghost q0 = self.pending_input@;
            let ghost o0 = out@;
            match self.pending_input.pop_front() {
                Some(x) => {
                    let ghost xv = x@;
                    out.push(x);
                    assert(strings_v(out@) =~= strings_v(o0).push(xv));
                    assert(strings_v(q0) =~= seq![xv] + strings_v(self.pending_input@));
                    assert(strings_v(out@) + strings_v(self.pending_input@) =~= strings_v(o0)
                        + strings_v(q0));
                },
                None => {},
            }
        }
        assert(strings_v(self.pending_input@) =~= Seq::<Seq<char>>::empty());
        assert(strings_v(out@) + Seq::<Seq<char>>::empty() =~= strings_v(out@));
        (resize, out)
    }
}

} // verus!
