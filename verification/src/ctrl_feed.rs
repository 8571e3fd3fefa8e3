//! The seed / continue-feeding phase machine of the streamed tmux canvas.
//!
//! The seeding exchange is two command blocks: a header block whose body is
//! the `KFMHDR` header line, then a `capture-pane` block whose body is the
//! screen. Blocks that precede it (the attach command's own empty reply) and
//! echoed command lines are skipped; `%output` during the seeding window is
//! dropped (it is already in the snapshot), `%output` after the capture
//! closes is held for the canvas under construction, and in the steady
//! phase `%output` of the claimed pane feeds the canvas directly.
use vstd::prelude::*;
use crate::text::{lossy, lossy_string, chars_of, string_from_chars, push_str, sub_vec};
use crate::http1::{nl_pos, lemma_nl_pos};

verus! {

broadcast use vstd::seq_lib::group_seq_properties;

/// One line of tmux control-mode output, classified.
#[derive(Debug, Clone, PartialEq, Eq)]
pub enum CtrlEvent {
    /// `%output %<pane> <bytes>`, bytes unescaped.
    Output { pane: u64, bytes: Vec<u8> },
    /// Not a control line (block body, or an echo).
    Plain,
    /// `%begin`
    BlockBegin,
    /// `%end`
    BlockEnd,
    /// `%error`
    BlockError,
    /// Any other notification (`%layout-change`, `%window-pane-changed`, ...).
    Notify,
    /// `%exit`
    Exit,
}

pub enum CtrlEventV {
    Output { pane: u64, bytes: Seq<u8> },
    Plain,
    BlockBegin,
    BlockEnd,
    BlockError,
    Notify,
    Exit,
}

impl View for CtrlEvent {
    type V = CtrlEventV;

    open spec fn view(&self) -> CtrlEventV {
        match self {
            CtrlEvent::Output { pane, bytes } => CtrlEventV::Output { pane: *pane, bytes: bytes@ },
            CtrlEvent::Plain => CtrlEventV::Plain,
            CtrlEvent::BlockBegin => CtrlEventV::BlockBegin,
            CtrlEvent::BlockEnd => CtrlEventV::BlockEnd,
            CtrlEvent::BlockError => CtrlEventV::BlockError,
            CtrlEvent::Notify => CtrlEventV::Notify,
            CtrlEvent::Exit => CtrlEventV::Exit,
        }
    }
}

/// The seed header line's content: the claimed pane and its cursor
/// (column, row; screen-relative, 0-based).
#[derive(Debug, Clone, Copy, PartialEq, Eq, Structural)]
pub struct SeedHeader {
    pub pane: u64,
    pub cursor_x: u32,
    pub cursor_y: u32,
}

/// What the caller must do after one line.
#[derive(Debug, PartialEq, Eq)]
pub enum CtrlAct {
    /// Steady `%output` of the claimed pane: feed the canvas.
    Feed(Vec<u8>),
    /// `%output` while the canvas is being built: hold it for after.
    Pend(Vec<u8>),
    /// The capture block is complete: build the canvas from its text and
    /// put the cursor at (x, y).
    Build { cap: String, x: u32, y: u32 },
    /// Seeding failed (with the evidence); fall back and retry later.
    SeedFail(String),
    /// A notification may have changed what `%output` does not cover:
    /// reconcile.
    Reconcile,
    /// `%exit`: the channel is dead.
    Dead(&'static str),
    /// Nothing to do.
    Nothing,
}

pub enum CtrlActV {
    Feed(Seq<u8>),
    Pend(Seq<u8>),
    Build { cap: Seq<char>, x: u32, y: u32 },
    SeedFail(Seq<char>),
    Reconcile,
    Dead(Seq<char>),
    Nothing,
}

impl View for CtrlAct {
    type V = CtrlActV;

    open spec fn view(&self) -> CtrlActV {
        match self {
            CtrlAct::Feed(b) => CtrlActV::Feed(b@),
            CtrlAct::Pend(b) => CtrlActV::Pend(b@),
            CtrlAct::Build { cap, x, y } => CtrlActV::Build { cap: cap@, x: *x, y: *y },
            CtrlAct::SeedFail(m) => CtrlActV::SeedFail(m@),
            CtrlAct::Reconcile => CtrlActV::Reconcile,
            CtrlAct::Dead(m) => CtrlActV::Dead(m@),
            CtrlAct::Nothing => CtrlActV::Nothing,
        }
    }
}

/// The six phases, one per step of the two-block seeding sequence.
#[derive(Debug, Clone, Copy, PartialEq, Eq, Structural)]
pub enum Phase {
    /// Not seeding: unseeded (no pane) or streaming (pane claimed).
    Steady,
    /// Waiting for the header block's body (earlier blocks and echoes land here).
    AwaitHeader,
    /// Header claimed; waiting for the header block's `%end`.
    HdrEnd,
    /// Header block closed; waiting for the capture block's `%begin`.
    AwaitBody,
    /// Inside the capture block, collecting its lines.
    InCapture,
    /// Capture complete; the canvas is being built.
    Building,
}

/// The machine's state, mathematically.
pub struct CtrlStateV {
    pub phase: Phase,
    pub pane: Option<u64>,
    pub cursor: (u32, u32),
    pub cap: Seq<Seq<char>>,
    pub saw_body: bool,
    pub first_line: Seq<char>,
}

/// Back to steady with no pane claimed (cursor and first-line evidence are
/// kept).
pub open spec fn reset_v(st: CtrlStateV) -> CtrlStateV {
    CtrlStateV { phase: Phase::Steady, pane: None, cap: Seq::empty(), saw_body: false, ..st }
}

/// Lines joined with `\r\n`.
pub open spec fn join_crlf(s: Seq<Seq<char>>) -> Seq<char>
    decreases s.len(),
{
    if s.len() == 0 {
        Seq::empty()
    } else if s.len() == 1 {
        s[0]
    } else {
        join_crlf(s.drop_last()) + seq!['\r', '\n'] + s.last()
    }
}

/// At most the first `n` chars.
pub open spec fn prefix_chars(s: Seq<char>, n: nat) -> Seq<char> {
    if s.len() <= n {
        s
    } else {
        s.take(n as int)
    }
}

/// `\r` and `\n` replaced by spaces.
pub open spec fn blank_crlf(s: Seq<char>) -> Seq<char> {
    s.map_values(|c: char| if c == '\r' || c == '\n' { ' ' } else { c })
}

/// The failure evidence for a header block with a body but no header line.
pub open spec fn no_header_clue(first_line: Seq<char>) -> Seq<char> {
    "头块有正文但无 KFMHDR 头行: 首行="@ + prefix_chars(blank_crlf(first_line), 60)
}

pub open spec fn seeding(p: Phase) -> bool {
    p == Phase::AwaitHeader || p == Phase::HdrEnd || p == Phase::AwaitBody || p == Phase::InCapture
}

/// One line's effect: (state after, action). `hdr` is the line read as a
/// seed header (consulted only for a body line awaiting the header).
pub open spec fn ctrl_step(st: CtrlStateV, ev: CtrlEventV, hdr: Option<SeedHeader>, line: Seq<char>) -> (
    CtrlStateV,
    CtrlActV,
) {
    match ev {
        CtrlEventV::Output { pane, bytes } => {
            if st.phase == Phase::Building && st.pane == Some(pane) {
                (st, CtrlActV::Pend(bytes))
            } else if st.phase == Phase::Steady && st.pane == Some(pane) {
                (st, CtrlActV::Feed(bytes))
            } else {
                (st, CtrlActV::Nothing)
            }
        },
        CtrlEventV::Plain => {
            if st.phase == Phase::AwaitHeader {
                let st1 = CtrlStateV {
                    first_line: if !st.saw_body {
                        prefix_chars(line, 80)
                    } else {
                        st.first_line
                    },
                    saw_body: true,
                    ..st
                };
                match hdr {
                    Some(h) => (
                        CtrlStateV {
                            pane: Some(h.pane),
                            cursor: (h.cursor_x, h.cursor_y),
                            phase: Phase::HdrEnd,
                            ..st1
                        },
                        CtrlActV::Nothing,
                    ),
                    None => (st1, CtrlActV::Nothing),
                }
            } else if st.phase == Phase::InCapture {
                (CtrlStateV { cap: st.cap.push(line), ..st }, CtrlActV::Nothing)
            } else {
                (st, CtrlActV::Nothing)
            }
        },
        CtrlEventV::BlockBegin => {
            if st.phase == Phase::AwaitHeader {
                (CtrlStateV { saw_body: false, first_line: Seq::empty(), ..st }, CtrlActV::Nothing)
            } else if st.phase == Phase::AwaitBody {
                (CtrlStateV { phase: Phase::InCapture, cap: Seq::empty(), ..st }, CtrlActV::Nothing)
            } else {
                (st, CtrlActV::Nothing)
            }
        },
        CtrlEventV::BlockEnd => {
            if st.phase == Phase::AwaitHeader {
                if st.saw_body {
                    (reset_v(st), CtrlActV::SeedFail(no_header_clue(st.first_line)))
                } else {
                    (st, CtrlActV::Nothing)
                }
            } else if st.phase == Phase::HdrEnd {
                (CtrlStateV { phase: Phase::AwaitBody, ..st }, CtrlActV::Nothing)
            } else if st.phase == Phase::AwaitBody {
                (reset_v(st), CtrlActV::SeedFail("capture 块缺失（头块后直接 %end）"@))
            } else if st.phase == Phase::InCapture {
                (
                    CtrlStateV { phase: Phase::Building, cap: Seq::empty(), ..st },
                    CtrlActV::Build { cap: join_crlf(st.cap), x: st.cursor.0, y: st.cursor.1 },
                )
            } else {
                (st, CtrlActV::Nothing)
            }
        },
        CtrlEventV::BlockError => {
            if seeding(st.phase) {
                (reset_v(st), CtrlActV::SeedFail("命令块 %error"@))
            } else {
                (st, CtrlActV::Nothing)
            }
        },
        CtrlEventV::Notify => {
            if st.phase == Phase::Steady && st.pane is Some {
                (st, CtrlActV::Reconcile)
            } else {
                (st, CtrlActV::Nothing)
            }
        },
        CtrlEventV::Exit => (reset_v(st), CtrlActV::Dead("tmux -C %exit（会话被 kill/断开）"@)),
    }
}

/// Trailing `\r`s removed (`trim_end_matches('\r')`).
pub open spec fn trim_cr(s: Seq<char>) -> Seq<char>
    decreases s.len(),
{
    if s.len() > 0 && s.last() == '\r' {
        trim_cr(s.drop_last())
    } else {
        s
    }
}

/// The complete lines of a byte buffer (decoded, line end and trailing
/// `\r`s removed) and the incomplete rest.
pub open spec fn split_complete(b: Seq<u8>) -> (Seq<Seq<char>>, Seq<u8>)
    decreases b.len(),
{
    if nl_pos(b) >= b.len() {
        (Seq::empty(), b)
    } else {
        let p = nl_pos(b);
        let (ls, r) = split_complete(b.skip(p as int + 1));
        (seq![trim_cr(lossy(b.take(p as int)))] + ls, r)
    }
}

/// Seed / continue-feeding phase machine (owned by the app; see the
/// methods for reset, seeding and completion).
pub struct CtrlFeed {
    phase: Phase,
    pane: Option<u64>,
    cursor: (u32, u32),
    cap: Vec<String>,
    saw_body: bool,
    first_line: String,
    line_buf: Vec<u8>,
}

pub open spec fn strings_v(v: Seq<String>) -> Seq<Seq<char>> {
    v.map_values(|s: String| s@)
}

impl CtrlFeed {
    pub closed spec fn state(&self) -> CtrlStateV {
        CtrlStateV {
            phase: self.phase,
            pane: self.pane,
            cursor: self.cursor,
            cap: strings_v(self.cap@),
            saw_body: self.saw_body,
            first_line: self.first_line@,
        }
    }

    /// Bytes of an incomplete line held over from earlier input.
    pub closed spec fn held(&self) -> Seq<u8> {
        self.line_buf@
    }

    pub fn new() -> (f: Self)
        ensures
            f.state().phase == Phase::Steady,
            f.state().pane is None,
            f.state().cursor == (0u32, 0u32),
            f.state().cap == Seq::<Seq<char>>::empty(),
            !f.state().saw_body,
            f.state().first_line == Seq::<char>::empty(),
            f.held() == Seq::<u8>::empty(),
    {
        let f = CtrlFeed {
            phase: Phase::Steady,
            pane: None,
            cursor: (0, 0),
            cap: Vec::new(),
            saw_body: false,
            first_line: String::new(),
            line_buf: Vec::new(),
        };
        assert(f.state().cap =~= Seq::<Seq<char>>::empty());
        f
    }

    /// The pane claimed by seeding (`None`: not streaming).
    pub fn pane(&self) -> (p: Option<u64>)
        ensures
            p == self.state().pane,
    {
        self.pane
    }

    /// In the steady phase (retries and reconciliation fire only here).
    pub fn is_steady(&self) -> (b: bool)
        ensures
            b == (self.state().phase == Phase::Steady),
    {
        self.phase == Phase::Steady
    }

    /// The seeding commands were sent: await the header, clear the capture
    /// and the body evidence; the old pane stays claimed meanwhile.
    pub fn seed_sent(&mut self)
        ensures
            final(self).state() == (CtrlStateV {
                phase: Phase::AwaitHeader,
                cap: Seq::empty(),
                saw_body: false,
                ..old(self).state()
            }),
            final(self).held() == old(self).held(),
    {
        self.phase = Phase::AwaitHeader;
        self.cap = Vec::new();
        self.saw_body = false;
        assert(strings_v(self.cap@) =~= Seq::<Seq<char>>::empty());
    }

    /// Back to zero (failure, teardown, new subject).
    pub fn reset(&mut self)
        ensures
            final(self).state() == reset_v(old(self).state()),
            final(self).held() == old(self).held(),
    {
        self.phase = Phase::Steady;
        self.pane = None;
        self.cap = Vec::new();
        self.saw_body = false;
        assert(strings_v(self.cap@) =~= Seq::<Seq<char>>::empty());
    }

    /// The canvas was built and installed: back to steady (streaming).
    pub fn built(&mut self)
        ensures
            final(self).state() == (CtrlStateV { phase: Phase::Steady, ..old(self).state() }),
            final(self).held() == old(self).held(),
    {
        self.phase = Phase::Steady;
    }

    fn clue(&self) -> (m: String)
        ensures
            m@ == no_header_clue(self.first_line@),
    {
        let cs = chars_of(self.first_line.as_str());
        let n: usize = if cs.len() <= 60 { cs.len() } else { 60 };
        let mut v: Vec<char> = Vec::new();
        let mut i: usize = 0;
        while i < n
            invariant
                i <= n <= cs@.len(),
                n == if cs@.len() <= 60 { cs@.len() } else { 60 },
                cs@ == self.first_line@,
                v@ == blank_crlf(cs@).take(i as int),
            decreases n - i,
        {
            let c = cs[i];
            v.push(if c == '\r' || c == '\n' { ' ' } else { c });
            i += 1;
            assert(v@ =~= blank_crlf(cs@).take(i as int));
        }
        assert(v@ =~= prefix_chars(blank_crlf(cs@), 60));
        let mut m = "头块有正文但无 KFMHDR 头行: 首行=".to_owned();
        push_str(&mut m, string_from_chars(v.as_slice()).as_str());
        m
    }

    fn take_cap(&mut self) -> (s: String)
        ensures
            s@ == join_crlf(old(self).state().cap),
            final(self).state() == (CtrlStateV { cap: Seq::empty(), ..old(self).state() }),
            final(self).held() == old(self).held(),
    {
        let mut s = String::new();
        let mut i: usize = 0;
        while i < self.cap.len()
            invariant
                i <= self.cap@.len(),
                s@ == join_crlf(strings_v(self.cap@).take(i as int)),
            decreases self.cap.len() - i,
        {
            if i > 0 {
                push_str(&mut s, "\r\n");
                proof {
                    reveal_strlit("\r\n");
                }
            }
            push_str(&mut s, self.cap[i].as_str());
            assert(strings_v(self.cap@).take(i + 1).drop_last() =~= strings_v(self.cap@).take(
                i as int,
            ));
            i += 1;
        }
        assert(strings_v(self.cap@).take(self.cap@.len() as int) =~= strings_v(self.cap@));
        self.cap = Vec::new();
        assert(strings_v(self.cap@) =~= Seq::<Seq<char>>::empty());
        s
    }

    /// Consumes one classified line (see `ctrl_step`); `hdr` is the line
    /// read as a seed header.
    pub fn on_event(&mut self, ev: CtrlEvent, hdr: Option<SeedHeader>, line: &str) -> (a: CtrlAct)
        ensures
            (final(self).state(), a@) == ctrl_step(old(self).state(), ev@, hdr, line@),
            final(self).held() == old(self).held(),
    {
        match ev {
            CtrlEvent::Output { pane, bytes } => {
                if self.phase == Phase::Building && self.pane == Some(pane) {
                    CtrlAct::Pend(bytes)
                } else if self.phase == Phase::Steady && self.pane == Some(pane) {
                    CtrlAct::Feed(bytes)
                } else {
                    CtrlAct::Nothing
                }
            },
            CtrlEvent::Plain => {
                if self.phase == Phase::AwaitHeader {
                    if !self.saw_body {
                        let cs = chars_of(line);
                        let n: usize = if cs.len() <= 80 { cs.len() } else { 80 };
                        let p = sub_vec(cs.as_slice(), 0, n);
                        assert(p@ =~= prefix_chars(line@, 80));
                        self.first_line = string_from_chars(p.as_slice());
                    }
                    self.saw_body = true;
                    match hdr {
                        Some(h) => {
                            self.pane = Some(h.pane);
                            self.cursor = (h.cursor_x, h.cursor_y);
                            self.phase = Phase::HdrEnd;
                        },
                        None => {},
                    }
                    CtrlAct::Nothing
                } else if self.phase == Phase::InCapture {
                    let ghost before = self.cap@;
                    self.cap.push(line.to_owned());
                    assert(strings_v(self.cap@) =~= strings_v(before).push(line@));
                    CtrlAct::Nothing
                } else {
                    CtrlAct::Nothing
                }
            },
            CtrlEvent::BlockBegin => {
                if self.phase == Phase::AwaitHeader {
                    self.saw_body = false;
                    self.first_line = String::new();
                } else if self.phase == Phase::AwaitBody {
                    self.phase = Phase::InCapture;
                    self.cap = Vec::new();
                    assert(strings_v(self.cap@) =~= Seq::<Seq<char>>::empty());
                }
                CtrlAct::Nothing
            },
            CtrlEvent::BlockEnd => {
                if self.phase == Phase::AwaitHeader {
                    if self.saw_body {
                        let clue = self.clue();
                        self.reset();
                        CtrlAct::SeedFail(clue)
                    } else {
                        CtrlAct::Nothing
                    }
                } else if self.phase == Phase::HdrEnd {
                    self.phase = Phase::AwaitBody;
                    CtrlAct::Nothing
                } else if self.phase == Phase::AwaitBody {
                    self.reset();
                    CtrlAct::SeedFail("capture 块缺失（头块后直接 %end）".to_owned())
                } else if self.phase == Phase::InCapture {
                    self.phase = Phase::Building;
                    let cap = self.take_cap();
                    CtrlAct::Build { cap, x: self.cursor.0, y: self.cursor.1 }
                } else {
                    CtrlAct::Nothing
                }
            },
            CtrlEvent::BlockError => {
                if self.phase == Phase::AwaitHeader || self.phase == Phase::HdrEnd || self.phase
                    == Phase::AwaitBody || self.phase == Phase::InCapture {
                    self.reset();
                    CtrlAct::SeedFail("命令块 %error".to_owned())
                } else {
                    CtrlAct::Nothing
                }
            },
            CtrlEvent::Notify => {
                if self.phase == Phase::Steady && self.pane.is_some() {
                    CtrlAct::Reconcile
                } else {
                    CtrlAct::Nothing
                }
            },
            CtrlEvent::Exit => {
                self.reset();
                CtrlAct::Dead("tmux -C %exit（会话被 kill/断开）")
            },
        }
    }

    /// Takes the complete lines off the held bytes plus `data` (see
    /// `split_complete`), keeping the incomplete rest.
    fn take_lines(&mut self, data: &[u8]) -> (lines: Vec<String>)
        ensures
            ({
                let (ls, rest) = split_complete(old(self).held() + data@);
                &&& strings_v(lines@) == ls
                &&& final(self).held() == rest
            }),
            final(self).state() == old(self).state(),
    {
        crate::text::extend_bytes(&mut self.line_buf, data, 0, data.len());
        assert(data@.subrange(0, data@.len() as int) =~= data@);
        let ghost all = self.line_buf@;
        let mut lines: Vec<String> = Vec::new();
        assert(strings_v(lines@) + split_complete(all).0 =~= split_complete(all).0);
        loop
            invariant
                split_complete(all) == (strings_v(lines@) + split_complete(self.line_buf@).0,
                split_complete(self.line_buf@).1),
                self.state() == old(self).state(),
            ensures
                split_complete(all) == (strings_v(lines@), self.line_buf@),
                self.state() == old(self).state(),
            decreases self.line_buf@.len(),
        {
            let ghost b = self.line_buf@;
            proof {
                lemma_nl_pos(b);
            }
            let mut i: usize = 0;
            assert(b.skip(0) =~= b);
            while i < self.line_buf.len() && self.line_buf[i] != 10u8
                invariant
                    i <= self.line_buf@.len(),
                    self.line_buf@ == b,
                    nl_pos(b) == i + nl_pos(b.skip(i as int)),
                decreases self.line_buf.len() - i,
            {
                assert(b.skip(i as int).drop_first() =~= b.skip(i + 1));
                i += 1;
            }
            if i >= self.line_buf.len() {
                assert(strings_v(lines@) + Seq::<Seq<char>>::empty() =~= strings_v(lines@));
                break;
            }
            let raw = sub_vec(self.line_buf.as_slice(), 0, i);
            let rest = sub_vec(self.line_buf.as_slice(), i + 1, self.line_buf.len());
            self.line_buf = rest;
            assert(raw@ =~= b.take(i as int));
            assert(rest@ =~= b.skip(i + 1));
            let s = lossy_string(raw.as_slice());
            let cs = chars_of(s.as_str());
            let mut e = cs.len();
            assert(cs@.take(e as int) =~= cs@);
            while e > 0 && cs[e - 1] == '\r'
                invariant
                    e <= cs@.len(),
                    trim_cr(cs@) == trim_cr(cs@.take(e as int)),
                decreases e,
            {
                assert(cs@.take(e as int).drop_last() =~= cs@.take(e - 1));
                e -= 1;
            }
            let t = sub_vec(cs.as_slice(), 0, e);
            assert(t@ =~= cs@.take(e as int));
            let ghost before = lines@;
            lines.push(string_from_chars(t.as_slice()));
            assert(strings_v(lines@) =~= strings_v(before).push(trim_cr(lossy(b.take(i as int)))));
            assert(strings_v(before) + split_complete(b).0 =~= strings_v(lines@) + split_complete(
                self.line_buf@,
            ).0);
        }
        lines
    }

    /// Feeds raw control-mode bytes: assembles lines across calls, drops
    /// line ends and trailing `\r`s, classifies each line with `classify`
    /// (its event, and its reading as a seed header) and consumes it; one
    /// action per complete line.
    pub fn feed_bytes<F: Fn(&str) -> (CtrlEvent, Option<SeedHeader>)>(&mut self, data: &[u8], classify: F) -> (acts: Vec<CtrlAct>)
        requires
            forall|s: &str| call_requires(classify, (s,)),
        ensures
            ({
                let (ls, rest) = split_complete(old(self).held() + data@);
                &&& final(self).held() == rest
                &&& ctrl_run(classify, old(self).state(), ls, acts_v(acts@), final(self).state())
            }),
    {
        let ghost st0 = self.state();
        let lines = self.take_lines(data);
        let mut acts: Vec<CtrlAct> = Vec::new();
        let mut i: usize = 0;
        let ghost mut sts: Seq<CtrlStateV> = seq![st0];
        while i < lines.len()
            invariant
                i <= lines@.len(),
                forall|s: &str| call_requires(classify, (s,)),
                acts@.len() == i,
                sts.len() == i + 1,
                sts[0] == st0,
                sts[i as int] == self.state(),
                forall|k: int| 0 <= k < i ==> #[trigger] step_ok(classify, sts[k], strings_v(lines@)[k], sts[k + 1], acts_v(acts@)[k]),
                self.held() == split_complete(old(self).held() + data@).1,
            decreases lines.len() - i,
        {
            let line = lines[i].as_str();
            let c = classify(line);
            let ghost mid = self.state();
            let (ev, hdr) = c;
            let a = self.on_event(ev, hdr, line);
            proof {
                assert(step_ok(classify, mid, line@, self.state(), a@));
            }
            let ghost before = acts@;
            let ghost sts0 = sts;
            acts.push(a);
            proof {
                sts = sts.push(self.state());
                assert(acts_v(acts@) =~= acts_v(before).push(a@));
                assert forall|k: int| 0 <= k < i + 1 implies #[trigger] step_ok(
                    classify,
                    sts[k],
                    strings_v(lines@)[k],
                    sts[k + 1],
                    acts_v(acts@)[k],
                ) by {
                    if k < i {
                        assert(sts[k] == sts0[k] && sts[k + 1] == sts0[k + 1]);
                        assert(acts_v(acts@)[k] == acts_v(before)[k]);
                    }
                }
            }
            i += 1;
        }
        assert(sts.len() == strings_v(lines@).len() + 1);
        acts
    }
}

pub open spec fn acts_v(v: Seq<CtrlAct>) -> Seq<CtrlActV> {
    v.map_values(|a: CtrlAct| a@)
}

/// One line consumed as the machine does: `classify` gave (event, header)
/// for the line, and the step went from `st` to `st2` with action `act`.
pub open spec fn step_ok<F: Fn(&str) -> (CtrlEvent, Option<SeedHeader>)>(
    classify: F,
    st: CtrlStateV,
    line: Seq<char>,
    st2: CtrlStateV,
    act: CtrlActV,
) -> bool {
    exists|s: &str, c: (CtrlEvent, Option<SeedHeader>)|
        #![trigger call_ensures(classify, (s,), c)]
        s@ == line && call_ensures(classify, (s,), c) && (st2, act) == ctrl_step(st, c.0@, c.1, line)
}

/// A run over lines: each line stepped in turn from `st`, giving `acts`
/// and ending in `fin`.
pub open spec fn ctrl_run<F: Fn(&str) -> (CtrlEvent, Option<SeedHeader>)>(
    classify: F,
    st: CtrlStateV,
    lines: Seq<Seq<char>>,
    acts: Seq<CtrlActV>,
    fin: CtrlStateV,
) -> bool {
    &&& acts.len() == lines.len()
    &&& exists|sts: Seq<CtrlStateV>|
        #![trigger sts.len()]
        sts.len() == lines.len() + 1 && sts[0] == st && sts[lines.len() as int] == fin && forall|i: int|
            0 <= i < lines.len() ==> #[trigger] step_ok(classify, sts[i], lines[i], sts[i + 1], acts[i])
}

/// After a reset nothing streams: an `%output` or notification line leaves
/// the reset state as it is and asks for nothing (no pane is claimed).
pub proof fn lemma_reset_is_quiet(st: CtrlStateV, ev: CtrlEventV, hdr: Option<SeedHeader>, line: Seq<char>)
    requires
        ev is Output || ev is Notify,
    ensures
        ctrl_step(reset_v(st), ev, hdr, line) == (reset_v(st), CtrlActV::Nothing),
{
}

/// Reset, then feed lines that the classifier reads only as `%output` or
/// notifications: every action is `Nothing` and the state stays the reset
/// state.
pub proof fn lemma_reset_then_feed_quiet<F: Fn(&str) -> (CtrlEvent, Option<SeedHeader>)>(
    classify: F,
    st: CtrlStateV,
    lines: Seq<Seq<char>>,
    acts: Seq<CtrlActV>,
    fin: CtrlStateV,
)
    requires
        forall|s: &str, c: (CtrlEvent, Option<SeedHeader>)| #[trigger] call_ensures(classify, (s,), c)
            ==> (c.0 is Output || c.0 is Notify),
        ctrl_run(classify, reset_v(st), lines, acts, fin),
    ensures
        fin == reset_v(st),
        forall|i: int| 0 <= i < acts.len() ==> acts[i] == CtrlActV::Nothing,
{
    let sts = choose|sts: Seq<CtrlStateV>|
        #![trigger sts.len()]
        sts.len() == lines.len() + 1 && sts[0] == reset_v(st) && sts[lines.len() as int] == fin && forall|i: int|
            0 <= i < lines.len() ==> #[trigger] step_ok(classify, sts[i], lines[i], sts[i + 1], acts[i]);
    lemma_quiet_prefix(classify, st, lines, acts, sts, lines.len() as int);
}

proof fn lemma_quiet_prefix<F: Fn(&str) -> (CtrlEvent, Option<SeedHeader>)>(
    classify: F,
    st: CtrlStateV,
    lines: Seq<Seq<char>>,
    acts: Seq<CtrlActV>,
    sts: Seq<CtrlStateV>,
    k: int,
)
    requires
        forall|s: &str, c: (CtrlEvent, Option<SeedHeader>)| #[trigger] call_ensures(classify, (s,), c)
            ==> (c.0 is Output || c.0 is Notify),
        0 <= k <= lines.len(),
        sts.len() == lines.len() + 1,
        sts[0] == reset_v(st),
        forall|i: int|
            0 <= i < lines.len() ==> #[trigger] step_ok(classify, sts[i], lines[i], sts[i + 1], acts[i]),
    ensures
        forall|i: int| 0 <= i <= k ==> sts[i] == reset_v(st),
        forall|i: int| 0 <= i < k ==> acts[i] == CtrlActV::Nothing,
    decreases k,
{
    if k > 0 {
        lemma_quiet_prefix(classify, st, lines, acts, sts, k - 1);
        let j = k - 1;
        assert(step_ok(classify, sts[j], lines[j], sts[j + 1], acts[j]));
        let (s, c) = choose|s: &str, c: (CtrlEvent, Option<SeedHeader>)|
            #![trigger call_ensures(classify, (s,), c)]
            s@ == lines[j] && call_ensures(classify, (s,), c) && (sts[j + 1], acts[j]) == ctrl_step(sts[j], c.0@, c.1, lines[j]);
        lemma_reset_is_quiet(st, c.0@, c.1, lines[j]);
    }
}

/// Byte ownership: an `%output` line never changes the machine's state;
/// its bytes reach the canvas only in the steady phase and are held only
/// while building, in both cases only for the claimed pane; during the
/// seeding window they are dropped.
pub proof fn lemma_output_ownership(st: CtrlStateV, pane: u64, bytes: Seq<u8>, hdr: Option<SeedHeader>, line: Seq<char>)
    ensures
        ({
            let (st2, act) = ctrl_step(st, CtrlEventV::Output { pane, bytes }, hdr, line);
            &&& st2 == st
            &&& act is Feed <==> (st.phase == Phase::Steady && st.pane == Some(pane))
            &&& act is Pend <==> (st.phase == Phase::Building && st.pane == Some(pane))
            &&& seeding(st.phase) ==> act is Nothing
        }),
{
}

} // verus!
