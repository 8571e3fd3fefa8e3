//! The AI presence core: whether the AI is running, the overlay's
//! visibility, and the panel stack over the terminal.
//!
//! The terminal is always at the bottom; at most two panels stand on it
//! (the last is the top, the other is covered). Summoning takes a panel out
//! and puts it back on top (so repeating it changes nothing); a full stack
//! first drops its bottom silently. Only the top can be dismissed. Every
//! time decision takes `now_ms` as a parameter.
use vstd::prelude::*;

verus! {

/// How long the overlay lingers after a run ends (ms).
pub const LINGER_MS: u64 = 3000;

/// Long-press threshold on the orb (ms).
pub const LONG_PRESS_MS: u64 = 600;

/// Page: terminal or AI full screen (derived from the stack: the AI panel
/// on it, top or covered, means full screen).
#[derive(Debug, Clone, Copy, PartialEq, Eq, Structural)]
pub enum Page {
    Terminal,
    AiFullscreen,
}

/// The panels.
#[derive(Debug, Clone, Copy, PartialEq, Eq, Structural)]
pub enum Panel {
    Ai,
    Config,
    FileTree,
    Parser,
}

/// Horizontal drawer swipe direction.
#[derive(Debug, Clone, Copy, PartialEq, Eq, Structural)]
pub enum SwipeDir {
    Left,
    Right,
}

/// `s` without `p`, order kept.
pub open spec fn without(s: Seq<Panel>, p: Panel) -> Seq<Panel>
    decreases s.len(),
{
    if s.len() == 0 {
        s
    } else if s.last() == p {
        without(s.drop_last(), p)
    } else {
        without(s.drop_last(), p).push(s.last())
    }
}

/// Stack after summoning `p`, the panel pushed out of the bottom (if the
/// stack was full), and whether `p` was the covered panel.
pub open spec fn summon_spec(s: Seq<Panel>, p: Panel) -> (Seq<Panel>, Option<Panel>, bool) {
    let was_covered = s.len() == 2 && s[0] == p;
    let s1 = without(s, p);
    if s1.len() == 2 {
        (s1.drop_first().push(p), Some(s1[0]), was_covered)
    } else {
        (s1.push(p), None, was_covered)
    }
}

/// At most two panels, none twice.
pub open spec fn stack_ok(s: Seq<Panel>) -> bool {
    s.len() <= 2 && (s.len() == 2 ==> s[0] != s[1])
}

pub open spec fn panel_index(p: Panel) -> int {
    match p {
        Panel::Ai => 0,
        Panel::Config => 1,
        Panel::FileTree => 2,
        Panel::Parser => 3,
    }
}

/// Entry epochs after a summon: the ejected panel's and (when it was
/// covered) the summoned panel's move by one.
pub open spec fn epochs_after(e: Seq<u64>, ejected: Option<Panel>, p: Panel, was_covered: bool) -> Seq<u64> {
    let e1 = match ejected {
        Some(q) => e.update(panel_index(q), (e[panel_index(q)] + 1) as u64),
        None => e,
    };
    if was_covered {
        e1.update(panel_index(p), (e1[panel_index(p)] + 1) as u64)
    } else {
        e1
    }
}

/// The presence state without the orb's position.
pub struct PresenceState {
    ai_running: bool,
    stack: Vec<Panel>,
    epoch_ai: u64,
    epoch_cfg: u64,
    epoch_ft: u64,
    epoch_pt: u64,
    pressed: bool,
    dismissed: bool,
    run_ended_ms: Option<u64>,
    fake_end_ms: Option<u64>,
}

impl PresenceState {
    pub closed spec fn stack_v(&self) -> Seq<Panel> {
        self.stack@
    }

    pub closed spec fn epochs(&self) -> Seq<u64> {
        seq![self.epoch_ai, self.epoch_cfg, self.epoch_ft, self.epoch_pt]
    }

    pub closed spec fn running(&self) -> bool {
        self.ai_running
    }

    pub closed spec fn pressed_v(&self) -> bool {
        self.pressed
    }

    pub closed spec fn dismissed_v(&self) -> bool {
        self.dismissed
    }

    pub closed spec fn run_ended(&self) -> Option<u64> {
        self.run_ended_ms
    }

    pub closed spec fn fake_end(&self) -> Option<u64> {
        self.fake_end_ms
    }

    /// Every epoch can still move.
    pub open spec fn epochs_ok(&self) -> bool {
        forall|i: int| 0 <= i < 4 ==> #[trigger] self.epochs()[i] < u64::MAX
    }

    pub open spec fn wf(&self) -> bool {
        stack_ok(self.stack_v()) && self.epochs().len() == 4
    }

    pub fn new() -> (s: Self)
        ensures
            s.wf(),
            s.stack_v() == Seq::<Panel>::empty(),
            s.epochs() == seq![0u64, 0, 0, 0],
            !s.running(),
            !s.pressed_v(),
            !s.dismissed_v(),
            s.run_ended() is None,
            s.fake_end() is None,
    {
        PresenceState {
            ai_running: false,
            stack: Vec::new(),
            epoch_ai: 0,
            epoch_cfg: 0,
            epoch_ft: 0,
            epoch_pt: 0,
            pressed: false,
            dismissed: false,
            run_ended_ms: None,
            fake_end_ms: None,
        }
    }

    /// The AI started: light on, overlay shown (the per-run dismissal is
    /// cleared); the page is not taken over.
    pub fn run_start(&mut self, now_ms: u64)
        ensures
            final(self).running(),
            !final(self).dismissed_v(),
            final(self).run_ended() is None,
            final(self).fake_end() is None,
            final(self).stack_v() == old(self).stack_v(),
            final(self).epochs() == old(self).epochs(),
            final(self).pressed_v() == old(self).pressed_v(),
    {
        self.ai_running = true;
        self.dismissed = false;
        self.run_ended_ms = None;
        self.fake_end_ms = None;
    }

    /// The AI finished: light off, the overlay lingers from `now_ms`. Never
    /// changes the page; ignored when not running.
    pub fn run_end(&mut self, now_ms: u64)
        ensures
            old(self).running() ==> !final(self).running() && final(self).run_ended() == Some(now_ms)
                && final(self).fake_end() is None && final(self).dismissed_v()
                == old(self).dismissed_v(),
            !old(self).running() ==> *final(self) == *old(self),
            final(self).stack_v() == old(self).stack_v(),
            final(self).epochs() == old(self).epochs(),
            final(self).pressed_v() == old(self).pressed_v(),
    {
        if !self.ai_running {
            return;
        }
        self.ai_running = false;
        self.run_ended_ms = Some(now_ms);
        self.fake_end_ms = None;
    }

    fn bump(&mut self, p: Panel)
        requires
            old(self).epochs()[panel_index(p)] < u64::MAX,
        ensures
            final(self).epochs() == old(self).epochs().update(
                panel_index(p),
                (old(self).epochs()[panel_index(p)] + 1) as u64,
            ),
            final(self).stack == old(self).stack,
            final(self).ai_running == old(self).ai_running,
            final(self).pressed == old(self).pressed,
            final(self).dismissed == old(self).dismissed,
            final(self).run_ended_ms == old(self).run_ended_ms,
            final(self).fake_end_ms == old(self).fake_end_ms,
    {
        match p {
            Panel::Ai => self.epoch_ai = self.epoch_ai + 1,
            Panel::Config => self.epoch_cfg = self.epoch_cfg + 1,
            Panel::FileTree => self.epoch_ft = self.epoch_ft + 1,
            Panel::Parser => self.epoch_pt = self.epoch_pt + 1,
        }
        assert(self.epochs() =~= old(self).epochs().update(
            panel_index(p),
            (old(self).epochs()[panel_index(p)] + 1) as u64,
        ));
    }

    /// Summons `p` to the top (see `summon_spec`): the epochs of the panel
    /// pushed out and of a covered panel summoned again move by one.
    pub fn summon_panel(&mut self, p: Panel)
        requires
            old(self).wf(),
            old(self).epochs_ok(),
        ensures
            final(self).wf(),
            ({
                let (s2, ej, cov) = summon_spec(old(self).stack_v(), p);
                &&& final(self).stack_v() == s2
                &&& final(self).epochs() == epochs_after(old(self).epochs(), ej, p, cov)
            }),
            final(self).running() == old(self).running(),
            final(self).pressed_v() == old(self).pressed_v(),
            final(self).dismissed_v() == old(self).dismissed_v(),
            final(self).run_ended() == old(self).run_ended(),
            final(self).fake_end() == old(self).fake_end(),
    {
        let ghost s = self.stack@;
        let was_covered = self.stack.len() == 2 && self.stack[0] == p;
        let mut kept: Vec<Panel> = Vec::new();
        let mut i: usize = 0;
        while i < self.stack.len()
            invariant
                i <= self.stack@.len(),
                self.stack@ == s,
                kept@ == without(s.take(i as int), p),
            decreases self.stack.len() - i,
        {
            assert(s.take(i + 1).drop_last() =~= s.take(i as int));
            if self.stack[i] != p {
                kept.push(self.stack[i]);
            }
            i += 1;
        }
        assert(s.take(s.len() as int) =~= s);
        proof {
            lemma_without_ok(s, p);
        }
        let ghost e0 = self.epochs();
        if kept.len() == 2 {
            let ejected = kept[0];
            let rest = kept[1];
            self.bump(ejected);
            let mut st: Vec<Panel> = Vec::new();
            st.push(rest);
            st.push(p);
            self.stack = st;
            assert(self.stack@ =~= kept@.drop_first().push(p));
        } else {
            kept.push(p);
            self.stack = kept;
        }
        if was_covered {
            self.bump(p);
        }
        proof {
            lemma_summon_ok(s, p);
        }
    }

    /// Tapping the orb: the AI panel on top is dismissed, otherwise it is
    /// summoned.
    pub fn tap_orb(&mut self)
        requires
            old(self).wf(),
            old(self).epochs_ok(),
        ensures
            final(self).wf(),
            ({
                let s = old(self).stack_v();
                if s.len() > 0 && s.last() == Panel::Ai {
                    final(self).stack_v() == s.drop_last() && final(self).epochs() == old(
                        self,
                    ).epochs()
                } else {
                    let (s2, ej, cov) = summon_spec(s, Panel::Ai);
                    final(self).stack_v() == s2 && final(self).epochs() == epochs_after(
                        old(self).epochs(),
                        ej,
                        Panel::Ai,
                        cov,
                    )
                }
            }),
    {
        if self.stack.len() > 0 && self.stack[self.stack.len() - 1] == Panel::Ai {
            self.stack.pop();
        } else {
            self.summon_panel(Panel::Ai);
        }
    }

    /// Tapping the overlay: the AI panel is summoned.
    pub fn tap_overlay(&mut self)
        requires
            old(self).wf(),
            old(self).epochs_ok(),
        ensures
            final(self).wf(),
            ({
                let (s2, ej, cov) = summon_spec(old(self).stack_v(), Panel::Ai);
                &&& final(self).stack_v() == s2
                &&& final(self).epochs() == epochs_after(old(self).epochs(), ej, Panel::Ai, cov)
            }),
    {
        self.summon_panel(Panel::Ai);
    }

    /// Dismisses `p` if it is the top; returns whether it was.
    pub fn dismiss_top(&mut self, p: Panel) -> (b: bool)
        requires
            old(self).wf(),
        ensures
            final(self).wf(),
            b == (old(self).stack_v().len() > 0 && old(self).stack_v().last() == p),
            final(self).stack_v() == if b {
                old(self).stack_v().drop_last()
            } else {
                old(self).stack_v()
            },
            final(self).epochs() == old(self).epochs(),
    {
        if self.stack.len() > 0 && self.stack[self.stack.len() - 1] == p {
            self.stack.pop();
            true
        } else {
            false
        }
    }

    /// Left swipe: a file tree on top goes back; a config or parser panel
    /// on top stays; otherwise the parser panel is summoned.
    pub fn swipe_left(&mut self)
        requires
            old(self).wf(),
            old(self).epochs_ok(),
        ensures
            final(self).wf(),
            ({
                let s = old(self).stack_v();
                if s.len() > 0 && s.last() == Panel::FileTree {
                    final(self).stack_v() == s.drop_last() && final(self).epochs() == old(
                        self,
                    ).epochs()
                } else if s.len() > 0 && (s.last() == Panel::Config || s.last() == Panel::Parser) {
                    final(self).stack_v() == s && final(self).epochs() == old(self).epochs()
                } else {
                    let (s2, ej, cov) = summon_spec(s, Panel::Parser);
                    final(self).stack_v() == s2 && final(self).epochs() == epochs_after(
                        old(self).epochs(),
                        ej,
                        Panel::Parser,
                        cov,
                    )
                }
            }),
    {
        if self.stack.len() > 0 {
            let top = self.stack[self.stack.len() - 1];
            if top == Panel::FileTree {
                self.stack.pop();
                return;
            }
            if top == Panel::Config || top == Panel::Parser {
                return;
            }
        }
        self.summon_panel(Panel::Parser);
    }

    /// Right swipe: a config or parser panel on top goes back; a file tree
    /// on top stays; otherwise the file tree is summoned.
    pub fn swipe_right(&mut self)
        requires
            old(self).wf(),
            old(self).epochs_ok(),
        ensures
            final(self).wf(),
            ({
                let s = old(self).stack_v();
                if s.len() > 0 && (s.last() == Panel::Config || s.last() == Panel::Parser) {
                    final(self).stack_v() == s.drop_last() && final(self).epochs() == old(
                        self,
                    ).epochs()
                } else if s.len() > 0 && s.last() == Panel::FileTree {
                    final(self).stack_v() == s && final(self).epochs() == old(self).epochs()
                } else {
                    let (s2, ej, cov) = summon_spec(s, Panel::FileTree);
                    final(self).stack_v() == s2 && final(self).epochs() == epochs_after(
                        old(self).epochs(),
                        ej,
                        Panel::FileTree,
                        cov,
                    )
                }
            }),
    {
        if self.stack.len() > 0 {
            let top = self.stack[self.stack.len() - 1];
            if top == Panel::Config || top == Panel::Parser {
                self.stack.pop();
                return;
            }
            if top == Panel::FileTree {
                return;
            }
        }
        self.summon_panel(Panel::FileTree);
    }

    /// The panel is on the stack (top or covered).
    pub fn panel_present(&self, p: Panel) -> (b: bool)
        ensures
            b == self.stack_v().contains(p),
    {
        let mut i: usize = 0;
        while i < self.stack.len()
            invariant
                i <= self.stack@.len(),
                forall|k: int| 0 <= k < i ==> self.stack@[k] != p,
            decreases self.stack.len() - i,
        {
            if self.stack[i] == p {
                assert(self.stack@[i as int] == p);
                return true;
            }
            i += 1;
        }
        false
    }

    pub fn press_down(&mut self)
        ensures
            final(self).pressed_v(),
            final(self).stack_v() == old(self).stack_v(),
            final(self).epochs() == old(self).epochs(),
            final(self).running() == old(self).running(),
    {
        self.pressed = true;
    }

    pub fn press_up(&mut self)
        ensures
            !final(self).pressed_v(),
            final(self).stack_v() == old(self).stack_v(),
            final(self).epochs() == old(self).epochs(),
            final(self).running() == old(self).running(),
    {
        self.pressed = false;
    }

    /// Swiping the overlay away: hidden for this run (including its
    /// lingering), until the next run starts.
    pub fn dismiss_overlay(&mut self)
        ensures
            final(self).dismissed_v(),
            final(self).stack_v() == old(self).stack_v(),
            final(self).epochs() == old(self).epochs(),
            final(self).running() == old(self).running(),
            final(self).run_ended() == old(self).run_ended(),
            final(self).fake_end() == old(self).fake_end(),
    {
        self.dismissed = true;
    }

    /// A pretend run that ends by itself `duration_ms` after `now_ms`.
    pub fn fake_run(&mut self, duration_ms: u64, now_ms: u64)
        requires
            now_ms + duration_ms <= u64::MAX,
        ensures
            final(self).running(),
            !final(self).dismissed_v(),
            final(self).run_ended() is None,
            final(self).fake_end() == Some((now_ms + duration_ms) as u64),
            final(self).stack_v() == old(self).stack_v(),
            final(self).epochs() == old(self).epochs(),
    {
        self.run_start(now_ms);
        self.fake_end_ms = Some(now_ms + duration_ms);
    }

    /// Settles a pretend run that is due: it ends at its due time.
    pub fn settle(&mut self, now_ms: u64)
        ensures
            ({
                let due = old(self).running() && old(self).fake_end() is Some && now_ms
                    >= old(self).fake_end()->0;
                &&& due ==> !final(self).running() && final(self).run_ended() == old(self).fake_end()
                    && final(self).fake_end() is None
                &&& !due ==> final(self).running() == old(self).running() && final(self).run_ended()
                    == old(self).run_ended() && final(self).fake_end() == old(self).fake_end()
            }),
            final(self).dismissed_v() == old(self).dismissed_v(),
            final(self).stack_v() == old(self).stack_v(),
            final(self).epochs() == old(self).epochs(),
            final(self).pressed_v() == old(self).pressed_v(),
    {
        match self.fake_end_ms {
            Some(end) => {
                if self.ai_running && now_ms >= end {
                    self.ai_running = false;
                    self.run_ended_ms = Some(end);
                    self.fake_end_ms = None;
                }
            },
            None => {},
        }
    }

    /// Overlay visibility after settling: hidden when dismissed; shown while
    /// running; otherwise shown for `LINGER_MS` after the run ended.
    pub fn overlay_visible(&mut self, now_ms: u64) -> (b: bool)
        ensures
            b == (!final(self).dismissed_v() && (final(self).running() || match final(self).run_ended() {
                Some(end) => (if now_ms >= end { now_ms - end } else { 0 }) < LINGER_MS,
                None => false,
            })),
            final(self).stack_v() == old(self).stack_v(),
            final(self).epochs() == old(self).epochs(),
    {
        self.settle(now_ms);
        if self.dismissed {
            false
        } else if self.ai_running {
            true
        } else {
            match self.run_ended_ms {
                Some(end) => now_ms.saturating_sub(end) < LINGER_MS,
                None => false,
            }
        }
    }

    /// Page derived from the stack.
    pub fn page(&self) -> (p: Page)
        ensures
            p == if self.stack_v().contains(Panel::Ai) {
                Page::AiFullscreen
            } else {
                Page::Terminal
            },
    {
        if self.panel_present(Panel::Ai) {
            Page::AiFullscreen
        } else {
            Page::Terminal
        }
    }

    /// The top panel (`None`: the bare terminal).
    pub fn top(&self) -> (t: Option<Panel>)
        ensures
            t == if self.stack_v().len() > 0 {
                Some(self.stack_v().last())
            } else {
                None
            },
    {
        if self.stack.len() > 0 {
            Some(self.stack[self.stack.len() - 1])
        } else {
            None
        }
    }

    /// The covered panel (only with two on the stack).
    pub fn covered(&self) -> (c: Option<Panel>)
        ensures
            c == if self.stack_v().len() == 2 {
                Some(self.stack_v()[0])
            } else {
                None
            },
    {
        if self.stack.len() == 2 {
            Some(self.stack[0])
        } else {
            None
        }
    }

    /// The entry epoch of a panel.
    pub fn epoch(&self, p: Panel) -> (e: u64)
        ensures
            e == self.epochs()[panel_index(p)],
    {
        match p {
            Panel::Ai => self.epoch_ai,
            Panel::Config => self.epoch_cfg,
            Panel::FileTree => self.epoch_ft,
            Panel::Parser => self.epoch_pt,
        }
    }
}

proof fn lemma_without_ok(s: Seq<Panel>, p: Panel)
    requires
        stack_ok(s),
    ensures
        stack_ok(without(s, p)),
        !without(s, p).contains(p),
        without(s, p).len() <= s.len(),
        s.contains(p) ==> without(s, p).len() < s.len(),
        s.len() == 2 && s[0] == p ==> without(s, p) == seq![s[1]],
        s.len() == 2 && s[0] != p && s[1] != p ==> without(s, p) == s,
        s.len() == 2 && s[1] == p ==> without(s, p) == seq![s[0]],
        s.len() == 1 ==> without(s, p) == if s[0] == p { Seq::<Panel>::empty() } else { s },
        s.len() == 0 ==> without(s, p) == s,
{
    let e = Seq::<Panel>::empty();
    assert(without(e, p) == e);
    if s.len() >= 1 {
        let d1 = if s.len() == 1 { s } else { s.drop_last() };
        assert(d1.drop_last() =~= e);
        assert(d1.last() == s[0]);
        let w1 = without(d1, p);
        assert(w1 == if s[0] == p { e } else { e.push(s[0]) });
        assert(e.push(s[0]) =~= seq![s[0]]);
        if s.len() == 1 {
            assert(seq![s[0]] =~= s);
        } else {
            assert(s.drop_last() =~= d1);
            assert(s.last() == s[1]);
            assert(without(s, p) == if s[1] == p { w1 } else { w1.push(s[1]) });
            assert(e.push(s[1]) =~= seq![s[1]]);
            assert(seq![s[0]].push(s[1]) =~= s);
        }
    }
}

proof fn lemma_summon_ok(s: Seq<Panel>, p: Panel)
    requires
        stack_ok(s),
    ensures
        stack_ok(summon_spec(s, p).0),
        summon_spec(s, p).0.last() == p,
        summon_spec(s, p).1 is Some ==> summon_spec(s, p).1->0 != p,
{
    lemma_without_ok(s, p);
}

/// Summoning twice is summoning once: the second summon of the top panel
/// changes neither the stack nor any epoch.
pub proof fn lemma_summon_idempotent(s: Seq<Panel>, e: Seq<u64>, p: Panel)
    requires
        stack_ok(s),
    ensures
        ({
            let (s1, ej1, cov1) = summon_spec(s, p);
            let (s2, ej2, cov2) = summon_spec(s1, p);
            &&& s2 == s1
            &&& epochs_after(epochs_after(e, ej1, p, cov1), ej2, p, cov2) == epochs_after(e, ej1, p, cov1)
        }),
{
    lemma_summon_ok(s, p);
    let s1 = summon_spec(s, p).0;
    lemma_without_ok(s1, p);
    if s1.len() == 2 {
        assert(without(s1, p) == seq![s1[0]]);
        assert(seq![s1[0]].push(p) =~= s1);
    } else {
        assert(s1.len() == 1);
        assert(without(s1, p) =~= Seq::<Panel>::empty());
        assert(Seq::<Panel>::empty().push(p) =~= s1);
    }
}

} // verus!
