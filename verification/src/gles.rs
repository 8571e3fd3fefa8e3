//! GLES presentation: the chrome layer slots, in compositing order, and the
//! frame-timing book kept during panel animations (swap gaps, vsync phase,
//! animation frame times) with the report lines made from it.
use vstd::prelude::*;
use crate::gate::counters::{wrap_add, wadd};
use crate::text::{dec, push_dec, push_str};

verus! {

/// The chrome layers the presenter bakes and composites.
#[derive(Debug, Clone, Copy, PartialEq, Eq, Structural)]
pub enum ChromeSlot {
    /// The shortcut-key row (terminal page).
    Keybar,
    /// The AI panel's base decoration.
    Panel,
    /// The top chrome (input bar, orb, magnifier), above the AI text.
    Over,
    /// The config panel's base decoration.
    Config,
}

impl ChromeSlot {
    /// The slot's layer index (0 to 3, in declaration order).
    pub fn index(self) -> (i: usize)
        ensures
            i == match self {
                ChromeSlot::Keybar => 0usize,
                ChromeSlot::Panel => 1,
                ChromeSlot::Over => 2,
                ChromeSlot::Config => 3,
            },
    {
        match self {
            ChromeSlot::Keybar => 0,
            ChromeSlot::Panel => 1,
            ChromeSlot::Over => 2,
            ChromeSlot::Config => 3,
        }
    }
}

/// A min / total / max tally of microsecond samples. The count and total
/// wrap around as the process-wide counters they stand for do.
#[derive(Debug, Clone, Copy, PartialEq, Eq, Structural)]
pub struct Tally {
    pub n: u64,
    pub total: u64,
    pub min: u64,
    pub max: u64,
}

/// One more sample.
pub open spec fn tally_note(t: Tally, x: u64) -> Tally {
    Tally {
        n: wrap_add(t.n, 1),
        total: wrap_add(t.total, x),
        min: if x < t.min { x } else { t.min },
        max: if x > t.max { x } else { t.max },
    }
}

/// The tally at the start of an animation run.
pub open spec fn tally_start() -> Tally {
    Tally { n: 0, total: 0, min: u64::MAX, max: 0 }
}

pub open spec fn tally_zero() -> Tally {
    Tally { n: 0, total: 0, min: 0, max: 0 }
}

impl Tally {
    fn note(&mut self, x: u64)
        ensures
            *final(self) == tally_note(*old(self), x),
    {
        self.n = wadd(self.n, 1);
        self.total = wadd(self.total, x);
        if x < self.min {
            self.min = x;
        }
        if x > self.max {
            self.max = x;
        }
    }
}

/// The frame-timing book of panel animations: the last swap time, whether
/// the previous frame was animating, the swap-gap and vsync-phase tallies
/// (µs) and the running animation frame count, total and maximum (µs).
#[derive(Debug, Clone, Copy, PartialEq, Eq, Structural)]
pub struct FrameBook {
    pub swap_last_ns: u64,
    pub anim_was_active: bool,
    pub gap: Tally,
    pub phase: Tally,
    pub anim_frames: u64,
    pub anim_total_us: u64,
    pub anim_max_us: u64,
}

/// What a swap does to the book: the swap time is kept; while animating
/// (and after a first swap) the gap since the last swap is tallied, and,
/// where the vsync book is armed with a last tick before this swap, the
/// swap's phase in the vsync period.
pub open spec fn note_swap_spec(b: FrameBook, now: u64, vsync_last: Option<u64>) -> FrameBook {
    let last = b.swap_last_ns;
    let b1 = FrameBook { swap_last_ns: now, ..b };
    if last == 0 || !b.anim_was_active {
        b1
    } else {
        let gap = (if now >= last { now - last } else { 0 }) / 1000;
        let b2 = FrameBook { gap: tally_note(b.gap, gap as u64), ..b1 };
        match vsync_last {
            Some(v) => if v != 0 && now > v {
                FrameBook { phase: tally_note(b.phase, ((now - v) / 1000) as u64), ..b2 }
            } else {
                b2
            },
            None => b2,
        }
    }
}

/// What an animation frame reports.
#[derive(Debug, PartialEq, Eq)]
pub enum AnimStep {
    /// An animating frame was counted; `run_start` when it opened a run
    /// (the shell then resets the vsync book, decides on capture and arms
    /// vsync).
    Counted { run_start: bool },
    /// The run just ended: the report so far (frame count, mean, maximum,
    /// estimated fps, then the swap gaps); the shell appends the vsync
    /// report and the capture label, disarms vsync and stops capture.
    Ended { line: String },
    /// Not animating, and no run was open.
    Idle,
}

pub enum AnimStepV {
    Counted { run_start: bool },
    Ended { line: Seq<char> },
    Idle,
}

impl View for AnimStep {
    type V = AnimStepV;

    open spec fn view(&self) -> AnimStepV {
        match self {
            AnimStep::Counted { run_start } => AnimStepV::Counted { run_start: *run_start },
            AnimStep::Ended { line } => AnimStepV::Ended { line: line@ },
            AnimStep::Idle => AnimStepV::Idle,
        }
    }
}

/// The head of a run's report: `<n>帧 均值<avg>us(<avg/1000>ms)
/// 最大<max/1000>ms 推算fps=<1000000/avg>` (fps 0 for a zero mean).
pub open spec fn anim_head(n: u64, total: u64, max: u64) -> Seq<char> {
    let avg: u64 = total / n;
    let fps: u64 = if avg == 0 { 0 } else { 1000000u64 / avg };
    dec(n as nat) + "帧 均值"@ + dec(avg as nat) + "us("@ + dec((avg / 1000) as nat) + "ms) 最大"@ + dec(
        (max / 1000) as nat,
    ) + "ms 推算fps="@ + dec(fps as nat)
}

/// The swap-gap report and the book after it: nothing when no gap was
/// tallied; otherwise ` swap间隔 min/avg/max <min>ms/<avg>ms/<max>ms` and
/// the tally cleared.
pub open spec fn gap_report_spec(b: FrameBook) -> (FrameBook, Seq<char>) {
    let t = b.gap;
    if t.n == 0 {
        (b, Seq::empty())
    } else {
        (
            FrameBook { gap: tally_zero(), ..b },
            " swap间隔 min/avg/max "@ + dec((t.min / 1000) as nat) + "ms/"@ + dec(((t.total / t.n) / 1000) as nat)
                + "ms/"@ + dec((t.max / 1000) as nat) + "ms"@,
        )
    }
}

/// What an animation frame does to the book: an animating frame opens a
/// run when the previous one was not (the gap and phase tallies restart)
/// and is counted; the first frame after a run closes it, clears the
/// counts and makes the report (see `anim_head`, `gap_report_spec`).
pub open spec fn anim_frame_spec(b: FrameBook, active: bool, us: u64) -> (FrameBook, AnimStepV) {
    if active {
        let b0 = FrameBook { anim_was_active: true, ..b };
        let b1 = if !b.anim_was_active {
            FrameBook { gap: tally_start(), phase: tally_start(), ..b0 }
        } else {
            b0
        };
        (
            FrameBook {
                anim_frames: wrap_add(b1.anim_frames, 1),
                anim_total_us: wrap_add(b1.anim_total_us, us),
                anim_max_us: if us > b1.anim_max_us { us } else { b1.anim_max_us },
                ..b1
            },
            AnimStepV::Counted { run_start: !b.anim_was_active },
        )
    } else {
        let n = b.anim_frames;
        let b0 = FrameBook { anim_was_active: false, anim_frames: 0, ..b };
        if n > 0 {
            let b1 = FrameBook { anim_total_us: 0, anim_max_us: 0, ..b0 };
            let (b2, swap) = gap_report_spec(b1);
            (b2, AnimStepV::Ended { line: anim_head(n, b.anim_total_us, b.anim_max_us) + swap })
        } else {
            (b0, AnimStepV::Idle)
        }
    }
}

/// The vsync report from the vsync book's period tally `(n, min, max,
/// total)` (µs), with the phase tally: ` vsync无样本` without a period
/// tally; otherwise ` vsync <hz>.<tenth>Hz 样本<n> 周期 min/avg/max
/// <min>ms/<avg>ms/<max>ms` and, when phases were tallied, ` 相位
/// min/avg/max ...`. The phase count is cleared, and the whole phase tally
/// when it had samples.
pub open spec fn vsync_report_spec(b: FrameBook, gap: Option<(u64, u64, u64, u64)>) -> (FrameBook, Seq<char>) {
    match gap {
        None => (b, " vsync无样本"@),
        Some((n, vmin, vmax, total)) => {
            let avg0: u64 = if n == 0 { 1 } else { total / n };
            let avg: u64 = if avg0 < 1 { 1 } else { avg0 };
            let hz10: u64 = 10000000u64 / avg;
            let p = b.phase;
            let phase_text = if p.n > 0 {
                " 相位 min/avg/max "@ + dec((p.min / 1000) as nat) + "ms/"@ + dec(((p.total / p.n) / 1000) as nat)
                    + "ms/"@ + dec((p.max / 1000) as nat) + "ms"@
            } else {
                Seq::empty()
            };
            let b2 = if p.n > 0 {
                FrameBook { phase: tally_zero(), ..b }
            } else {
                FrameBook { phase: Tally { n: 0, ..p }, ..b }
            };
            (
                b2,
                " vsync "@ + dec((hz10 / 10) as nat) + "."@ + dec((hz10 % 10) as nat) + "Hz 样本"@ + dec(n as nat)
                    + " 周期 min/avg/max "@ + dec((vmin / 1000) as nat) + "ms/"@ + dec((avg / 1000) as nat) + "ms/"@
                    + dec((vmax / 1000) as nat) + "ms"@ + phase_text,
            )
        },
    }
}

/// Appends ` <label> min/avg/max <min>ms/<avg>ms/<max>ms` for a tally with
/// samples.
fn push_tally(out: &mut String, t: Tally)
    requires
        t.n > 0,
    ensures
        final(out)@ == old(out)@ + dec((t.min / 1000) as nat) + "ms/"@ + dec(((t.total / t.n) / 1000) as nat)
            + "ms/"@ + dec((t.max / 1000) as nat) + "ms"@,
{
    push_dec(out, t.min / 1000);
    push_str(out, "ms/");
    push_dec(out, (t.total / t.n) / 1000);
    push_str(out, "ms/");
    push_dec(out, t.max / 1000);
    push_str(out, "ms");
}

impl FrameBook {
    /// The book at process start: all zero, not animating.
    pub fn new() -> (b: Self)
        ensures
            b == (FrameBook {
                swap_last_ns: 0,
                anim_was_active: false,
                gap: tally_zero(),
                phase: tally_zero(),
                anim_frames: 0,
                anim_total_us: 0,
                anim_max_us: 0,
            }),
    {
        FrameBook {
            swap_last_ns: 0,
            anim_was_active: false,
            gap: Tally { n: 0, total: 0, min: 0, max: 0 },
            phase: Tally { n: 0, total: 0, min: 0, max: 0 },
            anim_frames: 0,
            anim_total_us: 0,
            anim_max_us: 0,
        }
    }

    /// Books a buffer swap at `now` (ns); `vsync_last` is the vsync book's
    /// last tick (ns) when it is armed (see `note_swap_spec`).
    pub fn note_swap(&mut self, now: u64, vsync_last: Option<u64>)
        ensures
            *final(self) == note_swap_spec(*old(self), now, vsync_last),
    {
        let last = self.swap_last_ns;
        self.swap_last_ns = now;
        if last == 0 || !self.anim_was_active {
            return;
        }
        let gap = (if now >= last { now - last } else { 0 }) / 1000;
        self.gap.note(gap);
        match vsync_last {
            Some(v) => {
                if v != 0 && now > v {
                    self.phase.note((now - v) / 1000);
                }
            },
            None => {},
        }
    }

    /// The swap-gap report (see `gap_report_spec`).
    pub fn swap_gap_report(&mut self) -> (s: String)
        ensures
            (*final(self), s@) == gap_report_spec(*old(self)),
    {
        if self.gap.n == 0 {
            return String::new();
        }
        let t = self.gap;
        self.gap = Tally { n: 0, total: 0, min: 0, max: 0 };
        let mut s = String::from_str(" swap间隔 min/avg/max ");
        push_tally(&mut s, t);
        s
    }

    /// Books an animation frame that took `elapsed_us` (see
    /// `anim_frame_spec`).
    pub fn note_anim_frame(&mut self, active: bool, elapsed_us: u64) -> (r: AnimStep)
        ensures
            (*final(self), r@) == anim_frame_spec(*old(self), active, elapsed_us),
    {
        let was = self.anim_was_active;
        self.anim_was_active = active;
        if active {
            if !was {
                self.gap = Tally { n: 0, total: 0, min: u64::MAX, max: 0 };
                self.phase = Tally { n: 0, total: 0, min: u64::MAX, max: 0 };
            }
            self.anim_frames = wadd(self.anim_frames, 1);
            self.anim_total_us = wadd(self.anim_total_us, elapsed_us);
            if elapsed_us > self.anim_max_us {
                self.anim_max_us = elapsed_us;
            }
            return AnimStep::Counted { run_start: !was };
        }
        let n = self.anim_frames;
        self.anim_frames = 0;
        if n == 0 {
            return AnimStep::Idle;
        }
        let total = self.anim_total_us;
        let max = self.anim_max_us;
        self.anim_total_us = 0;
        self.anim_max_us = 0;
        let avg = total / n;
        let fps: u64 = if avg == 0 { 0 } else { 1000000 / avg };
        let mut line = String::new();
        push_dec(&mut line, n);
        push_str(&mut line, "帧 均值");
        push_dec(&mut line, avg);
        push_str(&mut line, "us(");
        push_dec(&mut line, avg / 1000);
        push_str(&mut line, "ms) 最大");
        push_dec(&mut line, max / 1000);
        push_str(&mut line, "ms 推算fps=");
        push_dec(&mut line, fps);
        let swap = self.swap_gap_report();
        push_str(&mut line, swap.as_str());
        proof {
            assert(line@ == anim_head(n, total, max) + swap@);
        }
        AnimStep::Ended { line }
    }

    /// The vsync report from the vsync book's period tally (see
    /// `vsync_report_spec`).
    pub fn vsync_report(&mut self, gap: Option<(u64, u64, u64, u64)>) -> (s: String)
        ensures
            (*final(self), s@) == vsync_report_spec(*old(self), gap),
    {
        match gap {
            None => String::from_str(" vsync无样本"),
            Some((n, vmin, vmax, total)) => {
                let avg0 = if n == 0 { 1 } else { total / n };
                let avg = if avg0 < 1 { 1 } else { avg0 };
                let hz10 = 10000000 / avg;
                let p = self.phase;
                let mut s = String::from_str(" vsync ");
                push_dec(&mut s, hz10 / 10);
                push_str(&mut s, ".");
                push_dec(&mut s, hz10 % 10);
                push_str(&mut s, "Hz 样本");
                push_dec(&mut s, n);
                push_str(&mut s, " 周期 min/avg/max ");
                push_dec(&mut s, vmin / 1000);
                push_str(&mut s, "ms/");
                push_dec(&mut s, avg / 1000);
                push_str(&mut s, "ms/");
                push_dec(&mut s, vmax / 1000);
                push_str(&mut s, "ms");
                if p.n > 0 {
                    self.phase = Tally { n: 0, total: 0, min: 0, max: 0 };
                    push_str(&mut s, " 相位 min/avg/max ");
                    push_tally(&mut s, p);
                } else {
                    self.phase.n = 0;
                }
                s
            },
        }
    }
}

/// The book after animating frames of the given durations (µs), in order.
pub open spec fn run_frames(b: FrameBook, ds: Seq<u64>) -> FrameBook
    decreases ds.len(),
{
    if ds.len() == 0 {
        b
    } else {
        anim_frame_spec(run_frames(b, ds.drop_last()), true, ds.last()).0
    }
}

/// The sum of the durations.
pub open spec fn dur_sum(ds: Seq<u64>) -> int
    decreases ds.len(),
{
    if ds.len() == 0 {
        0
    } else {
        dur_sum(ds.drop_last()) + ds.last()
    }
}

/// The longest duration (0 for none).
pub open spec fn dur_max(ds: Seq<u64>) -> u64
    decreases ds.len(),
{
    if ds.len() == 0 {
        0
    } else {
        let m = dur_max(ds.drop_last());
        if ds.last() > m {
            ds.last()
        } else {
            m
        }
    }
}

proof fn lemma_run_frames_counts(b: FrameBook, ds: Seq<u64>)
    requires
        b.anim_frames == 0 && b.anim_total_us == 0 && b.anim_max_us == 0,
        dur_sum(ds) <= u64::MAX,
        ds.len() <= u64::MAX,
    ensures
        run_frames(b, ds).anim_frames == ds.len(),
        run_frames(b, ds).anim_total_us == dur_sum(ds),
        run_frames(b, ds).anim_max_us == dur_max(ds),
        ds.len() > 0 ==> run_frames(b, ds).anim_was_active,
    decreases ds.len(),
{
    if ds.len() > 0 {
        let p = ds.drop_last();
        assert(dur_sum(p) <= dur_sum(ds));
        lemma_run_frames_counts(b, p);
    }
}

/// The animation report covers the whole run: from a book with no open
/// run and cleared counts, animating `k >= 1` frames of durations `ds` and
/// then one still frame ends the run with the report headed by `k`, the
/// mean and the maximum of `ds` (then the swap gaps), and clears the
/// counts; a further still frame reports nothing, and an animating frame
/// never reports. (The counts are exact while the durations' sum fits the
/// u64 total.)
pub proof fn lemma_anim_run_report(b: FrameBook, ds: Seq<u64>, us: u64, us2: u64)
    requires
        !b.anim_was_active,
        b.anim_frames == 0 && b.anim_total_us == 0 && b.anim_max_us == 0,
        ds.len() >= 1,
        dur_sum(ds) <= u64::MAX,
        ds.len() <= u64::MAX,
    ensures
        ({
            let b2 = run_frames(b, ds);
            let (b3, step) = anim_frame_spec(b2, false, us);
            &&& step == AnimStepV::Ended {
                line: anim_head(ds.len() as u64, dur_sum(ds) as u64, dur_max(ds)) + gap_report_spec(
                    FrameBook { anim_was_active: false, anim_frames: 0, anim_total_us: 0, anim_max_us: 0, ..b2 },
                ).1,
            }
            &&& b3.anim_frames == 0 && b3.anim_total_us == 0 && b3.anim_max_us == 0 && !b3.anim_was_active
            &&& anim_frame_spec(b3, false, us2).1 == AnimStepV::Idle
        }),
        forall|x: FrameBook, d: u64| #[trigger] anim_frame_spec(x, true, d).1 is Counted,
{
    lemma_run_frames_counts(b, ds);
}

} // verus!
