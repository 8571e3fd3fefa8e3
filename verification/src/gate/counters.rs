//! Running counters of the debug channels and flags: frame size and count, frame
//! time, session-byte buckets, session deaths, the UI loop heartbeat, the
//! foreground flag and the pending switch request. Counters wrap around as
//! the process-wide atomic counters they stand for do.
use vstd::prelude::*;
use crate::text::str_eq;

verus! {

/// The counters (one instance per process, held by the debug channels).
pub struct GateStats {
    /// Last frame size, `w << 32 | h` (0: no frame drawn yet).
    pub frame_wh: u64,
    pub frames: u64,
    pub pump_calls: u64,
    pub pump_bytes: u64,
    pub shots: u64,
    pub texts: u64,
    pub keys: u64,
    pub keys_bytes: u64,
    pub draw_total_ms: u64,
    pub draw_max_ms: u64,
    pub bytes_local: u64,
    pub bytes_remote: u64,
    pub bytes_other: u64,
    pub session_deaths: u64,
    /// Last heartbeat, ms since the loop clock started (0: never beat).
    pub loop_beat_ms: u64,
    pub foreground: bool,
    pub switch_req: bool,
}

/// `a + b` wrapping at 2^64.
pub open spec fn wrap_add(a: u64, b: u64) -> u64 {
    if a + b <= u64::MAX {
        (a + b) as u64
    } else {
        (a + b - u64::MAX - 1) as u64
    }
}

/// `a + b` wrapping at 2^64 (see `wrap_add`).
pub fn wadd(a: u64, b: u64) -> (r: u64)
    ensures
        r == wrap_add(a, b),
{
    if a <= u64::MAX - b {
        a + b
    } else {
        b - (u64::MAX - a) - 1
    }
}

impl GateStats {
    /// All zero, in the foreground.
    pub fn new() -> (s: Self)
        ensures
            s.frame_wh == 0 && s.frames == 0 && s.pump_calls == 0 && s.pump_bytes == 0,
            s.shots == 0 && s.texts == 0 && s.keys == 0 && s.keys_bytes == 0,
            s.draw_total_ms == 0 && s.draw_max_ms == 0,
            s.bytes_local == 0 && s.bytes_remote == 0 && s.bytes_other == 0,
            s.session_deaths == 0 && s.loop_beat_ms == 0,
            s.foreground && !s.switch_req,
    {
        GateStats {
            frame_wh: 0,
            frames: 0,
            pump_calls: 0,
            pump_bytes: 0,
            shots: 0,
            texts: 0,
            keys: 0,
            keys_bytes: 0,
            draw_total_ms: 0,
            draw_max_ms: 0,
            bytes_local: 0,
            bytes_remote: 0,
            bytes_other: 0,
            session_deaths: 0,
            loop_beat_ms: 0,
            foreground: true,
            switch_req: false,
        }
    }

    /// A frame was drawn at `w` x `h`: records the size and counts it.
    pub fn note_frame_size(&mut self, w: u32, h: u32)
        ensures
            final(self).frame_wh == w as u64 * 0x1_0000_0000 + h as u64,
            final(self).frames == wrap_add(old(self).frames, 1),
            final(self).draw_total_ms == old(self).draw_total_ms,
            final(self).draw_max_ms == old(self).draw_max_ms,
            *final(self) == (GateStats {
                frame_wh: (w as u64 * 0x1_0000_0000 + h as u64) as u64,
                frames: wrap_add(old(self).frames, 1),
                ..*old(self)
            }),
    {
        let wh: u64 = (w as u64) * 0x1_0000_0000 + h as u64;
        self.frame_wh = wh;
        self.frames = wadd(self.frames, 1);
    }

    /// The last frame size, when a frame was drawn.
    pub fn frame_size(&self) -> (r: Option<(u32, u32)>)
        ensures
            r == if self.frame_wh == 0 {
                None
            } else {
                Some(((self.frame_wh / 0x1_0000_0000) as u32, (self.frame_wh % 0x1_0000_0000) as u32))
            },
    {
        if self.frame_wh == 0 {
            None
        } else {
            Some(((self.frame_wh / 0x1_0000_0000) as u32, (self.frame_wh % 0x1_0000_0000) as u32))
        }
    }

    /// A frame took `elapsed_ms`: added to the total, kept if it is the peak.
    pub fn note_draw(&mut self, elapsed_ms: u64)
        ensures
            final(self).draw_total_ms == wrap_add(old(self).draw_total_ms, elapsed_ms),
            final(self).draw_max_ms == if elapsed_ms > old(self).draw_max_ms {
                elapsed_ms
            } else {
                old(self).draw_max_ms
            },
            final(self).frames == old(self).frames,
            *final(self) == (GateStats {
                draw_total_ms: final(self).draw_total_ms,
                draw_max_ms: final(self).draw_max_ms,
                ..*old(self)
            }),
    {
        self.draw_total_ms = wadd(self.draw_total_ms, elapsed_ms);
        if elapsed_ms > self.draw_max_ms {
            self.draw_max_ms = elapsed_ms;
        }
    }

    /// A session died (or was respawned).
    pub fn note_session_death(&mut self)
        ensures
            final(self).session_deaths == wrap_add(old(self).session_deaths, 1),
            final(self).frames == old(self).frames,
            *final(self) == (GateStats { session_deaths: wrap_add(old(self).session_deaths, 1), ..*old(self) }),
    {
        self.session_deaths = wadd(self.session_deaths, 1);
    }

    /// One pump round handed `fed_bytes` bytes to the active session's view.
    pub fn note_pump(&mut self, fed_bytes: u64)
        ensures
            final(self).pump_calls == wrap_add(old(self).pump_calls, 1),
            final(self).pump_bytes == wrap_add(old(self).pump_bytes, fed_bytes),
            *final(self) == (GateStats {
                pump_calls: final(self).pump_calls,
                pump_bytes: final(self).pump_bytes,
                ..*old(self)
            }),
    {
        self.pump_calls = wadd(self.pump_calls, 1);
        self.pump_bytes = wadd(self.pump_bytes, fed_bytes);
    }

    /// Output of session `name` counted in its bucket: "local", "remote",
    /// or the rest.
    pub fn note_session_bytes(&mut self, name: &str, n: u64)
        ensures
            final(self).bytes_local == if name@ == "local"@ {
                wrap_add(old(self).bytes_local, n)
            } else {
                old(self).bytes_local
            },
            final(self).bytes_remote == if name@ != "local"@ && name@ == "remote"@ {
                wrap_add(old(self).bytes_remote, n)
            } else {
                old(self).bytes_remote
            },
            final(self).bytes_other == if name@ != "local"@ && name@ != "remote"@ {
                wrap_add(old(self).bytes_other, n)
            } else {
                old(self).bytes_other
            },
            *final(self) == (GateStats {
                bytes_local: final(self).bytes_local,
                bytes_remote: final(self).bytes_remote,
                bytes_other: final(self).bytes_other,
                ..*old(self)
            }),
    {
        if str_eq(name, "local") {
            self.bytes_local = wadd(self.bytes_local, n);
        } else if str_eq(name, "remote") {
            self.bytes_remote = wadd(self.bytes_remote, n);
        } else {
            self.bytes_other = wadd(self.bytes_other, n);
        }
    }

    /// The UI loop beat at `now_ms` (ms since the loop clock started).
    pub fn note_loop_beat(&mut self, now_ms: u64)
        ensures
            final(self).loop_beat_ms == now_ms,
            final(self).foreground == old(self).foreground,
            *final(self) == (GateStats { loop_beat_ms: now_ms, ..*old(self) }),
    {
        self.loop_beat_ms = now_ms;
    }

    /// Heartbeat age at `now_ms`; `None` before the first beat.
    pub fn loop_beat_age_ms(&self, now_ms: u64) -> (r: Option<u64>)
        ensures
            r == if self.loop_beat_ms == 0 {
                None
            } else if now_ms >= self.loop_beat_ms {
                Some((now_ms - self.loop_beat_ms) as u64)
            } else {
                Some(0u64)
            },
    {
        if self.loop_beat_ms == 0 {
            return None;
        }
        Some(now_ms.saturating_sub(self.loop_beat_ms))
    }

    /// Foreground / background from the activity lifecycle.
    pub fn note_foreground(&mut self, fg: bool)
        ensures
            final(self).foreground == fg,
            final(self).loop_beat_ms == old(self).loop_beat_ms,
            *final(self) == (GateStats { foreground: fg, ..*old(self) }),
    {
        self.foreground = fg;
    }

    /// A session switch was requested over the debug channel.
    pub fn request_switch(&mut self)
        ensures
            final(self).switch_req,
            *final(self) == (GateStats { switch_req: true, ..*old(self) }),
    {
        self.switch_req = true;
    }

    /// Takes the pending switch request (true once per request).
    pub fn switch_take(&mut self) -> (r: bool)
        ensures
            r == old(self).switch_req,
            !final(self).switch_req,
            *final(self) == (GateStats { switch_req: false, ..*old(self) }),
    {
        let r = self.switch_req;
        self.switch_req = false;
        r
    }
}

} // verus!
