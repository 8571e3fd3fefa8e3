//! Debug gate: file-triggered observation channels, the session pump, the
//! flight recorder and the self-observation statistics.
pub mod rec;

pub use rec::{RecEvent, RecView, rec_encode, rec_decode_all, rec_compact, REC_MAGIC, REC_FILE_CAP};
pub mod stats;

pub use stats::{
    LOOP_STALL_MS, is_stall, WatchState, watch_verdict, panic_line, parse_self_stat_jiffies, stat_jiffies_fit,
    parse_vmrss_kb, StatsSnap, format_stats, format_history_line, ring_push, HISTORY_CAP,
    HISTORY_EVERY_TICKS,
};
pub mod alert;

pub use alert::{
    ALERT_DRAW_MS, ALERT_RSS_ABS_KB, ALERT_RSS_GROW_KB, ALERT_RSS_WINDOW_MS, ALERT_RSS_COOLDOWN_MS,
    ALERT_DEATHS_NEW, ALERT_DEATHS_WINDOW_MS, ALERT_DEATHS_COOLDOWN_MS, AlertState, alert_check,
};
pub mod inject;

pub use inject::{BarCmd, parse_bar_line, parse_bar_script, encode_rgb};
pub mod pump;

pub use pump::{SessionPump, PumpOut, REPLAY_CAP_BYTES, CONTROL_CAP};
pub mod counters;

pub use counters::GateStats;
