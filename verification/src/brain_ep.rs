//! The brain socket's request shape, and the replay brain's decisions: its
//! programme is played from a cursor, a cancelled run ends with one
//! `已取消` error. Threads, channels
//! and pacing are the shell's part.
use vstd::prelude::*;
use crate::brain::{ChatEvent, ChatEventV};

verus! {

/// Starting a run (plain-text `(role, content)` messages, the same shape
/// `build_chat_request` takes).
#[derive(Debug, Clone, PartialEq, Eq)]
pub struct ChatStartReq {
    pub session_id: String,
    pub messages: Vec<(String, String)>,
    pub model: String,
    pub provider: String,
    pub tools: Vec<String>,
}

/// The error a cancelled run ends with.
pub open spec fn cancel_event() -> ChatEventV {
    ChatEventV::Error { content: "已取消"@ }
}

/// What the replayer does at a cursor.
pub enum ReplayStep {
    /// Send this event, then move the cursor on by one.
    Send(ChatEvent),
    /// The run was cancelled: send this error and stop.
    Cancelled(ChatEvent),
    /// The programme is over.
    Finished,
}

/// The replayer's next move: past the end it is finished; otherwise a
/// cancelled run stops with the `已取消` error before the next event, and
/// a live one sends the event under the cursor. `cancelled` is false for a
/// reattach replay, which plays history and ignores cancellation.
pub fn replay_step(events: &[ChatEvent], pos: usize, cancelled: bool) -> (r: ReplayStep)
    ensures
        pos >= events@.len() ==> r is Finished,
        pos < events@.len() && cancelled ==> (r matches ReplayStep::Cancelled(e) && e@ == cancel_event()),
        pos < events@.len() && !cancelled ==> (r matches ReplayStep::Send(e) && e@ == events@[pos as int]@),
{
    if pos >= events.len() {
        ReplayStep::Finished
    } else if cancelled {
        ReplayStep::Cancelled(ChatEvent::Error { content: "已取消".to_owned() })
    } else {
        ReplayStep::Send(events[pos].clone_event())
    }
}

} // verus!
