//! Session-level events delivered by a terminal connection.
use vstd::prelude::*;

verus! {

/// Inbound session event.
#[derive(Debug, Clone, PartialEq, Eq)]
pub enum SessionEvent {
    Opened { session_id: String },
    Output { data: String },
    Exited { code: i32 },
    Failed { message: String },
}

pub enum SessionEventV {
    Opened { session_id: Seq<char> },
    Output { data: Seq<char> },
    Exited { code: i32 },
    Failed { message: Seq<char> },
}

impl View for SessionEvent {
    type V = SessionEventV;

    open spec fn view(&self) -> SessionEventV {
        match self {
            SessionEvent::Opened { session_id } => SessionEventV::Opened { session_id: session_id@ },
            SessionEvent::Output { data } => SessionEventV::Output { data: data@ },
            SessionEvent::Exited { code } => SessionEventV::Exited { code: *code },
            SessionEvent::Failed { message } => SessionEventV::Failed { message: message@ },
        }
    }
}

impl SessionEvent {
    /// A copy with the same view.
    pub fn copy_event(&self) -> (e: SessionEvent)
        ensures
            e@ == self@,
    {
        match self {
            SessionEvent::Opened { session_id } => SessionEvent::Opened { session_id: session_id.clone() },
            SessionEvent::Output { data } => SessionEvent::Output { data: data.clone() },
            SessionEvent::Exited { code } => SessionEvent::Exited { code: *code },
            SessionEvent::Failed { message } => SessionEvent::Failed { message: message.clone() },
        }
    }
}

} // verus!
