//! The object axis: which terminal endpoint the parser page is looking at.
//! A fixed registry of two seats (server first, then local), the mapping
//! from the default-session setting, and the current-object core whose
//! epoch moves exactly when the object changes.
use vstd::prelude::*;

verus! {

/// Endpoint kind (a registry seat id).
#[derive(Debug, Clone, Copy, PartialEq, Eq, Structural)]
pub enum EndpointKind {
    Server,
    Local,
}

/// Capability faces an endpoint offers to the plugin cards.
#[derive(Debug, Clone, Copy, PartialEq, Eq, Structural)]
pub struct Caps {
    /// Short-lived exec channel.
    pub exec_channel: bool,
    /// Vital signs.
    pub sys_info: bool,
    /// Session list.
    pub health: bool,
    /// Link state.
    pub link: bool,
}

/// A registry seat.
pub struct EndpointDef {
    pub kind: EndpointKind,
    /// Static fallback word for the object.
    pub display: &'static str,
    pub caps: Caps,
}

/// All four capabilities on.
pub open spec fn all_caps() -> Caps {
    Caps { exec_channel: true, sys_info: true, health: true, link: true }
}

/// The registry, in order: server first (the current anchor), then local.
pub open spec fn registry_kinds() -> Seq<EndpointKind> {
    seq![EndpointKind::Server, EndpointKind::Local]
}

/// The fallback word of a kind's seat.
pub open spec fn display_of(kind: EndpointKind) -> Seq<char> {
    match kind {
        EndpointKind::Server => "服务器"@,
        EndpointKind::Local => "本地"@,
    }
}

/// The seat of a kind. Both seats offer all four capabilities.
pub fn def(kind: EndpointKind) -> (d: EndpointDef)
    ensures
        d.kind == kind,
        d.caps == all_caps(),
        d.display@ == display_of(kind),
{
    match kind {
        EndpointKind::Server => EndpointDef {
            kind: EndpointKind::Server,
            display: "服务器",
            caps: Caps { exec_channel: true, sys_info: true, health: true, link: true },
        },
        EndpointKind::Local => EndpointDef {
            kind: EndpointKind::Local,
            display: "本地",
            caps: Caps { exec_channel: true, sys_info: true, health: true, link: true },
        },
    }
}

/// The registry's seats in order (server first), each the seat `def`
/// gives for its kind.
pub fn registry() -> (r: Vec<EndpointDef>)
    ensures
        r@.len() == registry_kinds().len(),
        forall|i: int|
            0 <= i < r@.len() ==> (#[trigger] r@[i]).kind == registry_kinds()[i] && r@[i].caps == all_caps()
                && r@[i].display@ == display_of(registry_kinds()[i]),
{
    let r = vec![def(EndpointKind::Server), def(EndpointKind::Local)];
    r
}

/// The default-session setting: the local terminal, or a server (by its
/// id in the server table).
#[derive(Debug, Clone, PartialEq, Eq)]
pub enum DefaultSession {
    Local,
    Server(String),
}

/// Setting to object: any server id maps to the server seat.
pub fn of_default_session(d: &DefaultSession) -> (k: EndpointKind)
    ensures
        k == match d {
            DefaultSession::Local => EndpointKind::Local,
            DefaultSession::Server(_) => EndpointKind::Server,
        },
{
    match d {
        DefaultSession::Local => EndpointKind::Local,
        DefaultSession::Server(_) => EndpointKind::Server,
    }
}

/// The current object and its epoch (bumped on every change, so that
/// painted state keyed by it is redrawn).
pub struct EndpointState {
    cur: EndpointKind,
    epoch: u64,
}

impl EndpointState {
    pub closed spec fn cur_v(&self) -> EndpointKind {
        self.cur
    }

    pub closed spec fn epoch_v(&self) -> u64 {
        self.epoch
    }

    /// Starts on the server seat at epoch 0.
    pub fn new() -> (s: Self)
        ensures
            s.cur_v() == EndpointKind::Server,
            s.epoch_v() == 0,
    {
        EndpointState { cur: EndpointKind::Server, epoch: 0 }
    }

    pub fn current(&self) -> (k: EndpointKind)
        ensures
            k == self.cur_v(),
    {
        self.cur
    }

    pub fn epoch(&self) -> (e: u64)
        ensures
            e == self.epoch_v(),
    {
        self.epoch
    }

    /// Syncs the current object and returns the epoch after: a change
    /// bumps it by one, the same object leaves it alone (a per-frame sync
    /// must not cause a redraw storm).
    pub fn set_current(&mut self, kind: EndpointKind) -> (e: u64)
        requires
            old(self).cur_v() != kind ==> old(self).epoch_v() < u64::MAX,
        ensures
            final(self).cur_v() == kind,
            final(self).epoch_v() == if old(self).cur_v() != kind {
                old(self).epoch_v() + 1
            } else {
                old(self).epoch_v() as int
            },
            e == final(self).epoch_v(),
    {
        if self.cur != kind {
            self.cur = kind;
            self.epoch = self.epoch + 1;
        }
        self.epoch
    }
}

impl Default for EndpointState {
    fn default() -> (s: Self)
        ensures
            s.cur_v() == EndpointKind::Server,
            s.epoch_v() == 0,
    {
        EndpointState::new()
    }
}

} // verus!
