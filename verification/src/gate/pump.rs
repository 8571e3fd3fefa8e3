//! Session pump: the only consumer of every session's inbound channel. The
//! active session's output goes to the sink; standby output is cached for
//! replay (byte-capped, oldest dropped); lifecycle events are queued for the UI.
use vstd::prelude::*;
use std::collections::VecDeque;
use std::sync::mpsc::Receiver;
use vstd::utf8::encode_utf8;
use crate::text::str_eq;
use crate::session::{SessionEvent, SessionEventV};

verus! {

#[verifier::external_type_specification]
#[verifier::external_body]
#[verifier::reject_recursive_types(T)]
pub struct ExReceiver<T>(Receiver<T>);

/// `Receiver::try_iter` collected: every message already waiting, in
/// order, without blocking. What is waiting depends on other threads:
/// nothing is stated of the result.
#[verifier::external_body]
fn try_recv_all<T>(rx: &Receiver<T>) -> Vec<T> {
    rx.try_iter().collect()
}

/// Replay cache cap per session (bytes).
pub const REPLAY_CAP_BYTES: usize = 262144;

/// Control queue cap (the oldest is dropped beyond it).
pub const CONTROL_CAP: usize = 256;

/// Byte length of a string as `str::len` reports it (UTF-8 bytes).
pub open spec fn blen(s: Seq<char>) -> nat {
    (encode_utf8(s).len() as usize) as nat
}

/// Sum of the byte lengths of a queue of strings.
pub open spec fn qbytes(q: Seq<Seq<char>>) -> nat
    decreases q.len(),
{
    if q.len() == 0 {
        0
    } else {
        qbytes(q.drop_last()) + blen(q.last())
    }
}

/// Drops the oldest entries while the byte total is above the cap.
pub open spec fn cap_front(q: Seq<Seq<char>>, total: int) -> Seq<Seq<char>>
    decreases q.len(),
{
    if total <= REPLAY_CAP_BYTES || q.len() == 0 {
        q
    } else {
        cap_front(q.drop_first(), total - blen(q[0]))
    }
}

pub struct SessionPump {
    /// (session name, inbound channel); registering a name again replaces it.
    slots: Vec<(&'static str, Receiver<SessionEvent>)>,
    /// Standby output cache: (name, queue, byte total).
    replay: Vec<(&'static str, VecDeque<String>, usize)>,
    /// Lifecycle events (Opened/Exited/Failed) with the session name.
    control: VecDeque<(&'static str, SessionEvent)>,
}

impl SessionPump {
    /// Names of the registered sessions, in registration order.
    pub closed spec fn slot_names(&self) -> Seq<Seq<char>> {
        self.slots@.map_values(|p: (&'static str, Receiver<SessionEvent>)| p.0@)
    }

    /// The replay cache: (name, queued outputs) in first-seen order.
    pub closed spec fn replay_view(&self) -> Seq<(Seq<char>, Seq<Seq<char>>)> {
        self.replay@.map_values(
            |e: (&'static str, VecDeque<String>, usize)|
                (e.0@, e.1@.map_values(|s: String| s@)),
        )
    }

    /// The queued lifecycle events.
    pub closed spec fn control_view(&self) -> Seq<(Seq<char>, SessionEventV)> {
        self.control@.map_values(|e: (&'static str, SessionEvent)| (e.0@, e.1@))
    }

    /// Invariant: per-session replay totals are exact and within the cap,
    /// each name has at most one replay entry, and the control queue is capped.
    pub closed spec fn wf(&self) -> bool {
        &&& forall|i: int|
            0 <= i < self.replay@.len() ==> {
                let e = #[trigger] self.replay@[i];
                &&& e.2 as nat == qbytes(e.1@.map_values(|s: String| s@))
                &&& e.2 <= REPLAY_CAP_BYTES
            }
        &&& forall|i: int, j: int|
            0 <= i < j < self.replay@.len() ==> #[trigger] self.replay@[i].0@
                != #[trigger] self.replay@[j].0@
        &&& self.control@.len() <= CONTROL_CAP
    }

    pub fn new() -> (r: Self)
        ensures
            r.wf(),
            r.slot_names() == Seq::<Seq<char>>::empty(),
            r.replay_view() == Seq::<(Seq<char>, Seq<Seq<char>>)>::empty(),
            r.control_view() == Seq::<(Seq<char>, SessionEventV)>::empty(),
    {
        let r = SessionPump { slots: Vec::new(), replay: Vec::new(), control: VecDeque::new() };
        assert(r.slot_names() =~= Seq::<Seq<char>>::empty());
        assert(r.replay_view() =~= Seq::<(Seq<char>, Seq<Seq<char>>)>::empty());
        assert(r.control_view() =~= Seq::<(Seq<char>, SessionEventV)>::empty());
        r
    }
}


/// Position of `name` in the replay cache (its length when absent).
pub open spec fn replay_index(rv: Seq<(Seq<char>, Seq<Seq<char>>)>, name: Seq<char>) -> nat
    decreases rv.len(),
{
    if rv.len() == 0 {
        0
    } else if rv[0].0 == name {
        0
    } else {
        1 + replay_index(rv.drop_first(), name)
    }
}

/// The replay cache after caching one standby output for `name`.
pub open spec fn replay_after(
    rv: Seq<(Seq<char>, Seq<Seq<char>>)>,
    name: Seq<char>,
    data: Seq<char>,
) -> Seq<(Seq<char>, Seq<Seq<char>>)> {
    let i = replay_index(rv, name);
    if i < rv.len() {
        let q = rv[i as int].1;
        rv.update(i as int, (name, cap_front(q.push(data), (qbytes(q) + blen(data)) as int)))
    } else {
        rv.push((name, cap_front(seq![data], blen(data) as int)))
    }
}

/// What one received event does: the pump state after it and the bytes fed
/// to the sink (active output only).
pub open spec fn absorb_spec(
    rv: Seq<(Seq<char>, Seq<Seq<char>>)>,
    cv: Seq<(Seq<char>, SessionEventV)>,
    name: Seq<char>,
    ev: SessionEventV,
    active: Seq<char>,
) -> (Seq<(Seq<char>, Seq<Seq<char>>)>, Seq<(Seq<char>, SessionEventV)>, Option<Seq<char>>) {
    match ev {
        SessionEventV::Output { data } => if name == active {
            (rv, cv, Some(data))
        } else {
            (replay_after(rv, name, data), cv, None)
        },
        _ => (
            rv,
            if cv.len() >= CONTROL_CAP {
                cv.drop_first().push((name, ev))
            } else {
                cv.push((name, ev))
            },
            None,
        ),
    }
}

/// The pump's filing state: (replay cache, control queue).
pub type PumpV = (Seq<(Seq<char>, Seq<Seq<char>>)>, Seq<(Seq<char>, SessionEventV)>);

/// Filing one session's received events in order (see `absorb_spec`).
pub open spec fn absorb_run(st: PumpV, name: Seq<char>, evs: Seq<SessionEventV>, active: Seq<char>) -> PumpV
    decreases evs.len(),
{
    if evs.len() == 0 {
        st
    } else {
        let p = absorb_run(st, name, evs.drop_last(), active);
        let s = absorb_spec(p.0, p.1, name, evs.last(), active);
        (s.0, s.1)
    }
}

/// Filing every received batch, batch after batch.
pub open spec fn pump_fold(st: PumpV, bs: Seq<(Seq<char>, Seq<SessionEventV>)>, active: Seq<char>) -> PumpV
    decreases bs.len(),
{
    if bs.len() == 0 {
        st
    } else {
        let p = pump_fold(st, bs.drop_last(), active);
        absorb_run(p, bs.last().0, bs.last().1, active)
    }
}

/// The outputs among one session's events, as (name, data), in order.
pub open spec fn run_outputs(name: Seq<char>, evs: Seq<SessionEventV>) -> Seq<(Seq<char>, Seq<char>)>
    decreases evs.len(),
{
    if evs.len() == 0 {
        Seq::empty()
    } else {
        run_outputs(name, evs.drop_last()) + match evs.last() {
            SessionEventV::Output { data } => seq![(name, data)],
            _ => Seq::empty(),
        }
    }
}

/// Every output of the batches, as (name, data), in filing order.
pub open spec fn fold_outputs(bs: Seq<(Seq<char>, Seq<SessionEventV>)>) -> Seq<(Seq<char>, Seq<char>)>
    decreases bs.len(),
{
    if bs.len() == 0 {
        Seq::empty()
    } else {
        fold_outputs(bs.drop_last()) + run_outputs(bs.last().0, bs.last().1)
    }
}

/// One output taken from a session: its name, its text and whether it goes
/// to the screen (it belongs to the active session). Every output is also
/// for the recorder.
pub struct PumpOut {
    pub name: &'static str,
    pub data: String,
    pub feed: bool,
}

/// The outputs routed: each (name, data) with whether `name` is the active
/// session, in filing order.
pub open spec fn routed(os: Seq<(Seq<char>, Seq<char>)>, active: Seq<char>) -> Seq<(Seq<char>, Seq<char>, bool)> {
    os.map_values(|o: (Seq<char>, Seq<char>)| (o.0, o.1, o.0 == active))
}

pub open spec fn pump_outs_view(v: Seq<PumpOut>) -> Seq<(Seq<char>, Seq<char>, bool)> {
    v.map_values(|o: PumpOut| (o.name@, o.data@, o.feed))
}

/// A batch list as (name, events) views.
pub open spec fn batches_view(bs: Seq<(&'static str, Vec<SessionEvent>)>) -> Seq<(Seq<char>, Seq<SessionEventV>)> {
    bs.map_values(|b: (&'static str, Vec<SessionEvent>)| (b.0@, b.1@.map_values(|e: SessionEvent| e@)))
}

/// Batches drained from the registered sessions: each comes from a distinct
/// session, in registration order (`idx` picks the sessions), and holds at
/// least one event.
pub open spec fn drained_from(bs: Seq<(Seq<char>, Seq<SessionEventV>)>, names: Seq<Seq<char>>, idx: Seq<int>) -> bool {
    &&& idx.len() == bs.len()
    &&& forall|i: int| 0 <= i < bs.len() ==> 0 <= #[trigger] idx[i] < names.len() && names[idx[i]] == bs[i].0 && bs[i].1.len() > 0
    &&& forall|i: int, j: int| 0 <= i < j < bs.len() ==> #[trigger] idx[i] < #[trigger] idx[j]
}

/// Outputs as (name, data) views.
pub open spec fn outputs_view(os: Seq<(&'static str, String)>) -> Seq<(Seq<char>, Seq<char>)> {
    os.map_values(|o: (&'static str, String)| (o.0@, o.1@))
}

pub proof fn lemma_qbytes_front(q: Seq<Seq<char>>)
    requires
        q.len() > 0,
    ensures
        qbytes(q) == blen(q[0]) + qbytes(q.drop_first()),
    decreases q.len(),
{
    if q.len() > 1 {
        lemma_qbytes_front(q.drop_last());
        assert(q.drop_last().drop_first() =~= q.drop_first().drop_last());
        assert(q.drop_first().last() == q.last());
        assert(q.drop_last()[0] == q[0]);
    } else {
        assert(q.drop_first() =~= Seq::<Seq<char>>::empty());
        assert(q.drop_last() =~= Seq::<Seq<char>>::empty());
        assert(qbytes(Seq::<Seq<char>>::empty()) == 0);
        assert(q.last() == q[0]);
    }
}

/// Capping keeps a queue within the cap: whatever the queue, what
/// `cap_front` leaves of it holds at most `REPLAY_CAP_BYTES` bytes.
pub proof fn lemma_cap_front_within(q: Seq<Seq<char>>, total: int)
    requires
        total == qbytes(q),
    ensures
        qbytes(cap_front(q, total)) <= REPLAY_CAP_BYTES,
    decreases q.len(),
{
    if total > REPLAY_CAP_BYTES && q.len() > 0 {
        lemma_qbytes_front(q);
        lemma_cap_front_within(q.drop_first(), total - blen(q[0]));
    }
}

/// The standby replay cache stays bounded: if every session's cached
/// output is within `REPLAY_CAP_BYTES` bytes, it still is after caching
/// one more output for any session.
pub proof fn lemma_replay_within_cap(rv: Seq<(Seq<char>, Seq<Seq<char>>)>, name: Seq<char>, data: Seq<char>)
    requires
        forall|i: int| 0 <= i < rv.len() ==> qbytes(#[trigger] rv[i].1) <= REPLAY_CAP_BYTES,
    ensures
        forall|i: int|
            0 <= i < replay_after(rv, name, data).len() ==> qbytes(
                #[trigger] replay_after(rv, name, data)[i].1,
            ) <= REPLAY_CAP_BYTES,
{
    let i0 = replay_index(rv, name);
    let ra = replay_after(rv, name, data);
    if i0 < rv.len() {
        let q = rv[i0 as int].1;
        assert(q.push(data).drop_last() =~= q);
        lemma_cap_front_within(q.push(data), (qbytes(q) + blen(data)) as int);
        assert forall|i: int| 0 <= i < ra.len() implies qbytes(#[trigger] ra[i].1) <= REPLAY_CAP_BYTES by {
            if i != i0 {
                assert(ra[i] == rv[i]);
            }
        }
    } else {
        let q = seq![data];
        assert(q.drop_last() =~= Seq::<Seq<char>>::empty());
        assert(qbytes(Seq::<Seq<char>>::empty()) == 0);
        assert(q.last() == data);
        assert(qbytes(q) == blen(data));
        lemma_cap_front_within(q, blen(data) as int);
        assert forall|i: int| 0 <= i < ra.len() implies qbytes(#[trigger] ra[i].1) <= REPLAY_CAP_BYTES by {
            if i < rv.len() {
                assert(ra[i] == rv[i]);
            }
        }
    }
}

proof fn lemma_cap_front_big(q: Seq<Seq<char>>, d: Seq<char>)
    requires
        blen(d) > REPLAY_CAP_BYTES,
    ensures
        cap_front(q.push(d), (qbytes(q) + blen(d)) as int) == Seq::<Seq<char>>::empty(),
    decreases q.len(),
{
    let qq = q.push(d);
    let total = (qbytes(q) + blen(d)) as int;
    if q.len() == 0 {
        assert(qq.drop_first() =~= Seq::<Seq<char>>::empty());
        assert(qq[0] == d);
        assert(qbytes(q) == 0);
        assert(cap_front(qq, total) == cap_front(qq.drop_first(), total - blen(qq[0])));
        assert(cap_front(Seq::<Seq<char>>::empty(), 0) == Seq::<Seq<char>>::empty());
    } else {
        lemma_qbytes_front(q);
        assert(qq.drop_first() =~= q.drop_first().push(d));
        assert(qq[0] == q[0]);
        assert(cap_front(qq, total) == cap_front(qq.drop_first(), total - blen(qq[0])));
        lemma_cap_front_big(q.drop_first(), d);
    }
}

impl SessionPump {
    fn find_replay(&self, name: &str) -> (r: usize)
        ensures
            r == replay_index(self.replay_view(), name@),
            r <= self.replay@.len(),
    {
        let mut i: usize = 0;
        let ghost rv = self.replay_view();
        assert(rv.skip(0) =~= rv);
        while i < self.replay.len()
            invariant
                i <= self.replay@.len(),
                rv == self.replay_view(),
                rv.len() == self.replay@.len(),
                replay_index(rv, name@) == i + replay_index(rv.skip(i as int), name@),
            decreases self.replay.len() - i,
        {
            assert(rv.skip(i as int)[0] == rv[i as int]);
            if str_eq(self.replay[i].0, name) {
                return i;
            }
            assert(rv.skip(i as int).drop_first() =~= rv.skip(i + 1));
            i += 1;
        }
        i
    }

    /// Caches one standby output (drops the oldest beyond the byte cap).
    fn push_replay(&mut self, name: &'static str, data: String)
        requires
            old(self).wf(),
        ensures
            final(self).wf(),
            final(self).replay_view() == replay_after(old(self).replay_view(), name@, data@),
            final(self).slot_names() == old(self).slot_names(),
            final(self).control_view() == old(self).control_view(),
    {
        let i = self.find_replay(name);
        let ghost rv = self.replay_view();
        proof {
            if i < self.replay@.len() {
                let e = self.replay@[i as int];
                assert(e.2 as nat == qbytes(e.1@.map_values(|s: String| s@)));
                assert(rv[i as int].1 == e.1@.map_values(|s: String| s@));
            }
        }
        let (mut q, total0) = if i < self.replay.len() {
            let e = self.replay.remove(i);
            (e.1, e.2)
        } else {
            (VecDeque::new(), 0usize)
        };
        let ghost q0 = q@.map_values(|s: String| s@);
        assert(i < rv.len() ==> q0 == rv[i as int].1);
        assert(i >= rv.len() ==> q0 =~= Seq::<Seq<char>>::empty());
        let len = data.as_str().len();
        let ghost dv = data@;
        assert(len == blen(dv));
        assert(total0 as nat == qbytes(q0));
        let mut total: usize;
        if len > REPLAY_CAP_BYTES {
            proof {
                lemma_cap_front_big(q0, dv);
            }
            q = VecDeque::new();
            total = 0;
            assert(q@.map_values(|s: String| s@) =~= cap_front(q0.push(dv), (qbytes(q0) + blen(dv)) as int));
        } else {
            total = total0 + len;
            q.push_back(data);
            assert(q@.map_values(|s: String| s@) =~= q0.push(dv));
            assert(qbytes(q0.push(dv)) == qbytes(q0) + blen(dv)) by {
                assert(q0.push(dv).drop_last() =~= q0);
            }
            while total > REPLAY_CAP_BYTES
                invariant
                    total as nat == qbytes(q@.map_values(|s: String| s@)),
                    cap_front(q@.map_values(|s: String| s@), total as int) == cap_front(
                        q0.push(dv),
                        (qbytes(q0) + blen(dv)) as int,
                    ),
                decreases q@.len(),
            {
                let ghost qv = q@.map_values(|s: String| s@);
                proof {
                    assert(qv.len() > 0);
                    lemma_qbytes_front(qv);
                }
                match q.pop_front() {
                    Some(old) => {
                        assert(q@.map_values(|s: String| s@) =~= qv.drop_first());
                        total = total - old.as_str().len();
                    },
                    None => {},
                }
            }
            assert(cap_front(q@.map_values(|s: String| s@), total as int) == q@.map_values(|s: String| s@));
        }
        let ghost nq = q@.map_values(|s: String| s@);
        if i < self.replay.len() {
            self.replay.insert(i, (name, q, total));
        } else {
            self.replay.push((name, q, total));
        }
        proof {
            if i < rv.len() {
                assert(self.replay_view() =~= rv.update(i as int, (name@, nq)));
            } else {
                assert(self.replay_view() =~= rv.push((name@, nq)));
            }
            assert forall|a: int, b: int| 0 <= a < b < self.replay@.len() implies #[trigger] self.replay@[a].0@
                != #[trigger] self.replay@[b].0@ by {
                assert(self.replay_view()[a].0 == self.replay@[a].0@);
                assert(self.replay_view()[b].0 == self.replay@[b].0@);
                if a == i {
                    lemma_replay_index_first(rv, name@);
                } else if b == i {
                    lemma_replay_index_first(rv, name@);
                } else {
                    assert(rv[a].0 == self.replay_view()[a].0);
                }
            }
        }
    }
}

impl SessionPump {
    /// The invariant keeps replay names distinct.
    pub proof fn lemma_wf_replay_distinct(&self)
        requires
            self.wf(),
        ensures
            replay_names_distinct(self.replay_view()),
    {
        assert forall|i: int, j: int| 0 <= i < j < self.replay_view().len() implies #[trigger] self.replay_view()[i].0
            != #[trigger] self.replay_view()[j].0 by {
            assert(self.replay_view()[i].0 == self.replay@[i].0@);
            assert(self.replay_view()[j].0 == self.replay@[j].0@);
        }
    }

    /// Registers a session's inbound channel; the same name again replaces
    /// the old channel (a reconnect) and drops that name's replay cache.
    pub fn register(&mut self, name: &'static str, rx: Receiver<SessionEvent>)
        requires
            old(self).wf(),
        ensures
            final(self).wf(),
            final(self).slot_names() == old(self).slot_names().filter(|n: Seq<char>| n != name@).push(
                name@,
            ),
            ({
                let rv = old(self).replay_view();
                let k = replay_index(rv, name@);
                final(self).replay_view() == if k < rv.len() {
                    rv.remove(k as int)
                } else {
                    rv
                }
            }),
            final(self).control_view() == old(self).control_view(),
            replay_index(final(self).replay_view(), name@) == final(self).replay_view().len(),
            queue_of(final(self).replay_view(), name@) == Seq::<Seq<char>>::empty(),
    {
        proof {
            self.lemma_wf_replay_distinct();
            lemma_remove_leaves_none(self.replay_view(), name@);
        }
        let ghost sn = self.slot_names();
        let ghost rv = self.replay_view();
        let ghost os = self.slots@;
        let ghost osn = os.map_values(|p: (&'static str, Receiver<SessionEvent>)| p.0@);
        let mut i: usize = 0;
        let mut c: usize = 0;
        assert(osn.take(0).filter(|x: Seq<char>| x != name@) =~= Seq::<Seq<char>>::empty()) by {
            reveal(Seq::filter);
        }
        assert(os.skip(0) =~= os);
        while i < self.slots.len()
            invariant
                i <= self.slots@.len(),
                c <= os.len(),
                os.len() == old(self).slots.len(),
                osn == os.map_values(|p: (&'static str, Receiver<SessionEvent>)| p.0@),
                self.slots@ == self.slots@.take(i as int) + os.skip(c as int),
                self.slots@.len() - i == os.len() - c,
                self.slots@.take(i as int).map_values(|p: (&'static str, Receiver<SessionEvent>)| p.0@)
                    == osn.take(c as int).filter(|x: Seq<char>| x != name@),
                self.replay == old(self).replay,
                self.control == old(self).control,
            decreases self.slots.len() - i,
        {
            assert(c < os.len());
            let ghost before = self.slots@;
            assert(before[i as int] == os[c as int]);
            proof {
                lemma_filter_push(osn.take(c as int), |x: Seq<char>| x != name@, osn[c as int]);
                assert(osn.take(c as int).push(osn[c as int]) =~= osn.take(c + 1));
            }
            if str_eq(self.slots[i].0, name) {
                let _gone = self.slots.remove(i);
                assert(self.slots@.take(i as int) =~= before.take(i as int));
                assert(os.skip(c + 1) =~= os.skip(c as int).drop_first());
                assert(self.slots@ =~= self.slots@.take(i as int) + os.skip(c + 1));
            } else {
                assert(self.slots@.take(i + 1) =~= before.take(i as int).push(os[c as int]));
                assert(self.slots@.take(i + 1).map_values(|p: (&'static str, Receiver<SessionEvent>)| p.0@)
                    =~= self.slots@.take(i as int).map_values(|p: (&'static str, Receiver<SessionEvent>)| p.0@).push(osn[c as int]));
                assert(os.skip(c + 1) =~= os.skip(c as int).drop_first());
                assert(self.slots@ =~= self.slots@.take(i + 1) + os.skip(c + 1));
                i += 1;
            }
            c += 1;
        }
        assert(c == os.len());
        assert(osn.take(c as int) =~= osn);
        assert(self.slots@.take(i as int) =~= self.slots@);
        self.slots.push((name, rx));
        assert(self.slot_names() =~= sn.filter(|x: Seq<char>| x != name@).push(name@));
        // the replay cache of that name goes too (names there are distinct)
        let k = self.find_replay(name);
        if k < self.replay.len() {
            let ghost before = self.replay@;
            let _gone = self.replay.remove(k);
            proof {
                assert(self.replay_view() =~= rv.remove(k as int));
                assert forall|a: int| 0 <= a < self.replay@.len() implies {
                    let e = #[trigger] self.replay@[a];
                    &&& e.2 as nat == qbytes(e.1@.map_values(|s: String| s@))
                    &&& e.2 <= REPLAY_CAP_BYTES
                } by {
                    if a < k {
                        assert(self.replay@[a] == before[a]);
                    } else {
                        assert(self.replay@[a] == before[a + 1]);
                    }
                }
                assert forall|a: int, b: int| 0 <= a < b < self.replay@.len() implies #[trigger] self.replay@[a].0@
                    != #[trigger] self.replay@[b].0@ by {
                    let a2 = if a < k { a } else { a + 1 };
                    let b2 = if b < k { b } else { b + 1 };
                    assert(self.replay@[a] == before[a2]);
                    assert(self.replay@[b] == before[b2]);
                }
            }
        }
    }

    /// Takes the replay cache of `name` (one shot: emptied).
    pub fn take_replay(&mut self, name: &str) -> (r: Vec<String>)
        requires
            old(self).wf(),
        ensures
            final(self).wf(),
            final(self).slot_names() == old(self).slot_names(),
            final(self).control_view() == old(self).control_view(),
            ({
                let rv = old(self).replay_view();
                let i = replay_index(rv, name@);
                if i < rv.len() {
                    &&& r@.map_values(|s: String| s@) == rv[i as int].1
                    &&& final(self).replay_view() == rv.update(
                        i as int,
                        (rv[i as int].0, Seq::<Seq<char>>::empty()),
                    )
                } else {
                    &&& r@.len() == 0
                    &&& final(self).replay_view() == rv
                }
            }),
            r@.map_values(|s: String| s@) == queue_of(old(self).replay_view(), name@),
            queue_of(final(self).replay_view(), name@) == Seq::<Seq<char>>::empty(),
    {
        let i = self.find_replay(name);
        let ghost rv = self.replay_view();
        if i == self.replay.len() {
            let r: Vec<String> = Vec::new();
            assert(r@.map_values(|s: String| s@) =~= Seq::<Seq<char>>::empty());
            return r;
        }
        let e = self.replay.remove(i);
        let (n, mut q, _) = e;
        let mut out: Vec<String> = Vec::new();
        let ghost q0 = q@;
        while q.len() > 0
            invariant
                out@ + q@ == q0,
            decreases q@.len(),
        {
            let ghost qq = q@;
            let s = q.pop_front().unwrap();
            out.push(s);
            assert(out@ + q@ =~= q0);
        }
        assert(out@ =~= q0);
        let fresh: VecDeque<String> = VecDeque::new();
        assert(fresh@.map_values(|s: String| s@) =~= Seq::<Seq<char>>::empty());
        self.replay.insert(i, (n, fresh, 0));
        proof {
            assert(q0.map_values(|s: String| s@) == rv[i as int].1);
            assert(self.replay_view() =~= rv.update(i as int, (rv[i as int].0, Seq::<Seq<char>>::empty())));
            assert(qbytes(Seq::<Seq<char>>::empty()) == 0);
            assert forall|a: int, b: int| 0 <= a < b < self.replay@.len() implies #[trigger] self.replay@[a].0@
                != #[trigger] self.replay@[b].0@ by {
                assert(self.replay_view()[a].0 == rv[a].0);
                assert(self.replay_view()[b].0 == rv[b].0);
            }
            lemma_replay_index_first(rv, name@);
            let r2 = self.replay_view();
            assert forall|k: int| 0 <= k < i implies #[trigger] r2[k].0 != name@ by {
                assert(r2[k] == rv[k]);
            }
            lemma_replay_index_at(r2, name@, i as int);
        }
        out
    }

    /// Takes all queued lifecycle events (the queue is emptied).
    pub fn take_control(&mut self) -> (r: Vec<(&'static str, SessionEvent)>)
        requires
            old(self).wf(),
        ensures
            final(self).wf(),
            r@.map_values(|e: (&'static str, SessionEvent)| (e.0@, e.1@)) == old(self).control_view(),
            final(self).control_view() == Seq::<(Seq<char>, SessionEventV)>::empty(),
            final(self).slot_names() == old(self).slot_names(),
            final(self).replay_view() == old(self).replay_view(),
    {
        let mut out: Vec<(&'static str, SessionEvent)> = Vec::new();
        let ghost c0 = self.control@;
        while self.control.len() > 0
            invariant
                out@ + self.control@ == c0,
                self.control@.len() <= CONTROL_CAP,
                self.slots == old(self).slots,
                self.replay == old(self).replay,
            decreases self.control@.len(),
        {
            let e = self.control.pop_front().unwrap();
            out.push(e);
            assert(out@ + self.control@ =~= c0);
        }
        assert(out@ =~= c0);
        assert(self.control_view() =~= Seq::<(Seq<char>, SessionEventV)>::empty());
        out
    }

    /// Files one received event: active output is handed back for the sink,
    /// standby output goes to the replay cache, lifecycle events are queued.
    pub fn absorb(&mut self, name: &'static str, ev: SessionEvent, active: &str) -> (r: Option<String>)
        requires
            old(self).wf(),
        ensures
            final(self).wf(),
            final(self).slot_names() == old(self).slot_names(),
            ({
                let s = absorb_spec(old(self).replay_view(), old(self).control_view(), name@, ev@, active@);
                &&& final(self).replay_view() == s.0
                &&& final(self).control_view() == s.1
                &&& match r {
                    Some(d) => s.2 == Some(d@),
                    None => s.2 is None,
                }
            }),
    {
        match ev {
            SessionEvent::Output { data } => {
                if str_eq(name, active) {
                    Some(data)
                } else {
                    self.push_replay(name, data);
                    None
                }
            },
            ctl => {
                let ghost cv = self.control_view();
                let ghost c = ctl@;
                if self.control.len() >= CONTROL_CAP {
                    self.control.pop_front();
                }
                self.control.push_back((name, ctl));
                assert(self.control_view() =~= (if cv.len() >= CONTROL_CAP {
                    cv.drop_first().push((name@, c))
                } else {
                    cv.push((name@, c))
                }));
                None
            },
        }
    }

    /// Files received batches (session name, events in arrival order), in
    /// order: standby output is cached, lifecycle events queued (see
    /// `pump_fold`). Returns every output, with its session's name, in
    /// filing order (see `fold_outputs`): what the recorder witnesses, and,
    /// for the active session, what the sink is fed.
    pub fn pump_batches(&mut self, batches: &Vec<(&'static str, Vec<SessionEvent>)>, active: &str) -> (outs: Vec<(&'static str, String)>)
        requires
            old(self).wf(),
        ensures
            final(self).wf(),
            final(self).slot_names() == old(self).slot_names(),
            (final(self).replay_view(), final(self).control_view()) == pump_fold(
                (old(self).replay_view(), old(self).control_view()),
                batches_view(batches@),
                active@,
            ),
            outputs_view(outs@) == fold_outputs(batches_view(batches@)),
    {
        let ghost st0: PumpV = (self.replay_view(), self.control_view());
        let ghost bv = batches_view(batches@);
        let mut outs: Vec<(&'static str, String)> = Vec::new();
        let mut k: usize = 0;
        assert(bv.take(0) =~= Seq::<(Seq<char>, Seq<SessionEventV>)>::empty());
        assert(outputs_view(outs@) =~= Seq::<(Seq<char>, Seq<char>)>::empty());
        while k < batches.len()
            invariant
                k <= batches@.len(),
                bv == batches_view(batches@),
                self.wf(),
                self.slot_names() == old(self).slot_names(),
                (self.replay_view(), self.control_view()) == pump_fold(st0, bv.take(k as int), active@),
                outputs_view(outs@) == fold_outputs(bv.take(k as int)),
            decreases batches.len() - k,
        {
            let name = batches[k].0;
            let ghost p0: PumpV = (self.replay_view(), self.control_view());
            let ghost o0 = outputs_view(outs@);
            let ghost evs = bv[k as int].1;
            assert(evs == batches@[k as int].1@.map_values(|e: SessionEvent| e@));
            assert(bv[k as int].0 == name@);
            let mut j: usize = 0;
            assert(evs.take(0) =~= Seq::<SessionEventV>::empty());
            assert(o0 + run_outputs(name@, evs.take(0)) =~= o0);
            while j < batches[k].1.len()
                invariant
                    k < batches@.len(),
                    j <= batches@[k as int].1@.len(),
                    evs == batches@[k as int].1@.map_values(|e: SessionEvent| e@),
                    self.wf(),
                    self.slot_names() == old(self).slot_names(),
                    (self.replay_view(), self.control_view()) == absorb_run(p0, name@, evs.take(j as int), active@),
                    outputs_view(outs@) == o0 + run_outputs(name@, evs.take(j as int)),
                decreases batches[k as int].1.len() - j,
            {
                let ev = batches[k].1[j].copy_event();
                assert(ev@ == evs[j as int]);
                assert(evs.take(j + 1).drop_last() =~= evs.take(j as int));
                assert(evs.take(j + 1).last() == evs[j as int]);
                let ghost ov = outputs_view(outs@);
                if let SessionEvent::Output { data } = &ev {
                    outs.push((name, data.as_str().to_owned()));
                    assert(outputs_view(outs@) =~= ov + seq![(name@, data@)]);
                } else {
                    assert(outputs_view(outs@) =~= ov + Seq::<(Seq<char>, Seq<char>)>::empty());
                }
                let _ = self.absorb(name, ev, active);
                j += 1;
            }
            assert(evs.take(evs.len() as int) =~= evs);
            assert(bv.take(k + 1).drop_last() =~= bv.take(k as int));
            assert(bv.take(k + 1).last() == bv[k as int]);
            k += 1;
        }
        assert(bv.take(bv.len() as int) =~= bv);
        outs
    }

    /// Drains every registered channel once and files what arrived (see
    /// `pump_batches`): standby output is cached, lifecycle events are
    /// queued. Returns every output in filing order, each marked for the
    /// screen exactly when it is the active session's; the caller hands
    /// every output to the recorder and the marked ones to the screen.
    /// What arrives depends on the connections: the new state and the
    /// result are those of filing some batches drained from the registered
    /// sessions.
    pub fn pump(&mut self, active: &str) -> (r: Vec<PumpOut>)
        requires
            old(self).wf(),
        ensures
            final(self).wf(),
            final(self).slot_names() == old(self).slot_names(),
            exists|bs: Seq<(Seq<char>, Seq<SessionEventV>)>|
                {
                    &&& forall|i: int| 0 <= i < bs.len() ==> old(self).slot_names().contains(#[trigger] bs[i].0)
                    &&& exists|idx: Seq<int>| drained_from(bs, old(self).slot_names(), idx)
                    &&& (final(self).replay_view(), final(self).control_view()) == #[trigger] pump_fold(
                        (old(self).replay_view(), old(self).control_view()),
                        bs,
                        active@,
                    )
                    &&& pump_outs_view(r@) == routed(fold_outputs(bs), active@)
                },
    {
        let mut batches: Vec<(&'static str, Vec<SessionEvent>)> = Vec::new();
        let mut i: usize = 0;
        let ghost mut idx: Seq<int> = Seq::empty();
        while i < self.slots.len()
            invariant
                i <= self.slots@.len(),
                self.wf(),
                self == old(self),
                forall|m: int| 0 <= m < batches@.len() ==> self.slot_names().contains(#[trigger] batches_view(batches@)[m].0),
                drained_from(batches_view(batches@), self.slot_names(), idx),
                forall|m: int| 0 <= m < idx.len() ==> #[trigger] idx[m] < i,
            decreases self.slots.len() - i,
        {
            let b = try_recv_all(&self.slots[i].1);
            if b.len() > 0 {
                let ghost before = batches@;
                let ghost idx0 = idx;
                batches.push((self.slots[i].0, b));
                proof {
                    idx = idx0.push(i as int);
                    assert(self.slot_names()[i as int] == self.slots@[i as int].0@);
                    let bv1 = batches_view(batches@);
                    assert forall|m: int| 0 <= m < bv1.len() implies 0 <= #[trigger] idx[m] < self.slot_names().len()
                        && self.slot_names()[idx[m]] == bv1[m].0 && bv1[m].1.len() > 0 by {
                        if m < before.len() {
                            assert(bv1[m] == batches_view(before)[m]);
                            assert(idx[m] == idx0[m]);
                        } else {
                            assert(bv1[m].0 == self.slot_names()[i as int]);
                        }
                    }
                    assert forall|a: int, c: int| 0 <= a < c < bv1.len() implies #[trigger] idx[a] < #[trigger] idx[c] by {
                        if c < before.len() {
                            assert(idx[a] == idx0[a] && idx[c] == idx0[c]);
                        } else {
                            assert(idx[a] == idx0[a]);
                        }
                    }
                    assert(self.slot_names()[i as int] == self.slots@[i as int].0@);
                    assert forall|m: int| 0 <= m < batches@.len() implies self.slot_names().contains(#[trigger] batches_view(batches@)[m].0) by {
                        if m < before.len() {
                            assert(batches_view(batches@)[m] == batches_view(before)[m]);
                        } else {
                            assert(batches_view(batches@)[m].0 == self.slot_names()[i as int]);
                        }
                    }
                }
            }
            i += 1;
        }
        let outs = self.pump_batches(&batches, active);
        let ghost bv = batches_view(batches@);
        let ghost ov = outputs_view(outs@);
        let mut r: Vec<PumpOut> = Vec::new();
        let mut k: usize = 0;
        while k < outs.len()
            invariant
                k <= outs@.len(),
                ov == outputs_view(outs@),
                pump_outs_view(r@) == routed(ov.take(k as int), active@),
            decreases outs.len() - k,
        {
            let name = outs[k].0;
            let data = outs[k].1.as_str().to_owned();
            let feed = str_eq(name, active);
            let ghost before = pump_outs_view(r@);
            r.push(PumpOut { name, data, feed });
            proof {
                assert(ov[k as int] == (name@, outs@[k as int].1@));
                assert(ov.take(k + 1) =~= ov.take(k as int).push(ov[k as int]));
                assert(pump_outs_view(r@) =~= before.push((name@, data@, feed)));
                assert(routed(ov.take(k + 1), active@) =~= routed(ov.take(k as int), active@).push(
                    (name@, data@, name@ == active@),
                ));
            }
            k += 1;
        }
        assert(ov.take(ov.len() as int) =~= ov);
        assert(forall|m: int| 0 <= m < bv.len() ==> old(self).slot_names().contains(#[trigger] bv[m].0));
        assert(drained_from(bv, old(self).slot_names(), idx));
        r
    }
}

proof fn lemma_filter_push<A>(s: Seq<A>, p: spec_fn(A) -> bool, x: A)
    ensures
        s.push(x).filter(p) == (if p(x) {
            s.filter(p).push(x)
        } else {
            s.filter(p)
        }),
{
    reveal(Seq::filter);
    assert(s.push(x).drop_last() =~= s);
}

/// Caching one standby output onto a session's queue: append, then drop
/// the oldest while over the byte cap (what `replay_after` does to the
/// queue of that name, an absent queue counting as empty).
pub open spec fn cache_step(q: Seq<Seq<char>>, d: Seq<char>) -> Seq<Seq<char>> {
    cap_front(q.push(d), (qbytes(q) + blen(d)) as int)
}

/// Caching a run of outputs one by one onto an empty queue.
pub open spec fn cache_run(os: Seq<Seq<char>>) -> Seq<Seq<char>>
    decreases os.len(),
{
    if os.len() == 0 {
        Seq::empty()
    } else {
        cache_step(cache_run(os.drop_last()), os.last())
    }
}

/// Filing a standby output caches it onto that session's queue (a new,
/// empty queue when the session had none).
pub proof fn lemma_replay_after_caches(rv: Seq<(Seq<char>, Seq<Seq<char>>)>, name: Seq<char>, d: Seq<char>)
    ensures
        ({
            let i = replay_index(rv, name);
            if i < rv.len() {
                replay_after(rv, name, d) == rv.update(i as int, (name, cache_step(rv[i as int].1, d)))
            } else {
                replay_after(rv, name, d) == rv.push((name, cache_step(Seq::empty(), d)))
            }
        }),
{
    assert(Seq::<Seq<char>>::empty().push(d) =~= seq![d]);
    assert(qbytes(Seq::<Seq<char>>::empty()) == 0);
}

/// `q` is the longest suffix of `os` within the replay cap.
pub open spec fn longest_fit(os: Seq<Seq<char>>, q: Seq<Seq<char>>) -> bool {
    exists|j: int|
        0 <= j <= os.len() && q == os.skip(j) && qbytes(q) <= REPLAY_CAP_BYTES && forall|i: int|
            0 <= i < j ==> qbytes(#[trigger] os.skip(i)) > REPLAY_CAP_BYTES
}

proof fn lemma_qbytes_push(q: Seq<Seq<char>>, d: Seq<char>)
    ensures
        qbytes(q.push(d)) == qbytes(q) + blen(d),
{
    assert(q.push(d).drop_last() =~= q);
}

/// Capping a whole queue leaves its longest suffix within the cap.
proof fn lemma_cap_front_longest(q: Seq<Seq<char>>)
    ensures
        longest_fit(q, cap_front(q, qbytes(q) as int)),
    decreases q.len(),
{
    if qbytes(q) <= REPLAY_CAP_BYTES || q.len() == 0 {
        assert(q.skip(0) =~= q);
        if q.len() == 0 {
            assert(qbytes(q) == 0);
        }
        assert(longest_fit(q, q));
    } else {
        lemma_qbytes_front(q);
        let t = q.drop_first();
        lemma_cap_front_longest(t);
        let r = cap_front(t, qbytes(t) as int);
        let j1 = choose|j: int|
            0 <= j <= t.len() && r == t.skip(j) && qbytes(r) <= REPLAY_CAP_BYTES && forall|i: int|
                0 <= i < j ==> qbytes(#[trigger] t.skip(i)) > REPLAY_CAP_BYTES;
        assert(q.skip(j1 + 1) =~= t.skip(j1));
        assert forall|i: int| 0 <= i < j1 + 1 implies qbytes(#[trigger] q.skip(i)) > REPLAY_CAP_BYTES by {
            if i == 0 {
                assert(q.skip(0) =~= q);
            } else {
                assert(q.skip(i) =~= t.skip(i - 1));
            }
        }
        assert(longest_fit(q, cap_front(q, qbytes(q) as int)));
    }
}

/// Replay keeps the newest outputs: caching standby outputs one by one
/// leaves the longest suffix of all of them whose bytes fit the cap (an
/// oversized newest output leaves nothing).
pub proof fn lemma_cache_run_longest_fit(os: Seq<Seq<char>>)
    ensures
        longest_fit(os, cache_run(os)),
    decreases os.len(),
{
    if os.len() == 0 {
        assert(os.skip(0) =~= os);
        assert(qbytes(os) == 0);
        assert(cache_run(os) =~= os.skip(0));
        assert(longest_fit(os, cache_run(os)));
    } else {
        let p = os.drop_last();
        let d = os.last();
        lemma_cache_run_longest_fit(p);
        let c = cache_run(p);
        let j0 = choose|j: int|
            0 <= j <= p.len() && c == p.skip(j) && qbytes(c) <= REPLAY_CAP_BYTES && forall|i: int|
                0 <= i < j ==> qbytes(#[trigger] p.skip(i)) > REPLAY_CAP_BYTES;
        let cq = c.push(d);
        lemma_qbytes_push(c, d);
        lemma_cap_front_longest(cq);
        let r = cap_front(cq, qbytes(cq) as int);
        let j1 = choose|j: int|
            0 <= j <= cq.len() && r == cq.skip(j) && qbytes(r) <= REPLAY_CAP_BYTES && forall|i: int|
                0 <= i < j ==> qbytes(#[trigger] cq.skip(i)) > REPLAY_CAP_BYTES;
        assert(cq =~= os.skip(j0));
        assert(r =~= os.skip(j0 + j1));
        assert forall|i: int| 0 <= i < j0 + j1 implies qbytes(#[trigger] os.skip(i)) > REPLAY_CAP_BYTES by {
            if i < j0 {
                assert(os.skip(i) =~= p.skip(i).push(d));
                lemma_qbytes_push(p.skip(i), d);
                assert(qbytes(p.skip(i)) > REPLAY_CAP_BYTES);
            } else {
                assert(os.skip(i) =~= cq.skip(i - j0));
            }
        }
        assert(0 <= j0 + j1 <= os.len());
        assert(qbytes(os.skip(j0 + j1)) <= REPLAY_CAP_BYTES);
        assert(longest_fit(os, r));
        assert(cache_run(os) == cache_step(c, d));
        assert(cache_run(os) == r);
    }
}

/// Each session name has at most one replay entry.
pub open spec fn replay_names_distinct(rv: Seq<(Seq<char>, Seq<Seq<char>>)>) -> bool {
    forall|i: int, j: int| 0 <= i < j < rv.len() ==> #[trigger] rv[i].0 != #[trigger] rv[j].0
}

/// Dropping a name's entry from a cache with distinct names leaves none
/// of that name.
pub proof fn lemma_remove_leaves_none(rv: Seq<(Seq<char>, Seq<Seq<char>>)>, name: Seq<char>)
    requires
        replay_names_distinct(rv),
    ensures
        ({
            let k = replay_index(rv, name);
            let r2 = if k < rv.len() { rv.remove(k as int) } else { rv };
            replay_index(r2, name) == r2.len()
        }),
{
    lemma_replay_index_first(rv, name);
    let k = replay_index(rv, name);
    let r2 = if k < rv.len() { rv.remove(k as int) } else { rv };
    lemma_replay_index_first(r2, name);
    if replay_index(r2, name) < r2.len() {
        let m = replay_index(r2, name) as int;
        if k < rv.len() {
            if m < k {
                assert(r2[m] == rv[m]);
            } else {
                assert(r2[m] == rv[m + 1]);
                assert(rv[k as int].0 != rv[m + 1].0);
            }
        } else {
            assert(r2[m].0 == name);
        }
    }
}

pub proof fn lemma_replay_index_first(rv: Seq<(Seq<char>, Seq<Seq<char>>)>, name: Seq<char>)
    ensures
        replay_index(rv, name) <= rv.len(),
        forall|j: int| 0 <= j < replay_index(rv, name) ==> rv[j].0 != name,
        replay_index(rv, name) < rv.len() ==> rv[replay_index(rv, name) as int].0 == name,
    decreases rv.len(),
{
    if rv.len() > 0 && rv[0].0 != name {
        lemma_replay_index_first(rv.drop_first(), name);
        assert forall|j: int| 0 <= j < replay_index(rv, name) implies rv[j].0 != name by {
            if j > 0 {
                assert(rv[j] == rv.drop_first()[j - 1]);
            }
        }
    }
}

/// The outputs queued for `name` in a replay cache (none when it has no
/// entry).
pub open spec fn queue_of(rv: Seq<(Seq<char>, Seq<Seq<char>>)>, name: Seq<char>) -> Seq<Seq<char>> {
    let i = replay_index(rv, name);
    if i < rv.len() {
        rv[i as int].1
    } else {
        Seq::empty()
    }
}

/// The first entry named `name` is at `i` (`i` is the length when none is).
proof fn lemma_replay_index_at(rv: Seq<(Seq<char>, Seq<Seq<char>>)>, name: Seq<char>, i: int)
    requires
        0 <= i <= rv.len(),
        i < rv.len() ==> rv[i].0 == name,
        forall|k: int| 0 <= k < i ==> #[trigger] rv[k].0 != name,
    ensures
        replay_index(rv, name) == i,
    decreases rv.len(),
{
    if i > 0 {
        let t = rv.drop_first();
        assert(rv[0].0 != name);
        assert forall|k: int| 0 <= k < i - 1 implies #[trigger] t[k].0 != name by {
            assert(t[k] == rv[k + 1]);
        }
        if i < rv.len() {
            assert(t[i - 1] == rv[i]);
        }
        lemma_replay_index_at(t, name, i - 1);
    }
}

/// Caching a standby output of `src` changes only the queue of `src`.
proof fn lemma_queue_after(rv: Seq<(Seq<char>, Seq<Seq<char>>)>, src: Seq<char>, d: Seq<char>, name: Seq<char>)
    ensures
        queue_of(replay_after(rv, src, d), name) == if src == name {
            cache_step(queue_of(rv, name), d)
        } else {
            queue_of(rv, name)
        },
{
    lemma_replay_after_caches(rv, src, d);
    lemma_replay_index_first(rv, src);
    lemma_replay_index_first(rv, name);
    let i = replay_index(rv, src) as int;
    let j = replay_index(rv, name) as int;
    let r2 = replay_after(rv, src, d);
    if i < rv.len() {
        assert forall|k: int| 0 <= k < j && k != i implies #[trigger] r2[k] == rv[k] by {}
        if src == name {
            assert forall|k: int| 0 <= k < i implies #[trigger] r2[k].0 != name by {
                assert(r2[k] == rv[k]);
            }
            lemma_replay_index_at(r2, name, i);
        } else {
            assert forall|k: int| 0 <= k < j implies #[trigger] r2[k].0 != name by {
                if k != i {
                    assert(r2[k] == rv[k]);
                }
            }
            if j < rv.len() {
                assert(j != i);
                assert(r2[j] == rv[j]);
            }
            lemma_replay_index_at(r2, name, j);
        }
    } else {
        assert(cache_step(Seq::<Seq<char>>::empty(), d) == cache_step(queue_of(rv, src), d));
        if src == name {
            assert forall|k: int| 0 <= k < rv.len() implies #[trigger] r2[k].0 != name by {
                assert(r2[k] == rv[k]);
            }
            lemma_replay_index_at(r2, name, rv.len() as int);
        } else if j < rv.len() {
            assert forall|k: int| 0 <= k < j implies #[trigger] r2[k].0 != name by {
                assert(r2[k] == rv[k]);
            }
            assert(r2[j] == rv[j]);
            lemma_replay_index_at(r2, name, j);
        } else {
            assert forall|k: int| 0 <= k < r2.len() implies #[trigger] r2[k].0 != name by {
                if k < rv.len() {
                    assert(r2[k] == rv[k]);
                }
            }
            lemma_replay_index_at(r2, name, r2.len() as int);
        }
    }
}

/// The standby outputs of `name` among filed outputs (none while `name` is
/// the active session), in order: what its replay queue takes in.
pub open spec fn cached_outputs(os: Seq<(Seq<char>, Seq<char>)>, name: Seq<char>, active: Seq<char>) -> Seq<Seq<char>>
    decreases os.len(),
{
    if os.len() == 0 {
        Seq::empty()
    } else {
        cached_outputs(os.drop_last(), name, active) + if os.last().0 == name && name != active {
            seq![os.last().1]
        } else {
            Seq::<Seq<char>>::empty()
        }
    }
}

proof fn lemma_cached_concat(a: Seq<(Seq<char>, Seq<char>)>, b: Seq<(Seq<char>, Seq<char>)>, name: Seq<char>, active: Seq<char>)
    ensures
        cached_outputs(a + b, name, active) == cached_outputs(a, name, active) + cached_outputs(b, name, active),
    decreases b.len(),
{
    if b.len() == 0 {
        assert(a + b =~= a);
        assert(cached_outputs(a, name, active) + Seq::<Seq<char>>::empty() =~= cached_outputs(a, name, active));
    } else {
        lemma_cached_concat(a, b.drop_last(), name, active);
        assert((a + b).drop_last() =~= a + b.drop_last());
        assert((a + b).last() == b.last());
        let x = if b.last().0 == name && name != active { seq![b.last().1] } else { Seq::<Seq<char>>::empty() };
        assert(cached_outputs(a, name, active) + cached_outputs(b.drop_last(), name, active) + x
            =~= cached_outputs(a, name, active) + (cached_outputs(b.drop_last(), name, active) + x));
    }
}

proof fn lemma_cache_run_push(s: Seq<Seq<char>>, d: Seq<char>)
    ensures
        cache_run(s.push(d)) == cache_step(cache_run(s), d),
{
    assert(s.push(d).drop_last() =~= s);
}

proof fn lemma_absorb_run_queue(st: PumpV, src: Seq<char>, evs: Seq<SessionEventV>, active: Seq<char>, name: Seq<char>, prev: Seq<Seq<char>>)
    requires
        queue_of(st.0, name) == cache_run(prev),
    ensures
        queue_of(absorb_run(st, src, evs, active).0, name) == cache_run(
            prev + cached_outputs(run_outputs(src, evs), name, active),
        ),
    decreases evs.len(),
{
    if evs.len() == 0 {
        assert(run_outputs(src, evs) =~= Seq::<(Seq<char>, Seq<char>)>::empty());
        assert(prev + Seq::<Seq<char>>::empty() =~= prev);
    } else {
        let e0 = evs.drop_last();
        lemma_absorb_run_queue(st, src, e0, active, name, prev);
        let p = absorb_run(st, src, e0, active);
        let ro0 = run_outputs(src, e0);
        let c0 = cached_outputs(ro0, name, active);
        let ro = run_outputs(src, evs);
        match evs.last() {
            SessionEventV::Output { data } => {
                assert(ro =~= ro0.push((src, data)));
                assert(ro.drop_last() =~= ro0);
                if src == active {
                    assert(cached_outputs(ro, name, active) =~= c0);
                } else {
                    lemma_queue_after(p.0, src, data, name);
                    if src == name {
                        assert(cached_outputs(ro, name, active) =~= c0.push(data));
                        lemma_cache_run_push(prev + c0, data);
                        assert((prev + c0).push(data) =~= prev + c0.push(data));
                    } else {
                        assert(cached_outputs(ro, name, active) =~= c0);
                    }
                }
            },
            _ => {
                assert(ro =~= ro0);
            },
        }
    }
}

/// Replay gives back what was cached: when `name`'s queue is the cache
/// run of earlier standby outputs `prev`, filing batches leaves it the
/// cache run of `prev` followed by `name`'s standby outputs among them
/// (none while `name` is the active session). A queue is emptied by
/// `take_replay` and by `register`, and the cache run of no output is
/// empty; with `lemma_cache_run_longest_fit`, what `take_replay` returns
/// is the longest suffix within the cap of every standby output of `name`
/// filed since.
pub proof fn lemma_pump_fold_queue(st: PumpV, bs: Seq<(Seq<char>, Seq<SessionEventV>)>, active: Seq<char>, name: Seq<char>, prev: Seq<Seq<char>>)
    requires
        queue_of(st.0, name) == cache_run(prev),
    ensures
        queue_of(pump_fold(st, bs, active).0, name) == cache_run(
            prev + cached_outputs(fold_outputs(bs), name, active),
        ),
    decreases bs.len(),
{
    if bs.len() == 0 {
        assert(fold_outputs(bs) =~= Seq::<(Seq<char>, Seq<char>)>::empty());
        assert(prev + Seq::<Seq<char>>::empty() =~= prev);
    } else {
        let b0 = bs.drop_last();
        lemma_pump_fold_queue(st, b0, active, name, prev);
        let p = pump_fold(st, b0, active);
        let c0 = cached_outputs(fold_outputs(b0), name, active);
        lemma_absorb_run_queue(p, bs.last().0, bs.last().1, active, name, prev + c0);
        lemma_cached_concat(fold_outputs(b0), run_outputs(bs.last().0, bs.last().1), name, active);
        let c1 = cached_outputs(run_outputs(bs.last().0, bs.last().1), name, active);
        assert(prev + c0 + c1 =~= prev + (c0 + c1));
    }
}

} // verus!
