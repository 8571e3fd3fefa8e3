//! Reversible effect stack: undo actions registered by a plugin (or a
//! child context), handed out once for running, last registered first.
use vstd::prelude::*;

verus! {

/// The undo actions one owner has registered. Disposal hands them out in
/// LIFO order and happens at most once; actions pushed after it are
/// dropped.
pub struct EffectStack<D> {
    items: Vec<D>,
    disposed: bool,
}

impl<D> EffectStack<D> {
    /// Undo actions not yet handed out, in registration order.
    pub closed spec fn pending(&self) -> Seq<D> {
        self.items@
    }

    pub closed spec fn disposed_v(&self) -> bool {
        self.disposed
    }

    pub fn new() -> (s: Self)
        ensures
            s.pending() == Seq::<D>::empty(),
            !s.disposed_v(),
    {
        EffectStack { items: Vec::new(), disposed: false }
    }

    /// Registers an undo action (not run now); after disposal it has no
    /// owner and is dropped unrun.
    pub fn push(&mut self, d: D)
        ensures
            final(self).disposed_v() == old(self).disposed_v(),
            final(self).pending() == if old(self).disposed_v() {
                old(self).pending()
            } else {
                old(self).pending().push(d)
            },
    {
        if self.disposed {
            return;
        }
        self.items.push(d);
    }

    pub fn is_disposed(&self) -> (b: bool)
        ensures
            b == self.disposed_v(),
    {
        self.disposed
    }

    /// Marks the stack disposed and hands out every pending action in the
    /// order to run them, last registered first; the caller runs each once.
    /// A second call hands out nothing.
    pub fn dispose(&mut self) -> (r: Vec<D>)
        ensures
            final(self).disposed_v(),
            final(self).pending() == if old(self).disposed_v() {
                old(self).pending()
            } else {
                Seq::<D>::empty()
            },
            r@ == if old(self).disposed_v() {
                Seq::<D>::empty()
            } else {
                old(self).pending().reverse()
            },
    {
        let mut r: Vec<D> = Vec::new();
        if self.disposed {
            return r;
        }
        self.disposed = true;
        let ghost p = self.items@;
        let ghost n = p.len();
        assert(p.subrange(n as int, n as int).reverse() =~= Seq::<D>::empty());
        assert(p.take(n as int) =~= p);
        while self.items.len() > 0
            invariant
                self.disposed,
                p == old(self).pending(),
                n == p.len(),
                self.items@.len() <= n,
                self.items@ == p.take(self.items@.len() as int),
                r@ == p.subrange(self.items@.len() as int, n as int).reverse(),
            decreases self.items.len(),
        {
            let ghost k = self.items@.len() - 1;
            let d = self.items.pop().unwrap();
            assert(d == p[k]);
            r.push(d);
            assert(p.subrange(k, n as int).reverse() =~= p.subrange(k + 1, n as int).reverse().push(p[k]));
            assert(self.items@ =~= p.take(k));
        }
        assert(self.items@ =~= Seq::<D>::empty());
        assert(p.subrange(0, n as int) =~= p);
        r
    }
}

/// Push then dispose: the action pushed last is handed out first, followed
/// by the earlier pending actions last-first (`dispose` hands out
/// `pending().reverse()`).
pub proof fn lemma_last_pushed_runs_first<D>(pending: Seq<D>, d: D)
    ensures
        pending.push(d).reverse() == seq![d] + pending.reverse(),
{
    assert(pending.push(d).reverse() =~= seq![d] + pending.reverse());
}

} // verus!
