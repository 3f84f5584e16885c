//! Book-keeping of the pulse bus: the subscription table (ids handed
//! out in order, unsubscribe by id) and the overflow diagnostics of the
//! cross-thread queue (a total count and a ring of the most recently
//! dropped pulse kinds). The queue, the locks and the handler calls
//! belong to the runtime that owns these values.

use vstd::prelude::*;

verus! {

/// How many dropped pulse kinds the overflow ring keeps.
pub const OVERFLOW_RING_CAPACITY: usize = 16;

/// The ring after recording `k`: the oldest entry leaves when the ring
/// is full.
pub open spec fn ring_push<K>(ring: Seq<K>, k: K) -> Seq<K> {
    if ring.len() >= OVERFLOW_RING_CAPACITY {
        ring.drop_first().push(k)
    } else {
        ring.push(k)
    }
}

/// The last `OVERFLOW_RING_CAPACITY` entries of `ks` (all of them when
/// there are fewer).
pub open spec fn last_kinds<K>(ks: Seq<K>) -> Seq<K> {
    if ks.len() > OVERFLOW_RING_CAPACITY {
        ks.skip(ks.len() - OVERFLOW_RING_CAPACITY)
    } else {
        ks
    }
}

/// Recording kinds one by one into an empty ring leaves exactly the
/// most recent ones, oldest first.
pub proof fn lemma_ring_keeps_last_kinds<K>(ks: Seq<K>)
    ensures
        ({
            let r = ring_after(ks);
            r == last_kinds(ks)
        }),
    decreases ks.len(),
{
    if ks.len() > 0 {
        lemma_ring_keeps_last_kinds(ks.drop_last());
        let prev = ks.drop_last();
        if prev.len() >= OVERFLOW_RING_CAPACITY {
            assert(last_kinds(prev).drop_first().push(ks.last()) =~= last_kinds(ks));
        } else {
            assert(last_kinds(prev).push(ks.last()) =~= last_kinds(ks));
        }
    }
}

/// The ring after recording `ks` in order into an empty ring.
pub open spec fn ring_after<K>(ks: Seq<K>) -> Seq<K>
    decreases ks.len(),
{
    if ks.len() == 0 {
        Seq::empty()
    } else {
        ring_push(ring_after(ks.drop_last()), ks.last())
    }
}

/// Overflow diagnostics: how many pulses the full queue dropped, and the
/// kinds of the most recent ones.
pub struct OverflowLog<K> {
    count: u64,
    recent: Vec<K>,
}

impl<K> OverflowLog<K> {
    #[verifier::type_invariant]
    spec fn inv(self) -> bool {
        self.recent@.len() <= OVERFLOW_RING_CAPACITY
    }
}

impl<K: Copy> OverflowLog<K> {
    /// Total pulses dropped, wrapping at `u64::MAX`.
    pub closed spec fn dropped(&self) -> u64 {
        self.count
    }

    /// The kinds of the most recently dropped pulses, oldest first.
    pub closed spec fn ring(&self) -> Seq<K> {
        self.recent@
    }

    pub fn new() -> (l: Self)
        ensures
            l.dropped() == 0,
            l.ring() == Seq::<K>::empty(),
    {
        OverflowLog { count: 0, recent: Vec::new() }
    }

    /// Record one dropped pulse of kind `k`.
    pub fn record(&mut self, k: K)
        ensures
            final(self).dropped() == (old(self).dropped() as int + 1) % 0x1_0000_0000_0000_0000,
            final(self).ring() == ring_push(old(self).ring(), k),
    {
        proof {
            use_type_invariant(&*self);
        }
        let mut ring: Vec<K> = Vec::new();
        std::mem::swap(&mut ring, &mut self.recent);
        if ring.len() >= OVERFLOW_RING_CAPACITY {
            ring.remove(0);
        }
        ring.push(k);
        self.recent = ring;
        self.count = self.count.wrapping_add(1);
    }

    /// `(total dropped, recent kinds oldest first)`.
    pub fn snapshot(&self) -> (r: (u64, Vec<K>))
        ensures
            r.0 == self.dropped(),
            r.1@ == self.ring(),
    {
        let mut out: Vec<K> = Vec::new();
        let mut i: usize = 0;
        while i < self.recent.len()
            invariant
                i <= self.recent@.len(),
                out@ == self.recent@.take(i as int),
            decreases self.recent@.len() - i,
        {
            out.push(self.recent[i]);
            proof {
                assert(self.recent@.take(i + 1) =~= self.recent@.take(i as int).push(self.recent@[i as int]));
            }
            i = i + 1;
        }
        proof {
            assert(self.recent@.take(i as int) =~= self.recent@);
        }
        (self.count, out)
    }
}

/// Ids strictly increase along the table and stay below `next`.
pub open spec fn ids_ordered<S>(entries: Seq<(u64, S)>, next: u64) -> bool {
    &&& forall|i: int, j: int| 0 <= i < j < entries.len() ==> entries[i].0 < entries[j].0
    &&& forall|i: int| 0 <= i < entries.len() ==> entries[i].0 < next
}

/// An entry is not the subscription `id`.
pub open spec fn keeps<S>(id: u64) -> spec_fn((u64, S)) -> bool {
    |e: (u64, S)| e.0 != id
}

/// The table after dropping the subscription `id`.
pub open spec fn without_id<S>(entries: Seq<(u64, S)>, id: u64) -> Seq<(u64, S)> {
    entries.filter(keeps(id))
}

/// The subscriptions of a bus, in subscription order, each under the id
/// `subscribe` handed out (ids start at 1 and are never reused).
pub struct Subscriptions<S> {
    next_id: u64,
    entries: Vec<(u64, S)>,
}

impl<S> Subscriptions<S> {
    #[verifier::type_invariant]
    spec fn inv(self) -> bool {
        &&& 1 <= self.next_id
        &&& ids_ordered(self.entries@, self.next_id)
    }

    /// `(id, subscription)` in subscription order.
    pub closed spec fn table(&self) -> Seq<(u64, S)> {
        self.entries@
    }

    /// The id the next `subscribe` hands out.
    pub closed spec fn next(&self) -> u64 {
        self.next_id
    }

    pub fn new() -> (s: Self)
        ensures
            s.table() == Seq::<(u64, S)>::empty(),
            s.next() == 1,
    {
        Subscriptions { next_id: 1, entries: Vec::new() }
    }

    /// Add a subscription; returns its id.
    pub fn subscribe(&mut self, sub: S) -> (id: u64)
        requires
            old(self).next() < u64::MAX,
        ensures
            id == old(self).next(),
            final(self).next() == old(self).next() + 1,
            final(self).table() == old(self).table().push((id, sub)),
    {
        proof {
            use_type_invariant(&*self);
        }
        let id = self.next_id;
        let mut entries: Vec<(u64, S)> = Vec::new();
        std::mem::swap(&mut entries, &mut self.entries);
        entries.push((id, sub));
        self.next_id = id + 1;
        self.entries = entries;
        id
    }

    /// Drop the subscription `id`; no-op for an id not subscribed.
    pub fn unsubscribe(&mut self, id: u64)
        ensures
            final(self).next() == old(self).next(),
            final(self).table() == without_id(old(self).table(), id),
    {
        proof {
            use_type_invariant(&*self);
        }
        let ghost start = self.entries@;
        let mut entries: Vec<(u64, S)> = Vec::new();
        std::mem::swap(&mut entries, &mut self.entries);
        let mut kept: Vec<(u64, S)> = Vec::new();
        let mut rest = entries;
        let ghost n = start.len();
        proof {
            reveal(Seq::filter);
            assert(start.take(0).filter(keeps::<S>(id)) =~= Seq::<(u64, S)>::empty());
            assert(start.skip(0) =~= start);
        }
        while rest.len() > 0
            invariant
                n == start.len(),
                rest@.len() <= n,
                rest@ == start.skip(n - rest@.len()),
                kept@ == start.take(n - rest@.len()).filter(keeps::<S>(id)),
                ids_ordered(start, self.next_id),
                1 <= self.next_id,
                self.entries@ == Seq::<(u64, S)>::empty(),
            decreases rest@.len(),
        {
            let ghost k = n - rest@.len();
            let e = rest.remove(0);
            proof {
                reveal(Seq::filter);
                assert(start.take(k + 1).drop_last() =~= start.take(k));
                assert(start.take(k + 1).last() == e);
                assert(rest@ =~= start.skip(k + 1));
            }
            if e.0 != id {
                kept.push(e);
            }
        }
        proof {
            assert(start.take(n as int) =~= start);
            lemma_without_id_ordered(start, id, self.next_id);
        }
        self.entries = kept;
    }

    pub fn len(&self) -> (n: usize)
        ensures
            n == self.table().len(),
    {
        self.entries.len()
    }

    /// The subscriptions with their ids, in subscription order.
    pub fn as_slice(&self) -> (r: &[(u64, S)])
        ensures
            r@ == self.table(),
    {
        self.entries.as_slice()
    }
}

/// Dropping an id keeps the table ordered.
proof fn lemma_without_id_ordered<S>(entries: Seq<(u64, S)>, id: u64, next: u64)
    requires
        ids_ordered(entries, next),
    ensures
        ids_ordered(without_id(entries, id), next),
    decreases entries.len(),
{
    reveal(Seq::filter);
    if entries.len() > 0 {
        let prev = entries.drop_last();
        assert(ids_ordered(prev, next));
        lemma_without_id_ordered(prev, id, next);
        let f = without_id(prev, id);
        assert forall|i: int| 0 <= i < f.len() implies f[i].0 < entries.last().0 by {
            assert(f.contains(f[i]));
            prev.lemma_filter_contains_rev(keeps::<S>(id), f[i]);
            let j = choose|j: int| 0 <= j < prev.len() && prev[j] == f[i];
            assert(entries[j] == prev[j]);
        }
    }
}

/// A filter every element passes keeps the sequence.
proof fn lemma_filter_keeps_all<S>(s: Seq<(u64, S)>, id: u64)
    requires
        forall|i: int| 0 <= i < s.len() ==> s[i].0 != id,
    ensures
        without_id(s, id) == s,
    decreases s.len(),
{
    reveal(Seq::filter);
    if s.len() > 0 {
        lemma_filter_keeps_all(s.drop_last(), id);
        assert(s.drop_last().push(s.last()) =~= s);
    } else {
        assert(without_id(s, id) =~= s);
    }
}

/// Unsubscribing twice is the same as once.
pub proof fn lemma_unsubscribe_idempotent<S>(entries: Seq<(u64, S)>, id: u64)
    ensures
        without_id(without_id(entries, id), id) == without_id(entries, id),
{
    let once = without_id(entries, id);
    assert forall|i: int| 0 <= i < once.len() implies once[i].0 != id by {
        entries.lemma_filter_pred(keeps::<S>(id), i);
    }
    lemma_filter_keeps_all(once, id);
}

} // verus!
