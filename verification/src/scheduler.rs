//! The kit's deferred-trigger queue: sub-hits, pattern steps and ghost notes
//! are queued against a monotonic sample counter and fired when their sample
//! comes due. The queue never grows past `PENDING_TRIGGER_CAPACITY`, so the
//! audio thread never allocates for it after construction.

use vstd::prelude::*;
use vstd::wrapping::u64_specs::wrapping_add;
use vstd::multiset::Multiset;

verus! {

/// Maximum number of pending triggers the queue holds at any moment.
pub const PENDING_TRIGGER_CAPACITY: usize = 512;

/// Hard cap on sub-hits queued per primary trigger.
pub const MAX_SUB_HITS_PER_PRIMARY: usize = 8;

/// Hard cap on pattern steps queued per primary trigger.
pub const MAX_PATTERN_STEPS_PER_PRIMARY: usize = 32;

/// One trigger deferred to a future sample. `payload` carries what the voice
/// needs when it fires (velocity and the tempo seen at queue time).
#[derive(Debug)]
pub struct PendingTrigger<T> {
    pub slot: usize,
    pub fire_at_sample: u64,
    pub payload: T,
}

/// The queue together with its sample clock and overflow counter.
pub struct PendingQueue<T> {
    entries: Vec<PendingTrigger<T>>,
    samples_processed: u64,
    overflows: u64,
}

/// An entry is due once the clock has reached its sample.
pub open spec fn is_due<T>(e: PendingTrigger<T>, now: u64) -> bool {
    e.fire_at_sample <= now
}

/// The queue and the fired entries after one draining pass at clock `now`,
/// scanning from position `i`: a due entry is taken out by moving the last
/// entry into its place, and the position is examined again.
pub open spec fn spec_drain_from<T>(q: Seq<PendingTrigger<T>>, i: int, now: u64) -> (
    Seq<PendingTrigger<T>>,
    Seq<PendingTrigger<T>>,
)
    decreases q.len() - i,
{
    if i < 0 || i >= q.len() {
        (q, Seq::empty())
    } else if is_due(q[i], now) {
        let q2 = q.update(i, q.last()).drop_last();
        let (rest, fired) = spec_drain_from(q2, i, now);
        (rest, seq![q[i]] + fired)
    } else {
        spec_drain_from(q, i + 1, now)
    }
}

/// `spec_drain_from` from the front of the queue.
pub open spec fn spec_drain<T>(q: Seq<PendingTrigger<T>>, now: u64) -> (
    Seq<PendingTrigger<T>>,
    Seq<PendingTrigger<T>>,
) {
    spec_drain_from(q, 0, now)
}

/// Draining splits the queue: every fired entry was due, every entry that
/// stays is not yet due, and together they are exactly the entries the queue
/// held before (as a multiset).
pub proof fn lemma_drain_partitions<T>(q: Seq<PendingTrigger<T>>, now: u64)
    ensures
        forall|k: int|
            0 <= k < spec_drain(q, now).1.len() ==> is_due(#[trigger] spec_drain(q, now).1[k], now),
        forall|k: int|
            0 <= k < spec_drain(q, now).0.len() ==> !is_due(#[trigger] spec_drain(q, now).0[k], now),
        spec_drain(q, now).0.to_multiset().add(spec_drain(q, now).1.to_multiset())
            == q.to_multiset(),
{
    lemma_drain_from_partitions(q, 0, now);
}

proof fn lemma_drain_from_partitions<T>(q: Seq<PendingTrigger<T>>, i: int, now: u64)
    requires
        0 <= i <= q.len(),
        forall|j: int| 0 <= j < i ==> !is_due(#[trigger] q[j], now),
    ensures
        forall|k: int|
            0 <= k < spec_drain_from(q, i, now).1.len() ==> is_due(
                #[trigger] spec_drain_from(q, i, now).1[k],
                now,
            ),
        forall|k: int|
            0 <= k < spec_drain_from(q, i, now).0.len() ==> !is_due(
                #[trigger] spec_drain_from(q, i, now).0[k],
                now,
            ),
        spec_drain_from(q, i, now).0.to_multiset().add(spec_drain_from(q, i, now).1.to_multiset())
            == q.to_multiset(),
    decreases q.len() - i,
{
    broadcast use vstd::multiset::group_multiset_axioms;
    broadcast use vstd::seq_lib::group_to_multiset_ensures;

    if i >= q.len() {
        assert(Seq::<PendingTrigger<T>>::empty().to_multiset() =~= Multiset::empty());
        assert(q.to_multiset().add(Multiset::empty()) =~= q.to_multiset());
    } else if is_due(q[i], now) {
        let u = q.update(i, q.last());
        let q2 = u.drop_last();
        assert forall|j: int| 0 <= j < i implies !is_due(#[trigger] q2[j], now) by {
            assert(q2[j] == q[j]);
        }
        lemma_drain_from_partitions(q2, i, now);
        let (rest, tail) = spec_drain_from(q2, i, now);
        let fired = seq![q[i]] + tail;
        assert(spec_drain_from(q, i, now) == (rest, fired));
        assert(u =~= q2.push(q.last()));
        assert(u.to_multiset() == q.to_multiset().insert(q.last()).remove(q[i]));
        assert(q2.push(q.last()).to_multiset() == q2.to_multiset().insert(q.last()));
        assert(q.contains(q[i]));
        assert(q.to_multiset().count(q[i]) > 0);
        assert forall|x: PendingTrigger<T>| #[trigger] q2.to_multiset().count(x) == q.to_multiset().remove(
            q[i],
        ).count(x) by {
            assert(u.to_multiset().count(x) == q2.to_multiset().insert(q.last()).count(x));
        }
        assert(q2.to_multiset() =~= q.to_multiset().remove(q[i]));
        assert(fired =~= tail.insert(0, q[i]));
        assert(fired.to_multiset() =~= tail.to_multiset().insert(q[i]));
        assert(q.to_multiset().count(q[i]) > 0);
        assert forall|x: PendingTrigger<T>| #[trigger] rest.to_multiset().add(fired.to_multiset()).count(
            x,
        ) == q.to_multiset().count(x) by {
            assert(rest.to_multiset().add(tail.to_multiset()).count(x) == q2.to_multiset().count(x));
        }
        assert(rest.to_multiset().add(fired.to_multiset()) =~= q.to_multiset());
        assert forall|k: int| 0 <= k < fired.len() implies is_due(#[trigger] fired[k], now) by {
            if k > 0 {
                assert(fired[k] == tail[k - 1]);
            }
        }
    } else {
        lemma_drain_from_partitions(q, i + 1, now);
    }
}

/// The queue after `n` calls of `advance` from clock `now`, while the clock
/// does not wrap: call `j` drains at clock `now + j`.
pub open spec fn queue_after<T>(q: Seq<PendingTrigger<T>>, now: u64, n: nat) -> Seq<PendingTrigger<T>>
    decreases n,
{
    if n == 0 {
        q
    } else {
        spec_drain(queue_after(q, now, (n - 1) as nat), (now + n - 1) as u64).0
    }
}

/// What the call of `advance` numbered `n` (counting from 0) fires.
pub open spec fn fired_at_step<T>(q: Seq<PendingTrigger<T>>, now: u64, n: nat) -> Seq<PendingTrigger<T>> {
    spec_drain(queue_after(q, now, n), (now + n) as u64).1
}

proof fn lemma_not_due_stays<T>(q: Seq<PendingTrigger<T>>, now: u64, e: PendingTrigger<T>)
    requires
        q.contains(e),
        !is_due(e, now),
    ensures
        spec_drain(q, now).0.contains(e),
{
    broadcast use vstd::seq_lib::group_to_multiset_ensures;
    broadcast use vstd::multiset::group_multiset_axioms;

    lemma_drain_partitions(q, now);
    let (rest, fired) = spec_drain(q, now);
    if fired.contains(e) {
        let k = choose|k: int| 0 <= k < fired.len() && fired[k] == e;
        assert(is_due(fired[k], now));
    }
    assert(fired.to_multiset().count(e) == 0);
    assert(q.to_multiset().count(e) > 0);
    assert(rest.to_multiset().add(fired.to_multiset()).count(e) == q.to_multiset().count(e));
    assert(rest.to_multiset().count(e) > 0);
}

proof fn lemma_due_fires<T>(q: Seq<PendingTrigger<T>>, now: u64, e: PendingTrigger<T>)
    requires
        q.contains(e),
        is_due(e, now),
    ensures
        spec_drain(q, now).1.contains(e),
{
    broadcast use vstd::seq_lib::group_to_multiset_ensures;
    broadcast use vstd::multiset::group_multiset_axioms;

    lemma_drain_partitions(q, now);
    let (rest, fired) = spec_drain(q, now);
    if rest.contains(e) {
        let k = choose|k: int| 0 <= k < rest.len() && rest[k] == e;
        assert(!is_due(rest[k], now));
    }
    assert(rest.to_multiset().count(e) == 0);
    assert(rest.to_multiset().add(fired.to_multiset()).count(e) == q.to_multiset().count(e));
    assert(fired.to_multiset().count(e) > 0);
}

proof fn lemma_waits<T>(q: Seq<PendingTrigger<T>>, now: u64, e: PendingTrigger<T>, j: nat)
    requires
        q.contains(e),
        j <= e.fire_at_sample - now,
        now <= e.fire_at_sample,
    ensures
        queue_after(q, now, j).contains(e),
    decreases j,
{
    if j > 0 {
        lemma_waits(q, now, e, (j - 1) as nat);
        lemma_not_due_stays(queue_after(q, now, (j - 1) as nat), (now + j - 1) as u64, e);
    }
}

/// When each deferred fire happens: an entry in the queue whose sample is
/// `k` samples past the clock (`k >= 0`, the clock not wrapping on the way)
/// is still queued after each of the first `k` calls of `advance`, and the
/// call numbered `k` (the `k + 1`-th) fires it.
pub proof fn lemma_fires_after_k_advances<T>(q: Seq<PendingTrigger<T>>, now: u64, e: PendingTrigger<T>)
    requires
        q.contains(e),
        now <= e.fire_at_sample,
    ensures
        forall|j: nat| j <= e.fire_at_sample - now ==> #[trigger] queue_after(q, now, j).contains(e),
        forall|j: nat| j < e.fire_at_sample - now ==> !(#[trigger] fired_at_step(q, now, j)).contains(e),
        fired_at_step(q, now, (e.fire_at_sample - now) as nat).contains(e),
{
    let k = (e.fire_at_sample - now) as nat;
    assert forall|j: nat| j <= e.fire_at_sample - now implies #[trigger] queue_after(q, now, j).contains(e) by {
        lemma_waits(q, now, e, j);
    }
    assert forall|j: nat| j < e.fire_at_sample - now implies !(#[trigger] fired_at_step(q, now, j)).contains(e) by {
        let qj = queue_after(q, now, j);
        lemma_drain_partitions(qj, (now + j) as u64);
        let f = spec_drain(qj, (now + j) as u64).1;
        if f.contains(e) {
            let m = choose|m: int| 0 <= m < f.len() && f[m] == e;
            assert(is_due(f[m], (now + j) as u64));
        }
    }
    lemma_waits(q, now, e, k);
    lemma_due_fires(queue_after(q, now, k), (now + k) as u64, e);
}

impl<T> PendingQueue<T> {
    /// The queue never holds more than its capacity.
    #[verifier::type_invariant]
    closed spec fn within_capacity(&self) -> bool {
        self.entries@.len() <= PENDING_TRIGGER_CAPACITY
    }
}

impl<T: Copy> PendingQueue<T> {
    /// The queued entries, oldest position first.
    pub closed spec fn entries(&self) -> Seq<PendingTrigger<T>> {
        self.entries@
    }

    /// The sample clock: how many samples have been processed.
    pub closed spec fn now(&self) -> u64 {
        self.samples_processed
    }

    /// How many deferred fires were dropped because the queue was full
    /// (wrapping at `u64::MAX`).
    pub closed spec fn overflow_count(&self) -> u64 {
        self.overflows
    }


    /// An empty queue at sample zero.
    pub fn new() -> (q: Self)
        ensures
            q.entries() == Seq::<PendingTrigger<T>>::empty(),
            q.now() == 0,
            q.overflow_count() == 0,
    {
        PendingQueue {
            entries: Vec::with_capacity(PENDING_TRIGGER_CAPACITY),
            samples_processed: 0,
            overflows: 0,
        }
    }

    /// Number of queued entries.
    pub fn len(&self) -> (n: usize)
        ensures
            n == self.entries().len(),
            n <= PENDING_TRIGGER_CAPACITY,
    {
        proof {
            use_type_invariant(self);
        }
        self.entries.len()
    }

    /// The sample clock.
    pub fn samples_processed(&self) -> (n: u64)
        ensures
            n == self.now(),
    {
        self.samples_processed
    }

    /// The overflow counter.
    pub fn pending_overflows(&self) -> (n: u64)
        ensures
            n == self.overflow_count(),
    {
        self.overflows
    }

    /// Queue a fire of `slot` that comes due `samples_from_now` samples after
    /// the current clock (wrapping at `u64::MAX`). When the queue is full the
    /// request is dropped, the overflow counter advances and `false` comes back.
    pub fn queue_pending(&mut self, slot: usize, payload: T, samples_from_now: u64) -> (queued: bool)
        ensures
            final(self).now() == old(self).now(),
            queued == (old(self).entries().len() < PENDING_TRIGGER_CAPACITY),
            queued ==> final(self).entries() == old(self).entries().push(
                PendingTrigger {
                    slot,
                    fire_at_sample: wrapping_add(old(self).now(), samples_from_now),
                    payload,
                },
            ),
            queued ==> final(self).overflow_count() == old(self).overflow_count(),
            !queued ==> final(self).entries() == old(self).entries(),
            !queued ==> final(self).overflow_count() == wrapping_add(
                old(self).overflow_count(),
                1,
            ),
    {
        proof {
            use_type_invariant(&*self);
        }
        if self.entries.len() >= PENDING_TRIGGER_CAPACITY {
            self.overflows = self.overflows.wrapping_add(1);
            false
        } else {
            let fire_at_sample = self.samples_processed.wrapping_add(samples_from_now);
            let mut entries: Vec<PendingTrigger<T>> = Vec::new();
            std::mem::swap(&mut entries, &mut self.entries);
            entries.push(PendingTrigger { slot, fire_at_sample, payload });
            self.entries = entries;
            true
        }
    }

    /// Take every entry that is due at the current clock out of the queue,
    /// returning them in firing order.
    pub fn drain_pending(&mut self) -> (fired: Vec<PendingTrigger<T>>)
        ensures
            final(self).now() == old(self).now(),
            final(self).overflow_count() == old(self).overflow_count(),
            (final(self).entries(), fired@) == spec_drain(old(self).entries(), old(self).now()),
    {
        proof {
            use_type_invariant(&*self);
        }
        let now = self.samples_processed;
        let ghost start = self.entries@;
        let mut entries: Vec<PendingTrigger<T>> = Vec::new();
        std::mem::swap(&mut entries, &mut self.entries);
        let mut fired: Vec<PendingTrigger<T>> = Vec::new();
        let mut i: usize = 0;
        while i < entries.len()
            invariant
                entries@.len() <= PENDING_TRIGGER_CAPACITY,
                i <= entries@.len(),
                ({
                    let (rest, tail) = spec_drain_from(entries@, i as int, now);
                    rest == spec_drain(start, now).0 && fired@ + tail == spec_drain(start, now).1
                }),
            decreases entries@.len() - i,
        {
            if entries[i].fire_at_sample <= now {
                let ghost q = entries@;
                let entry = entries.swap_remove(i);
                fired.push(entry);
                proof {
                    let (_, t1) = spec_drain_from(q, i as int, now);
                    let (_, t2) = spec_drain_from(entries@, i as int, now);
                    assert(t1 == seq![entry] + t2);
                    assert(fired@ + t2 =~= fired@.drop_last() + t1);
                }
            } else {
                i = i + 1;
            }
        }
        proof {
            let (rest, tail) = spec_drain_from(entries@, i as int, now);
            assert(tail =~= Seq::<PendingTrigger<T>>::empty());
            assert(fired@ + tail =~= fired@);
        }
        self.entries = entries;
        fired
    }

    /// One sample of the clock: fire what is due, then advance the clock by one
    /// (wrapping at `u64::MAX`). An entry queued `k` samples ahead therefore
    /// fires on the `k + 1`-th following call.
    pub fn advance(&mut self) -> (fired: Vec<PendingTrigger<T>>)
        ensures
            final(self).now() == wrapping_add(old(self).now(), 1),
            final(self).overflow_count() == old(self).overflow_count(),
            (final(self).entries(), fired@) == spec_drain(old(self).entries(), old(self).now()),
    {
        let fired = if self.entries.len() > 0 {
            self.drain_pending()
        } else {
            let f: Vec<PendingTrigger<T>> = Vec::new();
            proof {
                assert(spec_drain(self.entries@, self.samples_processed) == (
                    self.entries@,
                    Seq::<PendingTrigger<T>>::empty(),
                ));
            }
            f
        };
        proof {
            use_type_invariant(&*self);
        }
        self.samples_processed = self.samples_processed.wrapping_add(1);
        fired
    }
}

} // verus!
