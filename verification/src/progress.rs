//! The counter state machine behind a concurrent progress tracker, the pure
//! decisions of its periodic sampling loop, and the law that recording order
//! never changes the final totals.

use vstd::prelude::*;
use vstd::seq_lib::group_to_multiset_ensures;

verus! {

/// Nanoseconds that must elapse between two rate recomputations.
pub const UPDATE_INTERVAL_NANOS: u64 = 500_000_000;

/// Elapsed times at or below this many nanoseconds are treated as negligible,
/// to keep rate divisions well away from a zero denominator.
pub const MIN_ELAPSED_NANOS: u64 = 1_000_000;

/// How many recent instantaneous rate samples the sliding window holds.
pub const RATE_WINDOW: usize = 5;

/// How many samples the window must hold before the median replaces the raw
/// instantaneous rate.
pub const MEDIAN_MIN_SAMPLES: usize = 3;

/// The sampling loop recomputes rates only when the time elapsed since the
/// last sampling point has reached the update interval and is non-negligible.
pub fn update_due(elapsed_nanos: u64) -> (r: bool)
    ensures
        r == (elapsed_nanos >= UPDATE_INTERVAL_NANOS && elapsed_nanos > MIN_ELAPSED_NANOS),
{
    elapsed_nanos >= UPDATE_INTERVAL_NANOS && elapsed_nanos > MIN_ELAPSED_NANOS
}

/// Appends a sample to the sliding window; when the window would exceed
/// `RATE_WINDOW` samples, the oldest is dropped.
pub fn push_sample<T>(window: &mut Vec<T>, sample: T)
    requires
        old(window)@.len() <= RATE_WINDOW,
    ensures
        final(window)@.len() <= RATE_WINDOW,
        old(window)@.len() < RATE_WINDOW ==> final(window)@ == old(window)@.push(sample),
        old(window)@.len() == RATE_WINDOW ==> final(window)@ == old(window)@.push(
            sample,
        ).drop_first(),
{
    window.push(sample);
    if window.len() > RATE_WINDOW {
        window.remove(0);
        proof {
            assert(window@ =~= old(window)@.push(sample).drop_first());
        }
    }
}

/// Sum of the seed deltas in a batch of recorded deltas.
pub open spec fn seed_sum(ds: Seq<(usize, usize)>) -> int
    decreases ds.len(),
{
    if ds.len() == 0 {
        0
    } else {
        ds[0].0 + seed_sum(ds.drop_first())
    }
}

/// Sum of the address deltas in a batch of recorded deltas.
pub open spec fn address_sum(ds: Seq<(usize, usize)>) -> int
    decreases ds.len(),
{
    if ds.len() == 0 {
        0
    } else {
        ds[0].1 + address_sum(ds.drop_first())
    }
}

/// The seed total after the deltas of `ds` are recorded one by one, in order,
/// starting from `start`.
pub open spec fn applied_seeds(start: int, ds: Seq<(usize, usize)>) -> int
    decreases ds.len(),
{
    if ds.len() == 0 {
        start
    } else {
        applied_seeds(start + ds[0].0, ds.drop_first())
    }
}

/// The address total after the deltas of `ds` are recorded one by one, in
/// order, starting from `start`.
pub open spec fn applied_addresses(start: int, ds: Seq<(usize, usize)>) -> int
    decreases ds.len(),
{
    if ds.len() == 0 {
        start
    } else {
        applied_addresses(start + ds[0].1, ds.drop_first())
    }
}

/// Recording a batch of deltas in order adds exactly their sum to each total.
pub proof fn lemma_applied_is_sum(seeds0: int, addresses0: int, ds: Seq<(usize, usize)>)
    ensures
        applied_seeds(seeds0, ds) == seeds0 + seed_sum(ds),
        applied_addresses(addresses0, ds) == addresses0 + address_sum(ds),
    decreases ds.len(),
{
    if ds.len() > 0 {
        lemma_applied_is_sum(seeds0 + ds[0].0, addresses0 + ds[0].1, ds.drop_first());
    }
}

/// Removing one delta from a batch lowers each sum by exactly that delta.
proof fn lemma_sum_remove(ds: Seq<(usize, usize)>, j: int)
    requires
        0 <= j < ds.len(),
    ensures
        seed_sum(ds.remove(j)) == seed_sum(ds) - ds[j].0,
        address_sum(ds.remove(j)) == address_sum(ds) - ds[j].1,
    decreases ds.len(),
{
    if j == 0 {
        assert(ds.remove(0) =~= ds.drop_first());
    } else {
        assert(ds.remove(j).drop_first() =~= ds.drop_first().remove(j - 1));
        assert(ds.remove(j)[0] == ds[0]);
        lemma_sum_remove(ds.drop_first(), j - 1);
    }
}

/// The delta sums depend only on which deltas were issued, never on the order
/// in which they landed.
proof fn lemma_sum_permutation(ds1: Seq<(usize, usize)>, ds2: Seq<(usize, usize)>)
    requires
        ds1.to_multiset() == ds2.to_multiset(),
    ensures
        seed_sum(ds1) == seed_sum(ds2),
        address_sum(ds1) == address_sum(ds2),
    decreases ds1.len(),
{
    broadcast use group_to_multiset_ensures;

    if ds1.len() == 0 {
        assert(ds1.to_multiset().len() == 0);
        assert(ds2.to_multiset().len() == ds2.len());
    } else {
        let x = ds1[0];
        assert(ds1.to_multiset().count(x) > 0);
        assert(ds2.contains(x));
        let j = choose|j: int| 0 <= j < ds2.len() && ds2[j] == x;
        assert(ds1.remove(0) =~= ds1.drop_first());
        assert(ds1.drop_first().to_multiset() == ds1.to_multiset().remove(x));
        assert(ds2.remove(j).to_multiset() == ds2.to_multiset().remove(x));
        lemma_sum_permutation(ds1.drop_first(), ds2.remove(j));
        lemma_sum_remove(ds2, j);
    }
}

/// Law: recording is commutative. Any number of producers issuing any batch
/// of `(seed, address)` deltas leaves the tracker with the same totals in
/// every interleaving — two recording orders that deliver the same multiset
/// of deltas end at the same totals, namely the start plus the sum of all
/// deltas.
pub proof fn lemma_record_processed_commutative(
    seeds0: int,
    addresses0: int,
    ds1: Seq<(usize, usize)>,
    ds2: Seq<(usize, usize)>,
)
    requires
        ds1.to_multiset() == ds2.to_multiset(),
    ensures
        applied_seeds(seeds0, ds1) == applied_seeds(seeds0, ds2),
        applied_addresses(addresses0, ds1) == applied_addresses(addresses0, ds2),
        applied_seeds(seeds0, ds1) == seeds0 + seed_sum(ds1),
        applied_addresses(addresses0, ds1) == addresses0 + address_sum(ds1),
{
    lemma_applied_is_sum(seeds0, addresses0, ds1);
    lemma_applied_is_sum(seeds0, addresses0, ds2);
    lemma_sum_permutation(ds1, ds2);
}

/// The counters, liveness flag and thread-count label of the progress
/// tracker: the state that producer threads and the sampling loop share.
/// Counters only grow while recording, and `reset` is the only way back to
/// zero.
pub struct ProgressTracker {
    total_seeds: usize,
    total_addresses: usize,
    running: bool,
    thread_count: usize,
}

impl ProgressTracker {
    pub closed spec fn spec_total_seeds(self) -> int {
        self.total_seeds as int
    }

    pub closed spec fn spec_total_addresses(self) -> int {
        self.total_addresses as int
    }

    pub closed spec fn spec_running(self) -> bool {
        self.running
    }

    pub closed spec fn spec_thread_count(self) -> int {
        self.thread_count as int
    }

    /// Creates a tracker with both counters at zero and the liveness flag
    /// set; `thread_count` is a fixed reporting label.
    pub fn new(thread_count: usize) -> (r: Self)
        ensures
            r.spec_total_seeds() == 0,
            r.spec_total_addresses() == 0,
            r.spec_running(),
            r.spec_thread_count() == thread_count,
    {
        ProgressTracker { total_seeds: 0, total_addresses: 0, running: true, thread_count }
    }

    /// Records that `seeds` seeds and `addresses` addresses have been
    /// processed, adding both deltas to the totals.
    pub fn record_processed(&mut self, seeds: usize, addresses: usize)
        requires
            old(self).spec_total_seeds() + seeds <= usize::MAX,
            old(self).spec_total_addresses() + addresses <= usize::MAX,
        ensures
            final(self).spec_total_seeds() == old(self).spec_total_seeds() + seeds,
            final(self).spec_total_addresses() == old(self).spec_total_addresses() + addresses,
            final(self).spec_running() == old(self).spec_running(),
            final(self).spec_thread_count() == old(self).spec_thread_count(),
    {
        self.total_seeds = self.total_seeds + seeds;
        self.total_addresses = self.total_addresses + addresses;
    }

    /// Sets the liveness flag; the sampling loop runs while it holds.
    pub fn start(&mut self)
        ensures
            final(self).spec_running(),
            final(self).spec_total_seeds() == old(self).spec_total_seeds(),
            final(self).spec_total_addresses() == old(self).spec_total_addresses(),
            final(self).spec_thread_count() == old(self).spec_thread_count(),
    {
        self.running = true;
    }

    /// Clears the liveness flag; a running sampling loop observes this within
    /// one tick and exits. The totals are untouched.
    pub fn stop(&mut self)
        ensures
            !final(self).spec_running(),
            final(self).spec_total_seeds() == old(self).spec_total_seeds(),
            final(self).spec_total_addresses() == old(self).spec_total_addresses(),
            final(self).spec_thread_count() == old(self).spec_thread_count(),
    {
        self.running = false;
    }

    /// Returns to the initial counter state: the liveness flag is cleared and
    /// both totals are zeroed. The thread-count label is kept, and nothing is
    /// restarted.
    pub fn reset(&mut self)
        ensures
            !final(self).spec_running(),
            final(self).spec_total_seeds() == 0,
            final(self).spec_total_addresses() == 0,
            final(self).spec_thread_count() == old(self).spec_thread_count(),
    {
        self.running = false;
        self.total_seeds = 0;
        self.total_addresses = 0;
    }

    /// Whether the liveness flag is set.
    pub fn is_running(&self) -> (r: bool)
        ensures
            r == self.spec_running(),
    {
        self.running
    }

    /// A point-in-time snapshot: total seeds, total addresses and the
    /// thread-count label.
    pub fn snapshot(&self) -> (r: (usize, usize, usize))
        ensures
            r.0 == self.spec_total_seeds(),
            r.1 == self.spec_total_addresses(),
            r.2 == self.spec_thread_count(),
    {
        (self.total_seeds, self.total_addresses, self.thread_count)
    }
}

} // verus!
