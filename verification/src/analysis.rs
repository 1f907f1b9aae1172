//! Clip statistics for the off-thread analysis of one rendered voice: how
//! many samples sat at the rail, and the longest unbroken run of them.

use vstd::prelude::*;

verus! {

/// Longest clipping run, in samples, above which clipping counts as sustained.
pub const SUSTAINED_CLIP_RUN: u32 = 100;

pub open spec fn count_true(s: Seq<bool>) -> nat
    decreases s.len(),
{
    if s.len() == 0 {
        0
    } else {
        count_true(s.drop_last()) + if s.last() {
            1nat
        } else {
            0nat
        }
    }
}

/// Length of the run of `true` at the end of `s`.
pub open spec fn trailing_run(s: Seq<bool>) -> nat
    decreases s.len(),
{
    if s.len() == 0 || !s.last() {
        0
    } else {
        trailing_run(s.drop_last()) + 1
    }
}

/// Length of the longest run of consecutive `true` in `s`.
pub open spec fn longest_run(s: Seq<bool>) -> nat
    decreases s.len(),
{
    if s.len() == 0 {
        0
    } else {
        let prev = longest_run(s.drop_last());
        let t = trailing_run(s);
        if t > prev {
            t
        } else {
            prev
        }
    }
}

proof fn lemma_runs_bounded(s: Seq<bool>)
    ensures
        trailing_run(s) <= s.len(),
        longest_run(s) <= s.len(),
        count_true(s) <= s.len(),
        trailing_run(s) <= longest_run(s),
    decreases s.len(),
{
    if s.len() > 0 {
        lemma_runs_bounded(s.drop_last());
    }
}

/// Running clip statistics over the samples seen so far.
pub struct ClipTracker {
    samples: u32,
    clipped: u32,
    current_run: u32,
    max_run: u32,
    seen: Ghost<Seq<bool>>,
}

impl ClipTracker {
    /// Whether each sample seen so far was at the rail, in order.
    pub closed spec fn history(&self) -> Seq<bool> {
        self.seen@
    }

    #[verifier::type_invariant]
    closed spec fn consistent(&self) -> bool {
        &&& self.samples == self.seen@.len()
        &&& self.clipped == count_true(self.seen@)
        &&& self.current_run == trailing_run(self.seen@)
        &&& self.max_run == longest_run(self.seen@)
    }

    /// Statistics over no samples.
    pub fn new() -> (r: Self)
        ensures
            r.history() == Seq::<bool>::empty(),
    {
        ClipTracker { samples: 0, clipped: 0, current_run: 0, max_run: 0, seen: Ghost(Seq::empty()) }
    }

    /// Record one sample: whether its magnitude reached the rail. At most
    /// `u32::MAX` samples can be recorded.
    pub fn observe(&mut self, at_rail: bool)
        requires
            old(self).history().len() < u32::MAX,
        ensures
            final(self).history() == old(self).history().push(at_rail),
    {
        proof {
            use_type_invariant(&*self);
        }
        let ghost s = self.seen@.push(at_rail);
        proof {
            assert(s.drop_last() =~= self.seen@);
            lemma_runs_bounded(self.seen@);
        }
        let samples = self.samples + 1;
        let (clipped, current_run, max_run) = if at_rail {
            let run = self.current_run + 1;
            (self.clipped + 1, run, if run > self.max_run { run } else { self.max_run })
        } else {
            (self.clipped, 0, self.max_run)
        };
        *self = ClipTracker { samples, clipped, current_run, max_run, seen: Ghost(s) };
    }

    /// Number of samples seen.
    pub fn samples_seen(&self) -> (r: u32)
        ensures
            r == self.history().len(),
    {
        proof {
            use_type_invariant(self);
        }
        self.samples
    }

    /// Number of samples at the rail.
    pub fn clipped_samples(&self) -> (r: u32)
        ensures
            r == count_true(self.history()),
    {
        proof {
            use_type_invariant(self);
        }
        self.clipped
    }

    /// Longest run of consecutive samples at the rail.
    pub fn max_run(&self) -> (r: u32)
        ensures
            r == longest_run(self.history()),
    {
        proof {
            use_type_invariant(self);
        }
        self.max_run
    }

    /// Clipping is sustained when some run at the rail is longer than
    /// `SUSTAINED_CLIP_RUN` samples.
    pub fn sustained_clip(&self) -> (r: bool)
        ensures
            r == (longest_run(self.history()) > SUSTAINED_CLIP_RUN),
    {
        proof {
            use_type_invariant(self);
        }
        self.max_run > SUSTAINED_CLIP_RUN
    }
}

} // verus!
