use vstd::prelude::*;

verus! {

/// Full-scale converter reading, in millivolts, at 11 dB attenuation.
pub const MAX_MV_ATTEN_11: u16 = 2450;

/// Whether a voltage sample lies strictly between 45% and 55% of full scale,
/// close enough to the waveform's midpoint for measuring to start there.
pub fn in_reference_window(sample: u16) -> (r: bool)
    ensures
        r == (20 * sample > 9 * MAX_MV_ATTEN_11 && 20 * sample < 11 * MAX_MV_ATTEN_11),
{
    let twenty_fold = 20 * (sample as u32);
    twenty_fold > 9 * (MAX_MV_ATTEN_11 as u32) && twenty_fold < 11 * (MAX_MV_ATTEN_11 as u32)
}

/// How often consecutive samples of `s` lie on different sides of `level`:
/// a sample is on the upper side when it is above `level`.
pub open spec fn side_changes(s: Seq<u16>, level: u16) -> nat
    decreases s.len(),
{
    if s.len() <= 1 {
        0
    } else {
        side_changes(s.drop_last(), level) + if (s[s.len() - 1] > level) != (s[s.len() - 2]
            > level) {
            1nat
        } else {
            0nat
        }
    }
}

proof fn lemma_side_changes_bound(s: Seq<u16>, level: u16)
    ensures
        s.len() > 0 ==> side_changes(s, level) < s.len(),
    decreases s.len(),
{
    if s.len() > 1 {
        lemma_side_changes_bound(s.drop_last(), level);
    }
}

/// Counts the crossings of the voltage waveform over a reference level,
/// sample by sample, so that a measurement spans whole half-cycles. The
/// first sample only fixes the side the waveform starts on.
pub struct CrossingCounter {
    start_v: u16,
    above: bool,
    crossings: u32,
    samples: u32,
    seen: Ghost<Seq<u16>>,
}

impl CrossingCounter {
    #[verifier::type_invariant]
    spec fn inv(self) -> bool {
        &&& self.samples == self.seen@.len()
        &&& self.crossings == side_changes(self.seen@, self.start_v)
        &&& self.seen@.len() > 0 ==> self.above == (self.seen@.last() > self.start_v)
    }

    /// The reference level that crossings are counted against.
    pub closed spec fn level(self) -> u16 {
        self.start_v
    }

    /// The voltage samples recorded so far, oldest first.
    pub closed spec fn history(self) -> Seq<u16> {
        self.seen@
    }

    /// A counter for crossings of `start_v` that has seen no sample.
    pub fn new(start_v: u16) -> (r: CrossingCounter)
        ensures
            r.level() == start_v,
            r.history() == Seq::<u16>::empty(),
    {
        CrossingCounter {
            start_v,
            above: false,
            crossings: 0,
            samples: 0,
            seen: Ghost(Seq::empty()),
        }
    }

    /// Records the next voltage sample.
    pub fn record(&mut self, sample_v: u16)
        requires
            old(self).history().len() < u32::MAX,
        ensures
            final(self).level() == old(self).level(),
            final(self).history() == old(self).history().push(sample_v),
    {
        proof {
            use_type_invariant(&*self);
            lemma_side_changes_bound(self.seen@, self.start_v);
        }
        let now_above = sample_v > self.start_v;
        let crossed = self.samples > 0 && now_above != self.above;
        let crossings = if crossed {
            self.crossings + 1
        } else {
            self.crossings
        };
        let ghost seen = self.seen@.push(sample_v);
        assert(seen.drop_last() =~= self.seen@);
        *self = CrossingCounter {
            start_v: self.start_v,
            above: now_above,
            crossings,
            samples: self.samples + 1,
            seen: Ghost(seen),
        };
    }

    /// The number of crossings so far.
    pub fn crossings(&self) -> (r: u32)
        ensures
            r == side_changes(self.history(), self.level()),
    {
        proof {
            use_type_invariant(self);
        }
        self.crossings
    }

    /// The number of samples recorded so far.
    pub fn samples(&self) -> (r: u32)
        ensures
            r == self.history().len(),
    {
        proof {
            use_type_invariant(self);
        }
        self.samples
    }

    /// Whether the measurement goes on: fewer than `target` crossings so
    /// far, and room to count another sample.
    pub fn keep_sampling(&self, target: u32) -> (r: bool)
        ensures
            r == (side_changes(self.history(), self.level()) < target && self.history().len()
                < u32::MAX),
    {
        proof {
            use_type_invariant(self);
        }
        self.crossings < target && self.samples < u32::MAX
    }
}

/// The smallest and largest raw samples of a measurement that passed the
/// noise gate, which excludes the steep part of the waveform. With no such
/// sample they keep their start values, full scale and zero.
#[derive(Clone, Copy, Debug, PartialEq, Eq, Structural)]
pub struct Extrema {
    pub min: u16,
    pub max: u16,
}

impl Extrema {
    /// Extrema before any sample: full scale and zero.
    pub fn new() -> (r: Extrema)
        ensures
            r.min == MAX_MV_ATTEN_11,
            r.max == 0,
    {
        Extrema { min: MAX_MV_ATTEN_11, max: 0 }
    }

    /// Takes `sample` into account when it is steady, that is when it
    /// passed the noise gate.
    pub fn observe(&mut self, sample: u16, steady: bool)
        ensures
            steady ==> final(self).min == if sample < old(self).min {
                sample
            } else {
                old(self).min
            },
            steady ==> final(self).max == if sample > old(self).max {
                sample
            } else {
                old(self).max
            },
            !steady ==> *final(self) == *old(self),
    {
        if steady {
            if sample < self.min {
                self.min = sample;
            }
            if sample > self.max {
                self.max = sample;
            }
        }
    }
}

} // verus!
