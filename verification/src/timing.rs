//! Durations in microseconds, counted in samples.

use vstd::prelude::*;

verus! {

/// Samples spanned by `us` microseconds at `sample_rate` Hz, rounded to the
/// nearest whole sample, a half rounding up.
pub open spec fn num_samples(us: int, sample_rate: int) -> int {
    (us * sample_rate + 500_000) / 1_000_000
}

/// A count of samples is never negative, and its product fits the widest integer.
pub proof fn lemma_num_samples_bounds(us: u64, sample_rate: u32)
    ensures
        0 <= num_samples(us as int, sample_rate as int) <= 79228162495817593515539,
        0 <= us as int * sample_rate as int <= 0xFFFF_FFFF_FFFF_FFFF * 0xFFFF_FFFF,
{
    assert(0 <= us as int * sample_rate as int <= 0xFFFF_FFFF_FFFF_FFFF * 0xFFFF_FFFF)
        by (nonlinear_arith)
        requires
            0 <= us <= 0xFFFF_FFFF_FFFF_FFFF,
            0 <= sample_rate <= 0xFFFF_FFFF,
    ;
}

/// A longer duration never spans fewer samples.
pub proof fn lemma_num_samples_monotone(a: u64, b: u64, sample_rate: u32)
    requires
        a <= b,
    ensures
        num_samples(a as int, sample_rate as int) <= num_samples(b as int, sample_rate as int),
{
    assert(a as int * sample_rate as int <= b as int * sample_rate as int) by (nonlinear_arith)
        requires
            a <= b,
            0 <= sample_rate,
    ;
}

/// Counts the samples that `us` microseconds span at `sample_rate` Hz.
pub fn get_num_samples(us: u64, sample_rate: u32) -> (n: u128)
    ensures
        n == num_samples(us as int, sample_rate as int),
{
    proof {
        lemma_num_samples_bounds(us, sample_rate);
    }
    let scaled: u128 = (us as u128) * (sample_rate as u128);
    (scaled + 500_000) / 1_000_000
}

/// The four durations of a response, in samples.
#[derive(Clone, Copy, Debug, PartialEq, Eq)]
pub struct SampleCounts {
    /// Early decay time, never less than one sample.
    pub edt: u128,
    /// Reverberation time: the length of the buffer.
    pub rt60: u128,
    /// Initial time delay gap.
    pub itdg: u128,
    /// Duration of the early reflections.
    pub er_duration: u128,
}

impl SampleCounts {
    /// The early decay time spans a sample at least.
    pub open spec fn wf(&self) -> bool {
        self.edt >= 1
    }

    /// Decibel steps taken off sample `i` by the early decay ramp, before the
    /// ramp is scaled by ten over the early decay time: the index itself up to
    /// the ramp's last sample, and the ramp's last index from there on.
    pub open spec fn spec_edt_offset(&self, i: int) -> int {
        if i < self.edt - 1 {
            i
        } else {
            self.edt - 1
        }
    }

    /// Numerator of what the late slope takes off sample `i`, over the
    /// reverberation time in samples: fifty decibels spread from one sample
    /// past the early decay time on. Zero outside the late segment.
    pub open spec fn spec_rt60_offset_numerator(&self, i: int) -> int {
        if self.edt <= i < self.rt60 {
            (i - (self.edt + 1)) * 50
        } else {
            0
        }
    }

    pub fn edt_offset(&self, i: u64) -> (r: u64)
        requires
            self.wf(),
        ensures
            r == self.spec_edt_offset(i as int),
            r < self.edt,
    {
        if (i as u128) < self.edt - 1 {
            i
        } else {
            (self.edt - 1) as u64
        }
    }

    pub fn rt60_offset_numerator(&self, i: u64) -> (r: i128)
        requires
            self.wf(),
        ensures
            r == self.spec_rt60_offset_numerator(i as int),
    {
        if self.edt <= i as u128 && (i as u128) < self.rt60 {
            let steps: i128 = (i as i128) - (self.edt as i128) - 1;
            steps * 50
        } else {
            0
        }
    }
}

/// The early decay ramp never rises, and ends one step short of the early
/// decay time, so that scaled it falls by just under ten decibels.
pub proof fn lemma_edt_offset_monotone(counts: SampleCounts, i: int, j: int)
    requires
        counts.wf(),
        0 <= i <= j,
    ensures
        0 <= counts.spec_edt_offset(i) <= counts.spec_edt_offset(j) <= counts.edt - 1,
{
}

/// The late slope never rises against the index: it starts one step above
/// the level it is measured from, passes it at the next sample and falls by
/// fifty over the reverberation time for each sample from there.
pub proof fn lemma_rt60_offset_monotone(counts: SampleCounts, i: int, j: int)
    requires
        counts.wf(),
        counts.edt <= i <= j < counts.rt60,
    ensures
        -50 <= counts.spec_rt60_offset_numerator(i) <= counts.spec_rt60_offset_numerator(j),
        counts.spec_rt60_offset_numerator(counts.edt as int) == -50,
        counts.spec_rt60_offset_numerator(j) == 50 * (j - counts.edt) - 50,
{
}

} // verus!
