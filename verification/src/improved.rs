//! The impulse response and the stages that shape its buffer.

use crate::levels::{
    all_energies, first_peak, is_first_peak, lemma_silencing_keeps_or_loses, nonzero_count,
    only_silenced, reverberant_is_silent, silent_after,
};
use crate::thinning::{silenced_at, thin_out_reflections, thinned, Rate, ThinStep};
use crate::timing::{get_num_samples, num_samples, SampleCounts};
use ndarray_rand::rand::rngs::StdRng;
use vstd::prelude::*;

verus! {

/// Half the width of the band round the target ratio, in microdecibels.
pub const BAND_HALF_WIDTH: i64 = 500_000;

/// A round that moves the ratio by less than this, in microdecibels, has
/// reached the greatest ratio the buffer can give.
pub const STALL_EPSILON: i64 = 1;

/// Why a set of parameters is refused.
#[derive(Clone, Copy, Debug, PartialEq, Eq)]
pub enum ConfigurationError {
    /// The reverberation time is not longer than the early decay time.
    ReverbNotLongerThanDecay,
}

impl ConfigurationError {
    /// Says in words what is wrong with the parameters.
    pub fn message(&self) -> (text: &'static str)
        ensures
            text@ == "Reverb time (rt60) can't be lower than Early decay time (edt)"@,
    {
        match self {
            ConfigurationError::ReverbNotLongerThanDecay => {
                "Reverb time (rt60) can't be lower than Early decay time (edt)"
            },
        }
    }
}

/// Where the direct sound and the early reflections lie in a shaped buffer.
#[derive(Clone, Copy, Debug, PartialEq, Eq)]
pub struct WindowIndices {
    pub direct_sound_idx: usize,
    pub early_reflection_start_idx: usize,
    pub early_reflection_end_idx: usize,
}

/// Stochastic impulse response.
///
/// Durations are in microseconds, the direct to reverberant energy ratio in
/// microdecibels.
#[derive(Clone, Copy, Debug)]
pub struct ImpulseResponseImproved {
    rt60: u64,
    edt: u64,
    itdg: u64,
    er_duration: u64,
    drr: i64,
}

/// The parameters of an impulse response as numbers.
pub ghost struct ImpulseResponseView {
    /// Reverberation time [microseconds].
    pub rt60: int,
    /// Early decay time [microseconds].
    pub edt: int,
    /// Initial time delay gap [microseconds].
    pub itdg: int,
    /// Early reflections duration [microseconds].
    pub er_duration: int,
    /// Direct to reverberant energy ratio [microdecibels].
    pub drr: int,
}

impl View for ImpulseResponseImproved {
    type V = ImpulseResponseView;

    closed spec fn view(&self) -> ImpulseResponseView {
        ImpulseResponseView {
            rt60: self.rt60 as int,
            edt: self.edt as int,
            itdg: self.itdg as int,
            er_duration: self.er_duration as int,
            drr: self.drr as int,
        }
    }
}

/// The last index of the initial time delay gap: `itdg` samples past the one
/// after the direct sound, or the end of the buffer if that comes first.
pub open spec fn gap_end(direct: int, itdg: int, len: int) -> int {
    if direct + 1 + itdg <= len - 1 {
        direct + 1 + itdg
    } else {
        len - 1
    }
}

/// `after` is `before` with every sample after `direct` up to the end of the
/// gap silenced, and nothing else touched.
pub open spec fn gap_cut(before: Seq<u32>, after: Seq<u32>, direct: int, itdg: int) -> bool {
    &&& after.len() == before.len()
    &&& forall|i: int|
        0 <= i < before.len() ==> after[i] == if direct < i <= gap_end(direct, itdg, before.len() as int) {
            0u32
        } else {
            before[i]
        }
}

/// The windows of a buffer of `len` samples whose first peak is at `direct`,
/// with early reflections that last `er` samples: each index that would pass
/// the end of the buffer is the last index instead.
pub open spec fn windows_at(direct: int, er: int, len: int) -> (int, int, int) {
    let start = if direct + 1 <= len - 1 {
        direct + 1
    } else {
        len - 1
    };
    let end = if start + er <= len - 1 {
        start + er
    } else {
        len - 1
    };
    (direct, start, end)
}

/// What the thinning loop does after a measurement of the ratio, `current`,
/// given the one before it, if there was one. No ratio, for want of
/// reverberant energy, counts as the target met. A ratio at or above the
/// lower edge of the band round `drr` ends the loop, and so does a round
/// that moved the ratio by less than `STALL_EPSILON`.
pub open spec fn step_after(drr: int, previous: Option<i64>, current: Option<i64>) -> ThinStep {
    match current {
        None => ThinStep::Finished,
        Some(c) => if c >= drr - BAND_HALF_WIDTH {
            ThinStep::Finished
        } else {
            match previous {
                Some(p) => if -STALL_EPSILON < p - c < STALL_EPSILON {
                    ThinStep::Finished
                } else {
                    ThinStep::ThinAgain
                },
                None => ThinStep::ThinAgain,
            }
        },
    }
}

/// The ratio that the loop goes by: the one measured, unless nothing sounds
/// after the direct sound, where there is none.
pub open spec fn ratio_reading(levels: Seq<u32>, direct: int, measured: i64) -> Option<i64> {
    if silent_after(levels, direct) {
        None
    } else {
        Some(measured)
    }
}

/// `after` is what one turn of the thinning loop may leave of `before`, with
/// `step` as its outcome: the gap is cut first; the ratio is read on the
/// buffer so cut; where the loop goes on, one round thins what was cut, and
/// where it ends, what was cut is the result.
pub open spec fn turn_after_gap(
    before: Seq<u32>,
    after: Seq<u32>,
    direct: int,
    itdg: int,
    drr: int,
    er_start: int,
    er_end: int,
    previous: Option<i64>,
    measured: i64,
    step: ThinStep,
) -> bool {
    exists|cut: Seq<u32>|
        {
            &&& #[trigger] gap_cut(before, cut, direct, itdg)
            &&& step == step_after(drr, previous, ratio_reading(cut, direct, measured))
            &&& (step == ThinStep::ThinAgain ==> round_thinned(cut, after, er_start, er_end))
            &&& (step == ThinStep::Finished ==> after == cut)
        }
}

/// Every sample of the gap behind `direct` is silent in `s`.
pub open spec fn gap_is_silent(s: Seq<u32>, direct: int, itdg: int) -> bool {
    forall|i: int| direct < i <= gap_end(direct, itdg, s.len() as int) && 0 <= i ==> s[i] == 0
}

/// `after` is what one round of thinning may leave of `before`: a pass over
/// the early reflections at one eighth, then one over the tail, from the end
/// of the early reflections to the end of the buffer, at one tenth.
pub open spec fn round_thinned(before: Seq<u32>, after: Seq<u32>, er_start: int, er_end: int) -> bool {
    exists|mid: Seq<u32>|
        {
            &&& #[trigger] thinned(before, mid, er_start, er_end, Rate::spec_early())
            &&& thinned(mid, after, er_end, before.len() - 1, Rate::spec_tail())
        }
}

/// A reverberation time that spans half a sample at least gives a buffer
/// that is not empty.
pub proof fn lemma_noise_not_empty(rt60: u64, sample_rate: u32)
    requires
        rt60 as int * sample_rate as int >= 500_000,
    ensures
        num_samples(rt60 as int, sample_rate as int) >= 1,
{
}

/// The response drawn from a buffer that is not empty is not empty either:
/// it runs from the direct sound, which it starts with, to the end.
pub proof fn lemma_response_not_empty(levels: Seq<u32>, direct: int)
    requires
        is_first_peak(levels, direct),
    ensures
        levels.subrange(direct, levels.len() as int).len() == levels.len() - direct >= 1,
        levels.subrange(direct, levels.len() as int)[0] == levels[direct],
        forall|k: int|
            0 <= k < levels.len() - direct ==> levels.subrange(direct, levels.len() as int)[k]
                <= levels[direct],
{
}

/// Whenever the reverberation time spans half a sample at least, the
/// response is not empty: the buffer holds that many samples, the direct
/// sound is one of them, and the response runs from it to the end.
pub proof fn lemma_generated_response_not_empty(
    rt60: u64,
    sample_rate: u32,
    levels: Seq<u32>,
    direct: int,
)
    requires
        rt60 as int * sample_rate as int >= 500_000,
        levels.len() == num_samples(rt60 as int, sample_rate as int),
        is_first_peak(levels, direct),
    ensures
        levels.subrange(direct, levels.len() as int).len() == num_samples(
            rt60 as int,
            sample_rate as int,
        ) - direct,
        levels.subrange(direct, levels.len() as int).len() >= 1,
{
    lemma_noise_not_empty(rt60, sample_rate);
    lemma_response_not_empty(levels, direct);
}

/// A ratio at or above the lower edge of the band ends the loop at once,
/// whatever was measured before: thinning only takes reverberant energy away.
pub proof fn lemma_at_or_above_band_finishes(drr: int, previous: Option<i64>, current: i64)
    requires
        current >= drr - BAND_HALF_WIDTH,
    ensures
        step_after(drr, previous, Some(current)) == ThinStep::Finished,
{
}

/// The first measurement sends the loop on exactly when it lies below the band.
pub proof fn lemma_first_step(drr: int, current: i64)
    ensures
        step_after(drr, None, Some(current)) == ThinStep::ThinAgain <==> current < drr
            - BAND_HALF_WIDTH,
{
}

/// The loop ends: a round either leaves the buffer as it was, and the ratio
/// with it, or leaves fewer sounding samples from the early reflections on
/// than there were.
pub proof fn lemma_round_progress(before: Seq<u32>, after: Seq<u32>, er_start: int, er_end: int)
    requires
        before.len() <= usize::MAX,
        0 <= er_start <= er_end < before.len(),
        round_thinned(before, after, er_start, er_end),
    ensures
        only_silenced(before, after),
        forall|i: int| 0 <= i < er_start ==> after[i] == before[i],
        after == before || nonzero_count(after, er_start, before.len() - 1) < nonzero_count(
            before,
            er_start,
            before.len() - 1,
        ),
{
    let mid = choose|mid: Seq<u32>|
        {
            &&& #[trigger] thinned(before, mid, er_start, er_end, Rate::spec_early())
            &&& thinned(mid, after, er_end, before.len() - 1, Rate::spec_tail())
        };
    assert forall|i: int| 0 <= i < before.len() implies after[i] == before[i] || after[i]
        == 0 by {
        assert(mid[i] == before[i] || mid[i] == 0);
        assert(after[i] == mid[i] || after[i] == 0);
    }
    assert forall|i: int| 0 <= i < er_start implies after[i] == before[i] by {
        assert(mid[i] == before[i]);
        assert(after[i] == mid[i]);
    }
    lemma_silencing_keeps_or_loses(before, after, er_start, before.len() - 1);
    if nonzero_count(after, er_start, before.len() - 1) == nonzero_count(
        before,
        er_start,
        before.len() - 1,
    ) {
        assert(after =~= before);
    }
}

/// A buffer in which nothing sounds after the direct sound is left as it
/// is, whatever was measured: the target counts as met.
pub proof fn lemma_silent_tail_finishes(
    drr: int,
    levels: Seq<u32>,
    direct: int,
    previous: Option<i64>,
    measured: i64,
)
    requires
        silent_after(levels, direct),
    ensures
        step_after(drr, previous, ratio_reading(levels, direct, measured)) == ThinStep::Finished,
{
}

/// A round that did not move the ratio is the last.
pub proof fn lemma_stalled_step(drr: int, ratio: i64)
    ensures
        step_after(drr, Some(ratio), Some(ratio)) == ThinStep::Finished,
{
}

/// Cutting the gap a second time changes nothing.
pub proof fn lemma_gap_cut_once(a: Seq<u32>, b: Seq<u32>, c: Seq<u32>, direct: int, itdg: int)
    requires
        gap_cut(a, b, direct, itdg),
        gap_cut(b, c, direct, itdg),
    ensures
        c == b,
        gap_cut(a, c, direct, itdg),
{
    assert(c =~= b);
}

/// After a turn of the loop the gap is silent, whether the turn thinned or
/// not, and samples have only been silenced: thinning cannot fill the gap
/// again.
pub proof fn lemma_turn_keeps_gap_silent(
    before: Seq<u32>,
    after: Seq<u32>,
    direct: int,
    itdg: int,
    drr: int,
    er_start: int,
    er_end: int,
    previous: Option<i64>,
    measured: i64,
    step: ThinStep,
)
    requires
        before.len() <= usize::MAX,
        0 <= er_start <= er_end < before.len(),
        turn_after_gap(
            before,
            after,
            direct,
            itdg,
            drr,
            er_start,
            er_end,
            previous,
            measured,
            step,
        ),
    ensures
        only_silenced(before, after),
        gap_is_silent(after, direct, itdg),
{
    let cut = choose|cut: Seq<u32>|
        {
            &&& #[trigger] gap_cut(before, cut, direct, itdg)
            &&& step == step_after(drr, previous, ratio_reading(cut, direct, measured))
            &&& (step == ThinStep::ThinAgain ==> round_thinned(cut, after, er_start, er_end))
            &&& (step == ThinStep::Finished ==> after == cut)
        };
    if step == ThinStep::ThinAgain {
        lemma_round_progress(cut, after, er_start, er_end);
    }
    assert forall|i: int| 0 <= i < before.len() implies after[i] == before[i] || after[i]
        == 0 by {
        assert(cut[i] == before[i] || cut[i] == 0);
        assert(after[i] == cut[i] || after[i] == 0);
    }
    assert forall|i: int|
        direct < i <= gap_end(direct, itdg, after.len() as int) && 0 <= i implies after[i]
        == 0 by {
        assert(cut[i] == 0);
        assert(after[i] == cut[i] || after[i] == 0);
    }
}

/// Nothing random enters the gap: one buffer, one direct sound and one
/// length of the gap give one result.
pub proof fn lemma_gap_determined(before: Seq<u32>, a: Seq<u32>, b: Seq<u32>, direct: int, itdg: int)
    requires
        gap_cut(before, a, direct, itdg),
        gap_cut(before, b, direct, itdg),
    ensures
        a == b,
{
    assert(a =~= b);
}

/// Apart from the two draws nothing random enters a turn: one buffer, one
/// gap and the same two draws, silenced one after the other, give one result.
pub proof fn lemma_turn_determined_by_draws(
    before: Seq<u32>,
    direct: int,
    itdg: int,
    early_draw: Seq<usize>,
    tail_draw: Seq<usize>,
    cut_a: Seq<u32>,
    mid_a: Seq<u32>,
    after_a: Seq<u32>,
    cut_b: Seq<u32>,
    mid_b: Seq<u32>,
    after_b: Seq<u32>,
)
    requires
        gap_cut(before, cut_a, direct, itdg),
        silenced_at(cut_a, mid_a, early_draw),
        silenced_at(mid_a, after_a, tail_draw),
        gap_cut(before, cut_b, direct, itdg),
        silenced_at(cut_b, mid_b, early_draw),
        silenced_at(mid_b, after_b, tail_draw),
    ensures
        after_a == after_b,
{
    assert(cut_a =~= cut_b);
    assert(mid_a =~= mid_b);
    assert(after_a =~= after_b);
}

/// Cutting the gap leaves the direct sound and all before it as they were,
/// and silences the sample that follows the direct sound, if there is one.
pub proof fn lemma_gap_spares_direct_sound(before: Seq<u32>, after: Seq<u32>, direct: int, itdg: int)
    requires
        0 <= direct < before.len(),
        0 <= itdg,
        gap_cut(before, after, direct, itdg),
    ensures
        only_silenced(before, after),
        forall|i: int| 0 <= i <= direct ==> after[i] == before[i],
        direct + 1 < before.len() ==> after[direct + 1] == 0,
        is_first_peak(before, direct) ==> is_first_peak(after, direct),
{
    if is_first_peak(before, direct) {
        assert forall|j: int| 0 <= j < after.len() implies after[j] <= after[direct] by {
            assert(before[j] <= before[direct]);
        }
        assert forall|j: int| 0 <= j < direct implies after[j] < after[direct] by {
            assert(before[j] < before[direct]);
        }
    }
}

/// No duration of an impulse response is negative, and each fits 64 bits.
pub proof fn lemma_view_in_range(response: ImpulseResponseImproved)
    ensures
        0 <= response@.rt60 <= u64::MAX,
        0 <= response@.edt <= u64::MAX,
        0 <= response@.itdg <= u64::MAX,
        0 <= response@.er_duration <= u64::MAX,
        i64::MIN <= response@.drr <= i64::MAX,
{
}

impl ImpulseResponseImproved {
    #[verifier::type_invariant]
    closed spec fn longer_than_decay(&self) -> bool {
        self.rt60 > self.edt
    }

    /// Takes the parameters, unless the reverberation time is not longer
    /// than the early decay time.
    pub fn new(rt60: u64, edt: u64, itdg: u64, er_duration: u64, drr: i64) -> (r: Result<
        Self,
        ConfigurationError,
    >)
        ensures
            r is Ok <==> rt60 > edt,
            r is Ok ==> r->Ok_0@ == (ImpulseResponseView {
                rt60: rt60 as int,
                edt: edt as int,
                itdg: itdg as int,
                er_duration: er_duration as int,
                drr: drr as int,
            }),
            r is Err ==> r->Err_0 == ConfigurationError::ReverbNotLongerThanDecay,
    {
        if rt60 <= edt {
            Err(ConfigurationError::ReverbNotLongerThanDecay)
        } else {
            Ok(Self { rt60, edt, itdg, er_duration, drr })
        }
    }

    /// Reverberation time [microseconds]: always longer than the early decay time.
    pub fn rt60(&self) -> (r: u64)
        ensures
            r == self@.rt60,
            self@.rt60 > self@.edt >= 0,
    {
        proof {
            use_type_invariant(self);
        }
        self.rt60
    }

    pub fn edt(&self) -> (r: u64)
        ensures
            r == self@.edt,
    {
        self.edt
    }

    pub fn itdg(&self) -> (r: u64)
        ensures
            r == self@.itdg,
    {
        self.itdg
    }

    pub fn er_duration(&self) -> (r: u64)
        ensures
            r == self@.er_duration,
    {
        self.er_duration
    }

    pub fn drr(&self) -> (r: i64)
        ensures
            r == self@.drr,
    {
        self.drr
    }

    /// Counts the samples that `us` microseconds span at `sample_rate` Hz.
    pub fn get_num_samples(us: u64, sample_rate: u32) -> (n: u128)
        ensures
            n == num_samples(us as int, sample_rate as int),
    {
        get_num_samples(us, sample_rate)
    }

    /// The four durations in samples. An early decay time that rounds to no
    /// sample counts as one.
    pub fn sample_counts(&self, sample_rate: u32) -> (c: SampleCounts)
        ensures
            c.wf(),
            c.rt60 == num_samples(self@.rt60, sample_rate as int),
            c.edt == if num_samples(self@.edt, sample_rate as int) < 1 {
                1
            } else {
                num_samples(self@.edt, sample_rate as int)
            },
            c.itdg == num_samples(self@.itdg, sample_rate as int),
            c.er_duration == num_samples(self@.er_duration, sample_rate as int),
    {
        let edt: u128 = get_num_samples(self.edt, sample_rate);
        SampleCounts {
            edt: if edt < 1 {
                1
            } else {
                edt
            },
            rt60: get_num_samples(self.rt60, sample_rate),
            itdg: get_num_samples(self.itdg, sample_rate),
            er_duration: get_num_samples(self.er_duration, sample_rate),
        }
    }

    /// The length of the noise that the response is carved from: the
    /// reverberation time in samples.
    pub fn noise_len(&self, sample_rate: u32) -> (n: u128)
        ensures
            n == num_samples(self@.rt60, sample_rate as int),
    {
        get_num_samples(self.rt60, sample_rate)
    }

    /// Finds the direct sound, the first peak of the shaped buffer, and the
    /// window of the early reflections behind it.
    pub fn window_indices(&self, levels: &Vec<u32>, sample_rate: u32) -> (w: WindowIndices)
        requires
            levels@.len() > 0,
            all_energies(levels@),
        ensures
            is_first_peak(levels@, w.direct_sound_idx as int),
            w.direct_sound_idx <= w.early_reflection_start_idx <= w.early_reflection_end_idx
                < levels@.len(),
            (
                w.direct_sound_idx as int,
                w.early_reflection_start_idx as int,
                w.early_reflection_end_idx as int,
            ) == windows_at(
                w.direct_sound_idx as int,
                num_samples(self@.er_duration, sample_rate as int),
                levels@.len() as int,
            ),
    {
        let last: usize = levels.len() - 1;
        let er_samples: u128 = get_num_samples(self.er_duration, sample_rate);
        let direct_sound_idx: usize = first_peak(levels);
        let er_start_idx: usize = if direct_sound_idx < last {
            direct_sound_idx + 1
        } else {
            last
        };
        let room: usize = last - er_start_idx;
        let er_end_idx: usize = if er_samples <= room as u128 {
            er_start_idx + er_samples as usize
        } else {
            last
        };
        WindowIndices {
            direct_sound_idx,
            early_reflection_start_idx: er_start_idx,
            early_reflection_end_idx: er_end_idx,
        }
    }

    /// Cuts the initial time delay gap: silence from the sample after the
    /// direct sound to the end of the gap.
    pub fn create_initial_time_delay_gap(
        &self,
        data: &mut Vec<u32>,
        direct_sound_idx: usize,
        sample_rate: u32,
    )
        ensures
            gap_cut(
                old(data)@,
                final(data)@,
                direct_sound_idx as int,
                num_samples(self@.itdg, sample_rate as int),
            ),
    {
        let len: usize = data.len();
        let itdg_samples: u128 = get_num_samples(self.itdg, sample_rate);
        if len == 0 || direct_sound_idx >= len - 1 {
            return ;
        }
        let room: usize = len - 2 - direct_sound_idx;
        let itdg_end_idx: usize = if itdg_samples <= room as u128 {
            direct_sound_idx + 1 + itdg_samples as usize
        } else {
            len - 1
        };
        let mut i: usize = direct_sound_idx + 1;
        while i <= itdg_end_idx
            invariant
                direct_sound_idx < i <= itdg_end_idx + 1,
                itdg_end_idx < len,
                len == data@.len(),
                data@.len() == old(data)@.len(),
                forall|j: int|
                    0 <= j < len ==> data@[j] == if direct_sound_idx < j < i {
                        0u32
                    } else {
                        old(data)@[j]
                    },
            decreases itdg_end_idx + 1 - i,
        {
            data.set(i, 0);
            i += 1;
        }
    }

    /// One round of the thinning loop: a pass over the early reflections,
    /// then one over the reverberant tail.
    pub fn thin_round(
        data: &mut Vec<u32>,
        early_ref_start: usize,
        early_ref_end: usize,
        rng: &mut StdRng,
    )
        requires
            early_ref_start <= early_ref_end < old(data)@.len(),
        ensures
            round_thinned(old(data)@, final(data)@, early_ref_start as int, early_ref_end as int),
    {
        thin_out_reflections(data, early_ref_start, early_ref_end, Rate::early(), rng);
        let ghost mid = data@;
        let last: usize = data.len() - 1;
        thin_out_reflections(data, early_ref_end, last, Rate::tail(), rng);
        proof {
            assert(thinned(old(data)@, mid, early_ref_start as int, early_ref_end as int, Rate::spec_early()));
        }
    }

    /// Reads the ratio of a buffer: `measured`, unless no sample after the
    /// direct sound sounds, where there is no ratio to go by.
    pub fn read_ratio(levels: &Vec<u32>, direct_sound_idx: usize, measured: i64) -> (reading:
        Option<i64>)
        ensures
            reading == ratio_reading(levels@, direct_sound_idx as int, measured),
    {
        if reverberant_is_silent(levels, direct_sound_idx) {
            None
        } else {
            Some(measured)
        }
    }

    /// One turn of the thinning loop. The gap is cut first, which changes
    /// nothing where it was cut before. The caller measures the ratio of the
    /// buffer with its gap cut and hands it in as `measured`, with the
    /// reading of the turn before as `previous`, or none on the first turn.
    /// Where nothing sounds after the direct sound the measurement is not
    /// read. Where the loop goes on, both zones are thinned once; where it
    /// ends, the buffer stays as the gap left it.
    pub fn randomize_reflections(
        &self,
        data: &mut Vec<u32>,
        direct_sound_idx: usize,
        early_ref_start: usize,
        early_ref_end: usize,
        sample_rate: u32,
        previous: Option<i64>,
        measured: i64,
        rng: &mut StdRng,
    ) -> (step: ThinStep)
        requires
            early_ref_start <= early_ref_end < old(data)@.len(),
        ensures
            turn_after_gap(
                old(data)@,
                final(data)@,
                direct_sound_idx as int,
                num_samples(self@.itdg, sample_rate as int),
                self@.drr,
                early_ref_start as int,
                early_ref_end as int,
                previous,
                measured,
                step,
            ),
            only_silenced(old(data)@, final(data)@),
            gap_is_silent(
                final(data)@,
                direct_sound_idx as int,
                num_samples(self@.itdg, sample_rate as int),
            ),
    {
        let len: usize = data.len();
        self.create_initial_time_delay_gap(data, direct_sound_idx, sample_rate);
        let ghost cut = data@;
        let current: Option<i64> = Self::read_ratio(data, direct_sound_idx, measured);
        let step: ThinStep = self.next_step(previous, current);
        match step {
            ThinStep::ThinAgain => {
                Self::thin_round(data, early_ref_start, early_ref_end, rng);
            },
            ThinStep::Finished => {},
        }
        proof {
            let itdg = num_samples(self@.itdg, sample_rate as int);
            assert(gap_cut(old(data)@, cut, direct_sound_idx as int, itdg));
            assert(turn_after_gap(
                old(data)@,
                data@,
                direct_sound_idx as int,
                itdg,
                self@.drr,
                early_ref_start as int,
                early_ref_end as int,
                previous,
                measured,
                step,
            ));
            lemma_turn_keeps_gap_silent(
                old(data)@,
                data@,
                direct_sound_idx as int,
                itdg,
                self@.drr,
                early_ref_start as int,
                early_ref_end as int,
                previous,
                measured,
                step,
            );
        }
        step
    }

    /// Decides, from the ratio just measured and the one before it, whether
    /// the loop thins once more.
    pub fn next_step(&self, previous: Option<i64>, current: Option<i64>) -> (step: ThinStep)
        ensures
            step == step_after(self@.drr, previous, current),
    {
        match current {
            None => ThinStep::Finished,
            Some(c) => {
                if c as i128 >= self.drr as i128 - BAND_HALF_WIDTH as i128 {
                    ThinStep::Finished
                } else {
                    match previous {
                        Some(p) => {
                            let moved: i128 = p as i128 - c as i128;
                            if -(STALL_EPSILON as i128) < moved && moved < STALL_EPSILON as i128 {
                                ThinStep::Finished
                            } else {
                                ThinStep::ThinAgain
                            }
                        },
                        None => ThinStep::ThinAgain,
                    }
                }
            },
        }
    }

    /// The response: the buffer from the direct sound on, without the
    /// samples before it.
    pub fn response_from(levels: &Vec<u32>, direct_sound_idx: usize) -> (response: Vec<u32>)
        requires
            direct_sound_idx <= levels@.len(),
        ensures
            response@ == levels@.subrange(direct_sound_idx as int, levels@.len() as int),
    {
        let mut response: Vec<u32> = Vec::new();
        let mut i: usize = direct_sound_idx;
        while i < levels.len()
            invariant
                direct_sound_idx <= i <= levels@.len(),
                response@ == levels@.subrange(direct_sound_idx as int, i as int),
            decreases levels@.len() - i,
        {
            response.push(levels[i]);
            proof {
                assert(response@ =~= levels@.subrange(direct_sound_idx as int, i + 1));
            }
            i += 1;
        }
        response
    }
}

} // verus!
