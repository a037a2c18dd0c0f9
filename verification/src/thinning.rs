//! Thinning out reflections: a lossy decimation that silences whole samples
//! and scales none.

use crate::levels::{
    lemma_silencing_keeps_or_loses, nonzero_count, nonzero_in, nonzero_indices, only_silenced,
};
use crate::random::choose_multiple;
use ndarray_rand::rand::rngs::StdRng;
use vstd::prelude::*;

verus! {

/// The share of the reflections in a zone that one pass removes, as a fraction.
#[derive(Clone, Copy, Debug, PartialEq, Eq)]
pub struct Rate {
    pub num: u32,
    pub den: u32,
}

/// What the thinning loop does next.
#[derive(Clone, Copy, Debug, PartialEq, Eq)]
pub enum ThinStep {
    /// Thin both zones once more, then measure again.
    ThinAgain,
    /// Leave the buffer as it is.
    Finished,
}

impl Rate {
    /// One eighth: the share taken from the early reflections in each round.
    pub open spec fn spec_early() -> Rate {
        Rate { num: 1, den: 8 }
    }

    /// One tenth: the share taken from the reverberant tail in each round.
    pub open spec fn spec_tail() -> Rate {
        Rate { num: 1, den: 10 }
    }

    #[verifier::when_used_as_spec(spec_early)]
    pub fn early() -> (r: Rate)
        ensures
            r == Self::spec_early(),
    {
        Rate { num: 1, den: 8 }
    }

    #[verifier::when_used_as_spec(spec_tail)]
    pub fn tail() -> (r: Rate)
        ensures
            r == Self::spec_tail(),
    {
        Rate { num: 1, den: 10 }
    }

    /// A rate divides by something.
    pub open spec fn wf(&self) -> bool {
        self.den > 0
    }

    /// `n` times the rate, rounded to the nearest whole number, a half
    /// rounding up.
    pub open spec fn rounded_share(&self, n: int) -> int {
        (2 * n * self.num + self.den) / (2 * self.den)
    }

    /// How many of `n` reflections a pass removes: the rounded share, and
    /// never more than there are.
    pub open spec fn removal_count(&self, n: int) -> int {
        if self.rounded_share(n) <= n {
            self.rounded_share(n)
        } else {
            n
        }
    }

    /// Computes how many of `n` reflections a pass at this rate removes.
    pub fn removals(&self, n: usize) -> (r: usize)
        requires
            self.wf(),
        ensures
            r == self.removal_count(n as int),
            r <= n,
    {
        let twice: u128 = 2 * (n as u128);
        assert(twice * (self.num as u128) <= 0x2_0000_0000_0000_0000 * 0xFFFF_FFFF) by (nonlinear_arith)
            requires
                0 <= twice <= 0x2_0000_0000_0000_0000,
                0 <= self.num <= 0xFFFF_FFFF,
        ;
        assert(2 * (n as int) * (self.num as int) == (twice as int) * (self.num as int))
            by (nonlinear_arith)
            requires
                twice == 2 * n,
        ;
        let share: u128 = (twice * (self.num as u128) + (self.den as u128)) / (2 * (
        self.den as u128));
        if share <= n as u128 {
            share as usize
        } else {
            n
        }
    }
}

/// At a rate of one or less the rounded share never exceeds what is there,
/// so a pass removes the rounded share exactly.
pub proof fn lemma_removal_is_rounded_share(rate: Rate, n: nat)
    requires
        rate.wf(),
        rate.num <= rate.den,
    ensures
        0 <= rate.rounded_share(n as int) <= n,
        rate.removal_count(n as int) == rate.rounded_share(n as int),
{
    let d = rate.den as int;
    let m = rate.num as int;
    assert(2 * n * m <= 2 * n * d) by (nonlinear_arith)
        requires
            0 <= m <= d,
            0 <= n,
    ;
    assert(0 <= 2 * n * m) by (nonlinear_arith)
        requires
            0 <= m,
            0 <= n,
    ;
    assert((2 * n * m + d) / (2 * d) <= n) by (nonlinear_arith)
        requires
            2 * n * m <= 2 * n * d,
            d > 0,
    ;
    assert(0 <= (2 * n * m + d) / (2 * d)) by (nonlinear_arith)
        requires
            0 <= 2 * n * m,
            d > 0,
    ;
}

/// `after` is `before` with the samples at `chosen` silenced.
pub open spec fn silenced_at(before: Seq<u32>, after: Seq<u32>, chosen: Seq<usize>) -> bool {
    &&& after.len() == before.len()
    &&& forall|i: int|
        0 <= i < before.len() ==> after[i] == if chosen.contains(i as usize) {
            0u32
        } else {
            before[i]
        }
}

/// `after` is what one pass at `rate` over `lo..=hi` may leave of `before`:
/// samples are silenced or untouched, none outside the zone is touched, and
/// the zone has lost as many sounding samples as the rate takes.
pub open spec fn thinned(before: Seq<u32>, after: Seq<u32>, lo: int, hi: int, rate: Rate) -> bool {
    &&& only_silenced(before, after)
    &&& forall|i: int| 0 <= i < before.len() && !(lo <= i <= hi) ==> after[i] == before[i]
    &&& nonzero_count(after, lo, hi) == nonzero_count(before, lo, hi) - rate.removal_count(
        nonzero_count(before, lo, hi) as int,
    )
}

/// A pass takes no more sounding samples than its zone holds, and at a
/// rate of one or less it takes the rounded share of them exactly.
pub proof fn lemma_pass_removes_share(before: Seq<u32>, after: Seq<u32>, lo: int, hi: int, rate: Rate)
    requires
        rate.wf(),
        before.len() <= usize::MAX,
        thinned(before, after, lo, hi, rate),
    ensures
        0 <= nonzero_count(before, lo, hi) - nonzero_count(after, lo, hi) <= nonzero_count(
            before,
            lo,
            hi,
        ),
        rate.num <= rate.den ==> nonzero_count(before, lo, hi) - nonzero_count(after, lo, hi)
            == rate.rounded_share(nonzero_count(before, lo, hi) as int),
{
    lemma_silencing_keeps_or_loses(before, after, lo, hi);
    if rate.num <= rate.den {
        lemma_removal_is_rounded_share(rate, nonzero_count(before, lo, hi));
    }
}

/// A pass that takes nothing leaves the buffer as it was: thinning a buffer
/// that has reached the greatest ratio it can give changes it no more.
pub proof fn lemma_idle_pass(before: Seq<u32>, after: Seq<u32>, lo: int, hi: int, rate: Rate)
    requires
        before.len() <= usize::MAX,
        thinned(before, after, lo, hi, rate),
        rate.removal_count(nonzero_count(before, lo, hi) as int) == 0,
    ensures
        after == before,
{
    lemma_silencing_keeps_or_loses(before, after, lo, hi);
    assert(after =~= before);
}

/// The draw decides what a pass leaves: one buffer and one draw give one result.
pub proof fn lemma_silencing_determined(before: Seq<u32>, a: Seq<u32>, b: Seq<u32>, chosen: Seq<usize>)
    requires
        silenced_at(before, a, chosen),
        silenced_at(before, b, chosen),
    ensures
        a == b,
{
    assert(a =~= b);
}

/// Silences the samples of `data` at the indices in `chosen`.
pub fn silence_at(data: &mut Vec<u32>, chosen: &Vec<usize>)
    requires
        forall|k: int| 0 <= k < chosen@.len() ==> chosen@[k] < old(data)@.len(),
    ensures
        silenced_at(old(data)@, final(data)@, chosen@),
{
    let n: usize = data.len();
    let mut k: usize = 0;
    while k < chosen.len()
        invariant
            0 <= k <= chosen@.len(),
            data@.len() == old(data)@.len(),
            n == data@.len(),
            forall|j: int| 0 <= j < chosen@.len() ==> chosen@[j] < data@.len(),
            silenced_at(old(data)@, data@, chosen@.subrange(0, k as int)),
        decreases chosen@.len() - k,
    {
        let ghost done = chosen@.subrange(0, k as int);
        let ghost grown = chosen@.subrange(0, k + 1);
        let ghost prior = data@;
        let at: usize = chosen[k];
        data.set(at, 0);
        proof {
            assert forall|i: int| 0 <= i < prior.len() implies data@[i] == if grown.contains(
                i as usize,
            ) {
                0u32
            } else {
                old(data)@[i]
            } by {
                if grown.contains(i as usize) {
                    let j = choose|j: int| 0 <= j < grown.len() && grown[j] == i as usize;
                    if j < k {
                        assert(done[j] == i as usize);
                    }
                } else {
                    assert(grown[k as int] == at);
                    if done.contains(i as usize) {
                        let j = choose|j: int| 0 <= j < done.len() && done[j] == i as usize;
                        assert(grown[j] == i as usize);
                    }
                }
            }
        }
        k += 1;
    }
    proof {
        assert(chosen@.subrange(0, k as int) =~= chosen@);
    }
}

/// Removes reflections from the zone `start..=end`: of the samples there that
/// sound, the share that `rate` names, rounded, is drawn at random without
/// replacement and silenced. Where the share is all of them, all are silenced
/// and nothing is drawn.
pub fn thin_out_reflections(
    data: &mut Vec<u32>,
    start: usize,
    end: usize,
    rate: Rate,
    rng: &mut StdRng,
)
    requires
        rate.wf(),
        start <= end ==> end < old(data)@.len(),
    ensures
        thinned(old(data)@, final(data)@, start as int, end as int, rate),
{
    broadcast use vstd::seq_lib::seq_to_set_is_finite;

    let n: usize = data.len();
    let ray_indices: Vec<usize> = nonzero_indices(data, start, end);
    let num_rays: usize = rate.removals(ray_indices.len());
    if num_rays >= 1 && num_rays == ray_indices.len() {
        // All of them go: there is nothing to draw.
        proof {
            assert forall|k: int| 0 <= k < ray_indices@.len() implies ray_indices@[k] < n by {
                assert(ray_indices@.contains(ray_indices@[k]));
                assert(ray_indices@.to_set().contains(ray_indices@[k]));
            }
        }
        silence_at(data, &ray_indices);
        proof {
            let sounding = nonzero_in(old(data)@, start as int, end as int);
            let left = nonzero_in(data@, start as int, end as int);
            assert forall|x: usize| !left.contains(x) by {
                if start <= x <= end && x < data@.len() {
                    if old(data)@[x as int] != 0 {
                        assert(sounding.contains(x));
                        assert(ray_indices@.to_set().contains(x));
                        assert(ray_indices@.contains(x));
                    }
                }
            }
            assert(left =~= Set::<usize>::empty());
            assert forall|i: int| 0 <= i < data@.len() && !(start <= i <= end) implies data@[i]
                == old(data)@[i] by {
                if ray_indices@.contains(i as usize) {
                    assert(ray_indices@.to_set().contains(i as usize));
                    assert(sounding.contains(i as usize));
                }
            }
        }
    } else if num_rays >= 1 {
        let chosen: Vec<usize> = choose_multiple(&ray_indices, rng, num_rays);
        let ghost sounding = nonzero_in(old(data)@, start as int, end as int);
        proof {
            assert forall|k: int| 0 <= k < chosen@.len() implies sounding.contains(
                #[trigger] chosen@[k],
            ) by {
                assert(ray_indices@.contains(chosen@[k]));
                assert(ray_indices@.to_set().contains(chosen@[k]));
            }
        }
        silence_at(data, &chosen);
        proof {
            let left = nonzero_in(data@, start as int, end as int);
            let gone = chosen@.to_set();
            chosen@.unique_seq_to_set();
            assert forall|x: usize| left.contains(x) <==> sounding.difference(gone).contains(
                x,
            ) by {
                if x < data@.len() {
                    assert(data@[x as int] == if chosen@.contains(x) {
                        0u32
                    } else {
                        old(data)@[x as int]
                    });
                }
                if chosen@.contains(x) {
                    let k = choose|k: int| 0 <= k < chosen@.len() && chosen@[k] == x;
                    assert(sounding.contains(chosen@[k]));
                }
            }
            assert(left =~= sounding.difference(gone));
            assert forall|x: usize| gone.contains(x) implies sounding.contains(x) by {
                let k = choose|k: int| 0 <= k < chosen@.len() && chosen@[k] == x;
                assert(sounding.contains(chosen@[k]));
            }
            assert(sounding.intersect(gone) =~= gone);
            vstd::set_lib::lemma_set_difference_len(sounding, gone);
            assert forall|i: int| 0 <= i < data@.len() && !(start <= i <= end) implies data@[i]
                == old(data)@[i] by {
                if chosen@.contains(i as usize) {
                    let k = choose|k: int| 0 <= k < chosen@.len() && chosen@[k] == i as usize;
                    assert(sounding.contains(chosen@[k]));
                }
            }
        }
    }
}

} // verus!
