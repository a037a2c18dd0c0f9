//! What the contracts say of a buffer of levels.

use vstd::prelude::*;

verus! {

/// The greatest level that is an energy: the bit pattern of infinity. Above
/// it lie the patterns of what is no number and of what is below zero.
pub const MAX_ENERGY_LEVEL: u32 = 0x7F80_0000;

/// The level is the bit pattern of an energy that is not negative; such
/// levels order as their energies do.
pub open spec fn is_energy(level: u32) -> bool {
    level <= MAX_ENERGY_LEVEL
}

/// Every sample of `s` is an energy.
pub open spec fn all_energies(s: Seq<u32>) -> bool {
    forall|i: int| 0 <= i < s.len() ==> is_energy(#[trigger] s[i])
}

/// No sample after `direct` sounds: the buffer holds no reverberant energy.
pub open spec fn silent_after(s: Seq<u32>, direct: int) -> bool {
    forall|i: int| direct < i < s.len() ==> s[i] == 0
}

/// `p` is the first index at which `s` reaches its greatest level: nothing
/// is above it, and everything before it is strictly below.
pub open spec fn is_first_peak(s: Seq<u32>, p: int) -> bool {
    &&& 0 <= p < s.len()
    &&& forall|j: int| 0 <= j < s.len() ==> s[j] <= s[p]
    &&& forall|j: int| 0 <= j < p ==> s[j] < s[p]
}

/// The indices in `lo..=hi` at which `s` holds a sound, not silence.
pub open spec fn nonzero_in(s: Seq<u32>, lo: int, hi: int) -> Set<usize> {
    Set::new(|i: usize| lo <= i <= hi && i < s.len() && s[i as int] != 0)
}

/// How many samples of `s` in `lo..=hi` are not silent.
pub open spec fn nonzero_count(s: Seq<u32>, lo: int, hi: int) -> nat {
    nonzero_in(s, lo, hi).len()
}

/// `after` is `before` with some samples silenced and the others untouched.
pub open spec fn only_silenced(before: Seq<u32>, after: Seq<u32>) -> bool {
    &&& after.len() == before.len()
    &&& forall|i: int| 0 <= i < before.len() ==> after[i] == before[i] || after[i] == 0
}

/// The sounding samples of a zone are finitely many: no more than the buffer holds.
pub proof fn lemma_nonzero_finite(s: Seq<u32>, lo: int, hi: int)
    requires
        s.len() <= usize::MAX,
    ensures
        nonzero_in(s, lo, hi).finite(),
        nonzero_count(s, lo, hi) <= s.len(),
{
    broadcast use vstd::seq_lib::seq_to_set_is_finite;

    let all = Seq::new(s.len(), |i: int| i as usize);
    assert forall|x: usize| nonzero_in(s, lo, hi).contains(x) implies all.to_set().contains(x) by {
        assert(all[x as int] == x);
    }
    vstd::set_lib::lemma_len_subset(nonzero_in(s, lo, hi), all.to_set());
    all.lemma_cardinality_of_set();
}

/// Silencing samples never makes a zone sound more, and a zone that sounds as
/// much as before has lost no sample.
pub proof fn lemma_silencing_keeps_or_loses(before: Seq<u32>, after: Seq<u32>, lo: int, hi: int)
    requires
        before.len() <= usize::MAX,
        only_silenced(before, after),
    ensures
        nonzero_count(after, lo, hi) <= nonzero_count(before, lo, hi),
        nonzero_count(after, lo, hi) == nonzero_count(before, lo, hi) ==> forall|i: int|
            0 <= i < before.len() && lo <= i <= hi ==> after[i] == before[i],
{
    let was = nonzero_in(before, lo, hi);
    let is = nonzero_in(after, lo, hi);
    lemma_nonzero_finite(before, lo, hi);
    lemma_nonzero_finite(after, lo, hi);
    assert forall|x: usize| is.contains(x) implies was.contains(x) by {
        assert(after[x as int] == before[x as int] || after[x as int] == 0);
    }
    vstd::set_lib::lemma_len_subset(is, was);
    if is.len() == was.len() {
        vstd::set_lib::lemma_subset_equality(is, was);
        assert forall|i: int| 0 <= i < before.len() && lo <= i <= hi implies after[i]
            == before[i] by {
            if before[i] != 0 {
                assert(was.contains(i as usize));
                assert(is.contains(i as usize));
            }
        }
    }
}

/// Silencing samples of a buffer of energies leaves a buffer of energies.
pub proof fn lemma_silencing_keeps_energies(before: Seq<u32>, after: Seq<u32>)
    requires
        all_energies(before),
        only_silenced(before, after),
    ensures
        all_energies(after),
{
    assert forall|i: int| 0 <= i < after.len() implies is_energy(#[trigger] after[i]) by {
        assert(is_energy(before[i]));
        assert(after[i] == before[i] || after[i] == 0);
    }
}

/// A buffer has one first peak only.
pub proof fn lemma_first_peak_unique(s: Seq<u32>, p: int, q: int)
    requires
        is_first_peak(s, p),
        is_first_peak(s, q),
    ensures
        p == q,
{
    if p < q {
        assert(s[p] < s[q]);
        assert(s[q] <= s[p]);
    }
    if q < p {
        assert(s[q] < s[p]);
        assert(s[p] <= s[q]);
    }
}

/// Tells whether every sample of `levels` is an energy.
pub fn are_energies(levels: &Vec<u32>) -> (ok: bool)
    ensures
        ok == all_energies(levels@),
{
    let mut i: usize = 0;
    while i < levels.len()
        invariant
            0 <= i <= levels@.len(),
            forall|j: int| 0 <= j < i ==> is_energy(#[trigger] levels@[j]),
        decreases levels@.len() - i,
    {
        if levels[i] > MAX_ENERGY_LEVEL {
            return false;
        }
        i += 1;
    }
    true
}

/// Tells whether no sample after `direct_sound_idx` sounds. The energies
/// after the direct sound then sum to nothing, and no ratio of direct to
/// reverberant energy exists.
pub fn reverberant_is_silent(levels: &Vec<u32>, direct_sound_idx: usize) -> (silent: bool)
    ensures
        silent == silent_after(levels@, direct_sound_idx as int),
{
    if direct_sound_idx >= levels.len() {
        return true;
    }
    let mut i: usize = direct_sound_idx + 1;
    while i < levels.len()
        invariant
            direct_sound_idx < i <= levels@.len(),
            forall|j: int| direct_sound_idx < j < i ==> levels@[j] == 0,
        decreases levels@.len() - i,
    {
        if levels[i] != 0 {
            return false;
        }
        i += 1;
    }
    true
}

/// Finds the first index at which `levels` reaches its greatest level, which
/// is where the energy is greatest first.
pub fn first_peak(levels: &Vec<u32>) -> (p: usize)
    requires
        levels@.len() > 0,
        all_energies(levels@),
    ensures
        is_first_peak(levels@, p as int),
{
    let mut best: usize = 0;
    let mut i: usize = 1;
    while i < levels.len()
        invariant
            1 <= i <= levels@.len(),
            0 <= best < i,
            forall|j: int| 0 <= j < i ==> levels@[j] <= levels@[best as int],
            forall|j: int| 0 <= j < best ==> levels@[j] < levels@[best as int],
        decreases levels@.len() - i,
    {
        if levels[i] > levels[best] {
            best = i;
        }
        i += 1;
    }
    best
}

/// Collects, in rising order, the indices in `start..=end` whose sample is
/// not silent.
pub fn nonzero_indices(levels: &Vec<u32>, start: usize, end: usize) -> (found: Vec<usize>)
    requires
        start <= end ==> end < levels@.len(),
    ensures
        found@.no_duplicates(),
        found@.to_set() == nonzero_in(levels@, start as int, end as int),
        found@.len() == nonzero_count(levels@, start as int, end as int),
        forall|a: int, b: int| 0 <= a < b < found@.len() ==> found@[a] < found@[b],
{
    let mut found: Vec<usize> = Vec::new();
    if start > end {
        proof {
            assert(found@.to_set() =~= nonzero_in(levels@, start as int, end as int));
            found@.unique_seq_to_set();
        }
        return found;
    }
    let n: usize = levels.len();
    let mut i: usize = start;
    while i <= end
        invariant
            start <= i <= end + 1,
            end < n,
            n == levels@.len(),
            forall|a: int, b: int| 0 <= a < b < found@.len() ==> found@[a] < found@[b],
            forall|a: int| 0 <= a < found@.len() ==> start <= #[trigger] found@[a] < i,
            found@.to_set() =~= nonzero_in(levels@, start as int, i - 1),
        decreases end + 1 - i,
    {
        let ghost before = found@;
        if levels[i] != 0 {
            found.push(i);
            proof {
                assert(found@.drop_last() =~= before);
                assert forall|x: usize| found@.contains(x) <==> (before.contains(x) || x == i) by {
                    if found@.contains(x) {
                        let k = choose|k: int| 0 <= k < found@.len() && found@[k] == x;
                        if k < before.len() {
                            assert(before[k] == x);
                        }
                    }
                    if before.contains(x) {
                        let k = choose|k: int| 0 <= k < before.len() && before[k] == x;
                        assert(found@[k] == x);
                    }
                    if x == i {
                        assert(found@[found@.len() - 1] == x);
                    }
                }
            }
        }
        proof {
            let grown = nonzero_in(levels@, start as int, i as int);
            let prior = nonzero_in(levels@, start as int, i - 1);
            assert(before.to_set() == prior);
            assert forall|x: usize| found@.to_set().contains(x) <==> grown.contains(x) by {
                assert(before.to_set().contains(x) <==> prior.contains(x));
                assert(before.to_set().contains(x) <==> before.contains(x));
                if levels@[i as int] == 0 {
                    assert(found@ == before);
                }
            }
            assert(found@.to_set() =~= grown);
        }
        i += 1;
    }
    proof {
        found@.unique_seq_to_set();
    }
    found
}

} // verus!
