//! Folding a sample set into tab and space units.

use vstd::prelude::*;
use crate::gcd::{
    divides, gcd, lemma_divides_antisymmetric, lemma_divides_self, lemma_gcd_divisors,
    lemma_maybe_gcd_is_gcd, maybe_gcd, spec_maybe_gcd,
};
use crate::sample::Sample;

verus! {

/// The units that a sample set reduces to. Zero means "no evidence".
#[derive(Clone, Copy, Debug, PartialEq, Eq, Structural)]
pub struct IndentUnits {
    pub tab_unit: u32,
    pub space_unit: u32,
}

/// Left fold of `maybe_gcd` over one count of each sample, from zero.
pub open spec fn unit_by(s: Seq<Sample>, f: spec_fn(Sample) -> u32) -> nat
    decreases s.len(),
{
    if s.len() == 0 {
        0
    } else {
        spec_maybe_gcd(unit_by(s.drop_last(), f), f(s.last()) as nat)
    }
}

pub open spec fn tab_count_of(x: Sample) -> u32 {
    x.tab_count
}

pub open spec fn space_count_of(x: Sample) -> u32 {
    x.space_count
}

/// The tab unit: gcd of all tab counts, zero if none is non-zero.
pub open spec fn tab_unit_of(s: Seq<Sample>) -> nat {
    unit_by(s, |x: Sample| tab_count_of(x))
}

/// The space unit: gcd of all space counts, zero if none is non-zero.
pub open spec fn space_unit_of(s: Seq<Sample>) -> nat {
    unit_by(s, |x: Sample| space_count_of(x))
}

/// Some sample has leading tabs.
pub open spec fn tabs_observed(s: Seq<Sample>) -> bool {
    exists|i: int| 0 <= i < s.len() && #[trigger] s[i].tab_count > 0
}

/// The longest space run of the samples, zero for none.
pub open spec fn max_space_of(s: Seq<Sample>) -> nat
    decreases s.len(),
{
    if s.len() == 0 {
        0
    } else {
        let m = max_space_of(s.drop_last());
        if s.last().space_count > m {
            s.last().space_count as nat
        } else {
            m
        }
    }
}

/// The non-zero space counts, in sample order.
pub open spec fn nonzero_spaces(s: Seq<Sample>) -> Seq<u32>
    decreases s.len(),
{
    if s.len() == 0 {
        Seq::empty()
    } else if s.last().space_count > 0 {
        nonzero_spaces(s.drop_last()).push(s.last().space_count)
    } else {
        nonzero_spaces(s.drop_last())
    }
}

/// What `reduce` returns for a sample set.
pub open spec fn spec_reduce(s: Seq<Sample>) -> IndentUnits {
    IndentUnits { tab_unit: tab_unit_of(s) as u32, space_unit: space_unit_of(s) as u32 }
}

/// Folds the samples, in order, into a tab unit and a space unit.
pub fn reduce(samples: &[Sample]) -> (r: IndentUnits)
    ensures
        r.tab_unit as nat == tab_unit_of(samples@),
        r.space_unit as nat == space_unit_of(samples@),
        r == spec_reduce(samples@),
{
    let mut tab_unit: u32 = 0;
    let mut space_unit: u32 = 0;
    let mut i: usize = 0;
    while i < samples.len()
        invariant
            i <= samples@.len(),
            tab_unit as nat == tab_unit_of(samples@.take(i as int)),
            space_unit as nat == space_unit_of(samples@.take(i as int)),
        decreases samples@.len() - i,
    {
        assert(samples@.take(i + 1).drop_last() =~= samples@.take(i as int));
        tab_unit = maybe_gcd(tab_unit, samples[i].tab_count);
        space_unit = maybe_gcd(space_unit, samples[i].space_count);
        i = i + 1;
    }
    assert(samples@.take(i as int) =~= samples@);
    IndentUnits { tab_unit, space_unit }
}

/// Whether any sample has leading tabs.
pub fn has_tabs(samples: &[Sample]) -> (r: bool)
    ensures
        r == tabs_observed(samples@),
{
    let mut i: usize = 0;
    while i < samples.len()
        invariant
            i <= samples@.len(),
            forall|j: int| 0 <= j < i ==> samples@[j].tab_count == 0,
        decreases samples@.len() - i,
    {
        if samples[i].tab_count > 0 {
            return true;
        }
        i = i + 1;
    }
    false
}

/// The longest space run among the samples, zero for none.
pub fn max_space(samples: &[Sample]) -> (r: u32)
    ensures
        r as nat == max_space_of(samples@),
{
    let mut m: u32 = 0;
    let mut i: usize = 0;
    while i < samples.len()
        invariant
            i <= samples@.len(),
            m as nat == max_space_of(samples@.take(i as int)),
        decreases samples@.len() - i,
    {
        assert(samples@.take(i + 1).drop_last() =~= samples@.take(i as int));
        if samples[i].space_count > m {
            m = samples[i].space_count;
        }
        i = i + 1;
    }
    assert(samples@.take(i as int) =~= samples@);
    m
}

/// The non-zero space counts of the samples, in order.
pub fn space_counts(samples: &[Sample]) -> (r: Vec<u32>)
    ensures
        r@ == nonzero_spaces(samples@),
{
    let mut out: Vec<u32> = Vec::new();
    let mut i: usize = 0;
    while i < samples.len()
        invariant
            i <= samples@.len(),
            out@ == nonzero_spaces(samples@.take(i as int)),
        decreases samples@.len() - i,
    {
        assert(samples@.take(i + 1).drop_last() =~= samples@.take(i as int));
        if samples[i].space_count > 0 {
            out.push(samples[i].space_count);
        }
        i = i + 1;
    }
    assert(samples@.take(i as int) =~= samples@);
    out
}

/// The divisors of a unit are the common divisors of the counts it folds.
pub proof fn lemma_unit_divisors(s: Seq<Sample>, f: spec_fn(Sample) -> u32, d: nat)
    ensures
        divides(d, unit_by(s, f)) <==> (forall|i: int|
            0 <= i < s.len() ==> #[trigger] divides(d, f(s[i]) as nat)),
    decreases s.len(),
{
    if s.len() > 0 {
        let init = s.drop_last();
        lemma_unit_divisors(init, f, d);
        lemma_maybe_gcd_is_gcd(unit_by(init, f), f(s.last()) as nat);
        lemma_gcd_divisors(unit_by(init, f), f(s.last()) as nat, d);
        if divides(d, unit_by(s, f)) {
            assert forall|i: int| 0 <= i < s.len() implies #[trigger] divides(d, f(s[i]) as nat) by {
                if i < s.len() - 1 {
                    assert(s[i] == init[i]);
                }
            }
        }
        if forall|i: int| 0 <= i < s.len() ==> #[trigger] divides(d, f(s[i]) as nat) {
            assert forall|i: int| 0 <= i < init.len() implies #[trigger] divides(
                d,
                f(init[i]) as nat,
            ) by {
                assert(init[i] == s[i]);
            }
            assert(divides(d, f(s[s.len() - 1]) as nat));
        }
    }
}

/// Sample sets that hold the same samples, in any order and any number of
/// times, fold to the same unit.
pub proof fn lemma_unit_same_samples(s1: Seq<Sample>, s2: Seq<Sample>, f: spec_fn(Sample) -> u32)
    requires
        forall|x: Sample| s1.contains(x) <==> s2.contains(x),
    ensures
        unit_by(s1, f) == unit_by(s2, f),
{
    let u1 = unit_by(s1, f);
    let u2 = unit_by(s2, f);
    assert forall|d: nat| divides(d, u1) <==> divides(d, u2) by {
        lemma_unit_divisors(s1, f, d);
        lemma_unit_divisors(s2, f, d);
        if forall|i: int| 0 <= i < s1.len() ==> #[trigger] divides(d, f(s1[i]) as nat) {
            assert forall|j: int| 0 <= j < s2.len() implies #[trigger] divides(d, f(s2[j]) as nat) by {
                assert(s2.contains(s2[j]));
                let i = choose|i: int| 0 <= i < s1.len() && s1[i] == s2[j];
                assert(divides(d, f(s1[i]) as nat));
            }
        }
        if forall|j: int| 0 <= j < s2.len() ==> #[trigger] divides(d, f(s2[j]) as nat) {
            assert forall|i: int| 0 <= i < s1.len() implies #[trigger] divides(d, f(s1[i]) as nat) by {
                assert(s1.contains(s1[i]));
                let j = choose|j: int| 0 <= j < s2.len() && s2[j] == s1[i];
                assert(divides(d, f(s2[j]) as nat));
            }
        }
    }
    lemma_divides_self(u1);
    lemma_divides_self(u2);
    lemma_divides_antisymmetric(u1, u2);
}

/// Sample sets that hold the same samples agree on whether tabs were seen.
proof fn lemma_tabs_same_samples(s1: Seq<Sample>, s2: Seq<Sample>)
    requires
        forall|x: Sample| s1.contains(x) <==> s2.contains(x),
    ensures
        tabs_observed(s1) == tabs_observed(s2),
{
    if tabs_observed(s1) {
        let i = choose|i: int| 0 <= i < s1.len() && #[trigger] s1[i].tab_count > 0;
        assert(s1.contains(s1[i]));
        let j = choose|j: int| 0 <= j < s2.len() && s2[j] == s1[i];
        assert(s2[j].tab_count > 0);
    }
    if tabs_observed(s2) {
        let j = choose|j: int| 0 <= j < s2.len() && #[trigger] s2[j].tab_count > 0;
        assert(s2.contains(s2[j]));
        let i = choose|i: int| 0 <= i < s1.len() && s1[i] == s2[j];
        assert(s1[i].tab_count > 0);
    }
}

/// Where no sample has leading tabs, no tabs are observed and the tab unit
/// is zero.
pub proof fn lemma_no_tabs(s: Seq<Sample>)
    requires
        forall|i: int| 0 <= i < s.len() ==> #[trigger] s[i].tab_count == 0,
    ensures
        !tabs_observed(s),
        tab_unit_of(s) == 0,
{
    let f = |x: Sample| tab_count_of(x);
    lemma_unit_divisors(s, f, 0);
    assert forall|i: int| 0 <= i < s.len() implies #[trigger] divides(0, f(s[i]) as nat) by {
        assert(s[i].tab_count == 0);
    }
}

/// Reduction does not depend on the order of the samples: a permutation of
/// a sample set reduces to the same units and observes tabs alike.
pub proof fn lemma_reduce_order_independent(s1: Seq<Sample>, s2: Seq<Sample>)
    requires
        s1.to_multiset() == s2.to_multiset(),
    ensures
        spec_reduce(s1) == spec_reduce(s2),
        tab_unit_of(s1) == tab_unit_of(s2),
        space_unit_of(s1) == space_unit_of(s2),
        tabs_observed(s1) == tabs_observed(s2),
{
    s1.to_multiset_ensures();
    s2.to_multiset_ensures();
    assert forall|x: Sample| s1.contains(x) <==> s2.contains(x) by {
        assert(s1.contains(x) <==> s1.to_multiset().count(x) > 0);
        assert(s2.contains(x) <==> s2.to_multiset().count(x) > 0);
    }
    lemma_unit_same_samples(s1, s2, |x: Sample| tab_count_of(x));
    lemma_unit_same_samples(s1, s2, |x: Sample| space_count_of(x));
    lemma_tabs_same_samples(s1, s2);
}

/// Reduction is idempotent: feeding a sample set in twice over reduces to
/// the same units as feeding it once.
pub proof fn lemma_reduce_idempotent(s: Seq<Sample>)
    ensures
        spec_reduce(s + s) == spec_reduce(s),
        tabs_observed(s + s) == tabs_observed(s),
{
    let ss = s + s;
    assert forall|x: Sample| ss.contains(x) <==> s.contains(x) by {
        if ss.contains(x) {
            let i = choose|i: int| 0 <= i < ss.len() && ss[i] == x;
            if i < s.len() {
                assert(s[i] == x);
            } else {
                assert(s[i - s.len()] == x);
            }
        }
        if s.contains(x) {
            let i = choose|i: int| 0 <= i < s.len() && s[i] == x;
            assert(ss[i] == x);
        }
    }
    lemma_unit_same_samples(ss, s, |x: Sample| tab_count_of(x));
    lemma_unit_same_samples(ss, s, |x: Sample| space_count_of(x));
    lemma_tabs_same_samples(ss, s);
}

} // verus!
