//! Baskets: components, weights in parts per billion, owner and route hints,
//! with the validation of weight percentages.
use crate::fraction::{parts_of_percent, percent_parts, PARTS_PER_UNIT};
use crate::ledger::{AccountId, AssetId};
use crate::router::hints_view;
use vstd::prelude::*;

verus! {

/// A registered basket. Its id is kept by the registry that holds it.
pub struct Basket {
    /// The account that created the basket, the only one that may change its weights.
    pub owner: AccountId,
    /// The component assets, in order; not necessarily distinct.
    pub components: Vec<AssetId>,
    /// One weight per component, in parts per billion.
    pub weights: Vec<u32>,
    /// Candidate paths handed to the router's best-route search.
    pub route_hints: Vec<Vec<AssetId>>,
}

/// A basket as values.
pub struct BasketModel {
    pub owner: AccountId,
    pub components: Seq<AssetId>,
    pub weights: Seq<u32>,
    pub route_hints: Seq<Seq<AssetId>>,
}

impl View for Basket {
    type V = BasketModel;

    open spec fn view(&self) -> BasketModel {
        BasketModel {
            owner: self.owner,
            components: self.components@,
            weights: self.weights@,
            route_hints: hints_view(self.route_hints),
        }
    }
}

/// The sum of a sequence of integers.
pub open spec fn total(s: Seq<u32>) -> int
    decreases s.len(),
{
    if s.len() == 0 {
        0
    } else {
        total(s.drop_last()) + s.last()
    }
}

/// The fixed-point weights that a list of percentages stands for.
pub open spec fn weights_of(ps: Seq<u32>) -> Seq<u32> {
    ps.map_values(|p: u32| parts_of_percent(p) as u32)
}

/// A basket is sound when it has one weight per component and its weights
/// make exactly one whole unit.
pub open spec fn sound_weights(components: Seq<AssetId>, weights: Seq<u32>) -> bool {
    &&& weights.len() == components.len()
    &&& total(weights) == PARTS_PER_UNIT as int
}

proof fn lemma_total_bounds(s: Seq<u32>)
    ensures
        0 <= total(s) <= s.len() * (u32::MAX as int),
    decreases s.len(),
{
    if s.len() > 0 {
        lemma_total_bounds(s.drop_last());
    }
}

/// No element exceeds the sum.
pub proof fn lemma_element_within_total(s: Seq<u32>, i: int)
    requires
        0 <= i < s.len(),
    ensures
        s[i] <= total(s),
    decreases s.len(),
{
    lemma_total_bounds(s.drop_last());
    if i < s.len() - 1 {
        lemma_element_within_total(s.drop_last(), i);
    }
}

/// Weights that make one whole unit are each at most one whole unit.
pub proof fn lemma_weights_bounded(weights: Seq<u32>)
    requires
        total(weights) == PARTS_PER_UNIT as int,
    ensures
        forall|i: int| 0 <= i < weights.len() ==> weights[i] <= PARTS_PER_UNIT,
{
    assert forall|i: int| 0 <= i < weights.len() implies weights[i] <= PARTS_PER_UNIT by {
        lemma_element_within_total(weights, i);
    }
}

/// Whether two weight lists are equal, entry by entry.
pub fn same_weights(a: &Vec<u32>, b: &Vec<u32>) -> (r: bool)
    ensures
        r == (a@ == b@),
{
    if a.len() != b.len() {
        return false;
    }
    let mut i: usize = 0;
    while i < a.len()
        invariant
            i <= a.len(),
            a.len() == b.len(),
            forall|j: int| 0 <= j < i ==> a[j] == b[j],
        decreases a.len() - i,
    {
        if a[i] != b[i] {
            return false;
        }
        i = i + 1;
    }
    assert(a@ =~= b@);
    true
}

proof fn lemma_scaled_total(s: Seq<u32>)
    requires
        forall|i: int| 0 <= i < s.len() ==> s[i] <= 100,
    ensures
        total(weights_of(s)) == 10_000_000 * total(s),
    decreases s.len(),
{
    if s.len() > 0 {
        assert(weights_of(s).drop_last() =~= weights_of(s.drop_last()));
        lemma_scaled_total(s.drop_last());
    }
}

/// Percentages that sum to exactly 100 give weights that sum to exactly one
/// whole unit, with no rounding drift.
pub proof fn lemma_percent_weights_sum_to_unit(ps: Seq<u32>)
    requires
        total(ps) == 100,
    ensures
        total(weights_of(ps)) == PARTS_PER_UNIT as int,
        weights_of(ps).len() == ps.len(),
{
    assert forall|i: int| 0 <= i < ps.len() implies ps[i] <= 100 by {
        lemma_element_within_total(ps, i);
    }
    lemma_scaled_total(ps);
}

/// The sum of the percentages, computed without overflow.
pub fn percent_total(ps: &Vec<u32>) -> (r: u128)
    ensures
        r == total(ps@),
{
    let mut sum: u128 = 0;
    let mut i: usize = 0;
    while i < ps.len()
        invariant
            i <= ps.len(),
            sum == total(ps@.subrange(0, i as int)),
        decreases ps.len() - i,
    {
        proof {
            let pre = ps@.subrange(0, i as int);
            let next = ps@.subrange(0, i as int + 1);
            assert(next.drop_last() =~= pre);
            lemma_total_bounds(next);
            assert(next.len() * (u32::MAX as int) <= usize::MAX * (u32::MAX as int)) by (nonlinear_arith)
                requires next.len() <= usize::MAX;
        }
        sum = sum + ps[i] as u128;
        i = i + 1;
    }
    assert(ps@.subrange(0, ps.len() as int) =~= ps@);
    sum
}

/// The fixed-point weights of the percentages, one for one.
pub fn weights_from_percentages(ps: &Vec<u32>) -> (r: Vec<u32>)
    ensures
        r@ == weights_of(ps@),
{
    let mut out: Vec<u32> = Vec::new();
    let mut i: usize = 0;
    while i < ps.len()
        invariant
            i <= ps.len(),
            out@ == weights_of(ps@.subrange(0, i as int)),
        decreases ps.len() - i,
    {
        let w = percent_parts(ps[i]);
        out.push(w);
        i = i + 1;
        assert(out@ =~= weights_of(ps@.subrange(0, i as int)));
    }
    assert(ps@.subrange(0, ps.len() as int) =~= ps@);
    out
}

} // verus!
