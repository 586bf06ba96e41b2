//! Settlement of the trades an operation made: each leg moves its input from
//! the basket's account to the exchange's and its output back, and the
//! amounts obtained are added up into positions and payouts.
use crate::fraction::{
    apply_floor, apply_nearest, lemma_share_bounded, lemma_whole_unit_takes_all, mul_floor, mul_nearest,
    PARTS_PER_UNIT,
};
use crate::ledger::{AccountId, AssetId, Balance, Ledger, LedgerError, LedgerModel};
use crate::router::Conversion;
use vstd::prelude::*;

verus! {

/// The asset deposited to buy shares and paid out when rebalancing.
pub const REFERENCE_ASSET: AssetId = 0;

/// One conversion of `amount_in` of `source` into `amount_out` of `dest`.
/// Where `source` and `dest` are one asset nothing is traded.
#[derive(Debug, Clone, Copy, PartialEq, Eq, Structural)]
pub struct Leg {
    pub source: AssetId,
    pub dest: AssetId,
    pub amount_in: Balance,
    pub amount_out: Balance,
}

/// What a leg yields: its input where nothing is traded, else its output.
pub open spec fn gain(leg: Leg) -> Balance {
    if leg.source == leg.dest {
        leg.amount_in
    } else {
        leg.amount_out
    }
}

/// The ledger after one leg between the basket's `account` and the `exchange`.
pub open spec fn settle_leg(l: LedgerModel, account: AccountId, exchange: AccountId, leg: Leg) -> Result<
    LedgerModel,
    LedgerError,
> {
    if leg.source == leg.dest {
        Ok(l)
    } else {
        match l.transfer(leg.source, account, exchange, leg.amount_in) {
            Ok(m) => m.transfer(leg.dest, exchange, account, leg.amount_out),
            Err(e) => Err(e),
        }
    }
}

/// The ledger after the legs, in order; the first refusal where one is refused.
pub open spec fn settle_legs(
    l: LedgerModel,
    account: AccountId,
    exchange: AccountId,
    legs: Seq<Leg>,
) -> Result<LedgerModel, LedgerError>
    decreases legs.len(),
{
    if legs.len() == 0 {
        Ok(l)
    } else {
        match settle_legs(l, account, exchange, legs.drop_last()) {
            Ok(m) => settle_leg(m, account, exchange, legs.last()),
            Err(e) => Err(e),
        }
    }
}

/// The sum of what the legs yield.
pub open spec fn total_gain(legs: Seq<Leg>) -> int
    decreases legs.len(),
{
    if legs.len() == 0 {
        0
    } else {
        total_gain(legs.drop_last()) + gain(legs.last())
    }
}

/// What each leg yields, one for one.
pub open spec fn gains(legs: Seq<Leg>) -> Seq<Balance> {
    legs.map_values(|leg: Leg| gain(leg))
}

/// Whether adding each leg's yield to a position stays within `u128`.
pub open spec fn gains_fit(pos: Seq<Balance>, legs: Seq<Leg>) -> bool {
    forall|i: int| 0 <= i < pos.len() ==> pos[i] + gain(#[trigger] legs[i]) <= u128::MAX
}

/// Each entry of a position with the yield of its leg added.
pub open spec fn add_gains(pos: Seq<Balance>, legs: Seq<Leg>) -> Seq<Balance> {
    Seq::new(pos.len(), |i: int| (pos[i] + gain(legs[i])) as u128)
}

/// The amount of the deposit that goes to each component: its weight of the
/// deposit, rounded down.
pub open spec fn split(weights: Seq<u32>, amount: Balance) -> Seq<Balance> {
    weights.map_values(|w: u32| mul_floor(w, amount) as u128)
}

/// The amount taken out of each entry of a position for the fraction `parts`.
pub open spec fn withdrawals(pos: Seq<Balance>, parts: u32) -> Seq<Balance> {
    pos.map_values(|x: Balance| mul_nearest(parts, x) as u128)
}

/// Each entry of a position less what is taken out of it.
pub open spec fn subtract(pos: Seq<Balance>, taken: Seq<Balance>) -> Seq<Balance> {
    Seq::new(pos.len(), |i: int| (pos[i] - taken[i]) as u128)
}

/// The legs that acquire each component from the reference asset.
pub open spec fn buy_legs(components: Seq<AssetId>, amounts: Seq<Balance>, acquired: Seq<Balance>) -> Seq<
    Leg,
> {
    Seq::new(
        components.len(),
        |i: int|
            Leg {
                source: REFERENCE_ASSET,
                dest: components[i],
                amount_in: amounts[i],
                amount_out: acquired[i],
            },
    )
}

/// The legs that liquidate each component into `dest`.
pub open spec fn sell_legs(
    components: Seq<AssetId>,
    amounts: Seq<Balance>,
    received: Seq<Balance>,
    dest: AssetId,
) -> Seq<Leg> {
    Seq::new(
        components.len(),
        |i: int|
            Leg { source: components[i], dest: dest, amount_in: amounts[i], amount_out: received[i] },
    )
}

/// The sum of a sequence of amounts.
pub open spec fn amount_total(s: Seq<Balance>) -> int
    decreases s.len(),
{
    if s.len() == 0 {
        0
    } else {
        amount_total(s.drop_last()) + s.last()
    }
}

/// The conversions that acquire each component from the reference asset.
pub open spec fn buy_conversions(components: Seq<AssetId>, amounts: Seq<Balance>) -> Seq<Conversion> {
    Seq::new(components.len(), |i: int| (REFERENCE_ASSET, components[i], amounts[i]))
}

/// The conversions that liquidate each component into `dest`.
pub open spec fn sell_conversions(components: Seq<AssetId>, amounts: Seq<Balance>, dest: AssetId) -> Seq<
    Conversion,
> {
    Seq::new(components.len(), |i: int| (components[i], dest, amounts[i]))
}

/// Where each leg yields the matching amount, all legs yield the sum of the amounts.
pub proof fn lemma_total_gain_is_sum(legs: Seq<Leg>, amounts: Seq<Balance>)
    requires
        legs.len() == amounts.len(),
        forall|i: int| 0 <= i < legs.len() ==> gain(legs[i]) == amounts[i],
    ensures
        total_gain(legs) == amount_total(amounts),
    decreases legs.len(),
{
    if legs.len() > 0 {
        lemma_total_gain_is_sum(legs.drop_last(), amounts.drop_last());
    }
}

/// What is taken out of a position and what is left of it add up to the position.
pub proof fn lemma_taken_and_left(pos: Seq<Balance>, taken: Seq<Balance>)
    requires
        taken.len() == pos.len(),
        forall|i: int| 0 <= i < pos.len() ==> taken[i] <= pos[i],
    ensures
        amount_total(taken) + amount_total(subtract(pos, taken)) == amount_total(pos),
    decreases pos.len(),
{
    if pos.len() > 0 {
        assert(subtract(pos, taken).drop_last() =~= subtract(pos.drop_last(), taken.drop_last()));
        lemma_taken_and_left(pos.drop_last(), taken.drop_last());
    }
}

/// A whole unit takes every entry out.
pub proof fn lemma_whole_withdrawal(pos: Seq<Balance>)
    ensures
        withdrawals(pos, PARTS_PER_UNIT) == pos,
{
    assert forall|i: int| 0 <= i < pos.len() implies withdrawals(pos, PARTS_PER_UNIT)[i] == pos[i] by {
        lemma_whole_unit_takes_all(pos[i]);
    }
    assert(withdrawals(pos, PARTS_PER_UNIT) =~= pos);
}

/// Withdrawals never exceed the entries they come from.
pub proof fn lemma_withdrawals_bounded(pos: Seq<Balance>, parts: u32)
    requires
        parts <= PARTS_PER_UNIT,
    ensures
        forall|i: int| 0 <= i < pos.len() ==> withdrawals(pos, parts)[i] <= pos[i],
{
    assert forall|i: int| 0 <= i < pos.len() implies withdrawals(pos, parts)[i] <= pos[i] by {
        lemma_share_bounded(parts, pos[i]);
    }
}

/// A second vector of the same amounts.
pub fn copy_amounts(v: &Vec<Balance>) -> (r: Vec<Balance>)
    ensures
        r@ == v@,
{
    let mut out: Vec<Balance> = Vec::new();
    let mut i: usize = 0;
    while i < v.len()
        invariant
            i <= v.len(),
            out.len() == i,
            forall|j: int| 0 <= j < i ==> out[j] == v[j],
        decreases v.len() - i,
    {
        out.push(v[i]);
        i = i + 1;
    }
    assert(out@ =~= v@);
    out
}

pub fn split_deposit(weights: &Vec<u32>, amount: Balance) -> (r: Vec<Balance>)
    requires
        forall|i: int| 0 <= i < weights.len() ==> weights[i] <= PARTS_PER_UNIT,
    ensures
        r@ == split(weights@, amount),
{
    let mut out: Vec<Balance> = Vec::new();
    let mut i: usize = 0;
    while i < weights.len()
        invariant
            i <= weights.len(),
            forall|j: int| 0 <= j < weights.len() ==> weights[j] <= PARTS_PER_UNIT,
            out@ == split(weights@.subrange(0, i as int), amount),
        decreases weights.len() - i,
    {
        out.push(apply_floor(weights[i], amount));
        i = i + 1;
        assert(out@ =~= split(weights@.subrange(0, i as int), amount));
    }
    assert(weights@.subrange(0, weights.len() as int) =~= weights@);
    out
}

pub fn withdraw_amounts(pos: &Vec<Balance>, parts: u32) -> (r: Vec<Balance>)
    requires
        parts <= PARTS_PER_UNIT,
    ensures
        r@ == withdrawals(pos@, parts),
{
    let mut out: Vec<Balance> = Vec::new();
    let mut i: usize = 0;
    while i < pos.len()
        invariant
            i <= pos.len(),
            parts <= PARTS_PER_UNIT,
            out@ == withdrawals(pos@.subrange(0, i as int), parts),
        decreases pos.len() - i,
    {
        out.push(apply_nearest(parts, pos[i]));
        i = i + 1;
        assert(out@ =~= withdrawals(pos@.subrange(0, i as int), parts));
    }
    assert(pos@.subrange(0, pos.len() as int) =~= pos@);
    out
}

pub fn subtract_amounts(pos: &Vec<Balance>, taken: &Vec<Balance>) -> (r: Vec<Balance>)
    requires
        taken.len() == pos.len(),
        forall|i: int| 0 <= i < pos.len() ==> taken[i] <= pos[i],
    ensures
        r@ == subtract(pos@, taken@),
{
    let mut out: Vec<Balance> = Vec::new();
    let mut i: usize = 0;
    while i < pos.len()
        invariant
            i <= pos.len(),
            taken.len() == pos.len(),
            forall|j: int| 0 <= j < pos.len() ==> taken[j] <= pos[j],
            out.len() == i,
            forall|j: int| 0 <= j < i ==> out[j] == pos[j] - taken[j],
        decreases pos.len() - i,
    {
        out.push(pos[i] - taken[i]);
        i = i + 1;
    }
    assert(out@ =~= subtract(pos@, taken@));
    out
}

pub fn make_buy_legs(components: &Vec<AssetId>, amounts: &Vec<Balance>, acquired: &Vec<Balance>) -> (r:
    Vec<Leg>)
    requires
        amounts.len() == components.len(),
        acquired.len() == components.len(),
    ensures
        r@ == buy_legs(components@, amounts@, acquired@),
{
    let mut out: Vec<Leg> = Vec::new();
    let mut i: usize = 0;
    while i < components.len()
        invariant
            i <= components.len(),
            amounts.len() == components.len(),
            acquired.len() == components.len(),
            out.len() == i,
            forall|j: int| 0 <= j < i ==> out[j] == buy_legs(components@, amounts@, acquired@)[j],
        decreases components.len() - i,
    {
        out.push(
            Leg {
                source: REFERENCE_ASSET,
                dest: components[i],
                amount_in: amounts[i],
                amount_out: acquired[i],
            },
        );
        i = i + 1;
    }
    assert(out@ =~= buy_legs(components@, amounts@, acquired@));
    out
}

pub fn make_sell_legs(
    components: &Vec<AssetId>,
    amounts: &Vec<Balance>,
    received: &Vec<Balance>,
    dest: AssetId,
) -> (r: Vec<Leg>)
    requires
        amounts.len() == components.len(),
        received.len() == components.len(),
    ensures
        r@ == sell_legs(components@, amounts@, received@, dest),
{
    let mut out: Vec<Leg> = Vec::new();
    let mut i: usize = 0;
    while i < components.len()
        invariant
            i <= components.len(),
            amounts.len() == components.len(),
            received.len() == components.len(),
            out.len() == i,
            forall|j: int|
                0 <= j < i ==> out[j] == sell_legs(components@, amounts@, received@, dest)[j],
        decreases components.len() - i,
    {
        out.push(
            Leg {
                source: components[i],
                dest: dest,
                amount_in: amounts[i],
                amount_out: received[i],
            },
        );
        i = i + 1;
    }
    assert(out@ =~= sell_legs(components@, amounts@, received@, dest));
    out
}

fn leg_gain(leg: &Leg) -> (r: Balance)
    ensures
        r == gain(*leg),
{
    if leg.source == leg.dest {
        leg.amount_in
    } else {
        leg.amount_out
    }
}

/// Applies the legs to `ledger` in order, stopping at the first refusal.
pub fn settle_all(ledger: &mut Ledger, account: AccountId, exchange: AccountId, legs: &Vec<Leg>) -> (r:
    Result<(), LedgerError>)
    ensures
        match settle_legs(old(ledger)@, account, exchange, legs@) {
            Ok(m) => r is Ok && final(ledger)@ == m,
            Err(e) => r == Err::<(), LedgerError>(e),
        },
{
    let ghost start = ledger@;
    let mut i: usize = 0;
    while i < legs.len()
        invariant
            i <= legs.len(),
            start == old(ledger)@,
            settle_legs(start, account, exchange, legs@.subrange(0, i as int)) == Ok::<
                LedgerModel,
                LedgerError,
            >(ledger@),
        decreases legs.len() - i,
    {
        let leg = legs[i];
        let ghost next = legs@.subrange(0, i as int + 1);
        let ghost before = ledger@;
        assert(next.drop_last() =~= legs@.subrange(0, i as int));
        assert(next.last() == leg);
        if leg.source != leg.dest {
            match ledger.transfer(leg.source, account, exchange, leg.amount_in) {
                Ok(()) => {},
                Err(e) => {
                    proof {
                        lemma_settle_stops(start, account, exchange, legs@, i as int + 1);
                    }
                    return Err(e);
                },
            }
            match ledger.transfer(leg.dest, exchange, account, leg.amount_out) {
                Ok(()) => {},
                Err(e) => {
                    proof {
                        lemma_settle_stops(start, account, exchange, legs@, i as int + 1);
                    }
                    return Err(e);
                },
            }
        }
        i = i + 1;
    }
    assert(legs@.subrange(0, legs.len() as int) =~= legs@);
    Ok(())
}

/// Once a prefix of the legs is refused, so is the whole.
proof fn lemma_settle_stops(
    l: LedgerModel,
    account: AccountId,
    exchange: AccountId,
    legs: Seq<Leg>,
    n: int,
)
    requires
        0 <= n <= legs.len(),
        settle_legs(l, account, exchange, legs.subrange(0, n)) is Err,
    ensures
        settle_legs(l, account, exchange, legs) == settle_legs(
            l,
            account,
            exchange,
            legs.subrange(0, n),
        ),
    decreases legs.len() - n,
{
    if n < legs.len() {
        let next = legs.subrange(0, n + 1);
        assert(next.drop_last() =~= legs.subrange(0, n));
        lemma_settle_stops(l, account, exchange, legs, n + 1);
    } else {
        assert(legs.subrange(0, n) =~= legs);
    }
}

/// The sum of what the legs yield; `None` where it exceeds `u128::MAX`.
pub fn sum_gains(legs: &Vec<Leg>) -> (r: Option<Balance>)
    ensures
        match r {
            Some(v) => v == total_gain(legs@),
            None => total_gain(legs@) > u128::MAX,
        },
{
    let mut sum: Balance = 0;
    let mut i: usize = 0;
    while i < legs.len()
        invariant
            i <= legs.len(),
            sum == total_gain(legs@.subrange(0, i as int)),
        decreases legs.len() - i,
    {
        let ghost next = legs@.subrange(0, i as int + 1);
        assert(next.drop_last() =~= legs@.subrange(0, i as int));
        let g = leg_gain(&legs[i]);
        if sum > u128::MAX - g {
            proof {
                lemma_total_gain_grows(legs@, i as int + 1);
            }
            return None;
        }
        sum = sum + g;
        i = i + 1;
    }
    assert(legs@.subrange(0, legs.len() as int) =~= legs@);
    Some(sum)
}

/// The sum over a prefix never exceeds the sum over the whole.
proof fn lemma_total_gain_grows(legs: Seq<Leg>, n: int)
    requires
        0 <= n <= legs.len(),
    ensures
        total_gain(legs.subrange(0, n)) <= total_gain(legs),
    decreases legs.len() - n,
{
    if n < legs.len() {
        let next = legs.subrange(0, n + 1);
        assert(next.drop_last() =~= legs.subrange(0, n));
        lemma_total_gain_grows(legs, n + 1);
    } else {
        assert(legs.subrange(0, n) =~= legs);
    }
}

/// Each entry of `pos` with the yield of its leg added; `None` where one
/// would exceed `u128::MAX`.
pub fn add_leg_gains(pos: &Vec<Balance>, legs: &Vec<Leg>) -> (r: Option<Vec<Balance>>)
    requires
        legs.len() == pos.len(),
    ensures
        match r {
            Some(v) => gains_fit(pos@, legs@) && v@ == add_gains(pos@, legs@),
            None => !gains_fit(pos@, legs@),
        },
{
    let mut out: Vec<Balance> = Vec::new();
    let mut i: usize = 0;
    while i < pos.len()
        invariant
            i <= pos.len(),
            legs.len() == pos.len(),
            out.len() == i,
            forall|j: int| 0 <= j < i ==> pos[j] + gain(#[trigger] legs@[j]) <= u128::MAX,
            forall|j: int| 0 <= j < i ==> out[j] == pos[j] + gain(legs@[j]),
        decreases pos.len() - i,
    {
        let g = leg_gain(&legs[i]);
        if pos[i] > u128::MAX - g {
            return None;
        }
        out.push(pos[i] + g);
        i = i + 1;
    }
    assert(out@ =~= add_gains(pos@, legs@));
    Some(out)
}

/// What each leg yields, one for one.
pub fn leg_gains(legs: &Vec<Leg>) -> (r: Vec<Balance>)
    ensures
        r@ == gains(legs@),
{
    let mut out: Vec<Balance> = Vec::new();
    let mut i: usize = 0;
    while i < legs.len()
        invariant
            i <= legs.len(),
            out.len() == i,
            forall|j: int| 0 <= j < i ==> out[j] == gain(legs@[j]),
        decreases legs.len() - i,
    {
        out.push(leg_gain(&legs[i]));
        i = i + 1;
    }
    assert(out@ =~= gains(legs@));
    out
}

} // verus!
