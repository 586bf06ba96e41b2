//! Properties that hold across the engine's operations.
use crate::engine::{buy_outcome, create_outcome, redeemed, sell_outcome, PalletModel};
use crate::error::Error;
use crate::fraction::{lemma_share_bounded, lemma_whole_unit_takes_all, mul_floor, parts_of_ratio, PARTS_PER_UNIT};
use crate::ledger::{
    lemma_set_balance_reads, lemma_transfer_reads, AccountId, AssetId, Balance, LedgerModel,
};
use crate::registry::{lemma_percent_weights_sum_to_unit, lemma_weights_bounded, total};
use crate::settle::{
    subtract, buy_legs, gain, settle_legs, sell_legs, split, total_gain, Leg, REFERENCE_ASSET,
};
use vstd::prelude::*;

verus! {

/// Creating a basket with as many percentages as components, summing to
/// exactly 100, under an id that is neither a basket nor an asset yet,
/// succeeds, and the weights stored sum to exactly one whole unit.
pub proof fn lemma_create_stores_whole_weights(
    m: PalletModel,
    who: AccountId,
    id: AssetId,
    components: Seq<AssetId>,
    percentages: Seq<u32>,
)
    requires
        components.len() == percentages.len(),
        total(percentages) == 100,
        !m.baskets.contains_key(id),
        !m.ledger.has_asset(id),
    ensures
        create_outcome(m, who, id, components, percentages) matches Ok(m2) && m2.baskets.contains_key(
            id,
        ) && total(m2.baskets[id].weights) == PARTS_PER_UNIT as int,
{
    lemma_percent_weights_sum_to_unit(percentages);
}

/// Creating a basket whose percentages, as many as its components, do not
/// sum to exactly 100 fails with `WeightSumInvalid`.
pub proof fn lemma_create_rejects_other_sums(
    m: PalletModel,
    who: AccountId,
    id: AssetId,
    components: Seq<AssetId>,
    percentages: Seq<u32>,
)
    requires
        components.len() == percentages.len(),
        total(percentages) != 100,
    ensures
        create_outcome(m, who, id, components, percentages) == Err::<PalletModel, Error>(
            Error::WeightSumInvalid,
        ),
{
}

/// Every registered basket of a well-formed engine has weights that sum to
/// exactly one whole unit; every operation keeps the engine well-formed.
pub proof fn lemma_weights_stay_whole(m: PalletModel, id: AssetId)
    requires
        m.wf(),
        m.baskets.contains_key(id),
    ensures
        total(m.baskets[id].weights) == PARTS_PER_UNIT as int,
{
}

/// Settling legs only moves balances between the basket's account and the
/// exchange's: the issuance of every asset, and every other account's
/// balances, are kept.
pub proof fn lemma_settle_keeps_supply(
    l: LedgerModel,
    account: AccountId,
    exchange: AccountId,
    legs: Seq<Leg>,
)
    ensures
        settle_legs(l, account, exchange, legs) matches Ok(l2) ==> l2.supply == l.supply && forall|
            a: AssetId,
            w: AccountId,
        | w != account && w != exchange ==> #[trigger] l2.balance(a, w) == l.balance(a, w),
    decreases legs.len(),
{
    if legs.len() > 0 {
        lemma_settle_keeps_supply(l, account, exchange, legs.drop_last());
        if let Ok(m) = settle_legs(l, account, exchange, legs.drop_last()) {
            let leg = legs.last();
            if leg.source != leg.dest {
                if let Ok(m1) = m.transfer(leg.source, account, exchange, leg.amount_in) {
                    if m1.transfer(leg.dest, exchange, account, leg.amount_out) is Ok {
                        assert forall|a: AssetId, w: AccountId|
                            w != account && w != exchange implies #[trigger] settle_legs(
                            l,
                            account,
                            exchange,
                            legs,
                        )->Ok_0.balance(a, w) == l.balance(a, w) by {
                            lemma_transfer_reads(m, leg.source, account, exchange, leg.amount_in, a, w);
                            lemma_transfer_reads(m1, leg.dest, exchange, account, leg.amount_out, a, w);
                        }
                        lemma_transfer_reads(m, leg.source, account, exchange, leg.amount_in, 0, 0);
                        lemma_transfer_reads(m1, leg.dest, exchange, account, leg.amount_out, 0, 0);
                    }
                }
            }
        }
    }
}

/// Where each leg yields exactly its weight of `amount`, what all legs
/// yield, times one whole unit, is `amount` times the sum of the weights.
proof fn lemma_exact_shares_add_up(legs: Seq<Leg>, weights: Seq<u32>, amount: Balance)
    requires
        legs.len() == weights.len(),
        forall|i: int| 0 <= i < weights.len() ==> (amount * weights[i]) % (PARTS_PER_UNIT as int) == 0,
        forall|i: int| 0 <= i < legs.len() ==> gain(legs[i]) == mul_floor(weights[i], amount),
    ensures
        total_gain(legs) * PARTS_PER_UNIT == amount * total(weights),
    decreases legs.len(),
{
    if legs.len() > 0 {
        let n = legs.len() - 1;
        lemma_exact_shares_add_up(legs.drop_last(), weights.drop_last(), amount);
        let m = PARTS_PER_UNIT as int;
        let w = weights[n] as int;
        let g = gain(legs[n]) as int;
        assert(g * m == amount * w) by (nonlinear_arith)
            requires g == (amount * w) / m, (amount * w) % m == 0, m > 0;
        let t = total_gain(legs.drop_last());
        let s = total(weights.drop_last());
        assert((t + g) * m == amount * (s + w)) by (nonlinear_arith)
            requires t * m == amount * s, g * m == amount * w;
    }
}

/// Buying `amount` shares of a basket that holds nothing and has no shares
/// issued, then selling them all for the reference asset, where every trade
/// yields exactly what it is given, pays out exactly `amount`, provided each
/// component's weight of `amount` is a whole number. The basket is left
/// holding nothing with no shares issued, and a buyer other than the two
/// accounts that trades settle between holds the reference asset it held.
pub proof fn lemma_buy_then_sell_returns_deposit(
    m: PalletModel,
    who: AccountId,
    id: AssetId,
    amount: Balance,
    m1: PalletModel,
    m2: PalletModel,
    payout: Balance,
)
    requires
        m.wf(),
        m.baskets.contains_key(id),
        forall|i: int| 0 <= i < m.positions[id].len() ==> m.positions[id][i] == 0,
        m.ledger.issuance(id) == 0,
        forall|i: int|
            0 <= i < m.baskets[id].weights.len() ==> (amount * m.baskets[id].weights[i]) % (
            PARTS_PER_UNIT as int) == 0,
        buy_outcome(m, who, id, amount, split(m.baskets[id].weights, amount)) == Ok::<
            PalletModel,
            Error,
        >(m1),
        sell_outcome(m1, who, id, REFERENCE_ASSET, amount, redeemed(m1, id, amount)) == Ok::<
            (PalletModel, Balance),
            Error,
        >((m2, payout)),
    ensures
        payout == amount,
        m2.positions[id].len() == m.positions[id].len(),
        forall|i: int| 0 <= i < m2.positions[id].len() ==> m2.positions[id][i] == 0,
        m2.ledger.issuance(id) == 0,
        who != m.account && who != m.exchange && id != REFERENCE_ASSET ==> m2.ledger.balance(
            REFERENCE_ASSET,
            who,
        ) == m.ledger.balance(REFERENCE_ASSET, who),
{
    let b = m.baskets[id];
    let n = b.components.len();
    let acquired = split(b.weights, amount);
    let l0 = m.ledger.transfer(REFERENCE_ASSET, who, m.account, amount)->Ok_0;
    let l1 = l0.mint(id, who, amount)->Ok_0;
    let in_legs = buy_legs(b.components, acquired, acquired);
    lemma_settle_keeps_supply(l1, m.account, m.exchange, in_legs);
    assert(m1.ledger.issuance(id) == amount);
    assert(m1.baskets[id] == b);
    let pos1 = m1.positions[id];
    lemma_weights_bounded(b.weights);
    assert forall|i: int| 0 <= i < n implies pos1[i] == mul_floor(b.weights[i], amount) by {
        lemma_share_bounded(b.weights[i], amount);
        assert(gain(in_legs[i]) == acquired[i]);
    }
    let parts = parts_of_ratio(amount, amount);
    if amount > 0 {
        assert((PARTS_PER_UNIT * amount) / (amount as int) == PARTS_PER_UNIT) by (nonlinear_arith)
            requires amount > 0;
    }
    assert(parts == PARTS_PER_UNIT);
    let taken = redeemed(m1, id, amount);
    assert forall|i: int| 0 <= i < n implies taken[i] == pos1[i] by {
        lemma_whole_unit_takes_all(pos1[i]);
    }
    let out_legs = sell_legs(b.components, taken, taken, REFERENCE_ASSET);
    assert forall|i: int| 0 <= i < n implies gain(out_legs[i]) == mul_floor(b.weights[i], amount) by {
    }
    lemma_exact_shares_add_up(out_legs, b.weights, amount);
    assert(total_gain(out_legs) == amount) by (nonlinear_arith)
        requires
            total_gain(out_legs) * PARTS_PER_UNIT == amount * total(b.weights),
            total(b.weights) == PARTS_PER_UNIT as int,
    ;
    assert(subtract(pos1, taken) =~= Seq::new(n, |i: int| 0u128));
    let k1 = m1.ledger.burn(id, who, amount)->Ok_0;
    lemma_settle_keeps_supply(k1, m.account, m.exchange, out_legs);
    let k2 = settle_legs(k1, m.account, m.exchange, out_legs)->Ok_0;
    lemma_transfer_reads(k2, REFERENCE_ASSET, m.account, who, amount, id, who);
    if who != m.account && who != m.exchange && id != REFERENCE_ASSET {
        let r = REFERENCE_ASSET;
        lemma_transfer_reads(m.ledger, r, who, m.account, amount, r, who);
        lemma_set_balance_reads(
            l0.set_issuance(id, (l0.issuance(id) + amount) as u128),
            id,
            who,
            (l0.balance(id, who) + amount) as u128,
            r,
            who,
        );
        lemma_set_balance_reads(
            m1.ledger.set_issuance(id, (m1.ledger.issuance(id) - amount) as u128),
            id,
            who,
            (m1.ledger.balance(id, who) - amount) as u128,
            r,
            who,
        );
        lemma_transfer_reads(k2, r, m.account, who, amount, r, who);
        let b0 = m.ledger.balance(r, who);
        assert(l0.balance(r, who) == b0 - amount);
        assert(l1.balance(r, who) == b0 - amount);
        assert(m1.ledger.balance(r, who) == l1.balance(r, who));
        assert(k1.balance(r, who) == b0 - amount);
        assert(k2.balance(r, who) == k1.balance(r, who));
        assert(m2.ledger.balance(r, who) == b0);
    }
}

} // verus!
