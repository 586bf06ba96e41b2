//! The engine: a basket registry, one aggregate position per basket, and the
//! ledger they settle against, with the operations that create baskets, buy
//! and sell shares, and change weights. Every operation either completes or
//! fails leaving the engine exactly as it was.
use crate::error::{burn_error, from_burn, from_ledger, ledger_error, Error};
use crate::fraction::{
    apply_nearest, lemma_ratio_within_unit, lemma_share_bounded, parts_of_ratio, ratio_parts,
    PARTS_PER_UNIT,
};
use crate::ledger::{AccountId, AssetId, AssetInfo, Balance, Ledger, LedgerModel};
use crate::registry::{
    lemma_percent_weights_sum_to_unit, lemma_weights_bounded, percent_total, same_weights,
    sound_weights, total, weights_from_percentages, weights_of, Basket, BasketModel,
};
use crate::router::{
    added, converted, failed, grew, hints_view, lemma_conversion_step,
    lemma_converted_join, trade, CallLog, Conversion, Router, RouterCall,
};
use crate::settle::{
    add_gains, add_leg_gains, buy_legs, gains, gains_fit, leg_gains, make_buy_legs,
    make_sell_legs, sell_legs, amount_total, buy_conversions, sell_conversions, copy_amounts,
    lemma_withdrawals_bounded, lemma_total_gain_is_sum, lemma_taken_and_left, lemma_whole_withdrawal, settle_all, settle_legs, split, split_deposit, subtract,
    subtract_amounts, sum_gains, total_gain, withdraw_amounts, withdrawals, REFERENCE_ASSET,
};
use std::collections::HashMap;
use vstd::prelude::*;

verus! {

broadcast use vstd::std_specs::hash::group_hash_axioms;

/// The engine as values.
pub struct PalletModel {
    /// The custodial account that holds what the baskets acquire.
    pub account: AccountId,
    /// The account the exchange settles trades from.
    pub exchange: AccountId,
    pub baskets: Map<AssetId, BasketModel>,
    /// What each basket holds of each of its components.
    pub positions: Map<AssetId, Seq<Balance>>,
    pub ledger: LedgerModel,
}

impl PalletModel {
    /// Every registered basket has sound weights and a position with one
    /// entry per component.
    pub open spec fn wf(self) -> bool {
        forall|id: AssetId| #[trigger]
            self.baskets.contains_key(id) ==> {
                &&& self.positions.contains_key(id)
                &&& self.positions[id].len() == self.baskets[id].components.len()
                &&& sound_weights(self.baskets[id].components, self.baskets[id].weights)
            }
    }

    pub open spec fn with_ledger(self, l: LedgerModel) -> PalletModel {
        PalletModel {
            account: self.account,
            exchange: self.exchange,
            baskets: self.baskets,
            positions: self.positions,
            ledger: l,
        }
    }

    pub open spec fn with_position(self, id: AssetId, pos: Seq<Balance>) -> PalletModel {
        PalletModel {
            account: self.account,
            exchange: self.exchange,
            baskets: self.baskets,
            positions: self.positions.insert(id, pos),
            ledger: self.ledger,
        }
    }

    pub open spec fn with_basket(self, id: AssetId, b: BasketModel) -> PalletModel {
        PalletModel {
            account: self.account,
            exchange: self.exchange,
            baskets: self.baskets.insert(id, b),
            positions: self.positions,
            ledger: self.ledger,
        }
    }
}

/// `after` is what `expected` gives when `r` succeeds, and `before` is kept,
/// with the same error, when it fails.
pub open spec fn done(
    r: Result<(), Error>,
    before: PalletModel,
    after: PalletModel,
    expected: Result<PalletModel, Error>,
) -> bool {
    match expected {
        Ok(m) => r is Ok && after == m,
        Err(e) => r == Err::<(), Error>(e) && after == before,
    }
}

/// The outcome of creating basket `id` of `components` with weight
/// `percentages`, owned by `who`.
pub open spec fn create_outcome(
    m: PalletModel,
    who: AccountId,
    id: AssetId,
    components: Seq<AssetId>,
    percentages: Seq<u32>,
) -> Result<PalletModel, Error> {
    if components.len() != percentages.len() {
        Err(Error::LengthMismatch)
    } else if total(percentages) != 100 {
        Err(Error::WeightSumInvalid)
    } else if m.baskets.contains_key(id) {
        Err(Error::AlreadyExists)
    } else {
        match m.ledger.create(
            id,
            AssetInfo { controller: m.account, is_sufficient: true, min_balance: 1 },
        ) {
            Err(e) => Err(from_ledger(e)),
            Ok(l) => Ok(
                m.with_ledger(l).with_basket(
                    id,
                    BasketModel {
                        owner: who,
                        components: components,
                        weights: weights_of(percentages),
                        route_hints: Seq::empty(),
                    },
                ).with_position(id, Seq::new(components.len(), |i: int| 0u128)),
            ),
        }
    }
}

/// The ledger after `who` deposits `amount` of the reference asset with the
/// engine and is minted as many shares of basket `id`.
pub open spec fn buy_check(m: PalletModel, who: AccountId, id: AssetId, amount: Balance) -> Result<
    LedgerModel,
    Error,
> {
    if !m.baskets.contains_key(id) {
        Err(Error::UnknownBasket)
    } else {
        match m.ledger.transfer(REFERENCE_ASSET, who, m.account, amount) {
            Err(e) => Err(from_ledger(e)),
            Ok(l) => match l.mint(id, who, amount) {
                Err(e) => Err(from_ledger(e)),
                Ok(l2) => Ok(l2),
            },
        }
    }
}

/// The outcome of `who` buying `amount` shares of basket `id`, where the
/// trade for each component yielded `acquired`: the deposit and the mint,
/// then each component's weight of the deposit traded from the reference
/// asset, and what each trade yielded added to the position. A component
/// that is the reference asset is not traded and yields its amount.
pub open spec fn buy_outcome(
    m: PalletModel,
    who: AccountId,
    id: AssetId,
    amount: Balance,
    acquired: Seq<Balance>,
) -> Result<PalletModel, Error> {
    match buy_check(m, who, id, amount) {
        Err(e) => Err(e),
        Ok(l) => {
            let b = m.baskets[id];
            if acquired.len() != b.components.len() {
                Err(Error::LengthMismatch)
            } else {
                let legs = buy_legs(b.components, split(b.weights, amount), acquired);
                match settle_legs(l, m.account, m.exchange, legs) {
                    Err(e) => Err(from_ledger(e)),
                    Ok(l2) => if !gains_fit(m.positions[id], legs) {
                        Err(Error::Overflow)
                    } else {
                        Ok(m.with_ledger(l2).with_position(id, add_gains(m.positions[id], legs)))
                    },
                }
            }
        },
    }
}

/// The ledger after `who` burns `shares` of basket `id`, once it is known
/// that at least that many shares exist.
pub open spec fn sell_check(m: PalletModel, who: AccountId, id: AssetId, shares: Balance) -> Result<
    LedgerModel,
    Error,
> {
    if !m.baskets.contains_key(id) {
        Err(Error::UnknownBasket)
    } else if m.ledger.issuance(id) < shares {
        Err(Error::InsufficientShares)
    } else {
        match m.ledger.burn(id, who, shares) {
            Err(e) => Err(from_burn(e)),
            Ok(l) => Ok(l),
        }
    }
}

/// The fraction of a basket, in parts, that `shares` of `issued` shares
/// redeem; no shares redeem nothing.
pub open spec fn sale_parts(shares: Balance, issued: Balance) -> u32 {
    if shares == 0 {
        0
    } else {
        parts_of_ratio(shares, issued) as u32
    }
}

fn sale_fraction(shares: Balance, issued: Balance) -> (r: u32)
    ensures
        r == sale_parts(shares, issued),
        r <= PARTS_PER_UNIT,
{
    proof {
        lemma_ratio_within_unit(shares, issued);
    }
    if shares == 0 {
        0
    } else {
        ratio_parts(shares, issued)
    }
}

/// What `shares` of basket `id` take out of each entry of its position: the
/// entry's share in the fraction `shares / issued shares`.
pub open spec fn redeemed(m: PalletModel, id: AssetId, shares: Balance) -> Seq<Balance> {
    withdrawals(m.positions[id], sale_parts(shares, m.ledger.issuance(id)))
}

/// The outcome, and the payout, of `who` selling `shares` of basket `id` for
/// `dest`, where the trade of each component yielded `received`: the burn,
/// the redeemed amounts taken out of the position and traded into `dest`
/// (a component that is `dest` is not traded and yields its amount), and
/// everything yielded paid to `who`.
pub open spec fn sell_outcome(
    m: PalletModel,
    who: AccountId,
    id: AssetId,
    dest: AssetId,
    shares: Balance,
    received: Seq<Balance>,
) -> Result<(PalletModel, Balance), Error> {
    match sell_check(m, who, id, shares) {
        Err(e) => Err(e),
        Ok(l) => {
            let b = m.baskets[id];
            let taken = redeemed(m, id, shares);
            if received.len() != b.components.len() {
                Err(Error::LengthMismatch)
            } else {
                let legs = sell_legs(b.components, taken, received, dest);
                match settle_legs(l, m.account, m.exchange, legs) {
                    Err(e) => Err(from_ledger(e)),
                    Ok(l2) => if total_gain(legs) > u128::MAX {
                        Err(Error::Overflow)
                    } else {
                        match l2.transfer(dest, m.account, who, total_gain(legs) as u128) {
                            Err(e) => Err(from_ledger(e)),
                            Ok(l3) => Ok(
                                (
                                    m.with_ledger(l3).with_position(
                                        id,
                                        subtract(m.positions[id], taken),
                                    ),
                                    total_gain(legs) as u128,
                                ),
                            ),
                        }
                    },
                }
            }
        },
    }
}

/// `after` and `r` are what `expected` gives when it succeeds, and `before`
/// is kept, with the same error, when it fails.
pub open spec fn paid(
    r: Result<Balance, Error>,
    before: PalletModel,
    after: PalletModel,
    expected: Result<(PalletModel, Balance), Error>,
) -> bool {
    match expected {
        Ok((m, payout)) => r == Ok::<Balance, Error>(payout) && after == m,
        Err(e) => r == Err::<Balance, Error>(e) && after == before,
    }
}

/// The checks that come before any trade when `who` sets the weight
/// percentages of basket `id` to `percentages`.
pub open spec fn rebalance_check(
    m: PalletModel,
    who: AccountId,
    id: AssetId,
    percentages: Seq<u32>,
) -> Result<(), Error> {
    if !m.baskets.contains_key(id) || m.baskets[id].owner != who {
        Err(Error::NotOwner)
    } else if total(percentages) != 100 {
        Err(Error::WeightSumInvalid)
    } else if percentages.len() != m.baskets[id].components.len() {
        Err(Error::LengthMismatch)
    } else if weights_of(percentages) == m.baskets[id].weights {
        Err(Error::NoChange)
    } else {
        Ok(())
    }
}

/// The outcome of `who` setting the weight percentages of basket `id` to
/// `percentages`, where liquidating each component into the reference asset
/// yielded `received` and reacquiring them yielded `acquired`: the whole
/// position is traded into the reference asset, the sum is split by the new
/// weights and traded back, and the new position is what that yielded.
pub open spec fn rebalance_outcome(
    m: PalletModel,
    who: AccountId,
    id: AssetId,
    percentages: Seq<u32>,
    received: Seq<Balance>,
    acquired: Seq<Balance>,
) -> Result<PalletModel, Error> {
    match rebalance_check(m, who, id, percentages) {
        Err(e) => Err(e),
        Ok(()) => {
            let b = m.baskets[id];
            let n = b.components.len();
            if received.len() != n || acquired.len() != n {
                Err(Error::LengthMismatch)
            } else {
                let out_legs = sell_legs(b.components, m.positions[id], received, REFERENCE_ASSET);
                if total_gain(out_legs) > u128::MAX {
                    Err(Error::Overflow)
                } else {
                    match settle_legs(m.ledger, m.account, m.exchange, out_legs) {
                        Err(e) => Err(from_ledger(e)),
                        Ok(l) => {
                            let weights = weights_of(percentages);
                            let in_legs = buy_legs(
                                b.components,
                                split(weights, total_gain(out_legs) as u128),
                                acquired,
                            );
                            match settle_legs(l, m.account, m.exchange, in_legs) {
                                Err(e) => Err(from_ledger(e)),
                                Ok(l2) => Ok(
                                    m.with_ledger(l2).with_position(id, gains(in_legs)).with_basket(
                                        id,
                                        BasketModel {
                                            owner: b.owner,
                                            components: b.components,
                                            weights: weights,
                                            route_hints: b.route_hints,
                                        },
                                    ),
                                ),
                            }
                        },
                    }
                }
            }
        },
    }
}

/// Whether every component is `asset`, so that nothing needs trading.
pub open spec fn all_are(components: Seq<AssetId>, asset: AssetId) -> bool {
    forall|i: int| 0 <= i < components.len() ==> components[i] == asset
}

/// The conversions a purchase of `amount` shares of basket `id` makes: each
/// component's weight of the deposit, out of the reference asset.
pub open spec fn buy_trades(m: PalletModel, id: AssetId, amount: Balance) -> Seq<Conversion> {
    buy_conversions(m.baskets[id].components, split(m.baskets[id].weights, amount))
}

/// The conversions a sale of `shares` of basket `id` for `dest` makes: what
/// the shares redeem of each component, into `dest`.
pub open spec fn sell_trades(m: PalletModel, id: AssetId, dest: AssetId, shares: Balance) -> Seq<
    Conversion,
> {
    sell_conversions(m.baskets[id].components, redeemed(m, id, shares), dest)
}

/// The conversions that liquidate basket `id` into the reference asset.
pub open spec fn liquidation_trades(m: PalletModel, id: AssetId) -> Seq<Conversion> {
    sell_conversions(m.baskets[id].components, m.positions[id], REFERENCE_ASSET)
}

/// The conversions that reacquire basket `id` at the weight `percentages`
/// once liquidating it yielded `received`.
pub open spec fn reacquisition_trades(
    m: PalletModel,
    id: AssetId,
    percentages: Seq<u32>,
    received: Seq<Balance>,
) -> Seq<Conversion> {
    buy_conversions(
        m.baskets[id].components,
        split(
            weights_of(percentages),
            total_gain(
                sell_legs(m.baskets[id].components, m.positions[id], received, REFERENCE_ASSET),
            ) as u128,
        ),
    )
}

/// How a change of the weights of basket `id` that passed its checks can
/// fail with `e`, given the calls `log` made to the router: a liquidating
/// trade failed; or the liquidation's proceeds do not fit; or a reacquiring
/// trade failed; or settling the trades failed.
pub open spec fn rebalance_failed(
    log: CallLog,
    m: PalletModel,
    who: AccountId,
    id: AssetId,
    percentages: Seq<u32>,
    e: Error,
) -> bool {
    let hints = m.baskets[id].route_hints;
    ||| failed(log, m.account, liquidation_trades(m, id), hints, e)
    ||| exists|received: Seq<Balance>|
        {
            &&& converted(log, m.account, liquidation_trades(m, id), hints, received)
            &&& rebalance_outcome(m, who, id, percentages, received, received) == Err::<
                PalletModel,
                Error,
            >(e)
        }
    ||| exists|received: Seq<Balance>, j: int|
        {
            &&& 0 <= j <= log.len()
            &&& converted(log.take(j), m.account, liquidation_trades(m, id), hints, received)
            &&& failed(
                log.skip(j),
                m.account,
                reacquisition_trades(m, id, percentages, received),
                hints,
                e,
            )
        }
    ||| exists|received: Seq<Balance>, acquired: Seq<Balance>|
        {
            &&& converted(
                log,
                m.account,
                liquidation_trades(m, id) + reacquisition_trades(m, id, percentages, received),
                hints,
                received + acquired,
            )
            &&& rebalance_outcome(m, who, id, percentages, received, acquired) == Err::<
                PalletModel,
                Error,
            >(e)
        }
}

/// The engine: baskets by id, the aggregate position of each basket, and the
/// ledger, with the custodial account that holds basket assets and the
/// account the exchange settles from. Operations take the caller's account
/// and, where they trade, the router to trade through.
pub struct Pallet {
    account: AccountId,
    exchange: AccountId,
    baskets: HashMap<AssetId, Basket>,
    positions: HashMap<AssetId, Vec<Balance>>,
    ledger: Ledger,
}

impl View for Pallet {
    type V = PalletModel;

    closed spec fn view(&self) -> PalletModel {
        PalletModel {
            account: self.account,
            exchange: self.exchange,
            baskets: self.baskets@.map_values(|b: Basket| b@),
            positions: self.positions@.map_values(|v: Vec<Balance>| v@),
            ledger: self.ledger@,
        }
    }
}

impl Pallet {
    /// An engine with no baskets over `ledger`, holding basket assets in
    /// `account` and trading with the exchange's account `exchange`.
    pub fn new(ledger: Ledger, account: AccountId, exchange: AccountId) -> (r: Pallet)
        ensures
            r@.wf(),
            r@.account == account,
            r@.exchange == exchange,
            r@.baskets == Map::<AssetId, BasketModel>::empty(),
            r@.positions == Map::<AssetId, Seq<Balance>>::empty(),
            r@.ledger == ledger@,
    {
        let r = Pallet {
            account,
            exchange,
            baskets: HashMap::new(),
            positions: HashMap::new(),
            ledger,
        };
        assert(r@.baskets =~= Map::<AssetId, BasketModel>::empty());
        assert(r@.positions =~= Map::<AssetId, Seq<Balance>>::empty());
        r
    }

    /// The custodial account of the baskets.
    pub fn account_id(&self) -> (r: AccountId)
        ensures
            r == self@.account,
    {
        self.account
    }

    /// The ledger the baskets settle against.
    pub fn ledger(&self) -> (r: &Ledger)
        ensures
            r@ == self@.ledger,
    {
        &self.ledger
    }

    /// The basket registered under `id`.
    pub fn basket(&self, id: AssetId) -> (r: Option<&Basket>)
        ensures
            match r {
                Some(b) => self@.baskets.contains_key(id) && b@ == self@.baskets[id],
                None => !self@.baskets.contains_key(id),
            },
    {
        self.baskets.get(&id)
    }

    /// What basket `id` holds of each of its components.
    pub fn position(&self, id: AssetId) -> (r: Option<&Vec<Balance>>)
        ensures
            match r {
                Some(v) => self@.positions.contains_key(id) && v@ == self@.positions[id],
                None => !self@.positions.contains_key(id),
            },
    {
        self.positions.get(&id)
    }

    /// Registers basket `basket_id` of `components` with weight percentages
    /// `exchange_rates`, owned by `who`, creates its share asset (controlled
    /// by the custodial account, sufficient, minimum balance 1), and starts
    /// its position at zero.
    pub fn create_portofio(
        &mut self,
        who: AccountId,
        basket_id: AssetId,
        components: Vec<AssetId>,
        exchange_rates: Vec<u32>,
    ) -> (r: Result<(), Error>)
        requires
            old(self)@.wf(),
        ensures
            final(self)@.wf(),
            done(
                r,
                old(self)@,
                final(self)@,
                create_outcome(old(self)@, who, basket_id, components@, exchange_rates@),
            ),
    {
        if components.len() != exchange_rates.len() {
            return Err(Error::LengthMismatch);
        }
        if percent_total(&exchange_rates) != 100 {
            return Err(Error::WeightSumInvalid);
        }
        if self.baskets.contains_key(&basket_id) {
            return Err(Error::AlreadyExists);
        }
        match self.ledger.create_asset(basket_id, self.account, true, 1) {
            Ok(()) => {},
            Err(e) => {
                return Err(ledger_error(e));
            },
        }
        let weights = weights_from_percentages(&exchange_rates);
        proof {
            lemma_percent_weights_sum_to_unit(exchange_rates@);
        }
        let n = components.len();
        let mut zeros: Vec<Balance> = Vec::new();
        let mut i: usize = 0;
        while i < n
            invariant
                i <= n,
                zeros@ == Seq::new(i as nat, |j: int| 0u128),
            decreases n - i,
        {
            zeros.push(0);
            i = i + 1;
            assert(zeros@ =~= Seq::new(i as nat, |j: int| 0u128));
        }
        let ghost before = self@;
        let basket = Basket {
            owner: who,
            components,
            weights,
            route_hints: Vec::new(),
        };
        assert(basket@.route_hints =~= Seq::<Seq<AssetId>>::empty());
        self.baskets.insert(basket_id, basket);
        self.positions.insert(basket_id, zeros);
        assert(self@.baskets =~= before.baskets.insert(basket_id, basket@));
        assert(self@.positions =~= before.positions.insert(basket_id, zeros@));
        Ok(())
    }

    /// Replaces the route hints of basket `basket_id` with `paths`.
    pub fn set_swap_path(&mut self, basket_id: AssetId, paths: Vec<Vec<AssetId>>) -> (r: Result<
        (),
        Error,
    >)
        requires
            old(self)@.wf(),
        ensures
            final(self)@.wf(),
            r is Err <==> !old(self)@.baskets.contains_key(basket_id),
            r is Err ==> r == Err::<(), Error>(Error::UnknownBasket) && final(self)@ == old(self)@,
            r is Ok ==> final(self)@ == old(self)@.with_basket(
                basket_id,
                BasketModel {
                    owner: old(self)@.baskets[basket_id].owner,
                    components: old(self)@.baskets[basket_id].components,
                    weights: old(self)@.baskets[basket_id].weights,
                    route_hints: hints_view(paths),
                },
            ),
    {
        let ghost before = self@;
        let ghost raw = self.baskets@;
        match self.baskets.remove(&basket_id) {
            None => {
                assert(self.baskets@ =~= raw);
                assert(self@ == before);
                Err(Error::UnknownBasket)
            },
            Some(b) => {
                let updated = Basket {
                    owner: b.owner,
                    components: b.components,
                    weights: b.weights,
                    route_hints: paths,
                };
                self.baskets.insert(basket_id, updated);
                assert(self@.baskets =~= before.baskets.insert(basket_id, updated@));
                assert(forall|id: AssetId| #[trigger]
                    self@.baskets.contains_key(id) ==> self@.baskets[id].components
                        == before.baskets[id].components && self@.baskets[id].weights
                        == before.baskets[id].weights && before.baskets.contains_key(id));
                Ok(())
            },
        }
    }

    /// Trades each component's weight of `amount` out of the reference asset
    /// for the custodial account, and returns what each trade yielded.
    pub fn do_buy<R: Router>(
        &self,
        router: &mut R,
        amount: Balance,
        ids: &Vec<AssetId>,
        rates: &Vec<u32>,
        hints: &Vec<Vec<AssetId>>,
    ) -> (r: Result<Vec<Balance>, Error>)
        requires
            ids.len() <= rates.len(),
            forall|i: int| 0 <= i < rates.len() ==> rates[i] <= PARTS_PER_UNIT,
        ensures
            grew(old(router).calls(), final(router).calls()),
            r matches Ok(v) ==> converted(
                added(old(router).calls(), final(router).calls()),
                self@.account,
                buy_conversions(ids@, split(rates@, amount)),
                hints_view(*hints),
                v@,
            ),
            r matches Err(e) ==> failed(
                added(old(router).calls(), final(router).calls()),
                self@.account,
                buy_conversions(ids@, split(rates@, amount)),
                hints_view(*hints),
                e,
            ),
            all_are(ids@, REFERENCE_ASSET) ==> (r matches Ok(v) && v@ == split(rates@, amount).take(
                ids.len() as int,
            )),
    {
        let amounts = split_deposit(rates, amount);
        let ghost start = router.calls();
        let ghost cs = buy_conversions(ids@, amounts@);
        let ghost hv = hints_view(*hints);
        let mut out: Vec<Balance> = Vec::new();
        let mut i: usize = 0;
        proof {
            assert(added(start, start) =~= Seq::<RouterCall>::empty());
            assert(start.take(start.len() as int) =~= start);
            assert(cs.take(0) =~= Seq::<Conversion>::empty());
        }
        while i < ids.len()
            invariant
                i <= ids.len(),
                ids.len() <= rates.len(),
                amounts@ == split(rates@, amount),
                cs == buy_conversions(ids@, amounts@),
                hv == hints_view(*hints),
                start == old(router).calls(),
                out.len() == i,
                forall|j: int| 0 <= j < i && ids[j] == REFERENCE_ASSET ==> out[j] == amounts[j],
                grew(start, router.calls()),
                converted(added(start, router.calls()), self@.account, cs.take(i as int), hv, out@),
            decreases ids.len() - i,
        {
            let ghost before = router.calls();
            let res = trade(router, self.account, REFERENCE_ASSET, ids[i], amounts[i], hints);
            proof {
                lemma_conversion_step(start, before, router.calls(), self@.account, cs, i as int, hv, out@, res);
            }
            match res {
                Ok(v) => out.push(v),
                Err(e) => {
                    return Err(e);
                },
            }
            i = i + 1;
        }
        proof {
            assert(cs.take(ids.len() as int) =~= cs);
            if all_are(ids@, REFERENCE_ASSET) {
                assert(out@ =~= split(rates@, amount).take(ids.len() as int));
            }
        }
        Ok(out)
    }

    /// Settles a purchase of `amount` shares of basket `basket_id` by `who`
    /// whose trades yielded `acquired`, one amount per component.
    pub fn settle_buy(
        &mut self,
        who: AccountId,
        basket_id: AssetId,
        amount: Balance,
        acquired: &Vec<Balance>,
    ) -> (r: Result<(), Error>)
        requires
            old(self)@.wf(),
        ensures
            final(self)@.wf(),
            done(r, old(self)@, final(self)@, buy_outcome(old(self)@, who, basket_id, amount, acquired@)),
    {
        let ghost before = self@;
        let basket = match self.baskets.get(&basket_id) {
            None => {
                return Err(Error::UnknownBasket);
            },
            Some(b) => b,
        };
        let mut staged = self.ledger.snapshot();
        match staged.transfer(REFERENCE_ASSET, who, self.account, amount) {
            Ok(()) => {},
            Err(e) => {
                return Err(ledger_error(e));
            },
        }
        match staged.mint(basket_id, who, amount) {
            Ok(()) => {},
            Err(e) => {
                return Err(ledger_error(e));
            },
        }
        if acquired.len() != basket.components.len() {
            return Err(Error::LengthMismatch);
        }
        proof {
            lemma_weights_bounded(basket.weights@);
        }
        let amounts = split_deposit(&basket.weights, amount);
        let legs = make_buy_legs(&basket.components, &amounts, acquired);
        match settle_all(&mut staged, self.account, self.exchange, &legs) {
            Ok(()) => {},
            Err(e) => {
                return Err(ledger_error(e));
            },
        }
        let pos = match self.positions.get(&basket_id) {
            None => {
                return Err(Error::UnknownBasket);
            },
            Some(p) => p,
        };
        let updated = match add_leg_gains(pos, &legs) {
            None => {
                return Err(Error::Overflow);
            },
            Some(v) => v,
        };
        self.ledger = staged;
        self.positions.insert(basket_id, updated);
        assert(self@.positions =~= before.positions.insert(basket_id, updated@));
        assert(self@.baskets == before.baskets);
        Ok(())
    }

    /// `who` deposits `amount` of the reference asset and is minted `amount`
    /// shares of basket `basket_id`; each component's weight of the deposit is
    /// traded into that component and added to the basket's position.
    pub fn buy<R: Router>(&mut self, router: &mut R, who: AccountId, basket_id: AssetId, amount: Balance) -> (r:
        Result<(), Error>)
        requires
            old(self)@.wf(),
        ensures
            final(self)@.wf(),
            grew(old(router).calls(), final(router).calls()),
            r is Err ==> final(self)@ == old(self)@,
            buy_check(old(self)@, who, basket_id, amount) matches Err(e) ==> r == Err::<(), Error>(e)
                && final(router).calls() == old(router).calls(),
            r is Ok ==> exists|acquired: Seq<Balance>|
                {
                    &&& buy_outcome(old(self)@, who, basket_id, amount, acquired) == Ok::<
                        PalletModel,
                        Error,
                    >(final(self)@)
                    &&& converted(
                        added(old(router).calls(), final(router).calls()),
                        old(self)@.account,
                        buy_trades(old(self)@, basket_id, amount),
                        old(self)@.baskets[basket_id].route_hints,
                        acquired,
                    )
                },
            r matches Err(e) ==> {
                ||| buy_check(old(self)@, who, basket_id, amount) == Err::<LedgerModel, Error>(e)
                ||| failed(
                    added(old(router).calls(), final(router).calls()),
                    old(self)@.account,
                    buy_trades(old(self)@, basket_id, amount),
                    old(self)@.baskets[basket_id].route_hints,
                    e,
                )
                ||| exists|acquired: Seq<Balance>|
                    {
                        &&& converted(
                            added(old(router).calls(), final(router).calls()),
                            old(self)@.account,
                            buy_trades(old(self)@, basket_id, amount),
                            old(self)@.baskets[basket_id].route_hints,
                            acquired,
                        )
                        &&& buy_outcome(old(self)@, who, basket_id, amount, acquired) == Err::<
                            PalletModel,
                            Error,
                        >(e)
                    }
            },
            all_are(old(self)@.baskets[basket_id].components, REFERENCE_ASSET) ==> done(
                r,
                old(self)@,
                final(self)@,
                buy_outcome(
                    old(self)@,
                    who,
                    basket_id,
                    amount,
                    split(old(self)@.baskets[basket_id].weights, amount),
                ),
            ),
    {
        let ghost none = Seq::<Balance>::empty();
        let ghost c0 = router.calls();
        assert(c0.take(c0.len() as int) =~= c0);
        let basket = match self.baskets.get(&basket_id) {
            None => {
                assert(buy_outcome(self@, who, basket_id, amount, none) == Err::<PalletModel, Error>(
                    Error::UnknownBasket,
                ));
                return Err(Error::UnknownBasket);
            },
            Some(b) => b,
        };
        let mut probe = self.ledger.snapshot();
        match probe.transfer(REFERENCE_ASSET, who, self.account, amount) {
            Ok(()) => {},
            Err(e) => {
                let err = ledger_error(e);
                assert(buy_outcome(self@, who, basket_id, amount, none) == Err::<PalletModel, Error>(
                    err,
                ));
                return Err(err);
            },
        }
        match probe.mint(basket_id, who, amount) {
            Ok(()) => {},
            Err(e) => {
                let err = ledger_error(e);
                assert(buy_outcome(self@, who, basket_id, amount, none) == Err::<PalletModel, Error>(
                    err,
                ));
                return Err(err);
            },
        }
        proof {
            lemma_weights_bounded(basket.weights@);
        }
        let acquired = match self.do_buy(
            router,
            amount,
            &basket.components,
            &basket.weights,
            &basket.route_hints,
        ) {
            Ok(v) => v,
            Err(e) => {
                return Err(e);
            },
        };
        proof {
            assert(basket.weights@.len() == basket.components@.len());
            assert(split(basket.weights@, amount).take(basket.components@.len() as int) =~= split(
                basket.weights@,
                amount,
            ));
        }
        let ghost before = self@;
        let r = self.settle_buy(who, basket_id, amount, &acquired);
        assert(r is Ok ==> buy_outcome(before, who, basket_id, amount, acquired@) == Ok::<
            PalletModel,
            Error,
        >(self@));
        assert(r matches Err(e) ==> buy_outcome(before, who, basket_id, amount, acquired@) == Err::<
            PalletModel,
            Error,
        >(e));
        r
    }

    /// Takes the fraction `parts` out of each of the first `ids.len()` entries
    /// of `saved_balances`, one per component, trades what was taken of each
    /// component `ids[i]` into `dst_id` for the custodial account, and returns
    /// what each trade yielded. Their sum is the proceeds of the sale.
    pub fn do_sell<R: Router>(
        &self,
        router: &mut R,
        saved_balances: &mut Vec<Balance>,
        ids: &Vec<AssetId>,
        parts: u32,
        dst_id: AssetId,
        hints: &Vec<Vec<AssetId>>,
    ) -> (r: Result<Vec<Balance>, Error>)
        requires
            ids.len() <= old(saved_balances).len(),
            parts <= PARTS_PER_UNIT,
        ensures
            grew(old(router).calls(), final(router).calls()),
            r is Ok ==> final(saved_balances)@ == subtract(
                old(saved_balances)@.take(ids.len() as int),
                withdrawals(old(saved_balances)@.take(ids.len() as int), parts),
            ) + old(saved_balances)@.skip(ids.len() as int),
            r is Ok && parts == PARTS_PER_UNIT ==> forall|i: int|
                0 <= i < ids.len() ==> final(saved_balances)[i] == 0,
            r matches Ok(v) ==> converted(
                added(old(router).calls(), final(router).calls()),
                self@.account,
                sell_conversions(
                    ids@,
                    withdrawals(old(saved_balances)@.take(ids.len() as int), parts),
                    dst_id,
                ),
                hints_view(*hints),
                v@,
            ),
            r matches Ok(v) ==> amount_total(v@) == total_gain(
                sell_legs(
                    ids@,
                    withdrawals(old(saved_balances)@.take(ids.len() as int), parts),
                    v@,
                    dst_id,
                ),
            ),
            r matches Ok(v) ==> (v@ == withdrawals(old(saved_balances)@.take(ids.len() as int), parts)
                ==> amount_total(v@) + amount_total(final(saved_balances)@.take(ids.len() as int))
                == amount_total(old(saved_balances)@.take(ids.len() as int))),
            all_are(ids@, dst_id) ==> (r matches Ok(v) && v@ == withdrawals(
                old(saved_balances)@.take(ids.len() as int),
                parts,
            )),
            r matches Err(e) ==> failed(
                added(old(router).calls(), final(router).calls()),
                self@.account,
                sell_conversions(
                    ids@,
                    withdrawals(old(saved_balances)@.take(ids.len() as int), parts),
                    dst_id,
                ),
                hints_view(*hints),
                e,
            ),
    {
        let ghost pos = saved_balances@;
        let ghost head = pos.take(ids.len() as int);
        let mut amounts: Vec<Balance> = Vec::new();
        let mut i: usize = 0;
        while i < ids.len()
            invariant
                i <= ids.len(),
                ids.len() <= pos.len(),
                head == pos.take(ids.len() as int),
                parts <= PARTS_PER_UNIT,
                saved_balances.len() == pos.len(),
                amounts.len() == i,
                forall|j: int| 0 <= j < i ==> amounts[j] == withdrawals(head, parts)[j],
                forall|j: int| 0 <= j < i ==> saved_balances[j] == pos[j] - amounts[j],
                forall|j: int| i <= j < pos.len() ==> saved_balances[j] == pos[j],
            decreases ids.len() - i,
        {
            let w = apply_nearest(parts, saved_balances[i]);
            proof {
                lemma_share_bounded(parts, pos[i as int]);
            }
            amounts.push(w);
            let left = saved_balances[i] - w;
            saved_balances[i] = left;
            i = i + 1;
        }
        proof {
            lemma_withdrawals_bounded(head, parts);
            assert(amounts@ =~= withdrawals(head, parts));
            assert(saved_balances@ =~= subtract(head, amounts@) + pos.skip(ids.len() as int));
        }
        assert(pos == old(saved_balances)@);
        let ghost start = router.calls();
        let ghost cs = sell_conversions(ids@, amounts@, dst_id);
        let ghost hv = hints_view(*hints);
        let mut out: Vec<Balance> = Vec::new();
        let mut i: usize = 0;
        proof {
            assert(added(start, start) =~= Seq::<RouterCall>::empty());
            assert(start.take(start.len() as int) =~= start);
            assert(cs.take(0) =~= Seq::<Conversion>::empty());
        }
        while i < ids.len()
            invariant
                i <= ids.len(),
                amounts.len() == ids.len(),
                cs == sell_conversions(ids@, amounts@, dst_id),
                amounts@ == withdrawals(old(saved_balances)@.take(ids.len() as int), parts),
                hv == hints_view(*hints),
                start == old(router).calls(),
                out.len() == i,
                forall|j: int| 0 <= j < i && ids[j] == dst_id ==> out[j] == amounts[j],
                grew(start, router.calls()),
                converted(added(start, router.calls()), self@.account, cs.take(i as int), hv, out@),
            decreases ids.len() - i,
        {
            let ghost before = router.calls();
            let res = trade(router, self.account, ids[i], dst_id, amounts[i], hints);
            proof {
                lemma_conversion_step(start, before, router.calls(), self@.account, cs, i as int, hv, out@, res);
            }
            match res {
                Ok(v) => out.push(v),
                Err(e) => {
                    return Err(e);
                },
            }
            i = i + 1;
        }
        proof {
            assert(cs.take(ids.len() as int) =~= cs);
            let legs = sell_legs(ids@, amounts@, out@, dst_id);
            lemma_total_gain_is_sum(legs, out@);
            lemma_taken_and_left(head, amounts@);
            assert(saved_balances@.take(ids.len() as int) =~= subtract(head, amounts@));
            if parts == PARTS_PER_UNIT {
                lemma_whole_withdrawal(head);
            }
            if all_are(ids@, dst_id) {
                assert(out@ =~= amounts@);
            }
        }
        Ok(out)
    }

    /// Settles a sale of `amount` shares of basket `basket_id` by `who` for
    /// `dst_id` whose trades yielded `received`, one amount per component.
    /// Returns the payout.
    pub fn settle_sell(
        &mut self,
        who: AccountId,
        basket_id: AssetId,
        dst_id: AssetId,
        amount: Balance,
        received: &Vec<Balance>,
    ) -> (r: Result<Balance, Error>)
        requires
            old(self)@.wf(),
        ensures
            final(self)@.wf(),
            paid(
                r,
                old(self)@,
                final(self)@,
                sell_outcome(old(self)@, who, basket_id, dst_id, amount, received@),
            ),
    {
        let ghost before = self@;
        let basket = match self.baskets.get(&basket_id) {
            None => {
                return Err(Error::UnknownBasket);
            },
            Some(b) => b,
        };
        let whole = self.ledger.total_issuance(basket_id);
        if whole < amount {
            return Err(Error::InsufficientShares);
        }
        let mut staged = self.ledger.snapshot();
        match staged.burn(basket_id, who, amount) {
            Ok(()) => {},
            Err(e) => {
                return Err(burn_error(e));
            },
        }
        if received.len() != basket.components.len() {
            return Err(Error::LengthMismatch);
        }
        let parts = sale_fraction(amount, whole);
        let pos = match self.positions.get(&basket_id) {
            None => {
                return Err(Error::UnknownBasket);
            },
            Some(p) => p,
        };
        let taken = withdraw_amounts(pos, parts);
        assert(taken@ == redeemed(before, basket_id, amount));
        let legs = make_sell_legs(&basket.components, &taken, received, dst_id);
        match settle_all(&mut staged, self.account, self.exchange, &legs) {
            Ok(()) => {},
            Err(e) => {
                return Err(ledger_error(e));
            },
        }
        let payout = match sum_gains(&legs) {
            None => {
                return Err(Error::Overflow);
            },
            Some(v) => v,
        };
        match staged.transfer(dst_id, self.account, who, payout) {
            Ok(()) => {},
            Err(e) => {
                return Err(ledger_error(e));
            },
        }
        proof {
            assert forall|i: int| 0 <= i < pos.len() implies taken[i] <= pos[i] by {
                lemma_share_bounded(parts, pos[i]);
            }
        }
        let remaining = subtract_amounts(pos, &taken);
        self.ledger = staged;
        self.positions.insert(basket_id, remaining);
        assert(self@.positions =~= before.positions.insert(basket_id, remaining@));
        assert(self@.baskets == before.baskets);
        Ok(payout)
    }

    /// `who` burns `amount` shares of basket `basket_id`; the basket's position
    /// gives up their fraction of all shares issued, which is traded into
    /// `dst_id` and paid to `who`. Returns the payout.
    pub fn sell<R: Router>(
        &mut self,
        router: &mut R,
        who: AccountId,
        basket_id: AssetId,
        dst_id: AssetId,
        amount: Balance,
    ) -> (r: Result<Balance, Error>)
        requires
            old(self)@.wf(),
        ensures
            final(self)@.wf(),
            grew(old(router).calls(), final(router).calls()),
            r is Err ==> final(self)@ == old(self)@,
            sell_check(old(self)@, who, basket_id, amount) matches Err(e) ==> r == Err::<Balance, Error>(
                e,
            ) && final(router).calls() == old(router).calls(),
            r matches Ok(payout) ==> exists|received: Seq<Balance>|
                {
                    &&& sell_outcome(old(self)@, who, basket_id, dst_id, amount, received) == Ok::<
                        (PalletModel, Balance),
                        Error,
                    >((final(self)@, payout))
                    &&& converted(
                        added(old(router).calls(), final(router).calls()),
                        old(self)@.account,
                        sell_trades(old(self)@, basket_id, dst_id, amount),
                        old(self)@.baskets[basket_id].route_hints,
                        received,
                    )
                },
            r matches Err(e) ==> {
                ||| sell_check(old(self)@, who, basket_id, amount) == Err::<LedgerModel, Error>(e)
                ||| failed(
                    added(old(router).calls(), final(router).calls()),
                    old(self)@.account,
                    sell_trades(old(self)@, basket_id, dst_id, amount),
                    old(self)@.baskets[basket_id].route_hints,
                    e,
                )
                ||| exists|received: Seq<Balance>|
                    {
                        &&& converted(
                            added(old(router).calls(), final(router).calls()),
                            old(self)@.account,
                            sell_trades(old(self)@, basket_id, dst_id, amount),
                            old(self)@.baskets[basket_id].route_hints,
                            received,
                        )
                        &&& sell_outcome(old(self)@, who, basket_id, dst_id, amount, received)
                            == Err::<(PalletModel, Balance), Error>(e)
                    }
            },
            all_are(old(self)@.baskets[basket_id].components, dst_id) ==> paid(
                r,
                old(self)@,
                final(self)@,
                sell_outcome(
                    old(self)@,
                    who,
                    basket_id,
                    dst_id,
                    amount,
                    redeemed(old(self)@, basket_id, amount),
                ),
            ),
    {
        let ghost none = Seq::<Balance>::empty();
        let ghost c0 = router.calls();
        assert(c0.take(c0.len() as int) =~= c0);
        let basket = match self.baskets.get(&basket_id) {
            None => {
                assert(sell_outcome(self@, who, basket_id, dst_id, amount, none) == Err::<
                    (PalletModel, Balance),
                    Error,
                >(Error::UnknownBasket));
                return Err(Error::UnknownBasket);
            },
            Some(b) => b,
        };
        let whole = self.ledger.total_issuance(basket_id);
        if whole < amount {
            assert(sell_outcome(self@, who, basket_id, dst_id, amount, none) == Err::<
                (PalletModel, Balance),
                Error,
            >(Error::InsufficientShares));
            return Err(Error::InsufficientShares);
        }
        let mut probe = self.ledger.snapshot();
        match probe.burn(basket_id, who, amount) {
            Ok(()) => {},
            Err(e) => {
                let err = burn_error(e);
                assert(sell_outcome(self@, who, basket_id, dst_id, amount, none) == Err::<
                    (PalletModel, Balance),
                    Error,
                >(err));
                return Err(err);
            },
        }
        let parts = sale_fraction(amount, whole);
        let pos = match self.positions.get(&basket_id) {
            None => {
                return Err(Error::UnknownBasket);
            },
            Some(p) => p,
        };
        let mut remaining = copy_amounts(pos);
        assert(pos@.take(basket.components@.len() as int) =~= pos@);
        let received = match self.do_sell(
            router,
            &mut remaining,
            &basket.components,
            parts,
            dst_id,
            &basket.route_hints,
        ) {
            Ok(v) => v,
            Err(e) => {
                return Err(e);
            },
        };
        let ghost before = self@;
        let r = self.settle_sell(who, basket_id, dst_id, amount, &received);
        assert(r matches Ok(payout) ==> sell_outcome(before, who, basket_id, dst_id, amount, received@)
            == Ok::<(PalletModel, Balance), Error>((self@, payout)));
        assert(r matches Err(e) ==> sell_outcome(before, who, basket_id, dst_id, amount, received@)
            == Err::<(PalletModel, Balance), Error>(e));
        r
    }

    /// Settles a change of the weights of basket `basket_id` to the
    /// percentages `new_rates` by `who`, where liquidating each component
    /// yielded `received` and reacquiring them yielded `acquired`.
    pub fn settle_rebalance(
        &mut self,
        who: AccountId,
        basket_id: AssetId,
        new_rates: &Vec<u32>,
        received: &Vec<Balance>,
        acquired: &Vec<Balance>,
    ) -> (r: Result<(), Error>)
        requires
            old(self)@.wf(),
        ensures
            final(self)@.wf(),
            done(
                r,
                old(self)@,
                final(self)@,
                rebalance_outcome(old(self)@, who, basket_id, new_rates@, received@, acquired@),
            ),
    {
        let ghost before = self@;
        let basket = match self.baskets.get(&basket_id) {
            None => {
                return Err(Error::NotOwner);
            },
            Some(b) => b,
        };
        if basket.owner != who {
            return Err(Error::NotOwner);
        }
        if percent_total(new_rates) != 100 {
            return Err(Error::WeightSumInvalid);
        }
        if new_rates.len() != basket.components.len() {
            return Err(Error::LengthMismatch);
        }
        let weights = weights_from_percentages(new_rates);
        if same_weights(&weights, &basket.weights) {
            return Err(Error::NoChange);
        }
        let n = basket.components.len();
        if received.len() != n || acquired.len() != n {
            return Err(Error::LengthMismatch);
        }
        let pos = match self.positions.get(&basket_id) {
            None => {
                return Err(Error::UnknownBasket);
            },
            Some(p) => p,
        };
        let out_legs = make_sell_legs(&basket.components, pos, received, REFERENCE_ASSET);
        let amount = match sum_gains(&out_legs) {
            None => {
                return Err(Error::Overflow);
            },
            Some(v) => v,
        };
        let mut staged = self.ledger.snapshot();
        match settle_all(&mut staged, self.account, self.exchange, &out_legs) {
            Ok(()) => {},
            Err(e) => {
                return Err(ledger_error(e));
            },
        }
        proof {
            lemma_percent_weights_sum_to_unit(new_rates@);
            lemma_weights_bounded(weights@);
        }
        let amounts = split_deposit(&weights, amount);
        let in_legs = make_buy_legs(&basket.components, &amounts, acquired);
        match settle_all(&mut staged, self.account, self.exchange, &in_legs) {
            Ok(()) => {},
            Err(e) => {
                return Err(ledger_error(e));
            },
        }
        let held = leg_gains(&in_legs);
        let old_basket = match self.baskets.remove(&basket_id) {
            None => {
                return Err(Error::UnknownBasket);
            },
            Some(b) => b,
        };
        let updated = Basket {
            owner: old_basket.owner,
            components: old_basket.components,
            weights,
            route_hints: old_basket.route_hints,
        };
        self.baskets.insert(basket_id, updated);
        self.ledger = staged;
        self.positions.insert(basket_id, held);
        assert(self@.positions =~= before.positions.insert(basket_id, held@));
        assert(self@.baskets =~= before.baskets.insert(basket_id, updated@));
        assert(forall|id: AssetId| #[trigger]
            self@.baskets.contains_key(id) && id != basket_id ==> self@.baskets[id]
                == before.baskets[id] && before.baskets.contains_key(id));
        Ok(())
    }

    /// The owner `who` sets the weights of basket `basket_id` to the
    /// percentages `new_rates`: the whole position is liquidated into the
    /// reference asset, and the proceeds are reacquired at the new weights.
    pub fn change_rate<R: Router>(
        &mut self,
        router: &mut R,
        who: AccountId,
        basket_id: AssetId,
        new_rates: Vec<u32>,
    ) -> (r: Result<(), Error>)
        requires
            old(self)@.wf(),
        ensures
            final(self)@.wf(),
            grew(old(router).calls(), final(router).calls()),
            r is Err ==> final(self)@ == old(self)@,
            rebalance_check(old(self)@, who, basket_id, new_rates@) matches Err(e) ==> r == Err::<
                (),
                Error,
            >(e) && final(router).calls() == old(router).calls(),
            r is Ok ==> exists|received: Seq<Balance>, acquired: Seq<Balance>|
                {
                    &&& rebalance_outcome(old(self)@, who, basket_id, new_rates@, received, acquired)
                        == Ok::<PalletModel, Error>(final(self)@)
                    &&& converted(
                        added(old(router).calls(), final(router).calls()),
                        old(self)@.account,
                        liquidation_trades(old(self)@, basket_id) + reacquisition_trades(
                            old(self)@,
                            basket_id,
                            new_rates@,
                            received,
                        ),
                        old(self)@.baskets[basket_id].route_hints,
                        received + acquired,
                    )
                },
            r matches Err(e) ==> rebalance_check(old(self)@, who, basket_id, new_rates@) == Err::<
                (),
                Error,
            >(e) || rebalance_failed(
                added(old(router).calls(), final(router).calls()),
                old(self)@,
                who,
                basket_id,
                new_rates@,
                e,
            ),
            all_are(old(self)@.baskets[basket_id].components, REFERENCE_ASSET) ==> done(
                r,
                old(self)@,
                final(self)@,
                rebalance_outcome(
                    old(self)@,
                    who,
                    basket_id,
                    new_rates@,
                    old(self)@.positions[basket_id],
                    split(
                        weights_of(new_rates@),
                        total_gain(
                            sell_legs(
                                old(self)@.baskets[basket_id].components,
                                old(self)@.positions[basket_id],
                                old(self)@.positions[basket_id],
                                REFERENCE_ASSET,
                            ),
                        ) as u128,
                    ),
                ),
            ),
    {
        let ghost none = Seq::<Balance>::empty();
        let ghost start = self@;
        let ghost c0 = router.calls();
        assert(c0.take(c0.len() as int) =~= c0);
        let basket = match self.baskets.get(&basket_id) {
            None => {
                return Err(Error::NotOwner);
            },
            Some(b) => b,
        };
        if basket.owner != who {
            return Err(Error::NotOwner);
        }
        if percent_total(&new_rates) != 100 {
            return Err(Error::WeightSumInvalid);
        }
        if new_rates.len() != basket.components.len() {
            return Err(Error::LengthMismatch);
        }
        let weights = weights_from_percentages(&new_rates);
        if same_weights(&weights, &basket.weights) {
            return Err(Error::NoChange);
        }
        let pos = match self.positions.get(&basket_id) {
            None => {
                return Err(Error::UnknownBasket);
            },
            Some(p) => p,
        };
        let ghost hv = hints_view(basket.route_hints);
        let ghost sells = liquidation_trades(start, basket_id);
        let mut remaining = copy_amounts(pos);
        proof {
            assert(pos@.take(basket.components@.len() as int) =~= pos@);
            lemma_whole_withdrawal(pos@);
        }
        let received = match self.do_sell(
            router,
            &mut remaining,
            &basket.components,
            PARTS_PER_UNIT,
            REFERENCE_ASSET,
            &basket.route_hints,
        ) {
            Ok(v) => v,
            Err(e) => {
                return Err(e);
            },
        };
        let ghost c1 = router.calls();
        let out_legs = make_sell_legs(&basket.components, pos, &received, REFERENCE_ASSET);
        let amount = match sum_gains(&out_legs) {
            None => {
                assert(rebalance_outcome(start, who, basket_id, new_rates@, received@, received@)
                    == Err::<PalletModel, Error>(Error::Overflow));
                return Err(Error::Overflow);
            },
            Some(v) => v,
        };
        proof {
            lemma_percent_weights_sum_to_unit(new_rates@);
            lemma_weights_bounded(weights@);
        }
        let ghost buys = reacquisition_trades(start, basket_id, new_rates@, received@);
        let acquired = match self.do_buy(
            router,
            amount,
            &basket.components,
            &weights,
            &basket.route_hints,
        ) {
            Ok(v) => v,
            Err(e) => {
                proof {
                    let log = added(c0, router.calls());
                    let j = added(c0, c1).len() as int;
                    assert(log.take(j) =~= added(c0, c1));
                    assert(log.skip(j) =~= added(c1, router.calls()));
                    assert(router.calls().take(c0.len() as int) =~= c0);
                }
                return Err(e);
            },
        };
        proof {
            let c2 = router.calls();
            assert(split(weights@, amount).take(basket.components@.len() as int) =~= split(
                weights@,
                amount,
            ));
            assert(added(c0, c2) =~= added(c0, c1) + added(c1, c2));
            assert(c2.take(c0.len() as int) =~= c0);
            lemma_converted_join(added(c0, c1), added(c1, c2), start.account, sells, buys, hv, received@, acquired@);
        }
        let ghost before = self@;
        let r = self.settle_rebalance(who, basket_id, &new_rates, &received, &acquired);
        assert(r is Ok ==> rebalance_outcome(
            before,
            who,
            basket_id,
            new_rates@,
            received@,
            acquired@,
        ) == Ok::<PalletModel, Error>(self@));
        assert(r matches Err(e) ==> rebalance_outcome(
            before,
            who,
            basket_id,
            new_rates@,
            received@,
            acquired@,
        ) == Err::<PalletModel, Error>(e));
        r
    }
}

} // verus!
