use portfolio::engine::Pallet;
use portfolio::error::Error;
use portfolio::ledger::{AccountId, AssetId, AssetInfo, Balance, Ledger, LedgerError};
use portfolio::router::{CallLog, Router};
use portfolio::settle::REFERENCE_ASSET;

const ACCOUNT: AccountId = 1;
const EXCHANGE: AccountId = 2;
const ALICE: AccountId = 10;
const BOB: AccountId = 11;
const ADMIN: AccountId = 12;

const A: AssetId = REFERENCE_ASSET;
const B: AssetId = 1;
const C: AssetId = 2;
const BASKET: AssetId = 100;

/// Swaps one for one and records each swap it was asked for.
struct IdentityRouter {
    routes: Vec<Vec<AssetId>>,
    inputs: Vec<(Balance, Balance)>,
}

impl IdentityRouter {
    fn new() -> Self {
        IdentityRouter { routes: Vec::new(), inputs: Vec::new() }
    }
}

impl Router for IdentityRouter {
    fn calls(&self) -> CallLog {
        // Only verification reads the record of calls.
        unreachable!()
    }

    fn best_route(
        &mut self,
        _source: AssetId,
        _dest: AssetId,
        _amount_in: Balance,
        _min_out: Balance,
        hints: &Vec<Vec<AssetId>>,
    ) -> Option<Vec<AssetId>> {
        hints.first().cloned()
    }

    fn swap_exact_input(
        &mut self,
        _account: AccountId,
        route: &Vec<AssetId>,
        amount_in: Balance,
        min_out: Balance,
    ) -> Option<Balance> {
        self.routes.push(route.clone());
        self.inputs.push((amount_in, min_out));
        Some(amount_in)
    }
}

/// Finds no route among hints, and refuses every swap.
struct FailingRouter;

impl Router for FailingRouter {
    fn calls(&self) -> CallLog {
        // Only verification reads the record of calls.
        unreachable!()
    }

    fn best_route(
        &mut self,
        _source: AssetId,
        _dest: AssetId,
        _amount_in: Balance,
        _min_out: Balance,
        _hints: &Vec<Vec<AssetId>>,
    ) -> Option<Vec<AssetId>> {
        None
    }

    fn swap_exact_input(
        &mut self,
        _account: AccountId,
        _route: &Vec<AssetId>,
        _amount_in: Balance,
        _min_out: Balance,
    ) -> Option<Balance> {
        None
    }
}

/// Answers every search with an empty route.
struct EmptyRouteRouter;

impl Router for EmptyRouteRouter {
    fn calls(&self) -> CallLog {
        // Only verification reads the record of calls.
        unreachable!()
    }

    fn best_route(
        &mut self,
        _source: AssetId,
        _dest: AssetId,
        _amount_in: Balance,
        _min_out: Balance,
        _hints: &Vec<Vec<AssetId>>,
    ) -> Option<Vec<AssetId>> {
        Some(Vec::new())
    }

    fn swap_exact_input(
        &mut self,
        _account: AccountId,
        _route: &Vec<AssetId>,
        amount_in: Balance,
        _min_out: Balance,
    ) -> Option<Balance> {
        Some(amount_in)
    }
}

/// Assets A (the reference asset), B and C; Alice holds 10 000 of A and the
/// exchange 1 000 000 of each.
fn setup() -> Pallet {
    let mut ledger = Ledger::new();
    for asset in [A, B, C] {
        ledger.create_asset(asset, ADMIN, true, 1).unwrap();
        ledger.mint(asset, EXCHANGE, 1_000_000).unwrap();
    }
    ledger.mint(A, ALICE, 10_000).unwrap();
    Pallet::new(ledger, ACCOUNT, EXCHANGE)
}

/// `setup` with basket [A, B] at [60%, 40%] owned by Alice.
fn setup_basket() -> Pallet {
    let mut p = setup();
    p.create_portofio(ALICE, BASKET, vec![A, B], vec![60, 40]).unwrap();
    p
}

fn position(p: &Pallet) -> Vec<Balance> {
    p.position(BASKET).unwrap().clone()
}

fn balance(p: &Pallet, asset: AssetId, who: AccountId) -> Balance {
    p.ledger().balance_of(asset, who)
}

#[test]
fn create_stores_fixed_point_weights() {
    let p = setup_basket();
    let b = p.basket(BASKET).unwrap();
    assert_eq!(b.owner, ALICE);
    assert_eq!(b.components, vec![A, B]);
    assert_eq!(b.weights, vec![600_000_000, 400_000_000]);
    assert_eq!(b.weights.iter().map(|w| *w as u64).sum::<u64>(), 1_000_000_000);
    assert!(b.route_hints.is_empty());
    assert_eq!(position(&p), vec![0, 0]);
    assert!(p.ledger().asset_exists(BASKET));
    assert_eq!(p.ledger().total_issuance(BASKET), 0);
    assert_eq!(
        p.ledger().asset_info(BASKET),
        Some(AssetInfo { controller: ACCOUNT, is_sufficient: true, min_balance: 1 })
    );
}

#[test]
fn create_weights_sum_to_one_unit_for_uneven_splits() {
    let mut p = setup();
    p.create_portofio(ALICE, BASKET, vec![A, B, C], vec![33, 33, 34]).unwrap();
    let b = p.basket(BASKET).unwrap();
    assert_eq!(b.weights, vec![330_000_000, 330_000_000, 340_000_000]);
    assert_eq!(b.weights.iter().map(|w| *w as u64).sum::<u64>(), 1_000_000_000);
    p.create_portofio(BOB, 101, vec![B], vec![100]).unwrap();
    assert_eq!(p.basket(101).unwrap().weights, vec![1_000_000_000]);
}

#[test]
fn create_rejects_sums_other_than_100() {
    let mut p = setup();
    assert_eq!(
        p.create_portofio(ALICE, BASKET, vec![A, B], vec![50, 40]),
        Err(Error::WeightSumInvalid)
    );
    assert_eq!(
        p.create_portofio(ALICE, BASKET, vec![A, B], vec![60, 41]),
        Err(Error::WeightSumInvalid)
    );
    assert_eq!(
        p.create_portofio(ALICE, BASKET, vec![A, B], vec![u32::MAX, 101]),
        Err(Error::WeightSumInvalid)
    );
    assert_eq!(p.create_portofio(ALICE, BASKET, vec![], vec![]), Err(Error::WeightSumInvalid));
    assert!(p.basket(BASKET).is_none());
    assert!(!p.ledger().asset_exists(BASKET));
}

#[test]
fn create_rejects_length_mismatch() {
    let mut p = setup();
    assert_eq!(
        p.create_portofio(ALICE, BASKET, vec![A, B], vec![100]),
        Err(Error::LengthMismatch)
    );
    assert!(p.basket(BASKET).is_none());
}

#[test]
fn create_rejects_existing_ids() {
    let mut p = setup_basket();
    assert_eq!(
        p.create_portofio(BOB, BASKET, vec![B], vec![100]),
        Err(Error::AlreadyExists)
    );
    assert_eq!(p.basket(BASKET).unwrap().owner, ALICE);
    // An id that names an asset already cannot become a basket either.
    assert_eq!(p.create_portofio(BOB, B, vec![A], vec![100]), Err(Error::AlreadyExists));
    assert!(p.basket(B).is_none());
}

#[test]
fn buy_scenario_sixty_forty() {
    let mut p = setup_basket();
    let mut router = IdentityRouter::new();
    p.buy(&mut router, ALICE, BASKET, 1000).unwrap();
    assert_eq!(position(&p), vec![600, 400]);
    assert_eq!(balance(&p, BASKET, ALICE), 1000);
    assert_eq!(p.ledger().total_issuance(BASKET), 1000);
    assert_eq!(balance(&p, A, ALICE), 9000);
    // 600 of A stays, 400 of A went to the exchange for 400 of B.
    assert_eq!(balance(&p, A, ACCOUNT), 600);
    assert_eq!(balance(&p, B, ACCOUNT), 400);
    assert_eq!(balance(&p, A, EXCHANGE), 1_000_400);
    assert_eq!(balance(&p, B, EXCHANGE), 999_600);
    // Only B is traded, along the direct pair.
    assert_eq!(router.routes, vec![vec![A, B]]);
}

#[test]
fn buy_rounds_each_share_down() {
    let mut p = setup_basket();
    let mut router = IdentityRouter::new();
    p.buy(&mut router, ALICE, BASKET, 7).unwrap();
    // 60% of 7 is 4.2 and 40% is 2.8: both round toward zero.
    assert_eq!(position(&p), vec![4, 2]);
    assert_eq!(balance(&p, BASKET, ALICE), 7);
    assert_eq!(balance(&p, A, ACCOUNT), 5);
}

#[test]
fn sell_scenario_half_of_the_shares() {
    let mut p = setup_basket();
    let mut router = IdentityRouter::new();
    p.buy(&mut router, ALICE, BASKET, 1000).unwrap();
    let payout = p.sell(&mut router, ALICE, BASKET, A, 500).unwrap();
    assert_eq!(payout, 500);
    assert_eq!(position(&p), vec![300, 200]);
    assert_eq!(balance(&p, BASKET, ALICE), 500);
    assert_eq!(p.ledger().total_issuance(BASKET), 500);
    assert_eq!(balance(&p, A, ALICE), 9500);
    assert_eq!(balance(&p, B, ACCOUNT), 200);
    // 600 of A, plus 200 from trading B, less the 500 paid out.
    assert_eq!(balance(&p, A, ACCOUNT), 300);
    // B is traded into A; A itself is not traded.
    assert_eq!(router.routes, vec![vec![A, B], vec![B, A]]);
    assert_eq!(router.inputs, vec![(400, 0), (200, 0)]);
}

#[test]
fn selling_no_shares_redeems_nothing() {
    let mut p = setup_basket();
    let mut router = IdentityRouter::new();
    // No shares are issued yet; the position is filled by a settled trade.
    p.settle_buy(ALICE, BASKET, 1000, &vec![0, 400]).unwrap();
    let mut bare = setup_basket();
    assert_eq!(bare.sell(&mut router, ALICE, BASKET, A, 0), Ok(0));
    assert_eq!(position(&bare), vec![0, 0]);
    assert_eq!(p.sell(&mut router, BOB, BASKET, A, 0), Ok(0));
    assert_eq!(position(&p), vec![600, 400]);
    assert_eq!(balance(&p, A, BOB), 0);
}

#[test]
fn sell_with_empty_route_fails() {
    let mut p = setup_basket();
    let mut router = IdentityRouter::new();
    p.buy(&mut router, ALICE, BASKET, 1000).unwrap();
    p.set_swap_path(BASKET, vec![vec![B, A]]).unwrap();
    assert_eq!(
        p.sell(&mut EmptyRouteRouter, ALICE, BASKET, A, 500),
        Err(Error::NoRouteAvailable)
    );
    assert_eq!(position(&p), vec![600, 400]);
    assert_eq!(balance(&p, BASKET, ALICE), 1000);
}

#[test]
fn sell_into_the_only_component_trades_nothing() {
    let mut p = setup();
    p.create_portofio(ALICE, BASKET, vec![A], vec![100]).unwrap();
    p.buy(&mut FailingRouter, ALICE, BASKET, 800).unwrap();
    assert_eq!(p.sell(&mut FailingRouter, ALICE, BASKET, A, 200), Ok(200));
    assert_eq!(position(&p), vec![600]);
    assert_eq!(p.change_rate(&mut FailingRouter, ALICE, BASKET, vec![100]), Err(Error::NoChange));
}

#[test]
fn rebalance_of_reference_components_trades_nothing() {
    let mut p = setup();
    p.create_portofio(ALICE, BASKET, vec![A, A], vec![50, 50]).unwrap();
    p.buy(&mut FailingRouter, ALICE, BASKET, 1000).unwrap();
    assert_eq!(position(&p), vec![500, 500]);
    p.change_rate(&mut FailingRouter, ALICE, BASKET, vec![30, 70]).unwrap();
    assert_eq!(position(&p), vec![300, 700]);
    assert_eq!(balance(&p, A, ACCOUNT), 1000);
}

#[test]
fn sell_fraction_rounds_to_nearest() {
    let mut p = setup_basket();
    let mut router = IdentityRouter::new();
    p.buy(&mut router, ALICE, BASKET, 1000).unwrap();
    // 333 of 1000 shares: 199.8 of 600 rounds to 200, 133.2 of 400 to 133.
    let payout = p.sell(&mut router, ALICE, BASKET, A, 333).unwrap();
    assert_eq!(payout, 333);
    assert_eq!(position(&p), vec![400, 267]);
}

#[test]
fn sell_fraction_of_supply_rounds_down() {
    let mut p = setup_basket();
    let mut router = IdentityRouter::new();
    p.buy(&mut router, ALICE, BASKET, 3).unwrap();
    assert_eq!(position(&p), vec![1, 1]);
    p.buy(&mut router, ALICE, BASKET, 2000).unwrap();
    assert_eq!(position(&p), vec![1201, 801]);
    // 1 of 2003 shares is 499_251.1... parts per billion, rounded down to
    // 499_251; of 1201 that is 0.5996 and of 801 0.3999, to nearest 1 and 0.
    let payout = p.sell(&mut router, ALICE, BASKET, B, 1).unwrap();
    assert_eq!(position(&p), vec![1200, 801]);
    assert_eq!(payout, 1);
}

#[test]
fn sell_pays_out_in_the_chosen_asset() {
    let mut p = setup_basket();
    let mut router = IdentityRouter::new();
    p.buy(&mut router, ALICE, BASKET, 1000).unwrap();
    let payout = p.sell(&mut router, ALICE, BASKET, B, 1000).unwrap();
    assert_eq!(payout, 1000);
    assert_eq!(position(&p), vec![0, 0]);
    assert_eq!(balance(&p, B, ALICE), 1000);
    assert_eq!(balance(&p, BASKET, ALICE), 0);
}

#[test]
fn buy_then_sell_all_returns_the_deposit() {
    let mut p = setup();
    p.create_portofio(ALICE, BASKET, vec![A, B, C], vec![25, 25, 50]).unwrap();
    let mut router = IdentityRouter::new();
    p.buy(&mut router, ALICE, BASKET, 1200).unwrap();
    assert_eq!(position(&p), vec![300, 300, 600]);
    let payout = p.sell(&mut router, ALICE, BASKET, A, 1200).unwrap();
    assert_eq!(payout, 1200);
    assert_eq!(balance(&p, A, ALICE), 10_000);
    assert_eq!(position(&p), vec![0, 0, 0]);
}

#[test]
fn failed_swap_leaves_everything_unchanged() {
    let mut p = setup_basket();
    let mut router = IdentityRouter::new();
    p.buy(&mut router, ALICE, BASKET, 1000).unwrap();
    assert_eq!(p.buy(&mut FailingRouter, ALICE, BASKET, 500), Err(Error::SwapFailed));
    assert_eq!(position(&p), vec![600, 400]);
    assert_eq!(balance(&p, BASKET, ALICE), 1000);
    assert_eq!(p.ledger().total_issuance(BASKET), 1000);
    assert_eq!(balance(&p, A, ALICE), 9000);
    assert_eq!(balance(&p, A, ACCOUNT), 600);
    assert_eq!(p.sell(&mut FailingRouter, ALICE, BASKET, A, 500), Err(Error::SwapFailed));
    assert_eq!(position(&p), vec![600, 400]);
    assert_eq!(balance(&p, BASKET, ALICE), 1000);
}

#[test]
fn sell_more_shares_than_held_fails() {
    let mut p = setup_basket();
    let mut router = IdentityRouter::new();
    p.buy(&mut router, ALICE, BASKET, 1000).unwrap();
    p.ledger();
    // Bob holds no shares although 1000 exist.
    assert_eq!(p.sell(&mut router, BOB, BASKET, A, 10), Err(Error::InsufficientShares));
    // Alice asks for more than exist.
    assert_eq!(p.sell(&mut router, ALICE, BASKET, A, 1001), Err(Error::InsufficientShares));
    assert_eq!(position(&p), vec![600, 400]);
    assert_eq!(balance(&p, BASKET, ALICE), 1000);
}

#[test]
fn rebalance_to_identical_weights_fails() {
    let mut p = setup_basket();
    let mut router = IdentityRouter::new();
    p.buy(&mut router, ALICE, BASKET, 1000).unwrap();
    assert_eq!(
        p.change_rate(&mut router, ALICE, BASKET, vec![60, 40]),
        Err(Error::NoChange)
    );
    assert_eq!(p.basket(BASKET).unwrap().weights, vec![600_000_000, 400_000_000]);
    assert_eq!(position(&p), vec![600, 400]);
}

#[test]
fn rebalance_reacquires_at_new_weights() {
    let mut p = setup_basket();
    let mut router = IdentityRouter::new();
    p.buy(&mut router, ALICE, BASKET, 1000).unwrap();
    p.change_rate(&mut router, ALICE, BASKET, vec![30, 70]).unwrap();
    assert_eq!(p.basket(BASKET).unwrap().weights, vec![300_000_000, 700_000_000]);
    assert_eq!(position(&p), vec![300, 700]);
    assert_eq!(balance(&p, A, ACCOUNT), 300);
    assert_eq!(balance(&p, B, ACCOUNT), 700);
    assert_eq!(balance(&p, BASKET, ALICE), 1000);
    let weights = &p.basket(BASKET).unwrap().weights;
    assert_eq!(weights.iter().map(|w| *w as u64).sum::<u64>(), 1_000_000_000);
}

#[test]
fn rebalance_checks_come_first() {
    let mut p = setup_basket();
    let mut router = IdentityRouter::new();
    assert_eq!(p.change_rate(&mut router, BOB, BASKET, vec![30, 70]), Err(Error::NotOwner));
    assert_eq!(
        p.change_rate(&mut router, ALICE, BASKET, vec![30, 60]),
        Err(Error::WeightSumInvalid)
    );
    assert_eq!(
        p.change_rate(&mut router, ALICE, BASKET, vec![30, 60, 10]),
        Err(Error::LengthMismatch)
    );
    assert_eq!(p.change_rate(&mut router, ALICE, 7, vec![100]), Err(Error::NotOwner));
    assert_eq!(p.basket(BASKET).unwrap().weights, vec![600_000_000, 400_000_000]);
    assert!(router.routes.is_empty());
}

#[test]
fn unknown_basket_is_refused() {
    let mut p = setup();
    let mut router = IdentityRouter::new();
    assert_eq!(p.buy(&mut router, ALICE, BASKET, 10), Err(Error::UnknownBasket));
    assert_eq!(p.sell(&mut router, ALICE, BASKET, A, 10), Err(Error::UnknownBasket));
    assert_eq!(p.set_swap_path(BASKET, vec![vec![A, B]]), Err(Error::UnknownBasket));
    assert_eq!(balance(&p, A, ALICE), 10_000);
}

#[test]
fn buy_without_funds_fails() {
    let mut p = setup_basket();
    let mut router = IdentityRouter::new();
    assert_eq!(p.buy(&mut router, BOB, BASKET, 1), Err(Error::InsufficientFunds));
    assert_eq!(p.buy(&mut router, ALICE, BASKET, 10_001), Err(Error::InsufficientFunds));
    assert_eq!(position(&p), vec![0, 0]);
    assert_eq!(p.ledger().total_issuance(BASKET), 0);
    assert!(router.routes.is_empty());
}

#[test]
fn buy_without_reference_asset_fails() {
    let mut ledger = Ledger::new();
    ledger.create_asset(B, ADMIN, true, 1).unwrap();
    let mut p = Pallet::new(ledger, ACCOUNT, EXCHANGE);
    p.create_portofio(ALICE, BASKET, vec![B], vec![100]).unwrap();
    let mut router = IdentityRouter::new();
    assert_eq!(p.buy(&mut router, ALICE, BASKET, 5), Err(Error::UnknownAsset));
}

#[test]
fn exchange_short_of_output_fails() {
    let mut ledger = Ledger::new();
    ledger.create_asset(A, ADMIN, true, 1).unwrap();
    ledger.create_asset(B, ADMIN, true, 1).unwrap();
    ledger.mint(A, ALICE, 100).unwrap();
    ledger.mint(B, EXCHANGE, 10).unwrap();
    let mut p = Pallet::new(ledger, ACCOUNT, EXCHANGE);
    p.create_portofio(ALICE, BASKET, vec![B], vec![100]).unwrap();
    let mut router = IdentityRouter::new();
    assert_eq!(p.buy(&mut router, ALICE, BASKET, 50), Err(Error::InsufficientFunds));
    assert_eq!(p.ledger().balance_of(A, ALICE), 100);
    assert_eq!(p.ledger().total_issuance(BASKET), 0);
    p.buy(&mut router, ALICE, BASKET, 10).unwrap();
    assert_eq!(position(&p), vec![10]);
}

#[test]
fn route_hints_steer_the_search() {
    let mut p = setup_basket();
    p.set_swap_path(BASKET, vec![vec![A, C, B]]).unwrap();
    assert_eq!(p.basket(BASKET).unwrap().route_hints, vec![vec![A, C, B]]);
    let mut router = IdentityRouter::new();
    p.buy(&mut router, ALICE, BASKET, 100).unwrap();
    assert_eq!(router.routes, vec![vec![A, C, B]]);
    assert_eq!(position(&p), vec![60, 40]);
}

#[test]
fn missing_route_falls_back_to_the_direct_pair() {
    struct NoSearchResult {
        routes: Vec<Vec<AssetId>>,
    }
    impl Router for NoSearchResult {
        fn calls(&self) -> CallLog {
            // Only verification reads the record of calls.
            unreachable!()
        }

        fn best_route(
            &mut self,
            _source: AssetId,
            _dest: AssetId,
            _amount_in: Balance,
            _min_out: Balance,
            _hints: &Vec<Vec<AssetId>>,
        ) -> Option<Vec<AssetId>> {
            None
        }
        fn swap_exact_input(
            &mut self,
            _account: AccountId,
            route: &Vec<AssetId>,
            amount_in: Balance,
            _min_out: Balance,
        ) -> Option<Balance> {
            self.routes.push(route.clone());
            Some(amount_in)
        }
    }
    let mut p = setup_basket();
    p.set_swap_path(BASKET, vec![vec![A, C, B]]).unwrap();
    let mut router = NoSearchResult { routes: Vec::new() };
    p.buy(&mut router, ALICE, BASKET, 100).unwrap();
    assert_eq!(router.routes, vec![vec![A, B]]);
}

#[test]
fn empty_route_fails() {
    let mut p = setup_basket();
    p.set_swap_path(BASKET, vec![vec![A, B]]).unwrap();
    assert_eq!(p.buy(&mut EmptyRouteRouter, ALICE, BASKET, 100), Err(Error::NoRouteAvailable));
    assert_eq!(position(&p), vec![0, 0]);
    // Without hints the direct pair is used and the search is not asked.
    p.set_swap_path(BASKET, Vec::new()).unwrap();
    p.buy(&mut EmptyRouteRouter, ALICE, BASKET, 100).unwrap();
    assert_eq!(position(&p), vec![60, 40]);
}

#[test]
fn share_issuance_overflow_is_refused() {
    let mut ledger = Ledger::new();
    ledger.create_asset(A, ADMIN, true, 1).unwrap();
    ledger.create_asset(BASKET, ADMIN, true, 1).unwrap();
    ledger.mint(A, ALICE, 10).unwrap();
    ledger.mint(BASKET, BOB, u128::MAX - 5).unwrap();
    let mut p = Pallet::new(ledger, ACCOUNT, EXCHANGE);
    // The share asset exists already, so the basket cannot take its id.
    assert_eq!(p.create_portofio(ALICE, BASKET, vec![A], vec![100]), Err(Error::AlreadyExists));
    assert!(p.basket(BASKET).is_none());
}

#[test]
fn settle_buy_applies_the_given_trades() {
    let mut p = setup_basket();
    // The trade into B yielded 390; A is not traded, so its 60% stays 600.
    p.settle_buy(ALICE, BASKET, 1000, &vec![12345, 390]).unwrap();
    assert_eq!(position(&p), vec![600, 390]);
    assert_eq!(balance(&p, B, ACCOUNT), 390);
    assert_eq!(balance(&p, BASKET, ALICE), 1000);
    assert_eq!(p.settle_buy(ALICE, BASKET, 10, &vec![6]), Err(Error::LengthMismatch));
    assert_eq!(p.settle_buy(ALICE, BASKET, 10, &vec![6, 4, 0]), Err(Error::LengthMismatch));
    assert_eq!(position(&p), vec![600, 390]);
}

#[test]
fn settle_sell_pays_what_the_trades_yielded() {
    let mut p = setup_basket();
    let mut router = IdentityRouter::new();
    p.buy(&mut router, ALICE, BASKET, 1000).unwrap();
    // Half of [600, 400]; the 200 of B fetched 150 of A.
    let payout = p.settle_sell(ALICE, BASKET, A, 500, &vec![0, 150]).unwrap();
    assert_eq!(payout, 450);
    assert_eq!(position(&p), vec![300, 200]);
    assert_eq!(balance(&p, A, ALICE), 9450);
    assert_eq!(p.settle_sell(ALICE, BASKET, A, 10, &vec![1]), Err(Error::LengthMismatch));
}

#[test]
fn settle_rebalance_uses_the_given_trades() {
    let mut p = setup_basket();
    let mut router = IdentityRouter::new();
    p.buy(&mut router, ALICE, BASKET, 1000).unwrap();
    // Liquidating B fetched 380 of A: 980 in all, split 50/50; B yielded 470.
    p.settle_rebalance(ALICE, BASKET, &vec![50, 50], &vec![0, 380], &vec![0, 470]).unwrap();
    assert_eq!(position(&p), vec![490, 470]);
    assert_eq!(p.basket(BASKET).unwrap().weights, vec![500_000_000, 500_000_000]);
    assert_eq!(
        p.settle_rebalance(ALICE, BASKET, &vec![40, 60], &vec![0], &vec![0, 1]),
        Err(Error::LengthMismatch)
    );
}

#[test]
fn account_id_is_the_custodial_account() {
    let p = setup();
    assert_eq!(p.account_id(), ACCOUNT);
}

#[test]
fn ledger_operations_are_exact() {
    let mut l = Ledger::new();
    assert_eq!(l.mint(A, ALICE, 5), Err(LedgerError::UnknownAsset));
    l.create_asset(A, ADMIN, true, 1).unwrap();
    assert_eq!(l.create_asset(A, ADMIN, true, 1), Err(LedgerError::AssetExists));
    l.mint(A, ALICE, 5).unwrap();
    assert_eq!(l.transfer(A, ALICE, BOB, 6), Err(LedgerError::InsufficientBalance));
    l.transfer(A, ALICE, BOB, 2).unwrap();
    l.transfer(A, ALICE, ALICE, 3).unwrap();
    assert_eq!(l.balance_of(A, ALICE), 3);
    assert_eq!(l.balance_of(A, BOB), 2);
    assert_eq!(l.burn(A, BOB, 3), Err(LedgerError::InsufficientBalance));
    l.burn(A, BOB, 2).unwrap();
    assert_eq!(l.total_issuance(A), 3);
    assert_eq!(l.mint(A, BOB, u128::MAX), Err(LedgerError::Overflow));
    assert_eq!(l.total_issuance(A), 3);
    let copy = l.snapshot();
    assert_eq!(copy.balance_of(A, ALICE), 3);
}
