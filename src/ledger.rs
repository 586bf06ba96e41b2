//! The fungible-asset ledger that baskets settle against: assets created by
//! id, balances per (asset, account), total issuance per asset, and exact
//! create / mint / burn / transfer operations that fail without effect.
use std::collections::HashMap;
use vstd::prelude::*;

verus! {

broadcast use vstd::std_specs::hash::group_hash_axioms;

/// Identifier of an asset; a basket's id is also the id of its share asset.
pub type AssetId = u32;

/// Identifier of an account.
pub type AccountId = u64;

/// An amount of some asset.
pub type Balance = u128;

/// Why a ledger operation was refused.
#[derive(Debug, Clone, Copy, PartialEq, Eq, Structural)]
pub enum LedgerError {
    /// The asset was never created.
    UnknownAsset,
    /// An asset with this id exists already.
    AssetExists,
    /// The account, or the issuance, holds less than the amount.
    InsufficientBalance,
    /// A balance or the issuance would exceed `u128::MAX`.
    Overflow,
}

/// What an asset is created with: the account that controls it, whether
/// holding it is enough to keep an account alive, and the least balance an
/// account is meant to keep of it. The ledger records these for the
/// asset's controller; it does not reap small balances.
#[derive(Debug, Clone, Copy, PartialEq, Eq, Structural)]
pub struct AssetInfo {
    pub controller: AccountId,
    pub is_sufficient: bool,
    pub min_balance: u128,
}

/// The key under which the balance of `who` in `asset` is kept.
pub open spec fn holding(asset: AssetId, who: AccountId) -> u128 {
    (asset as int * 0x1_0000_0000_0000_0000 + who as int) as u128
}

/// Different (asset, account) pairs are kept under different keys.
pub proof fn lemma_holding_injective(a1: AssetId, w1: AccountId, a2: AssetId, w2: AccountId)
    requires
        holding(a1, w1) == holding(a2, w2),
    ensures
        a1 == a2 && w1 == w2,
{
    let b = 0x1_0000_0000_0000_0000int;
    assert(a1 as int * b + w1 as int <= u128::MAX) by (nonlinear_arith)
        requires a1 <= u32::MAX, w1 <= u64::MAX, b == 0x1_0000_0000_0000_0000int;
    assert(a2 as int * b + w2 as int <= u128::MAX) by (nonlinear_arith)
        requires a2 <= u32::MAX, w2 <= u64::MAX, b == 0x1_0000_0000_0000_0000int;
    assert(a1 == a2) by (nonlinear_arith)
        requires
            a1 as int * b + w1 as int == a2 as int * b + w2 as int,
            0 <= w1 < b,
            0 <= w2 < b,
            a1 >= 0,
            a2 >= 0,
    ;
}

/// Setting one balance leaves every other balance as it was.
pub proof fn lemma_set_balance_reads(
    l: LedgerModel,
    asset: AssetId,
    who: AccountId,
    v: u128,
    a: AssetId,
    w: AccountId,
)
    ensures
        l.set_balance(asset, who, v).balance(a, w) == if a == asset && w == who {
            v
        } else {
            l.balance(a, w)
        },
{
    if !(a == asset && w == who) && holding(a, w) == holding(asset, who) {
        lemma_holding_injective(a, w, asset, who);
    }
}

fn holding_key(asset: AssetId, who: AccountId) -> (k: u128)
    ensures
        k == holding(asset, who),
{
    (asset as u128) * 0x1_0000_0000_0000_0000u128 + who as u128
}

/// The ledger as values: balances by holding key, issuance by asset. An asset
/// exists exactly when it has an issuance entry.
pub struct LedgerModel {
    pub balances: Map<u128, u128>,
    pub supply: Map<AssetId, u128>,
    pub assets: Map<AssetId, AssetInfo>,
}

impl LedgerModel {
    pub open spec fn has_asset(self, asset: AssetId) -> bool {
        self.supply.contains_key(asset)
    }

    pub open spec fn balance(self, asset: AssetId, who: AccountId) -> u128 {
        let k = holding(asset, who);
        if self.balances.contains_key(k) {
            self.balances[k]
        } else {
            0
        }
    }

    /// Total issuance of `asset`, zero for an asset that does not exist.
    pub open spec fn issuance(self, asset: AssetId) -> u128 {
        if self.supply.contains_key(asset) {
            self.supply[asset]
        } else {
            0
        }
    }

    pub open spec fn set_balance(self, asset: AssetId, who: AccountId, v: u128) -> LedgerModel {
        LedgerModel {
            balances: self.balances.insert(holding(asset, who), v),
            supply: self.supply,
            assets: self.assets,
        }
    }

    pub open spec fn set_issuance(self, asset: AssetId, v: u128) -> LedgerModel {
        LedgerModel { balances: self.balances, supply: self.supply.insert(asset, v), assets: self.assets }
    }

    pub open spec fn create(self, asset: AssetId, info: AssetInfo) -> Result<LedgerModel, LedgerError> {
        if self.has_asset(asset) {
            Err(LedgerError::AssetExists)
        } else {
            Ok(
                LedgerModel {
                    balances: self.balances,
                    supply: self.supply.insert(asset, 0),
                    assets: self.assets.insert(asset, info),
                },
            )
        }
    }

    pub open spec fn mint(self, asset: AssetId, to: AccountId, amount: u128) -> Result<
        LedgerModel,
        LedgerError,
    > {
        if !self.has_asset(asset) {
            Err(LedgerError::UnknownAsset)
        } else if self.issuance(asset) + amount > u128::MAX || self.balance(asset, to) + amount
            > u128::MAX {
            Err(LedgerError::Overflow)
        } else {
            Ok(
                self.set_issuance(asset, (self.issuance(asset) + amount) as u128).set_balance(
                    asset,
                    to,
                    (self.balance(asset, to) + amount) as u128,
                ),
            )
        }
    }

    pub open spec fn burn(self, asset: AssetId, from: AccountId, amount: u128) -> Result<
        LedgerModel,
        LedgerError,
    > {
        if !self.has_asset(asset) {
            Err(LedgerError::UnknownAsset)
        } else if self.balance(asset, from) < amount || self.issuance(asset) < amount {
            Err(LedgerError::InsufficientBalance)
        } else {
            Ok(
                self.set_issuance(asset, (self.issuance(asset) - amount) as u128).set_balance(
                    asset,
                    from,
                    (self.balance(asset, from) - amount) as u128,
                ),
            )
        }
    }

    pub open spec fn transfer(
        self,
        asset: AssetId,
        from: AccountId,
        to: AccountId,
        amount: u128,
    ) -> Result<LedgerModel, LedgerError> {
        if !self.has_asset(asset) {
            Err(LedgerError::UnknownAsset)
        } else if self.balance(asset, from) < amount {
            Err(LedgerError::InsufficientBalance)
        } else if from == to {
            Ok(self)
        } else if self.balance(asset, to) + amount > u128::MAX {
            Err(LedgerError::Overflow)
        } else {
            Ok(
                self.set_balance(asset, from, (self.balance(asset, from) - amount) as u128).set_balance(
                    asset,
                    to,
                    (self.balance(asset, to) + amount) as u128,
                ),
            )
        }
    }
}

/// A transfer leaves the balances of every account but the two it moves
/// between as they were, and the issuance of every asset.
pub proof fn lemma_transfer_reads(
    l: LedgerModel,
    asset: AssetId,
    from: AccountId,
    to: AccountId,
    amount: u128,
    a: AssetId,
    w: AccountId,
)
    requires
        l.transfer(asset, from, to, amount) is Ok,
    ensures
        l.transfer(asset, from, to, amount)->Ok_0.supply == l.supply,
        w != from && w != to ==> l.transfer(asset, from, to, amount)->Ok_0.balance(a, w) == l.balance(
            a,
            w,
        ),
        from != to && w == to && a == asset ==> l.transfer(asset, from, to, amount)->Ok_0.balance(
            a,
            w,
        ) == l.balance(a, w) + amount,
        from != to && w == from && a == asset ==> l.transfer(asset, from, to, amount)->Ok_0.balance(
            a,
            w,
        ) == l.balance(a, w) - amount,
{
    if from != to {
        let l1 = l.set_balance(asset, from, (l.balance(asset, from) - amount) as u128);
        lemma_set_balance_reads(l, asset, from, (l.balance(asset, from) - amount) as u128, a, w);
        lemma_set_balance_reads(l, asset, from, (l.balance(asset, from) - amount) as u128, asset, to);
        lemma_set_balance_reads(l1, asset, to, (l.balance(asset, to) + amount) as u128, a, w);
    }
}

/// `after` is what `expected` gives when `r` succeeds, and `before` is kept,
/// with the same error, when it fails.
pub open spec fn applied(
    r: Result<(), LedgerError>,
    before: LedgerModel,
    after: LedgerModel,
    expected: Result<LedgerModel, LedgerError>,
) -> bool {
    match expected {
        Ok(m) => r is Ok && after == m,
        Err(e) => r == Err::<(), LedgerError>(e) && after == before,
    }
}

/// The asset ledger.
pub struct Ledger {
    balances: HashMap<u128, u128>,
    supply: HashMap<AssetId, u128>,
    assets: HashMap<AssetId, AssetInfo>,
}

impl View for Ledger {
    type V = LedgerModel;

    closed spec fn view(&self) -> LedgerModel {
        LedgerModel { balances: self.balances@, supply: self.supply@, assets: self.assets@ }
    }
}

impl Ledger {
    /// A ledger with no assets.
    pub fn new() -> (r: Ledger)
        ensures
            r@.balances == Map::<u128, u128>::empty(),
            r@.supply == Map::<AssetId, u128>::empty(),
            r@.assets == Map::<AssetId, AssetInfo>::empty(),
    {
        Ledger { balances: HashMap::new(), supply: HashMap::new(), assets: HashMap::new() }
    }

    /// A second ledger in the same state.
    pub fn snapshot(&self) -> (r: Ledger)
        ensures
            r@ == self@,
    {
        Ledger {
            balances: self.balances.clone(),
            supply: self.supply.clone(),
            assets: self.assets.clone(),
        }
    }

    pub fn asset_exists(&self, asset: AssetId) -> (r: bool)
        ensures
            r == self@.has_asset(asset),
    {
        self.supply.contains_key(&asset)
    }

    pub fn balance_of(&self, asset: AssetId, who: AccountId) -> (r: Balance)
        ensures
            r == self@.balance(asset, who),
    {
        match self.balances.get(&holding_key(asset, who)) {
            Some(v) => *v,
            None => 0,
        }
    }

    /// What `asset` was created with.
    pub fn asset_info(&self, asset: AssetId) -> (r: Option<AssetInfo>)
        ensures
            match r {
                Some(i) => self@.assets.contains_key(asset) && i == self@.assets[asset],
                None => !self@.assets.contains_key(asset),
            },
    {
        match self.assets.get(&asset) {
            Some(i) => Some(*i),
            None => None,
        }
    }

    pub fn total_issuance(&self, asset: AssetId) -> (r: Balance)
        ensures
            r == self@.issuance(asset),
    {
        match self.supply.get(&asset) {
            Some(v) => *v,
            None => 0,
        }
    }

    /// Registers `asset` with no issuance, controlled by `controller`.
    pub fn create_asset(
        &mut self,
        asset: AssetId,
        controller: AccountId,
        is_sufficient: bool,
        min_balance: Balance,
    ) -> (r: Result<(), LedgerError>)
        ensures
            applied(
                r,
                old(self)@,
                final(self)@,
                old(self)@.create(
                    asset,
                    AssetInfo {
                        controller: controller,
                        is_sufficient: is_sufficient,
                        min_balance: min_balance,
                    },
                ),
            ),
    {
        if self.supply.contains_key(&asset) {
            return Err(LedgerError::AssetExists);
        }
        self.supply.insert(asset, 0);
        self.assets.insert(asset, AssetInfo { controller, is_sufficient, min_balance });
        Ok(())
    }

    /// Creates `amount` of `asset` in the account `to`.
    pub fn mint(&mut self, asset: AssetId, to: AccountId, amount: Balance) -> (r: Result<
        (),
        LedgerError,
    >)
        ensures
            applied(r, old(self)@, final(self)@, old(self)@.mint(asset, to, amount)),
    {
        if !self.asset_exists(asset) {
            return Err(LedgerError::UnknownAsset);
        }
        let issued = self.total_issuance(asset);
        let held = self.balance_of(asset, to);
        if issued > u128::MAX - amount || held > u128::MAX - amount {
            return Err(LedgerError::Overflow);
        }
        self.supply.insert(asset, issued + amount);
        self.balances.insert(holding_key(asset, to), held + amount);
        Ok(())
    }

    /// Destroys `amount` of `asset` held by the account `from`.
    pub fn burn(&mut self, asset: AssetId, from: AccountId, amount: Balance) -> (r: Result<
        (),
        LedgerError,
    >)
        ensures
            applied(r, old(self)@, final(self)@, old(self)@.burn(asset, from, amount)),
    {
        if !self.asset_exists(asset) {
            return Err(LedgerError::UnknownAsset);
        }
        let issued = self.total_issuance(asset);
        let held = self.balance_of(asset, from);
        if held < amount || issued < amount {
            return Err(LedgerError::InsufficientBalance);
        }
        self.supply.insert(asset, issued - amount);
        self.balances.insert(holding_key(asset, from), held - amount);
        Ok(())
    }

    /// Moves `amount` of `asset` from the account `from` to the account `to`.
    pub fn transfer(&mut self, asset: AssetId, from: AccountId, to: AccountId, amount: Balance) -> (r:
        Result<(), LedgerError>)
        ensures
            applied(r, old(self)@, final(self)@, old(self)@.transfer(asset, from, to, amount)),
    {
        if !self.asset_exists(asset) {
            return Err(LedgerError::UnknownAsset);
        }
        let held = self.balance_of(asset, from);
        if held < amount {
            return Err(LedgerError::InsufficientBalance);
        }
        if from == to {
            return Ok(());
        }
        let received = self.balance_of(asset, to);
        if received > u128::MAX - amount {
            return Err(LedgerError::Overflow);
        }
        self.balances.insert(holding_key(asset, from), held - amount);
        self.balances.insert(holding_key(asset, to), received + amount);
        Ok(())
    }
}

} // verus!
