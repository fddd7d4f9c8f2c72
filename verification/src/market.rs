//! The settlement engine: the marketplace registry, the listing
//! ledger, escrow vaults, and the atomic request handlers
//! `initialize`, `list`, `purchase` and `cancel`.
//!
//! [`Market`] is the model of all ledger state the program can touch.
//! Each request handler validates, then either commits every effect or
//! returns an error having changed nothing. The well-formedness
//! predicate carries the escrow invariant: a listing exists if and
//! only if its vault holds exactly one unit of the listed asset.

use vstd::prelude::*;
use vstd::pervasive::VecAdditionalExecFns;
use crate::errors::MarketplaceError;
use crate::fees::{fee_of, proceeds_of, reward_of, split_price, reward_amount, BPS_DENOMINATOR};
use crate::state::{Marketplace, MarketplaceModel, Listing, MAX_NAME_LEN, CANONICAL_BUMP};
use crate::table::BalanceTable;

verus! {

/// One entry of the listing ledger: an active escrow and the
/// marketplace it belongs to. The key is `(marketplace, asset_id)`.
#[derive(Clone, Copy)]
pub struct ListingEntry {
    pub marketplace: u64,
    pub listing: Listing,
}

/// Whether `e` is the ledger entry for `(m, a)`.
pub open spec fn entry_is(e: ListingEntry, m: u64, a: u64) -> bool {
    e.marketplace == m && e.listing.asset_id == a
}

/// The listing stored under `(m, a)` in `s`: the first matching entry,
/// or `None` when none matches.
pub open spec fn listing_in(s: Seq<ListingEntry>, m: u64, a: u64) -> Option<Listing>
    decreases s.len(),
{
    if s.len() == 0 {
        None
    } else if entry_is(s[0], m, a) {
        Some(s[0].listing)
    } else {
        listing_in(s.drop_first(), m, a)
    }
}

/// A key that no entry carries resolves to no listing.
proof fn lemma_listing_absent(s: Seq<ListingEntry>, m: u64, a: u64)
    requires
        forall|j: int| 0 <= j < s.len() ==> !entry_is(s[j], m, a),
    ensures
        listing_in(s, m, a) is None,
    decreases s.len(),
{
    if s.len() > 0 {
        assert(forall|j: int| 0 <= j < s.drop_first().len() ==> s.drop_first()[j] == s[j + 1]);
        lemma_listing_absent(s.drop_first(), m, a);
    }
}

/// A key that resolves to no listing is carried by no entry.
proof fn lemma_listing_none_absent(s: Seq<ListingEntry>, m: u64, a: u64)
    requires
        listing_in(s, m, a) is None,
    ensures
        forall|j: int| 0 <= j < s.len() ==> !entry_is(s[j], m, a),
    decreases s.len(),
{
    if s.len() > 0 {
        lemma_listing_none_absent(s.drop_first(), m, a);
        assert forall|j: int| 0 <= j < s.len() implies !entry_is(s[j], m, a) by {
            if j > 0 {
                assert(s.drop_first()[j - 1] == s[j]);
            }
        }
    }
}

/// The first entry that carries a key decides which listing it
/// resolves to.
proof fn lemma_listing_first(s: Seq<ListingEntry>, m: u64, a: u64, i: int)
    requires
        0 <= i < s.len(),
        entry_is(s[i], m, a),
        forall|j: int| 0 <= j < i ==> !entry_is(s[j], m, a),
    ensures
        listing_in(s, m, a) == Some(s[i].listing),
    decreases i,
{
    if i > 0 {
        assert(forall|j: int| 0 <= j < s.drop_first().len() ==> s.drop_first()[j] == s[j + 1]);
        lemma_listing_first(s.drop_first(), m, a, i - 1);
    }
}

/// Appending an entry for a key that no entry carries makes that key
/// resolve to the new listing and leaves every other key unchanged.
proof fn lemma_listing_push(s: Seq<ListingEntry>, e: ListingEntry)
    requires
        forall|j: int| 0 <= j < s.len() ==> !entry_is(s[j], e.marketplace, e.listing.asset_id),
    ensures
        forall|m2: u64, a2: u64|
            listing_in(s.push(e), m2, a2) == if entry_is(e, m2, a2) {
                Some(e.listing)
            } else {
                listing_in(s, m2, a2)
            },
    decreases s.len(),
{
    let t = s.push(e);
    if s.len() == 0 {
        assert forall|m2: u64, a2: u64|
            listing_in(t, m2, a2) == if entry_is(e, m2, a2) {
                Some(e.listing)
            } else {
                listing_in(s, m2, a2)
            } by {
            assert(t[0] == e);
            if !entry_is(e, m2, a2) {
                assert(t.drop_first() =~= Seq::<ListingEntry>::empty());
                assert(listing_in(t, m2, a2) == listing_in(t.drop_first(), m2, a2));
            }
        }
    } else {
        assert(t.drop_first() =~= s.drop_first().push(e));
        assert(forall|j: int| 0 <= j < s.drop_first().len() ==> s.drop_first()[j] == s[j + 1]);
        lemma_listing_push(s.drop_first(), e);
        assert forall|m2: u64, a2: u64|
            listing_in(t, m2, a2) == if entry_is(e, m2, a2) {
                Some(e.listing)
            } else {
                listing_in(s, m2, a2)
            } by {
            assert(t[0] == s[0]);
            if entry_is(s[0], m2, a2) {
            } else {
                assert(listing_in(t, m2, a2) == listing_in(t.drop_first(), m2, a2));
                assert(listing_in(s, m2, a2) == listing_in(s.drop_first(), m2, a2));
            }
        }
    }
}

/// Removing the only entry that carries a key makes that key resolve
/// to no listing and leaves every other key unchanged.
proof fn lemma_listing_remove(s: Seq<ListingEntry>, i: int)
    requires
        0 <= i < s.len(),
        forall|j: int|
            0 <= j < s.len() && j != i
                ==> !entry_is(s[j], s[i].marketplace, s[i].listing.asset_id),
    ensures
        forall|m2: u64, a2: u64|
            listing_in(s.remove(i), m2, a2) == if entry_is(s[i], m2, a2) {
                None::<Listing>
            } else {
                listing_in(s, m2, a2)
            },
    decreases i,
{
    let t = s.remove(i);
    if i == 0 {
        assert(t =~= s.drop_first());
        lemma_listing_absent(s.drop_first(), s[0].marketplace, s[0].listing.asset_id);
        assert forall|m2: u64, a2: u64|
            listing_in(t, m2, a2) == if entry_is(s[0], m2, a2) {
                None::<Listing>
            } else {
                listing_in(s, m2, a2)
            } by {
            if !entry_is(s[0], m2, a2) {
                assert(listing_in(s, m2, a2) == listing_in(s.drop_first(), m2, a2));
            }
        }
    } else {
        assert(t.drop_first() =~= s.drop_first().remove(i - 1));
        assert(forall|j: int| 0 <= j < s.drop_first().len() ==> s.drop_first()[j] == s[j + 1]);
        assert(s.drop_first()[i - 1] == s[i]);
        lemma_listing_remove(s.drop_first(), i - 1);
        assert forall|m2: u64, a2: u64|
            listing_in(t, m2, a2) == if entry_is(s[i], m2, a2) {
                None::<Listing>
            } else {
                listing_in(s, m2, a2)
            } by {
            assert(t[0] == s[0]);
            if entry_is(s[0], m2, a2) {
            } else {
                assert(listing_in(t, m2, a2) == listing_in(t.drop_first(), m2, a2));
                assert(listing_in(s, m2, a2) == listing_in(s.drop_first(), m2, a2));
            }
        }
    }
}

/// All ledger state the marketplace program can touch: the registry,
/// the fee treasuries, the listing ledger, and the four families of
/// holding accounts.
pub struct Market {
    /// Registry of marketplaces, one per name; an entry's index is the
    /// model of its derived address and never changes.
    marketplaces: Vec<Marketplace>,
    /// `treasuries[m]` is the fee balance the treasury of marketplace
    /// `m` has accumulated; parallel to `marketplaces`.
    treasuries: Vec<u64>,
    /// The listing ledger: one entry per active escrow.
    listings: Vec<ListingEntry>,
    /// Escrow vaults: units of asset `b` locked under marketplace `a`.
    vaults: BalanceTable,
    /// Payment balances: units of the payment medium wallet `a` holds
    /// (the second key is unused and always zero).
    wallets: BalanceTable,
    /// Asset holdings: units of asset `b` that wallet `a` holds.
    holdings: BalanceTable,
    /// Reward balances: reward units of marketplace `b`'s mint that
    /// wallet `a` holds.
    rewards: BalanceTable,
}

impl Market {
    /// How many marketplaces the registry holds.
    pub closed spec fn mkt_count(self) -> nat {
        self.marketplaces@.len()
    }

    /// The registry entry at derived address `m`.
    pub closed spec fn mkt(self, m: int) -> MarketplaceModel {
        self.marketplaces@[m]@
    }

    /// Whether some marketplace is registered under `name`.
    pub closed spec fn has_marketplace_named(self, name: Seq<u8>) -> bool {
        exists|i: int| 0 <= i < self.marketplaces@.len() && self.marketplaces@[i]@.name == name
    }

    /// The fee balance held by the treasury of marketplace `m`.
    pub closed spec fn treasury_of(self, m: int) -> u64 {
        self.treasuries@[m]
    }

    /// The listing stored under `(m, a)`, when one exists.
    pub closed spec fn listing_of(self, m: u64, a: u64) -> Option<Listing> {
        listing_in(self.listings@, m, a)
    }

    /// Units of asset `a` locked in the vault of `(m, a)`.
    pub closed spec fn vault_amount(self, m: u64, a: u64) -> u64 {
        self.vaults.balance(m, a)
    }

    /// Units of the payment medium `owner` holds.
    pub closed spec fn pay_balance(self, owner: u64) -> u64 {
        self.wallets.balance(owner, 0)
    }

    /// Units of asset `a` that `owner` holds outside any vault.
    pub closed spec fn asset_balance(self, owner: u64, a: u64) -> u64 {
        self.holdings.balance(owner, a)
    }

    /// Reward units of marketplace `m`'s mint that `owner` holds.
    pub closed spec fn reward_balance(self, owner: u64, m: u64) -> u64 {
        self.rewards.balance(owner, m)
    }

    /// The escrow invariant at one key: the vault holds exactly one
    /// unit exactly when a listing is active, and is empty otherwise.
    pub open spec fn escrow_ok_at(self, m: u64, a: u64) -> bool {
        self.vault_amount(m, a) == if self.listing_of(m, a) is Some {
            1u64
        } else {
            0u64
        }
    }

    /// Well-formedness of the whole ledger state.
    pub closed spec fn wf(self) -> bool {
        &&& self.treasuries@.len() == self.marketplaces@.len()
        &&& forall|i: int|
            0 <= i < self.marketplaces@.len() ==> (#[trigger] self.marketplaces@[i]@).valid()
        &&& forall|i: int, j: int|
            0 <= i < j < self.marketplaces@.len()
                ==> self.marketplaces@[i]@.name != self.marketplaces@[j]@.name
        &&& self.vaults.wf()
        &&& self.wallets.wf()
        &&& self.holdings.wf()
        &&& self.rewards.wf()
        &&& forall|i: int, j: int|
            0 <= i < j < self.listings@.len()
                ==> !entry_is(
                    self.listings@[i],
                    self.listings@[j].marketplace,
                    self.listings@[j].listing.asset_id,
                )
        &&& forall|m: u64, a: u64| self.escrow_ok_at(m, a)
    }

    /// Every registered marketplace is well formed.
    pub proof fn lemma_wf_mkt_valid(self, m: int)
        requires
            self.wf(),
            0 <= m < self.mkt_count(),
        ensures
            self.mkt(m).valid(),
    {
    }

    /// A well-formed ledger satisfies the escrow invariant at every
    /// key.
    pub proof fn lemma_wf_escrow(self, m: u64, a: u64)
        requires
            self.wf(),
        ensures
            self.escrow_ok_at(m, a),
    {
    }

    /// Law: a name determines its marketplace. Two registry entries
    /// that carry the same name are the same entry, so a name resolves
    /// to at most one derived address.
    pub proof fn lemma_name_determines_marketplace(self, i: int, j: int)
        requires
            self.wf(),
            0 <= i < self.mkt_count(),
            0 <= j < self.mkt_count(),
            self.mkt(i).name == self.mkt(j).name,
        ensures
            i == j,
    {
    }

    /// A fresh ledger: no marketplaces, no listings, every balance
    /// zero.
    pub fn new() -> (r: Market)
        ensures
            r.wf(),
            r.mkt_count() == 0,
            forall|nm: Seq<u8>| !r.has_marketplace_named(nm),
            forall|m: u64, a: u64| r.listing_of(m, a) is None,
            forall|m: u64, a: u64| r.vault_amount(m, a) == 0,
            forall|o: u64| r.pay_balance(o) == 0,
            forall|o: u64, a: u64| r.asset_balance(o, a) == 0,
            forall|o: u64, m: u64| r.reward_balance(o, m) == 0,
    {
        let r = Market {
            marketplaces: Vec::new(),
            treasuries: Vec::new(),
            listings: Vec::new(),
            vaults: BalanceTable::new(),
            wallets: BalanceTable::new(),
            holdings: BalanceTable::new(),
            rewards: BalanceTable::new(),
        };
        proof {
            assert(forall|m: u64, a: u64| listing_in(r.listings@, m, a) is None);
        }
        r
    }

    /// Index of the ledger entry for `(m, a)`, when one exists, tied
    /// to what the key resolves to.
    fn find_listing_index(&self, m: u64, a: u64) -> (r: Option<usize>)
        ensures
            match r {
                Some(i) => {
                    &&& i < self.listings@.len()
                    &&& entry_is(self.listings@[i as int], m, a)
                    &&& forall|j: int| 0 <= j < i ==> !entry_is(self.listings@[j], m, a)
                    &&& self.listing_of(m, a) == Some(self.listings@[i as int].listing)
                },
                None => self.listing_of(m, a) is None,
            },
    {
        let n: usize = self.listings.len();
        let mut i: usize = 0;
        while i < n
            invariant
                n == self.listings@.len(),
                i <= n,
                forall|j: int| 0 <= j < i ==> !entry_is(self.listings@[j], m, a),
            decreases n - i,
        {
            if self.listings[i].marketplace == m && self.listings[i].listing.asset_id == a {
                proof {
                    lemma_listing_first(self.listings@, m, a, i as int);
                }
                return Some(i);
            }
            i = i + 1;
        }
        proof {
            lemma_listing_absent(self.listings@, m, a);
        }
        None
    }

    /// Reads the listing stored under `(m, a)`.
    pub fn get_listing(&self, m: u64, a: u64) -> (r: Option<Listing>)
        ensures
            r == self.listing_of(m, a),
    {
        match self.find_listing_index(m, a) {
            Some(i) => Some(self.listings[i].listing),
            None => None,
        }
    }

    /// Reads how many units of asset `a` the vault of `(m, a)` holds.
    pub fn get_vault_amount(&self, m: u64, a: u64) -> (r: u64)
        ensures
            r == self.vault_amount(m, a),
    {
        self.vaults.lookup(m, a)
    }

    /// Reads `owner`'s payment balance.
    pub fn get_pay_balance(&self, owner: u64) -> (r: u64)
        ensures
            r == self.pay_balance(owner),
    {
        self.wallets.lookup(owner, 0)
    }

    /// Reads how many units of asset `a` `owner` holds.
    pub fn get_asset_balance(&self, owner: u64, a: u64) -> (r: u64)
        ensures
            r == self.asset_balance(owner, a),
    {
        self.holdings.lookup(owner, a)
    }

    /// Reads how many reward units of marketplace `m` `owner` holds.
    pub fn get_reward_balance(&self, owner: u64, m: u64) -> (r: u64)
        ensures
            r == self.reward_balance(owner, m),
    {
        self.rewards.lookup(owner, m)
    }

    /// Reads the treasury balance of marketplace `m`.
    pub fn get_treasury(&self, m: u64) -> (r: u64)
        requires
            self.wf(),
            (m as nat) < self.mkt_count(),
        ensures
            r == self.treasury_of(m as int),
    {
        let n: usize = self.treasuries.len();
        proof {
            assert((m as nat) < n as nat);
        }
        self.treasuries[m as usize]
    }

    /// The registry entry at derived address `m`.
    pub fn marketplace_at(&self, m: u64) -> (r: &Marketplace)
        requires
            (m as nat) < self.mkt_count(),
        ensures
            r@ == self.mkt(m as int),
    {
        let n: usize = self.marketplaces.len();
        proof {
            assert((m as nat) < n as nat);
        }
        &self.marketplaces[m as usize]
    }

    /// How many marketplaces the registry holds.
    pub fn marketplace_count(&self) -> (r: u64)
        ensures
            r == self.mkt_count(),
    {
        self.marketplaces.len() as u64
    }

    /// Looks a marketplace up by its name — the model of resolving
    /// the address the name derives.
    pub fn find_marketplace(&self, name: &Vec<u8>) -> (r: Option<u64>)
        ensures
            match r {
                Some(m) => {
                    &&& (m as nat) < self.mkt_count()
                    &&& self.mkt(m as int).name == name@
                    &&& self.has_marketplace_named(name@)
                },
                None => !self.has_marketplace_named(name@),
            },
    {
        let n: usize = self.marketplaces.len();
        let mut i: usize = 0;
        while i < n
            invariant
                n == self.marketplaces@.len(),
                i <= n,
                forall|j: int| 0 <= j < i ==> self.marketplaces@[j]@.name != name@,
            decreases n - i,
        {
            if bytes_eq(&self.marketplaces[i].name, name) {
                return Some(i as u64);
            }
            i = i + 1;
        }
        None
    }
}

/// The registry is unchanged: same marketplaces, same records, same
/// registered names.
pub open spec fn registry_unchanged(pre: Market, post: Market) -> bool {
    &&& post.mkt_count() == pre.mkt_count()
    &&& forall|i: int| 0 <= i < pre.mkt_count() ==> post.mkt(i) == pre.mkt(i)
    &&& forall|n: Seq<u8>| post.has_marketplace_named(n) == pre.has_marketplace_named(n)
}

/// Every treasury balance is unchanged.
pub open spec fn treasuries_unchanged(pre: Market, post: Market) -> bool {
    forall|i: int| 0 <= i < pre.mkt_count() ==> post.treasury_of(i) == pre.treasury_of(i)
}

/// Every key of the listing ledger resolves as before.
pub open spec fn listings_unchanged(pre: Market, post: Market) -> bool {
    forall|m: u64, a: u64| post.listing_of(m, a) == pre.listing_of(m, a)
}

/// Every vault holds what it held before.
pub open spec fn vaults_unchanged(pre: Market, post: Market) -> bool {
    forall|m: u64, a: u64| post.vault_amount(m, a) == pre.vault_amount(m, a)
}

/// Every payment balance is unchanged.
pub open spec fn pay_unchanged(pre: Market, post: Market) -> bool {
    forall|o: u64| post.pay_balance(o) == pre.pay_balance(o)
}

/// Every asset holding is unchanged.
pub open spec fn holdings_unchanged(pre: Market, post: Market) -> bool {
    forall|o: u64, a: u64| post.asset_balance(o, a) == pre.asset_balance(o, a)
}

/// Every reward balance is unchanged.
pub open spec fn rewards_unchanged(pre: Market, post: Market) -> bool {
    forall|o: u64, m: u64| post.reward_balance(o, m) == pre.reward_balance(o, m)
}

/// When `initialize` is owed success: the name length is within
/// bounds and no marketplace is registered under it yet.
pub open spec fn initialize_enabled(pre: Market, name: Seq<u8>) -> bool {
    &&& 1 <= name.len() <= MAX_NAME_LEN
    &&& !pre.has_marketplace_named(name)
}

/// The error `initialize` reports, checked in this order.
pub open spec fn initialize_error(pre: Market, name: Seq<u8>) -> MarketplaceError {
    if name.len() == 0 {
        MarketplaceError::NameEmpty
    } else if name.len() > MAX_NAME_LEN {
        MarketplaceError::NameTooLong
    } else {
        MarketplaceError::AlreadyExists
    }
}

/// What a successful `initialize` does: one new marketplace record at
/// the next derived address, an empty treasury, and nothing else.
pub open spec fn initialize_step(
    pre: Market,
    post: Market,
    admin: u64,
    name: Seq<u8>,
    fee_bps: u16,
    handle: u64,
) -> bool {
    &&& handle as nat == pre.mkt_count()
    &&& post.mkt_count() == pre.mkt_count() + 1
    &&& post.mkt(handle as int) == (MarketplaceModel {
        admin,
        fee_bps,
        name,
        bump: CANONICAL_BUMP,
        treasury_bump: CANONICAL_BUMP,
        reward_mint_bump: CANONICAL_BUMP,
    })
    &&& post.treasury_of(handle as int) == 0
    &&& forall|i: int| 0 <= i < pre.mkt_count() ==> post.mkt(i) == pre.mkt(i)
    &&& forall|n2: Seq<u8>|
        post.has_marketplace_named(n2) <==> (pre.has_marketplace_named(n2) || n2 == name)
    &&& treasuries_unchanged(pre, post)
    &&& listings_unchanged(pre, post)
    &&& vaults_unchanged(pre, post)
    &&& pay_unchanged(pre, post)
    &&& holdings_unchanged(pre, post)
    &&& rewards_unchanged(pre, post)
}

/// When `list` is owed success: no listing for the asset exists under
/// the marketplace, and the maker holds a unit to lock.
pub open spec fn list_enabled(pre: Market, m: u64, maker: u64, a: u64) -> bool {
    &&& pre.listing_of(m, a) is None
    &&& pre.asset_balance(maker, a) >= 1
}

/// The error `list` reports, checked in this order.
pub open spec fn list_error(pre: Market, m: u64, maker: u64, a: u64) -> MarketplaceError {
    if pre.listing_of(m, a) is Some {
        MarketplaceError::DuplicateListing
    } else {
        MarketplaceError::InsufficientBalance
    }
}

/// What a successful `list` does, as one atomic unit: the listing
/// record appears, exactly one unit moves from the maker's holding
/// into the vault, and nothing else changes.
pub open spec fn list_step(
    pre: Market,
    post: Market,
    m: u64,
    maker: u64,
    a: u64,
    price: u64,
) -> bool {
    &&& post.listing_of(m, a) == Some(
        Listing { maker, asset_id: a, price, bump: CANONICAL_BUMP },
    )
    &&& forall|m2: u64, a2: u64|
        !(m2 == m && a2 == a) ==> post.listing_of(m2, a2) == pre.listing_of(m2, a2)
    &&& post.vault_amount(m, a) == 1
    &&& forall|m2: u64, a2: u64|
        !(m2 == m && a2 == a) ==> post.vault_amount(m2, a2) == pre.vault_amount(m2, a2)
    &&& post.asset_balance(maker, a) == pre.asset_balance(maker, a) - 1
    &&& forall|o: u64, a2: u64|
        !(o == maker && a2 == a) ==> post.asset_balance(o, a2) == pre.asset_balance(o, a2)
    &&& registry_unchanged(pre, post)
    &&& treasuries_unchanged(pre, post)
    &&& pay_unchanged(pre, post)
    &&& rewards_unchanged(pre, post)
}

/// When `cancel` is owed success: the listing exists, the caller is
/// its maker, and returning the unit cannot exceed the representable
/// range.
pub open spec fn cancel_enabled(pre: Market, m: u64, a: u64, caller: u64) -> bool {
    &&& pre.listing_of(m, a) is Some
    &&& caller == pre.listing_of(m, a)->Some_0.maker
    &&& pre.asset_balance(caller, a) < u64::MAX
}

/// The error `cancel` reports, checked in this order.
pub open spec fn cancel_error(pre: Market, m: u64, a: u64, caller: u64) -> MarketplaceError {
    if pre.listing_of(m, a) is None {
        MarketplaceError::ListingNotFound
    } else if caller != pre.listing_of(m, a)->Some_0.maker {
        MarketplaceError::Unauthorized
    } else {
        MarketplaceError::Overflow
    }
}

/// What a successful `cancel` does, as one atomic unit: the asset
/// moves vault to maker, the listing record and the vault are gone,
/// and no fee is taken, no reward issued, no payment moved.
pub open spec fn cancel_step(pre: Market, post: Market, m: u64, a: u64) -> bool {
    let maker = pre.listing_of(m, a)->Some_0.maker;
    &&& post.listing_of(m, a) is None
    &&& forall|m2: u64, a2: u64|
        !(m2 == m && a2 == a) ==> post.listing_of(m2, a2) == pre.listing_of(m2, a2)
    &&& post.vault_amount(m, a) == 0
    &&& forall|m2: u64, a2: u64|
        !(m2 == m && a2 == a) ==> post.vault_amount(m2, a2) == pre.vault_amount(m2, a2)
    &&& post.asset_balance(maker, a) == pre.asset_balance(maker, a) + 1
    &&& forall|o: u64, a2: u64|
        !(o == maker && a2 == a) ==> post.asset_balance(o, a2) == pre.asset_balance(o, a2)
    &&& registry_unchanged(pre, post)
    &&& treasuries_unchanged(pre, post)
    &&& pay_unchanged(pre, post)
    &&& rewards_unchanged(pre, post)
}

/// A payment balance after settlement: the taker is debited the full
/// price, and the maker is credited the seller proceeds.
pub open spec fn settled_pay(
    pre: Market,
    o: u64,
    taker: u64,
    maker: u64,
    price: u64,
    proceeds: int,
) -> int {
    let debited = if o == taker {
        pre.pay_balance(o) - price
    } else {
        pre.pay_balance(o) as int
    };
    if o == maker {
        debited + proceeds
    } else {
        debited
    }
}

/// Whether settling the listing under `(m, a)` for `taker` would push
/// some balance past the representable range. The taker's own payment
/// never re-overflows: what it gains is never more than what it pays.
pub open spec fn purchase_overflows(pre: Market, m: u64, a: u64, taker: u64) -> bool {
    let l = pre.listing_of(m, a)->Some_0;
    let bps = pre.mkt(m as int).fee_bps;
    ||| (l.maker != taker && pre.pay_balance(l.maker) + proceeds_of(l.price, bps) > u64::MAX)
    ||| pre.treasury_of(m as int) + fee_of(l.price, bps) > u64::MAX
    ||| pre.asset_balance(taker, a) + 1 > u64::MAX
    ||| pre.reward_balance(taker, m) + reward_of(l.price) > u64::MAX
}

/// When `purchase` is owed success: the listing exists, the supplied
/// price agrees with the stored one, the taker can pay, and no
/// settlement balance would overflow.
pub open spec fn purchase_enabled(
    pre: Market,
    m: u64,
    a: u64,
    taker: u64,
    expected_price: u64,
) -> bool {
    &&& pre.listing_of(m, a) is Some
    &&& expected_price == pre.listing_of(m, a)->Some_0.price
    &&& pre.pay_balance(taker) >= pre.listing_of(m, a)->Some_0.price
    &&& !purchase_overflows(pre, m, a, taker)
}

/// The error `purchase` reports, checked in this order.
pub open spec fn purchase_error(
    pre: Market,
    m: u64,
    a: u64,
    taker: u64,
    expected_price: u64,
) -> MarketplaceError {
    if pre.listing_of(m, a) is None {
        MarketplaceError::ListingNotFound
    } else if expected_price != pre.listing_of(m, a)->Some_0.price {
        MarketplaceError::PriceMismatch
    } else if pre.pay_balance(taker) < pre.listing_of(m, a)->Some_0.price {
        MarketplaceError::InsufficientFunds
    } else {
        MarketplaceError::Overflow
    }
}

/// What a successful `purchase` does, as one atomic unit: the taker
/// pays the price, the maker receives the proceeds, the treasury the
/// fee, the asset moves vault to taker, rewards are issued to the
/// taker, and the listing record and the vault are gone.
pub open spec fn purchase_step(pre: Market, post: Market, m: u64, a: u64, taker: u64) -> bool {
    let l = pre.listing_of(m, a)->Some_0;
    let bps = pre.mkt(m as int).fee_bps;
    &&& post.listing_of(m, a) is None
    &&& forall|m2: u64, a2: u64|
        !(m2 == m && a2 == a) ==> post.listing_of(m2, a2) == pre.listing_of(m2, a2)
    &&& post.vault_amount(m, a) == 0
    &&& forall|m2: u64, a2: u64|
        !(m2 == m && a2 == a) ==> post.vault_amount(m2, a2) == pre.vault_amount(m2, a2)
    &&& forall|o: u64|
        post.pay_balance(o) == settled_pay(pre, o, taker, l.maker, l.price, proceeds_of(l.price, bps))
    &&& post.treasury_of(m as int) == pre.treasury_of(m as int) + fee_of(l.price, bps)
    &&& forall|i: int|
        0 <= i < pre.mkt_count() && i != m ==> post.treasury_of(i) == pre.treasury_of(i)
    &&& post.asset_balance(taker, a) == pre.asset_balance(taker, a) + 1
    &&& forall|o: u64, a2: u64|
        !(o == taker && a2 == a) ==> post.asset_balance(o, a2) == pre.asset_balance(o, a2)
    &&& post.reward_balance(taker, m) == pre.reward_balance(taker, m) + reward_of(l.price)
    &&& forall|o: u64, m2: u64|
        !(o == taker && m2 == m) ==> post.reward_balance(o, m2) == pre.reward_balance(o, m2)
    &&& registry_unchanged(pre, post)
}

impl Market {
    /// Credits `owner` with `amount` units of the payment medium: the
    /// model of value entering from outside the marketplace.
    pub fn deposit(&mut self, owner: u64, amount: u64) -> (r: Result<(), MarketplaceError>)
        requires
            old(self).wf(),
        ensures
            final(self).wf(),
            match r {
                Ok(()) => {
                    &&& old(self).pay_balance(owner) + amount <= u64::MAX
                    &&& final(self).pay_balance(owner) == old(self).pay_balance(owner) + amount
                    &&& forall|o: u64|
                        o != owner ==> final(self).pay_balance(o) == old(self).pay_balance(o)
                    &&& registry_unchanged(*old(self), *final(self))
                    &&& treasuries_unchanged(*old(self), *final(self))
                    &&& listings_unchanged(*old(self), *final(self))
                    &&& vaults_unchanged(*old(self), *final(self))
                    &&& holdings_unchanged(*old(self), *final(self))
                    &&& rewards_unchanged(*old(self), *final(self))
                },
                Err(e) => {
                    &&& e == MarketplaceError::Overflow
                    &&& old(self).pay_balance(owner) + amount > u64::MAX
                    &&& *final(self) == *old(self)
                },
            },
    {
        let ghost pre = *self;
        let bal: u64 = self.wallets.lookup(owner, 0);
        if amount > u64::MAX - bal {
            return Err(MarketplaceError::Overflow);
        }
        self.wallets.store(owner, 0, bal + amount);
        proof {
            assert forall|m2: u64, a2: u64| self.escrow_ok_at(m2, a2) by {
                assert(pre.escrow_ok_at(m2, a2));
            }
        }
        Ok(())
    }

    /// Credits `owner` with `amount` units of asset `a`: the model of
    /// an asset minted or transferred in from outside.
    pub fn deposit_asset(&mut self, owner: u64, a: u64, amount: u64) -> (r: Result<
        (),
        MarketplaceError,
    >)
        requires
            old(self).wf(),
        ensures
            final(self).wf(),
            match r {
                Ok(()) => {
                    &&& old(self).asset_balance(owner, a) + amount <= u64::MAX
                    &&& final(self).asset_balance(owner, a) == old(self).asset_balance(owner, a)
                        + amount
                    &&& forall|o: u64, a2: u64|
                        !(o == owner && a2 == a) ==> final(self).asset_balance(o, a2) == old(
                            self,
                        ).asset_balance(o, a2)
                    &&& registry_unchanged(*old(self), *final(self))
                    &&& treasuries_unchanged(*old(self), *final(self))
                    &&& listings_unchanged(*old(self), *final(self))
                    &&& vaults_unchanged(*old(self), *final(self))
                    &&& pay_unchanged(*old(self), *final(self))
                    &&& rewards_unchanged(*old(self), *final(self))
                },
                Err(e) => {
                    &&& e == MarketplaceError::Overflow
                    &&& old(self).asset_balance(owner, a) + amount > u64::MAX
                    &&& *final(self) == *old(self)
                },
            },
    {
        let ghost pre = *self;
        let bal: u64 = self.holdings.lookup(owner, a);
        if amount > u64::MAX - bal {
            return Err(MarketplaceError::Overflow);
        }
        self.holdings.store(owner, a, bal + amount);
        proof {
            assert forall|m2: u64, a2: u64| self.escrow_ok_at(m2, a2) by {
                assert(pre.escrow_ok_at(m2, a2));
            }
        }
        Ok(())
    }

    /// Creates the marketplace registry record for `name`, with the
    /// caller as admin, and derives its treasury and reward mint. The
    /// name must be 1 to 32 bytes and not yet registered.
    pub fn initialize(&mut self, admin: u64, name: Vec<u8>, fee_bps: u16) -> (r: Result<
        u64,
        MarketplaceError,
    >)
        requires
            old(self).wf(),
            fee_bps <= BPS_DENOMINATOR,
        ensures
            final(self).wf(),
            match r {
                Ok(handle) => {
                    &&& initialize_enabled(*old(self), name@)
                    &&& initialize_step(*old(self), *final(self), admin, name@, fee_bps, handle)
                },
                Err(e) => {
                    &&& !initialize_enabled(*old(self), name@)
                    &&& e == initialize_error(*old(self), name@)
                    &&& *final(self) == *old(self)
                },
            },
    {
        let ghost pre = *self;
        if name.len() == 0 {
            return Err(MarketplaceError::NameEmpty);
        }
        if name.len() > MAX_NAME_LEN {
            return Err(MarketplaceError::NameTooLong);
        }
        if self.find_marketplace(&name).is_some() {
            return Err(MarketplaceError::AlreadyExists);
        }
        let handle: u64 = self.marketplaces.len() as u64;
        let ghost nm = name@;
        self.marketplaces.push(
            Marketplace {
                admin,
                fee_bps,
                name,
                bump: CANONICAL_BUMP,
                treasury_bump: CANONICAL_BUMP,
                reward_mint_bump: CANONICAL_BUMP,
            },
        );
        self.treasuries.push(0);
        proof {
            assert forall|i: int, j: int| 0 <= i < j < self.marketplaces@.len() implies self
                .marketplaces@[i]@.name != self.marketplaces@[j]@.name by {
                if j == self.marketplaces@.len() - 1 {
                    if self.marketplaces@[i]@.name == nm {
                        assert(pre.has_marketplace_named(nm));
                    }
                }
            }
            assert forall|m2: u64, a2: u64| self.escrow_ok_at(m2, a2) by {
                assert(pre.escrow_ok_at(m2, a2));
            }
            assert forall|n2: Seq<u8>|
                self.has_marketplace_named(n2) <==> (pre.has_marketplace_named(n2) || n2
                    == nm) by {
                let len0 = pre.marketplaces@.len() as int;
                if pre.has_marketplace_named(n2) {
                    let w = choose|w: int|
                        0 <= w < len0 && pre.marketplaces@[w]@.name == n2;
                    assert(self.marketplaces@[w]@.name == n2);
                }
                if n2 == nm {
                    assert(self.marketplaces@[len0]@.name == n2);
                }
                if self.has_marketplace_named(n2) {
                    let w = choose|w: int|
                        0 <= w < self.marketplaces@.len() && self.marketplaces@[w]@.name == n2;
                    if w < len0 {
                        assert(pre.marketplaces@[w]@.name == n2);
                    }
                }
            }
        }
        Ok(handle)
    }

    /// Creates a listing for `(marketplace, asset_id)` at `price` and,
    /// atomically with it, locks one unit of the asset from the
    /// maker's holding into the new vault.
    pub fn list(&mut self, marketplace: u64, maker: u64, asset_id: u64, price: u64) -> (r: Result<
        (),
        MarketplaceError,
    >)
        requires
            old(self).wf(),
            (marketplace as nat) < old(self).mkt_count(),
        ensures
            final(self).wf(),
            match r {
                Ok(()) => {
                    &&& list_enabled(*old(self), marketplace, maker, asset_id)
                    &&& list_step(*old(self), *final(self), marketplace, maker, asset_id, price)
                },
                Err(e) => {
                    &&& !list_enabled(*old(self), marketplace, maker, asset_id)
                    &&& e == list_error(*old(self), marketplace, maker, asset_id)
                    &&& *final(self) == *old(self)
                },
            },
    {
        let ghost pre = *self;
        if self.get_listing(marketplace, asset_id).is_some() {
            return Err(MarketplaceError::DuplicateListing);
        }
        let bal: u64 = self.holdings.lookup(maker, asset_id);
        if bal == 0 {
            return Err(MarketplaceError::InsufficientBalance);
        }
        proof {
            lemma_listing_none_absent(self.listings@, marketplace, asset_id);
        }
        self.holdings.store(maker, asset_id, bal - 1);
        self.vaults.store(marketplace, asset_id, 1);
        let entry = ListingEntry {
            marketplace,
            listing: Listing { maker, asset_id, price, bump: CANONICAL_BUMP },
        };
        proof {
            lemma_listing_push(self.listings@, entry);
        }
        self.listings.push(entry);
        proof {
            assert forall|i: int, j: int| 0 <= i < j < self.listings@.len() implies !entry_is(
                self.listings@[i],
                self.listings@[j].marketplace,
                self.listings@[j].listing.asset_id,
            ) by {
                if j == self.listings@.len() - 1 {
                    assert(self.listings@[i] == pre.listings@[i]);
                }
            }
            assert forall|m2: u64, a2: u64| self.escrow_ok_at(m2, a2) by {
                assert(pre.escrow_ok_at(m2, a2));
                if !(m2 == marketplace && a2 == asset_id) {
                    assert(!entry_is(entry, m2, a2));
                }
            }
        }
        Ok(())
    }

    /// Cancels the listing for `(marketplace, asset_id)`: only its
    /// maker may do so; the asset returns to the maker, the listing
    /// record and the vault are gone, no fee and no reward.
    pub fn cancel(&mut self, marketplace: u64, asset_id: u64, caller: u64) -> (r: Result<
        (),
        MarketplaceError,
    >)
        requires
            old(self).wf(),
        ensures
            final(self).wf(),
            match r {
                Ok(()) => {
                    &&& cancel_enabled(*old(self), marketplace, asset_id, caller)
                    &&& cancel_step(*old(self), *final(self), marketplace, asset_id)
                },
                Err(e) => {
                    &&& !cancel_enabled(*old(self), marketplace, asset_id, caller)
                    &&& e == cancel_error(*old(self), marketplace, asset_id, caller)
                    &&& *final(self) == *old(self)
                },
            },
    {
        let ghost pre = *self;
        let found = self.find_listing_index(marketplace, asset_id);
        if found.is_none() {
            return Err(MarketplaceError::ListingNotFound);
        }
        let i: usize = found.unwrap();
        let l: Listing = self.listings[i].listing;
        if caller != l.maker {
            return Err(MarketplaceError::Unauthorized);
        }
        let bal: u64 = self.holdings.lookup(l.maker, asset_id);
        if bal == u64::MAX {
            return Err(MarketplaceError::Overflow);
        }
        proof {
            assert forall|j: int|
                0 <= j < self.listings@.len() && j != i implies !entry_is(
                self.listings@[j],
                self.listings@[i as int].marketplace,
                self.listings@[i as int].listing.asset_id,
            ) by {
                if j < i {
                    assert(!entry_is(self.listings@[j], marketplace, asset_id));
                }
            }
            lemma_listing_remove(self.listings@, i as int);
        }
        self.holdings.store(l.maker, asset_id, bal + 1);
        self.vaults.store(marketplace, asset_id, 0);
        self.listings.remove(i);
        proof {
            assert forall|p: int, q: int| 0 <= p < q < self.listings@.len() implies !entry_is(
                self.listings@[p],
                self.listings@[q].marketplace,
                self.listings@[q].listing.asset_id,
            ) by {
                let p0 = if p < i { p } else { p + 1 };
                let q0 = if q < i { q } else { q + 1 };
                assert(self.listings@[p] == pre.listings@[p0]);
                assert(self.listings@[q] == pre.listings@[q0]);
            }
            assert forall|m2: u64, a2: u64| self.escrow_ok_at(m2, a2) by {
                assert(pre.escrow_ok_at(m2, a2));
            }
        }
        Ok(())
    }

    /// Settles the listing for `(marketplace, asset_id)` as a
    /// purchase by `taker` at `expected_price`: the taker pays, maker
    /// and treasury split the price, the asset and the reward units go
    /// to the taker, and the listing and its vault are gone. Either
    /// every step commits or none does.
    pub fn purchase(
        &mut self,
        marketplace: u64,
        asset_id: u64,
        taker: u64,
        expected_price: u64,
    ) -> (r: Result<(), MarketplaceError>)
        requires
            old(self).wf(),
            (marketplace as nat) < old(self).mkt_count(),
        ensures
            final(self).wf(),
            match r {
                Ok(()) => {
                    &&& purchase_enabled(*old(self), marketplace, asset_id, taker, expected_price)
                    &&& purchase_step(*old(self), *final(self), marketplace, asset_id, taker)
                },
                Err(e) => {
                    &&& !purchase_enabled(*old(self), marketplace, asset_id, taker, expected_price)
                    &&& e == purchase_error(*old(self), marketplace, asset_id, taker, expected_price)
                    &&& *final(self) == *old(self)
                },
            },
    {
        let ghost pre = *self;
        let found = self.find_listing_index(marketplace, asset_id);
        if found.is_none() {
            return Err(MarketplaceError::ListingNotFound);
        }
        let i: usize = found.unwrap();
        let l: Listing = self.listings[i].listing;
        if expected_price != l.price {
            return Err(MarketplaceError::PriceMismatch);
        }
        let taker_pay: u64 = self.wallets.lookup(taker, 0);
        if taker_pay < l.price {
            return Err(MarketplaceError::InsufficientFunds);
        }
        let n: usize = self.marketplaces.len();
        proof {
            assert((marketplace as nat) < n as nat);
            self.lemma_wf_mkt_valid(marketplace as int);
        }
        let idx: usize = marketplace as usize;
        let bps: u16 = self.marketplaces[idx].fee_bps;
        let fp: (u64, u64) = split_price(l.price, bps);
        let fee: u64 = fp.0;
        let proceeds: u64 = fp.1;
        let reward: u64 = reward_amount(l.price);
        let treasury_bal: u64 = self.treasuries[idx];
        if fee > u64::MAX - treasury_bal {
            return Err(MarketplaceError::Overflow);
        }
        let taker_assets: u64 = self.holdings.lookup(taker, asset_id);
        if taker_assets == u64::MAX {
            return Err(MarketplaceError::Overflow);
        }
        let taker_rewards: u64 = self.rewards.lookup(taker, marketplace);
        if reward > u64::MAX - taker_rewards {
            return Err(MarketplaceError::Overflow);
        }
        if taker != l.maker {
            let maker_pay: u64 = self.wallets.lookup(l.maker, 0);
            if proceeds > u64::MAX - maker_pay {
                return Err(MarketplaceError::Overflow);
            }
        }
        proof {
            assert forall|j: int|
                0 <= j < self.listings@.len() && j != i implies !entry_is(
                self.listings@[j],
                self.listings@[i as int].marketplace,
                self.listings@[i as int].listing.asset_id,
            ) by {
                if j < i {
                    assert(!entry_is(self.listings@[j], marketplace, asset_id));
                }
            }
            lemma_listing_remove(self.listings@, i as int);
        }
        self.wallets.store(taker, 0, taker_pay - l.price);
        let maker_pay_now: u64 = self.wallets.lookup(l.maker, 0);
        self.wallets.store(l.maker, 0, maker_pay_now + proceeds);
        self.treasuries.set(idx, treasury_bal + fee);
        self.vaults.store(marketplace, asset_id, 0);
        self.holdings.store(taker, asset_id, taker_assets + 1);
        self.rewards.store(taker, marketplace, taker_rewards + reward);
        self.listings.remove(i);
        proof {
            assert forall|p: int, q: int| 0 <= p < q < self.listings@.len() implies !entry_is(
                self.listings@[p],
                self.listings@[q].marketplace,
                self.listings@[q].listing.asset_id,
            ) by {
                let p0 = if p < i { p } else { p + 1 };
                let q0 = if q < i { q } else { q + 1 };
                assert(self.listings@[p] == pre.listings@[p0]);
                assert(self.listings@[q] == pre.listings@[q0]);
            }
            assert forall|m2: u64, a2: u64| self.escrow_ok_at(m2, a2) by {
                assert(pre.escrow_ok_at(m2, a2));
            }
            assert forall|o: u64|
                self.pay_balance(o) == settled_pay(
                    pre,
                    o,
                    taker,
                    l.maker,
                    l.price,
                    proceeds_of(l.price, bps),
                ) by {
            }
        }
        Ok(())
    }
}

/// Whether two byte strings are equal, decided byte by byte.
fn bytes_eq(x: &Vec<u8>, y: &Vec<u8>) -> (r: bool)
    ensures
        r <==> x@ == y@,
{
    if x.len() != y.len() {
        return false;
    }
    let n: usize = x.len();
    let mut i: usize = 0;
    while i < n
        invariant
            n == x@.len(),
            n == y@.len(),
            i <= n,
            forall|j: int| 0 <= j < i ==> x@[j] == y@[j],
        decreases n - i,
    {
        if x[i] != y[i] {
            return false;
        }
        i = i + 1;
    }
    proof {
        assert(x@ =~= y@);
    }
    true
}

} // verus!
