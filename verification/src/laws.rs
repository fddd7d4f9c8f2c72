//! The laws of the settlement engine, each proved once and for all
//! inputs: the escrow invariant, the uniqueness of settlement, and the
//! list–cancel round trip. The conservation law of the fee split is
//! [`crate::fees::lemma_fee_split_conserves`].

use vstd::prelude::*;
use crate::errors::MarketplaceError;
use crate::fees::lemma_fee_split_conserves;
use crate::market::{
    Market, cancel_enabled, cancel_error, cancel_step, list_step, pay_unchanged,
    purchase_enabled, purchase_error, purchase_step, rewards_unchanged, treasuries_unchanged,
};

verus! {

/// Law: in every well-formed ledger state, a listing is active if and
/// only if its vault holds exactly one unit of its asset; a key with
/// no listing has an empty vault — never one unit locked without the
/// record, never a record without the locked unit.
pub proof fn lemma_active_iff_vaulted(s: Market, m: u64, a: u64)
    requires
        s.wf(),
    ensures
        s.listing_of(m, a) is Some <==> s.vault_amount(m, a) == 1,
        s.listing_of(m, a) is None <==> s.vault_amount(m, a) == 0,
{
    s.lemma_wf_escrow(m, a);
}

/// Law: settling a listing consumes it. After a successful purchase
/// or cancel of the listing under `(m, a)`, no purchase and no cancel
/// of that listing can succeed again, whoever calls and whatever
/// price is supplied; every such attempt reports `ListingNotFound`.
pub proof fn lemma_settlement_at_most_once(
    pre: Market,
    post: Market,
    m: u64,
    a: u64,
    taker: u64,
)
    requires
        purchase_step(pre, post, m, a, taker) || cancel_step(pre, post, m, a),
    ensures
        forall|t2: u64, p2: u64| !purchase_enabled(post, m, a, t2, p2),
        forall|t2: u64, p2: u64|
            purchase_error(post, m, a, t2, p2) == MarketplaceError::ListingNotFound,
        forall|c2: u64| !cancel_enabled(post, m, a, c2),
        forall|c2: u64| cancel_error(post, m, a, c2) == MarketplaceError::ListingNotFound,
{
}

/// Law: a purchase moves value, it never creates or destroys it.
/// When the taker is not the maker, what the taker pays is exactly
/// what the maker and the treasury gain together.
pub proof fn lemma_purchase_conserves_value(
    pre: Market,
    post: Market,
    m: u64,
    a: u64,
    taker: u64,
)
    requires
        pre.wf(),
        (m as nat) < pre.mkt_count(),
        pre.listing_of(m, a) is Some,
        purchase_step(pre, post, m, a, taker),
        taker != pre.listing_of(m, a)->Some_0.maker,
    ensures
        pre.pay_balance(taker) - post.pay_balance(taker) == pre.listing_of(m, a)->Some_0.price,
        (post.pay_balance(pre.listing_of(m, a)->Some_0.maker) - pre.pay_balance(
            pre.listing_of(m, a)->Some_0.maker,
        )) + (post.treasury_of(m as int) - pre.treasury_of(m as int)) == pre.listing_of(
            m,
            a,
        )->Some_0.price,
{
    let l = pre.listing_of(m, a)->Some_0;
    pre.lemma_wf_mkt_valid(m as int);
    lemma_fee_split_conserves(l.price, pre.mkt(m as int).fee_bps);
}

/// Law: `list` followed by `cancel` of the same listing is a round
/// trip. The maker's holding of the asset returns to its value before
/// `list`, no residual listing or vault remains, and no payment,
/// treasury or reward balance has moved.
pub proof fn lemma_list_cancel_round_trip(
    pre: Market,
    mid: Market,
    post: Market,
    m: u64,
    maker: u64,
    a: u64,
    price: u64,
)
    requires
        list_step(pre, mid, m, maker, a, price),
        cancel_step(mid, post, m, a),
    ensures
        post.asset_balance(maker, a) == pre.asset_balance(maker, a),
        forall|o: u64, a2: u64|
            !(o == maker && a2 == a) ==> post.asset_balance(o, a2) == pre.asset_balance(o, a2),
        post.listing_of(m, a) is None,
        post.vault_amount(m, a) == 0,
        forall|m2: u64, a2: u64|
            !(m2 == m && a2 == a) ==> post.listing_of(m2, a2) == pre.listing_of(m2, a2),
        forall|m2: u64, a2: u64|
            !(m2 == m && a2 == a) ==> post.vault_amount(m2, a2) == pre.vault_amount(m2, a2),
        pay_unchanged(pre, post),
        rewards_unchanged(pre, post),
        treasuries_unchanged(pre, post),
{
}

} // verus!
