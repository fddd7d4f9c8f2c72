//! Fee and reward arithmetic for settlement.
//!
//! The fee is `fee_bps / 10000` of the price, rounded down; the
//! remainder of the division goes to the seller, never to the treasury,
//! so the split conserves value exactly. Reward issuance applies a
//! configured rate to the price.

use vstd::prelude::*;
use vstd::arithmetic::div_mod::{lemma_div_is_ordered, lemma_div_multiples_vanish, lemma_div_pos_is_pos};
use vstd::arithmetic::mul::lemma_mul_inequality;

verus! {

/// One hundred percent, in basis points.
pub const BPS_DENOMINATOR: u64 = 10000;

/// Reward units issued per price unit on a purchase. A configuration
/// constant of the marketplace operator, not a per-transaction value.
pub const REWARD_RATE: u64 = 1;

/// The treasury's share of `price` at `fee_bps` basis points, rounded
/// down.
pub open spec fn fee_of(price: u64, fee_bps: u16) -> int {
    ((price as int) * (fee_bps as int)) / (BPS_DENOMINATOR as int)
}

/// The seller's share of `price`: everything the treasury does not
/// take, including the rounding remainder.
pub open spec fn proceeds_of(price: u64, fee_bps: u16) -> int {
    price as int - fee_of(price, fee_bps)
}

/// Reward units issued to the taker of a purchase at `price`.
pub open spec fn reward_of(price: u64) -> int {
    (price as int) * (REWARD_RATE as int)
}

/// Law: for every price and every fee rate within bounds, the fee and
/// the seller proceeds partition the price exactly — no value is
/// created or destroyed by the split — and the fee never exceeds the
/// price.
pub proof fn lemma_fee_split_conserves(price: u64, fee_bps: u16)
    requires
        fee_bps <= BPS_DENOMINATOR,
    ensures
        fee_of(price, fee_bps) + proceeds_of(price, fee_bps) == price,
        0 <= fee_of(price, fee_bps) <= price,
        0 <= proceeds_of(price, fee_bps) <= price,
{
    let p = price as int;
    let f = fee_bps as int;
    let d = BPS_DENOMINATOR as int;
    lemma_mul_inequality(f, d, p);
    assert(p * f == f * p) by (nonlinear_arith);
    assert(p * d == d * p) by (nonlinear_arith);
    lemma_div_is_ordered(p * f, p * d, d);
    lemma_div_multiples_vanish(p, d);
    assert(p * f >= 0) by (nonlinear_arith)
        requires
            p >= 0,
            f >= 0,
    ;
    lemma_div_pos_is_pos(p * f, d);
}

/// Computes the fee and seller proceeds for a purchase. The widening
/// multiplication cannot overflow, so even `price == u64::MAX` with
/// `fee_bps == 10000` is split without wrapping.
pub fn split_price(price: u64, fee_bps: u16) -> (r: (u64, u64))
    requires
        fee_bps <= BPS_DENOMINATOR,
    ensures
        r.0 == fee_of(price, fee_bps),
        r.1 == proceeds_of(price, fee_bps),
        r.0 + r.1 == price,
{
    proof {
        lemma_fee_split_conserves(price, fee_bps);
    }
    let wide: u128 = (price as u128) * (fee_bps as u128);
    let fee: u64 = (wide / (BPS_DENOMINATOR as u128)) as u64;
    (fee, price - fee)
}

/// Reward units owed for a purchase at `price`. With the configured
/// rate this never exceeds the representable range.
pub fn reward_amount(price: u64) -> (r: u64)
    ensures
        r == reward_of(price),
{
    price * REWARD_RATE
}

} // verus!
