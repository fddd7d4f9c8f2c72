//! The persisted records: the marketplace registry entry and the
//! listing (active escrow) record, with their mathematical models.
//!
//! Identities — wallets, assets — are plain integers: the ledger
//! resolves them to accounts, and the engine only ever compares them.
//! Addresses of program-owned records are derived deterministically:
//! the marketplace from its name, the treasury, reward mint, listing
//! and vault from the marketplace. In this model derivation always
//! succeeds at the canonical bump, and the registry index plays the
//! role of the marketplace's derived address: the uniqueness of names
//! (kept by the registry) makes the name determine it.

use vstd::prelude::*;

verus! {

/// Longest permitted marketplace name, in bytes.
pub const MAX_NAME_LEN: usize = 32;

/// The bump at which every derivation succeeds in this model.
pub const CANONICAL_BUMP: u8 = 255;

/// The singleton-per-name configuration record of a marketplace.
/// Once created, every field is immutable.
pub struct Marketplace {
    /// The identity that created the marketplace.
    pub admin: u64,
    /// Fee rate in basis points, at most 10000.
    pub fee_bps: u16,
    /// The name, 1 to [`MAX_NAME_LEN`] bytes; it determines the
    /// marketplace's derived address.
    pub name: Vec<u8>,
    /// Derivation bump of the marketplace record itself.
    pub bump: u8,
    /// Derivation bump of the treasury address.
    pub treasury_bump: u8,
    /// Derivation bump of the reward mint address.
    pub reward_mint_bump: u8,
}

/// The mathematical model of a [`Marketplace`] record.
pub struct MarketplaceModel {
    pub admin: u64,
    pub fee_bps: u16,
    pub name: Seq<u8>,
    pub bump: u8,
    pub treasury_bump: u8,
    pub reward_mint_bump: u8,
}

impl View for Marketplace {
    type V = MarketplaceModel;

    open spec fn view(&self) -> MarketplaceModel {
        MarketplaceModel {
            admin: self.admin,
            fee_bps: self.fee_bps,
            name: self.name@,
            bump: self.bump,
            treasury_bump: self.treasury_bump,
            reward_mint_bump: self.reward_mint_bump,
        }
    }
}

impl MarketplaceModel {
    /// Well-formedness of a registry entry: the name length is within
    /// bounds and the fee rate cannot exceed one hundred percent.
    pub open spec fn valid(self) -> bool {
        &&& 1 <= self.name.len() <= MAX_NAME_LEN
        &&& self.fee_bps <= crate::fees::BPS_DENOMINATOR
    }
}

/// One active escrow: the record that pairs a locked asset with its
/// price and seller. Its existence is the sole witness that the vault
/// holds exactly one locked unit of `asset_id`.
#[derive(Clone, Copy, PartialEq, Eq, Structural)]
pub struct Listing {
    /// The seller who locked the asset.
    pub maker: u64,
    /// The identity of the locked asset.
    pub asset_id: u64,
    /// The asking price, in smallest payment units.
    pub price: u64,
    /// Derivation bump of the listing record.
    pub bump: u8,
}

} // verus!
