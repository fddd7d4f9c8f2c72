//! The error taxonomy: validation, authorization, resource and
//! arithmetic errors. Every error aborts the whole request with no
//! state change; there is no partial effect.

use vstd::prelude::*;

verus! {

/// Why a marketplace request was rejected. Each variant is reported
/// before any state change is committed.
#[derive(Clone, Copy, PartialEq, Eq, Structural, Debug)]
pub enum MarketplaceError {
    /// `initialize`: the marketplace name is empty.
    NameEmpty,
    /// `initialize`: the marketplace name is longer than the limit.
    NameTooLong,
    /// `initialize`: a marketplace with this name is already registered.
    AlreadyExists,
    /// `list`: the maker does not hold a unit of the asset.
    InsufficientBalance,
    /// `list`: a listing for this asset already exists under this marketplace.
    DuplicateListing,
    /// `purchase`/`cancel`: no listing exists for the requested asset.
    ListingNotFound,
    /// `purchase`: the caller-supplied price disagrees with the stored price.
    PriceMismatch,
    /// `purchase`: the taker cannot pay the stored price.
    InsufficientFunds,
    /// `cancel`: the caller is not the maker of the listing.
    Unauthorized,
    /// `purchase`: settlement arithmetic would exceed the representable
    /// range; the request fails closed instead of wrapping.
    Overflow,
}

} // verus!
