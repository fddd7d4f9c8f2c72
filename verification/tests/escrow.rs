use marketplace::errors::MarketplaceError;
use marketplace::market::Market;

const ADMIN: u64 = 1;
const MAKER: u64 = 2;
const OTHER: u64 = 3;
const ASSET: u64 = 9;

fn market_with_one_marketplace(fee_bps: u16) -> (Market, u64) {
    let mut mkt = Market::new();
    let handle = mkt.initialize(ADMIN, b"bazaar".to_vec(), fee_bps).unwrap();
    (mkt, handle)
}

#[test]
fn list_without_asset_fails() {
    let (mut mkt, h) = market_with_one_marketplace(500);
    let r = mkt.list(h, MAKER, ASSET, 1000);
    assert_eq!(r, Err(MarketplaceError::InsufficientBalance));
    assert!(mkt.get_listing(h, ASSET).is_none());
    assert_eq!(mkt.get_vault_amount(h, ASSET), 0);
}

#[test]
fn list_locks_one_unit_into_the_vault() {
    let (mut mkt, h) = market_with_one_marketplace(500);
    mkt.deposit_asset(MAKER, ASSET, 2).unwrap();
    assert_eq!(mkt.list(h, MAKER, ASSET, 1000), Ok(()));
    assert_eq!(mkt.get_asset_balance(MAKER, ASSET), 1);
    assert_eq!(mkt.get_vault_amount(h, ASSET), 1);
    let l = mkt.get_listing(h, ASSET).unwrap();
    assert_eq!(l.maker, MAKER);
    assert_eq!(l.asset_id, ASSET);
    assert_eq!(l.price, 1000);
}

#[test]
fn list_duplicate_fails() {
    let (mut mkt, h) = market_with_one_marketplace(500);
    mkt.deposit_asset(MAKER, ASSET, 2).unwrap();
    mkt.list(h, MAKER, ASSET, 1000).unwrap();
    let r = mkt.list(h, MAKER, ASSET, 500);
    assert_eq!(r, Err(MarketplaceError::DuplicateListing));
    // the stored listing keeps its original price
    assert_eq!(mkt.get_listing(h, ASSET).unwrap().price, 1000);
    assert_eq!(mkt.get_asset_balance(MAKER, ASSET), 1);
}

#[test]
fn listing_active_exactly_while_vault_holds_the_unit() {
    let (mut mkt, h) = market_with_one_marketplace(500);
    mkt.deposit_asset(MAKER, ASSET, 1).unwrap();
    assert!(mkt.get_listing(h, ASSET).is_none());
    assert_eq!(mkt.get_vault_amount(h, ASSET), 0);

    mkt.list(h, MAKER, ASSET, 1000).unwrap();
    assert!(mkt.get_listing(h, ASSET).is_some());
    assert_eq!(mkt.get_vault_amount(h, ASSET), 1);

    mkt.cancel(h, ASSET, MAKER).unwrap();
    assert!(mkt.get_listing(h, ASSET).is_none());
    assert_eq!(mkt.get_vault_amount(h, ASSET), 0);
}

#[test]
fn cancel_by_non_maker_fails() {
    let (mut mkt, h) = market_with_one_marketplace(500);
    mkt.deposit_asset(MAKER, ASSET, 1).unwrap();
    mkt.list(h, MAKER, ASSET, 1000).unwrap();
    let r = mkt.cancel(h, ASSET, OTHER);
    assert_eq!(r, Err(MarketplaceError::Unauthorized));
    assert!(mkt.get_listing(h, ASSET).is_some());
    assert_eq!(mkt.get_vault_amount(h, ASSET), 1);
}

#[test]
fn list_then_cancel_restores_the_maker() {
    let (mut mkt, h) = market_with_one_marketplace(500);
    mkt.deposit_asset(MAKER, ASSET, 3).unwrap();
    let before = mkt.get_asset_balance(MAKER, ASSET);
    mkt.list(h, MAKER, ASSET, 1000).unwrap();
    mkt.cancel(h, ASSET, MAKER).unwrap();
    assert_eq!(mkt.get_asset_balance(MAKER, ASSET), before);
    assert!(mkt.get_listing(h, ASSET).is_none());
    assert_eq!(mkt.get_vault_amount(h, ASSET), 0);
}

#[test]
fn cancel_twice_fails_the_second_time() {
    let (mut mkt, h) = market_with_one_marketplace(500);
    mkt.deposit_asset(MAKER, ASSET, 1).unwrap();
    mkt.list(h, MAKER, ASSET, 1000).unwrap();
    assert_eq!(mkt.cancel(h, ASSET, MAKER), Ok(()));
    assert_eq!(mkt.cancel(h, ASSET, MAKER), Err(MarketplaceError::ListingNotFound));
}

#[test]
fn relist_after_cancel_succeeds() {
    let (mut mkt, h) = market_with_one_marketplace(500);
    mkt.deposit_asset(MAKER, ASSET, 1).unwrap();
    mkt.list(h, MAKER, ASSET, 1000).unwrap();
    mkt.cancel(h, ASSET, MAKER).unwrap();
    assert_eq!(mkt.list(h, MAKER, ASSET, 2000), Ok(()));
    assert_eq!(mkt.get_listing(h, ASSET).unwrap().price, 2000);
}

#[test]
fn listings_under_distinct_marketplaces_are_independent() {
    let mut mkt = Market::new();
    let h1 = mkt.initialize(ADMIN, b"alpha".to_vec(), 100).unwrap();
    let h2 = mkt.initialize(ADMIN, b"beta".to_vec(), 100).unwrap();
    mkt.deposit_asset(MAKER, ASSET, 2).unwrap();
    mkt.list(h1, MAKER, ASSET, 111).unwrap();
    mkt.list(h2, MAKER, ASSET, 222).unwrap();
    assert_eq!(mkt.get_listing(h1, ASSET).unwrap().price, 111);
    assert_eq!(mkt.get_listing(h2, ASSET).unwrap().price, 222);
    mkt.cancel(h1, ASSET, MAKER).unwrap();
    assert!(mkt.get_listing(h1, ASSET).is_none());
    assert_eq!(mkt.get_listing(h2, ASSET).unwrap().price, 222);
}
