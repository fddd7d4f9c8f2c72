use marketplace::errors::MarketplaceError;
use marketplace::fees::REWARD_RATE;
use marketplace::market::Market;

const ADMIN: u64 = 1;
const MAKER: u64 = 2;
const TAKER: u64 = 3;
const ASSET: u64 = 9;

fn market_with_listing(fee_bps: u16, price: u64) -> (Market, u64) {
    let mut mkt = Market::new();
    let handle = mkt.initialize(ADMIN, b"bazaar".to_vec(), fee_bps).unwrap();
    mkt.deposit_asset(MAKER, ASSET, 1).unwrap();
    mkt.list(handle, MAKER, ASSET, price).unwrap();
    (mkt, handle)
}

#[test]
fn purchase_splits_price_and_hands_over_the_asset() {
    // Marketplace at 5%, listing at 1000.
    let (mut mkt, h) = market_with_listing(500, 1000);
    mkt.deposit(TAKER, 1500).unwrap();
    assert_eq!(mkt.purchase(h, ASSET, TAKER, 1000), Ok(()));
    // fee 50 to the treasury, 950 to the maker, taker paid 1000
    assert_eq!(mkt.get_treasury(h), 50);
    assert_eq!(mkt.get_pay_balance(MAKER), 950);
    assert_eq!(mkt.get_pay_balance(TAKER), 500);
    // the asset and the configured reward go to the taker
    assert_eq!(mkt.get_asset_balance(TAKER, ASSET), 1);
    assert_eq!(mkt.get_reward_balance(TAKER, h), 1000 * REWARD_RATE);
    // the listing is no longer resolvable, the vault is empty
    assert!(mkt.get_listing(h, ASSET).is_none());
    assert_eq!(mkt.get_vault_amount(h, ASSET), 0);
}

#[test]
fn purchase_of_missing_listing_fails() {
    let mut mkt = Market::new();
    let h = mkt.initialize(ADMIN, b"bazaar".to_vec(), 500).unwrap();
    mkt.deposit(TAKER, 1000).unwrap();
    let r = mkt.purchase(h, ASSET, TAKER, 1000);
    assert_eq!(r, Err(MarketplaceError::ListingNotFound));
}

#[test]
fn purchase_with_wrong_price_fails() {
    let (mut mkt, h) = market_with_listing(500, 1000);
    mkt.deposit(TAKER, 2000).unwrap();
    let r = mkt.purchase(h, ASSET, TAKER, 999);
    assert_eq!(r, Err(MarketplaceError::PriceMismatch));
    assert!(mkt.get_listing(h, ASSET).is_some());
    assert_eq!(mkt.get_pay_balance(TAKER), 2000);
}

#[test]
fn purchase_without_funds_fails() {
    let (mut mkt, h) = market_with_listing(500, 1000);
    mkt.deposit(TAKER, 999).unwrap();
    let r = mkt.purchase(h, ASSET, TAKER, 1000);
    assert_eq!(r, Err(MarketplaceError::InsufficientFunds));
    assert!(mkt.get_listing(h, ASSET).is_some());
    assert_eq!(mkt.get_vault_amount(h, ASSET), 1);
    assert_eq!(mkt.get_pay_balance(TAKER), 999);
}

#[test]
fn purchase_twice_fails_the_second_time() {
    let (mut mkt, h) = market_with_listing(500, 1000);
    mkt.deposit(TAKER, 2000).unwrap();
    assert_eq!(mkt.purchase(h, ASSET, TAKER, 1000), Ok(()));
    let r = mkt.purchase(h, ASSET, TAKER, 1000);
    assert_eq!(r, Err(MarketplaceError::ListingNotFound));
}

#[test]
fn cancel_after_purchase_fails() {
    let (mut mkt, h) = market_with_listing(500, 1000);
    mkt.deposit(TAKER, 1000).unwrap();
    mkt.purchase(h, ASSET, TAKER, 1000).unwrap();
    let r = mkt.cancel(h, ASSET, MAKER);
    assert_eq!(r, Err(MarketplaceError::ListingNotFound));
    // the taker keeps the asset
    assert_eq!(mkt.get_asset_balance(TAKER, ASSET), 1);
    assert_eq!(mkt.get_asset_balance(MAKER, ASSET), 0);
}

#[test]
fn purchase_at_maximum_price_and_full_fee_does_not_wrap() {
    let (mut mkt, h) = market_with_listing(10000, u64::MAX);
    mkt.deposit(TAKER, u64::MAX).unwrap();
    assert_eq!(mkt.purchase(h, ASSET, TAKER, u64::MAX), Ok(()));
    assert_eq!(mkt.get_treasury(h), u64::MAX);
    assert_eq!(mkt.get_pay_balance(MAKER), 0);
    assert_eq!(mkt.get_pay_balance(TAKER), 0);
    assert_eq!(mkt.get_asset_balance(TAKER, ASSET), 1);
}

#[test]
fn purchase_that_would_overflow_the_maker_fails_closed() {
    // Zero fee: the maker would receive the full price on top of a
    // payment balance already at the maximum.
    let (mut mkt, h) = market_with_listing(0, 1000);
    mkt.deposit(MAKER, u64::MAX).unwrap();
    mkt.deposit(TAKER, 1000).unwrap();
    let r = mkt.purchase(h, ASSET, TAKER, 1000);
    assert_eq!(r, Err(MarketplaceError::Overflow));
    // nothing moved: the listing and the vault are exactly as before
    assert!(mkt.get_listing(h, ASSET).is_some());
    assert_eq!(mkt.get_vault_amount(h, ASSET), 1);
    assert_eq!(mkt.get_pay_balance(TAKER), 1000);
    assert_eq!(mkt.get_pay_balance(MAKER), u64::MAX);
    assert_eq!(mkt.get_treasury(h), 0);
}

#[test]
fn purchase_that_would_overflow_the_treasury_fails_closed() {
    let mut mkt = Market::new();
    let h = mkt.initialize(ADMIN, b"bazaar".to_vec(), 10000).unwrap();
    mkt.deposit(TAKER, u64::MAX).unwrap();
    // first sale fills the treasury to the maximum
    mkt.deposit_asset(MAKER, ASSET, 1).unwrap();
    mkt.list(h, MAKER, ASSET, u64::MAX).unwrap();
    mkt.purchase(h, ASSET, TAKER, u64::MAX).unwrap();
    assert_eq!(mkt.get_treasury(h), u64::MAX);
    // a second sale with any nonzero fee must fail closed
    mkt.deposit(TAKER, 10000).unwrap();
    mkt.deposit_asset(MAKER, 10, 1).unwrap();
    mkt.list(h, MAKER, 10, 10000).unwrap();
    let r = mkt.purchase(h, 10, TAKER, 10000);
    assert_eq!(r, Err(MarketplaceError::Overflow));
    assert!(mkt.get_listing(h, 10).is_some());
    assert_eq!(mkt.get_treasury(h), u64::MAX);
}

#[test]
fn maker_may_buy_back_own_listing() {
    let (mut mkt, h) = market_with_listing(500, 1000);
    mkt.deposit(MAKER, 1000).unwrap();
    assert_eq!(mkt.purchase(h, ASSET, MAKER, 1000), Ok(()));
    // the maker pays only the fee in the end
    assert_eq!(mkt.get_pay_balance(MAKER), 950);
    assert_eq!(mkt.get_treasury(h), 50);
    assert_eq!(mkt.get_asset_balance(MAKER, ASSET), 1);
}

#[test]
fn deposit_overflow_fails() {
    let mut mkt = Market::new();
    assert_eq!(mkt.deposit(TAKER, u64::MAX), Ok(()));
    assert_eq!(mkt.deposit(TAKER, 1), Err(MarketplaceError::Overflow));
    assert_eq!(mkt.get_pay_balance(TAKER), u64::MAX);
    let mut mkt2 = Market::new();
    assert_eq!(mkt2.deposit_asset(MAKER, ASSET, u64::MAX), Ok(()));
    assert_eq!(mkt2.deposit_asset(MAKER, ASSET, 1), Err(MarketplaceError::Overflow));
}
