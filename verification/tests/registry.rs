use marketplace::errors::MarketplaceError;
use marketplace::market::Market;
use marketplace::state::CANONICAL_BUMP;

#[test]
fn initialize_empty_name_fails() {
    let mut mkt = Market::new();
    let r = mkt.initialize(1, Vec::new(), 0);
    assert_eq!(r, Err(MarketplaceError::NameEmpty));
}

#[test]
fn initialize_name_of_33_bytes_fails() {
    let mut mkt = Market::new();
    let name: Vec<u8> = vec![b'x'; 33];
    let r = mkt.initialize(1, name, 0);
    assert_eq!(r, Err(MarketplaceError::NameTooLong));
}

#[test]
fn initialize_name_of_32_bytes_succeeds() {
    let mut mkt = Market::new();
    let name: Vec<u8> = vec![b'x'; 32];
    let r = mkt.initialize(1, name, 0);
    assert_eq!(r, Ok(0));
}

#[test]
fn initialize_single_byte_name_succeeds_and_is_resolvable() {
    let mut mkt = Market::new();
    let r = mkt.initialize(7, b"A".to_vec(), 250);
    assert_eq!(r, Ok(0));
    // retrievable by the address its name derives
    assert_eq!(mkt.find_marketplace(&b"A".to_vec()), Some(0));
    let record = mkt.marketplace_at(0);
    assert_eq!(record.admin, 7);
    assert_eq!(record.fee_bps, 250);
    assert_eq!(record.name, b"A".to_vec());
    assert_eq!(record.bump, CANONICAL_BUMP);
    assert_eq!(record.treasury_bump, CANONICAL_BUMP);
    assert_eq!(record.reward_mint_bump, CANONICAL_BUMP);
    assert_eq!(mkt.get_treasury(0), 0);
}

#[test]
fn initialize_duplicate_name_fails() {
    let mut mkt = Market::new();
    assert_eq!(mkt.initialize(1, b"bazaar".to_vec(), 100), Ok(0));
    let r = mkt.initialize(2, b"bazaar".to_vec(), 200);
    assert_eq!(r, Err(MarketplaceError::AlreadyExists));
    assert_eq!(mkt.marketplace_count(), 1);
    // the original record is untouched
    assert_eq!(mkt.marketplace_at(0).admin, 1);
}

#[test]
fn initialize_two_names_get_distinct_handles() {
    let mut mkt = Market::new();
    assert_eq!(mkt.initialize(1, b"alpha".to_vec(), 100), Ok(0));
    assert_eq!(mkt.initialize(2, b"beta".to_vec(), 200), Ok(1));
    assert_eq!(mkt.find_marketplace(&b"alpha".to_vec()), Some(0));
    assert_eq!(mkt.find_marketplace(&b"beta".to_vec()), Some(1));
    assert_eq!(mkt.find_marketplace(&b"gamma".to_vec()), None);
}
