use sugarfunge::nft::{self, Error};
use sugarfunge::balances::Funds;
use sugarfunge::primitives::{CurrencyId, DispatchError, Origin};

const ALICE: u64 = 1;
const BOB: u64 = 2;
const CLASS_ID: u64 = 0;
const CLASS_ID_NOT_EXIST: u64 = 100;
const TOKEN_ID: u64 = 0;
const TOKEN_ID_NOT_EXIST: u64 = 100;

fn setup() -> (Funds, nft::Pallet) {
    let mut funds = Funds::new(CurrencyId(0, 0));
    funds.set_free(ALICE, 100_000);
    funds.set_free(BOB, 100_000);
    (funds, nft::Pallet::new(2))
}

fn err(e: Error) -> DispatchError {
    DispatchError::Nft(e)
}

#[test]
fn create_collection_should_work() {
    let (mut funds, mut nfts) = setup();
    assert!(nfts.do_create_collection(&mut funds, ALICE, vec![1]).is_ok());
}

#[test]
fn create_collection_should_fail() {
    let (mut funds, mut nfts) = setup();
    nfts.next_collection_id = u64::MAX;
    let n = nfts.events.len();
    assert_eq!(nfts.do_create_collection(&mut funds, ALICE, vec![1]), Err(err(Error::NoAvailableCollectionId)));
    assert_eq!(nfts.events.len(), n);
    assert_eq!(nfts.next_collection_id, u64::MAX);
}

#[test]
fn collection_creation_reserves_deposit() {
    let (mut funds, mut nfts) = setup();
    assert_eq!(nfts.do_create_collection(&mut funds, ALICE, vec![1]), Ok(0));
    assert_eq!(nfts.do_create_collection(&mut funds, BOB, vec![2]), Ok(1));
    assert_eq!(nfts.next_collection_id(), 2);
    assert_eq!(funds.reserved_of(ALICE), 2);
    assert_eq!(funds.free_of(ALICE), 99_998);
    let (mut poor, _) = setup();
    poor.set_free(ALICE, 1);
    let mut other = nft::Pallet::new(2);
    assert_eq!(other.do_create_collection(&mut poor, ALICE, vec![1]), Err(DispatchError::CurrencyFailure));
    assert!(other.collections.is_empty());
}

#[test]
fn owner_mints_numbered_tokens() {
    let (mut funds, mut nfts) = setup();
    assert!(nfts.do_create_collection(&mut funds, ALICE, vec![1]).is_ok());
    assert_eq!(nfts.next_token_id(CLASS_ID), 0);
    assert_eq!(nfts.do_mint(ALICE, CLASS_ID, vec![1], 1), Ok(vec![0]));
    assert_eq!(nfts.next_token_id(CLASS_ID), 1);
    assert_eq!(nfts.do_mint(ALICE, CLASS_ID, vec![1], 3), Ok(vec![1, 2, 3]));
    assert_eq!(nfts.next_token_id(CLASS_ID), 4);
    assert_eq!(nfts.collections.get(&CLASS_ID).unwrap().total_supply, 4);
    assert!(nfts.token_owner_set(ALICE, CLASS_ID, 3));
    assert_eq!(nfts.tokens(CLASS_ID, 2).unwrap().owner, ALICE);
}

#[test]
fn mint_errors() {
    let (mut funds, mut nfts) = setup();
    assert!(nfts.do_create_collection(&mut funds, ALICE, vec![1]).is_ok());
    assert_eq!(nfts.do_mint(ALICE, CLASS_ID, vec![1], 0), Err(err(Error::InvalidQuantity)));
    assert_eq!(nfts.do_mint(BOB, CLASS_ID, vec![1], 1), Err(err(Error::NoPermission)));
    assert_eq!(nfts.do_mint(ALICE, CLASS_ID_NOT_EXIST, vec![1], 1), Err(err(Error::CollectionNotFound)));
    nfts.next_token_id.insert(CLASS_ID, u64::MAX);
    assert_eq!(nfts.do_mint(ALICE, CLASS_ID, vec![1], 1), Err(err(Error::NoAvailableTokenId)));
    nfts.next_token_id.insert(CLASS_ID, 0);
    nfts.collections.get_mut(&CLASS_ID).unwrap().total_supply = u128::MAX;
    assert_eq!(nfts.do_mint(ALICE, CLASS_ID, vec![1], 1), Err(err(Error::NumOverflow)));
    assert_eq!(nfts.next_token_id(CLASS_ID), 0);
}

#[test]
fn transfer_moves_ownership() {
    let (mut funds, mut nfts) = setup();
    assert!(nfts.do_create_collection(&mut funds, ALICE, vec![1]).is_ok());
    assert!(nfts.do_mint(ALICE, CLASS_ID, vec![1], 1).is_ok());
    assert!(nfts.transfer(Origin::Signed(ALICE), ALICE, CLASS_ID, TOKEN_ID).is_ok());
    assert!(nfts.transfer(Origin::Signed(ALICE), BOB, CLASS_ID, TOKEN_ID).is_ok());
    assert!(nfts.token_owner_set(BOB, CLASS_ID, TOKEN_ID));
    assert!(!nfts.token_owner_set(ALICE, CLASS_ID, TOKEN_ID));
    assert!(nfts.transfer(Origin::Signed(BOB), ALICE, CLASS_ID, TOKEN_ID).is_ok());
    assert_eq!(nfts.tokens(CLASS_ID, TOKEN_ID).unwrap().owner, ALICE);
    assert_eq!(nfts.do_transfer_from(ALICE, BOB, CLASS_ID, TOKEN_ID_NOT_EXIST), Err(err(Error::TokenNotFound)));
    assert_eq!(nfts.do_transfer_from(BOB, BOB, CLASS_ID, TOKEN_ID), Err(err(Error::NoPermission)));
    assert_eq!(nfts.transfer(Origin::Root, BOB, CLASS_ID, TOKEN_ID), Err(DispatchError::BadOrigin));
}

#[test]
fn burn_then_destroy() {
    let (mut funds, mut nfts) = setup();
    assert!(nfts.do_create_collection(&mut funds, ALICE, vec![1]).is_ok());
    assert!(nfts.do_mint(ALICE, CLASS_ID, vec![1], 1).is_ok());
    assert_eq!(nfts.do_burn(ALICE, CLASS_ID, TOKEN_ID_NOT_EXIST), Err(err(Error::TokenNotFound)));
    assert_eq!(nfts.do_burn(BOB, CLASS_ID, TOKEN_ID), Err(err(Error::NoPermission)));
    assert_eq!(nfts.do_destroy_collection(&mut funds, ALICE, CLASS_ID_NOT_EXIST), Err(err(Error::CollectionNotFound)));
    assert_eq!(nfts.do_destroy_collection(&mut funds, BOB, CLASS_ID), Err(err(Error::NoPermission)));
    assert_eq!(nfts.do_destroy_collection(&mut funds, ALICE, CLASS_ID), Err(err(Error::CannotDestroyCollection)));
    assert!(nfts.burn(Origin::Signed(ALICE), CLASS_ID, TOKEN_ID).is_ok());
    assert!(nfts.tokens(CLASS_ID, TOKEN_ID).is_none());
    assert!(!nfts.token_owner_set(ALICE, CLASS_ID, TOKEN_ID));
    assert!(nfts.destroy_collection(&mut funds, Origin::Signed(ALICE), CLASS_ID).is_ok());
    assert!(!nfts.collections.contains_key(&CLASS_ID));
    assert!(!nfts.next_token_id.contains_key(&CLASS_ID));
    assert_eq!(funds.reserved_of(ALICE), 0);
    assert_eq!(funds.free_of(ALICE), 100_000);
}

#[test]
fn burn_with_zero_supply_fails() {
    let (mut funds, mut nfts) = setup();
    assert!(nfts.do_create_collection(&mut funds, ALICE, vec![1]).is_ok());
    assert!(nfts.do_mint(ALICE, CLASS_ID, vec![1], 1).is_ok());
    nfts.collections.get_mut(&CLASS_ID).unwrap().total_supply = 0;
    assert_eq!(nfts.do_burn(ALICE, CLASS_ID, TOKEN_ID), Err(err(Error::NumOverflow)));
    assert!(nfts.tokens(CLASS_ID, TOKEN_ID).is_some());
}
