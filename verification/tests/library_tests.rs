use sugarfunge::asset;
use sugarfunge::balances::Funds;
use sugarfunge::bridge::{self, EnsureBridge, Resolution};
use sugarfunge::bundle;
use sugarfunge::currency::{self, AssetInfo, GenesisConfig};
use sugarfunge::dex;
use sugarfunge::hashing::{hash_key, same_hash};
use sugarfunge::ledger::{apply_all, balance_at, LedgerOp};
use sugarfunge::market::{AssetRate, RateAccount, RateAction, RateBalances};
use sugarfunge::operator_asset;
use sugarfunge::primitives::{CurrencyId, DispatchError, Origin, PalletId};
use sugarfunge::rpc;
use sugarfunge::shares::{group_balances, total_of};
use sugarfunge::token;
use sugarfunge::traits::{MultiCurrency, ReservableCurrency};
use sugarfunge::validator_set::{self, ValidatorOf};
use std::collections::BTreeMap;

const NATIVE: CurrencyId = CurrencyId(0, 0);

fn funded() -> Funds {
    let mut funds = Funds::new(NATIVE);
    assert!(funds.set_free(1, 1_000));
    assert!(funds.set_free(2, 1_000));
    funds
}

#[test]
fn argsort_orders_stably() {
    assert_eq!(bundle::argsort(&[3, 1, 2, 1]), vec![1, 3, 2, 0]);
    assert_eq!(bundle::argsort(&[5, 5, 5]), vec![0, 1, 2]);
    assert_eq!(bundle::argsort(&[]), Vec::<usize>::new());
}

#[test]
fn funds_reserve_and_transfer() {
    let mut funds = funded();
    assert_eq!(funds.reserve(1, 300), Ok(()));
    assert_eq!((funds.free_of(1), funds.reserved_of(1)), (700, 300));
    assert_eq!(funds.reserve(1, 701), Err(DispatchError::CurrencyFailure));
    assert_eq!(funds.unreserve(1, 500), 200);
    assert_eq!((funds.free_of(1), funds.reserved_of(1)), (1_000, 0));
    assert_eq!(ReservableCurrency::transfer(&mut funds, 1, 2, 400), Ok(()));
    assert_eq!((funds.free_of(1), funds.free_of(2)), (600, 1_400));
    assert_eq!(ReservableCurrency::transfer(&mut funds, 1, 2, 601), Err(DispatchError::CurrencyFailure));
    funds.set_token(CurrencyId(0, 7), 1, 50);
    assert_eq!(MultiCurrency::transfer(&mut funds, CurrencyId(0, 7), 1, 3, 20), Ok(()));
    assert_eq!((funds.balance_of(CurrencyId(0, 7), 1), funds.balance_of(CurrencyId(0, 7), 3)), (30, 20));
    assert_eq!(MultiCurrency::transfer(&mut funds, NATIVE, 2, 3, 400), Ok(()));
    assert_eq!(funds.balance_of(NATIVE, 3), 400);
    assert!(funds.reserve(3, 100).is_ok());
    assert!(!funds.set_free(3, u128::MAX));
    assert_eq!(funds.free_of(3), 300);
}

#[test]
fn asset_transfer_conserves_and_returns() {
    let mut funds = funded();
    let mut assets = asset::Pallet::new(1);
    assert!(assets.do_create_class(&mut funds, 1, 1, 7, vec![]).is_ok());
    assert!(assets.do_mint(1, 1, 7, 0, 100).is_ok());
    assert!(assets.do_transfer_from(1, 1, 2, 7, 0, 30).is_ok());
    assert_eq!(assets.balance_of(1, 7, 0) + assets.balance_of(2, 7, 0), 100);
    assert_eq!(assets.balance_of(2, 7, 0), 30);
    assert!(assets.do_transfer_from(2, 2, 1, 7, 0, 30).is_ok());
    assert_eq!((assets.balance_of(1, 7, 0), assets.balance_of(2, 7, 0)), (100, 0));
    assert!(assets.do_burn(1, 1, 7, 0, 100).is_ok());
    assert_eq!(assets.balance_of(1, 7, 0), 0);
    assert_eq!(assets.do_burn(1, 1, 7, 0, 1), Err(DispatchError::Asset(asset::Error::NumOverflow)));
    assert_eq!(
        assets.transfer_from(Origin::Signed(2), 1, 2, 7, 0, 1),
        Err(DispatchError::Asset(asset::Error::NoPermission))
    );
    assert_eq!(assets.class_exists(7), true);
}

#[test]
fn ledger_program_stops_at_first_failure() {
    let mut b: BTreeMap<(u64, u64, u64), u128> = BTreeMap::new();
    let ops = vec![
        LedgerOp::Credit { key: (1, 0, 0), amount: 10 },
        LedgerOp::Move { from: (1, 0, 0), to: (2, 0, 0), amount: 4 },
        LedgerOp::Debit { key: (2, 0, 0), amount: 5 },
        LedgerOp::Credit { key: (3, 0, 0), amount: 1 },
    ];
    assert_eq!(apply_all(&mut b, &ops), false);
    assert_eq!(balance_at(&b, (1, 0, 0)), 6);
    assert_eq!(balance_at(&b, (2, 0, 0)), 4);
    assert_eq!(balance_at(&b, (3, 0, 0)), 0);
}

#[test]
fn dex_prices_keep_the_product() {
    let p = dex::Pallet::get_buy_price(10, 1_000, 1_000).unwrap();
    assert_eq!(p, 11);
    assert!(p * 990 * 995 >= 1_000 * 10 * 1_000);
    assert!((p - 1) * 990 * 995 < 1_000 * 10 * 1_000);
    let q = dex::Pallet::get_sell_price(10, 1_000, 1_000).unwrap();
    assert_eq!(q, 9);
    assert!(q < 1_000);
    assert_eq!(dex::Pallet::get_buy_price(1_000, 1_000, 1_000), Err(DispatchError::Dex(dex::Error::InsufficientLiquidity)));
    assert_eq!(dex::Pallet::get_sell_price(1, 0, 1_000), Err(DispatchError::Dex(dex::Error::EmptyReserve)));
}

fn bridge_with_relayers() -> bridge::Pallet {
    let mut b = bridge::Pallet::new(PalletId(*b"sug/brdg"), 1, 50, 1, 10);
    for r in [10u64, 11, 12] {
        assert!(b.add_relayer(Origin::Root, r).is_ok());
    }
    b
}

#[test]
fn bridge_counts_relayers() {
    let mut b = bridge_with_relayers();
    assert_eq!(b.relayer_count(), 3);
    assert_eq!(b.add_relayer(Origin::Root, 10), Err(DispatchError::Bridge(bridge::Error::RelayerAlreadyExists)));
    assert_eq!(b.add_relayer(Origin::Signed(1), 13), Err(DispatchError::BadOrigin));
    assert!(b.remove_relayer(Origin::Root, 11).is_ok());
    assert_eq!(b.relayer_count(), 2);
    assert!(!b.is_relayer(11));
    assert_eq!(b.remove_relayer(Origin::Root, 11), Err(DispatchError::Bridge(bridge::Error::RelayerInvalid)));
    assert_eq!(b.relayer_count(), 2);
}

#[test]
fn bridge_votes_count_once() {
    let mut b = bridge_with_relayers();
    assert!(b.set_threshold(Origin::Root, 2).is_ok());
    assert!(b.whitelist_chain(Origin::Root, 2).is_ok());
    let r_id = bridge::derive_resource_id(1, &[0x21, 0x22]);
    assert!(b.set_resource(Origin::Root, r_id, vec![1]).is_ok());
    let call = vec![9, 9, 9];
    assert_eq!(b.acknowledge_proposal(Origin::Signed(10), 5, 1, 2, r_id, &call), Ok(Resolution::Pending));
    assert_eq!(
        b.acknowledge_proposal(Origin::Signed(10), 5, 1, 2, r_id, &call),
        Err(DispatchError::Bridge(bridge::Error::RelayerAlreadyVoted))
    );
    assert_eq!(
        b.reject_proposal(Origin::Signed(10), 5, 1, 2, r_id, &call),
        Err(DispatchError::Bridge(bridge::Error::RelayerAlreadyVoted))
    );
    assert_eq!(b.acknowledge_proposal(Origin::Signed(11), 6, 1, 2, r_id, &call), Ok(Resolution::Approved));
    assert_eq!(
        b.acknowledge_proposal(Origin::Signed(1), 6, 1, 2, r_id, &call),
        Err(DispatchError::Bridge(bridge::Error::MustBeRelayer))
    );
}

#[test]
fn bridge_resource_ids_and_origin() {
    let r_id = bridge::derive_resource_id(1, &[0x21, 0x22]);
    let mut expected = [0u8; 32];
    expected[29] = 0x21;
    expected[30] = 0x22;
    expected[31] = 1;
    assert_eq!(r_id, expected);
    let b = bridge_with_relayers();
    let account = b.account_id();
    assert_eq!(EnsureBridge::try_origin(&b, Origin::Signed(account)), Ok(account));
    assert_eq!(EnsureBridge::try_origin(&b, Origin::Signed(1)), Err(Origin::Signed(1)));
    assert_eq!(bridge::Pallet::ensure_admin(Origin::Root), Ok(()));
}

#[test]
fn validator_set_keeps_members_once() {
    let mut v = validator_set::Pallet::new(1, 10);
    let genesis = validator_set::GenesisConfig { initial_validators: vec![1, 2] };
    genesis.build(&mut v);
    assert_eq!(v.validators(), &vec![1, 2]);
    assert!(v.add_validator(Origin::Root, 3).is_ok());
    assert_eq!(v.add_validator(Origin::Root, 3), Err(DispatchError::ValidatorSet(validator_set::Error::Duplicate)));
    assert_eq!(v.validators(), &vec![1, 2, 3]);
    assert!(v.remove_validator(Origin::Root, 2).is_ok());
    assert_eq!(v.validators(), &vec![1, 3]);
    assert!(v.add_validator_again(Origin::Signed(2), 2).is_ok());
    assert_eq!(v.validators(), &vec![1, 3, 2]);
    assert!(v.report_offence(&vec![(3, 3)]).is_ok());
    assert_eq!(v.new_session(1), Some(vec![1, 2]));
    assert_eq!(v.validators_to_remove(), &Vec::<u64>::new());
    assert!(v.remove_validator(Origin::Root, 1).is_ok());
    assert_eq!(
        v.remove_validator(Origin::Root, 2),
        Err(DispatchError::ValidatorSet(validator_set::Error::TooLowValidatorCount))
    );
    assert_eq!(ValidatorOf::convert(5), Some(5));
}

#[test]
fn currency_mint_burn_round_trip() {
    let mut funds = funded();
    funds.set_token(CurrencyId(0, 4), 1, 1_000);
    let mut assets = asset::Pallet::new(1);
    let mut currencies = currency::Pallet::new(PalletId(*b"sug/curr"), 1, NATIVE);
    let genesis = GenesisConfig { class: (1, 0, 0, vec![]) };
    assert!(genesis.build(&mut currencies, &mut assets, &mut funds).is_ok());
    assert_eq!(currencies.currency_assets(NATIVE), Some(AssetInfo { total_supply: 0 }));
    let c = CurrencyId(0, 4);
    assert_eq!(currencies.currency_assets(c), None);
    assert!(currencies.mint(&mut assets, &mut funds, Origin::Signed(1), c, 300).is_ok());
    assert_eq!(currencies.currency_assets(c), Some(AssetInfo { total_supply: 300 }));
    assert_eq!(assets.balance_of(1, 0, 4), 300);
    assert_eq!(funds.balance_of(c, 1), 700);
    assert!(currencies.burn(&mut assets, &mut funds, Origin::Signed(1), c, 300).is_ok());
    assert_eq!(currencies.currency_assets(c), Some(AssetInfo { total_supply: 0 }));
    assert_eq!(assets.balance_of(1, 0, 4), 0);
    assert_eq!(funds.balance_of(c, 1), 1_000);
    assert_eq!(
        currencies.burn(&mut assets, &mut funds, Origin::Signed(1), CurrencyId(5, 5), 1),
        Err(DispatchError::Currency(currency::Error::CurrencyAssetNotFound))
    );
    assert_eq!(currencies.mint(&mut assets, &mut funds, Origin::Root, c, 1), Err(DispatchError::BadOrigin));
    assert!(currencies.mint(&mut assets, &mut funds, Origin::Signed(1), c, 1_001).is_err());
    assert_eq!(funds.balance_of(c, 1), 1_000);
}

#[test]
fn operator_asset_approvals() {
    let mut funds = funded();
    let mut assets = operator_asset::Pallet::new(1);
    assert_eq!(assets.do_create_class(&mut funds, 1, vec![]), Ok(0));
    assert!(assets.do_create_asset(1, 0, 5, vec![]).is_ok());
    assert!(assets.do_mint(1, 1, 0, 5, 50).is_ok());
    assert_eq!(
        assets.do_transfer_from(2, 1, 2, 0, 5, 10),
        Err(DispatchError::OperatorAsset(operator_asset::Error::NoPermission))
    );
    assert!(assets.do_set_approval_for_all(1, 2, 0, true).is_ok());
    assert!(assets.is_approved_for_all(1, 2, 0));
    assert!(assets.do_transfer_from(2, 1, 2, 0, 5, 10).is_ok());
    assert_eq!((assets.balance_of(1, 0, 5), assets.balance_of(2, 0, 5)), (40, 10));
    assert_eq!(assets.next_class_id(), 1);
    assert_eq!(assets.asset_count(0), 1);
}

#[test]
fn token_collections_and_balances() {
    let mut funds = funded();
    let mut tokens = token::Pallet::new(1);
    assert_eq!(tokens.do_create_collection(&mut funds, 1, vec![]), Ok(0));
    assert!(tokens.do_create_token(1, 0, 3, vec![]).is_ok());
    assert!(tokens.do_batch_mint(1, 2, 0, vec![3, 4], vec![7, 8]).is_ok());
    assert_eq!(tokens.balance_of_single_owner_batch(2, 0, vec![3, 4]), Ok(vec![7, 8]));
    assert_eq!(
        tokens.do_batch_burn(2, 2, 0, vec![3], vec![7]),
        Err(DispatchError::Token(token::Error::NoPermission))
    );
    assert!(tokens.do_batch_burn(1, 2, 0, vec![3], vec![7]).is_ok());
    assert_eq!(tokens.balance_of(2, 0, 3), 0);
    assert_eq!(tokens.token_count(0), 1);
}

#[test]
fn bundle_ids_are_schema_hashes() {
    let schema: bundle::BundleSchema = (vec![1, 2], vec![vec![1], vec![2]], vec![vec![3], vec![4]]);
    let id = bundle::Pallet::hash_of(&schema);
    let expected: [u8; 32] = [
        20, 229, 220, 168, 224, 26, 202, 225, 95, 105, 8, 95, 47, 6, 176, 40, 162, 253, 27, 219, 239, 69, 251, 133, 49, 13,
        81, 208, 179, 178, 198, 4,
    ];
    assert_eq!(id, expected);
    let other: bundle::BundleSchema = (vec![1, 2], vec![vec![1], vec![2]], vec![vec![3], vec![5]]);
    assert_ne!(id, bundle::Pallet::hash_of(&other));
    assert!(same_hash(&id, &id));
    assert!(!same_hash(&id, &bundle::Pallet::hash_of(&other)));
    let mut word = [0u8; 32];
    word[0] = 1;
    word[8] = 2;
    assert_eq!(hash_key(&word), (1, 2, 0, 0));
}

#[test]
fn bundle_registration_errors() {
    let mut funds = funded();
    let mut assets = asset::Pallet::new(1);
    let mut bundles = bundle::Pallet::new(PalletId(*b"sug/bndl"));
    let schema: bundle::BundleSchema = (vec![1], vec![vec![1]], vec![vec![2]]);
    let id = bundle::Pallet::hash_of(&schema);
    assert_eq!(
        bundles.do_register_bundle(&mut assets, &mut funds, 1, 9, 0, [0; 32], &schema, vec![]),
        Err(DispatchError::Bundle(bundle::Error::InvalidBundleIdForBundle))
    );
    assert!(bundles.do_register_bundle(&mut assets, &mut funds, 1, 9, 0, id, &schema, vec![]).is_ok());
    assert_eq!(
        bundles.do_register_bundle(&mut assets, &mut funds, 1, 10, 0, id, &schema, vec![]),
        Err(DispatchError::Bundle(bundle::Error::BundleExists))
    );
    assert_eq!(bundles.asset_bundles(9, 0), Some(id));
    assert_eq!(
        bundles.do_mint_bundles(&mut assets, 1, 1, 1, [1; 32], 1),
        Err(DispatchError::Bundle(bundle::Error::BundleNotFound))
    );
}

#[test]
fn shares_total_and_grouping() {
    assert_eq!(total_of(&vec![1, 2, 3]), 6);
    assert_eq!(total_of(&vec![u128::MAX, 2]), 1);
    let grouped = group_balances(&vec![(2, 1, 10), (3, 1, 5), (2, 4, 7)]);
    assert_eq!(grouped, (vec![2, 3], vec![vec![1, 4], vec![1]], vec![vec![10, 7], vec![5]]));
}

#[test]
fn rate_balances_read_back_writes() {
    let rate = AssetRate { class_id: 1, asset_id: 2, action: RateAction::Transfer(3), from: RateAccount::Buyer, to: RateAccount::Market };
    let other = AssetRate { class_id: 0, asset_id: 2, action: RateAction::Burn(3), from: RateAccount::Buyer, to: RateAccount::Market };
    let mut m = RateBalances::new();
    assert_eq!(m.get(&rate), None);
    m.insert(rate, -4);
    m.insert(other, 9);
    assert_eq!(m.get(&rate), Some(-4));
    m.insert(rate, 6);
    assert_eq!(m.get(&rate), Some(6));
    assert_eq!(m.get(&other), Some(9));
}

#[test]
fn rpc_error_codes() {
    assert_eq!(rpc::Error::RuntimeError.code(), 1);
    assert_eq!(rpc::Error::DecodeError.code(), 2);
    assert_eq!(i64::from(rpc::Error::DecodeError), 2);
}

#[test]
fn sell_price_grows_with_amount() {
    assert_eq!(dex::Pallet::get_sell_price(10, 1000, 1000), Ok(9));
    assert_eq!(dex::Pallet::get_sell_price(20, 1000, 1000), Ok(19));
    let mut last = 0u128;
    for amount in [0u128, 1, 5, 10, 50, 100, 500, 1000, 5000] {
        let price = dex::Pallet::get_sell_price(amount, 1000, 1000).unwrap();
        assert!(last <= price);
        last = price;
    }
}

#[test]
fn balances_listed_in_key_order() {
    let mut assets = asset::Pallet::new(1);
    for (class_id, asset_id) in [(5u64, 2u64), (1, 9), (5, 1), (3, 3), (1, 2)] {
        assert!(assets.do_mint(1, 7, class_id, asset_id, (class_id * 10 + asset_id) as u128).is_ok());
    }
    assert!(assets.do_mint(1, 8, 2, 2, 1).is_ok());
    let listed = assets.balances_of_owner(7).unwrap();
    assert_eq!(listed, vec![(1, 2, 12), (1, 9, 19), (3, 3, 33), (5, 1, 51), (5, 2, 52)]);
    let in_class = assets.class_balances_of_owner(7, 5).unwrap();
    assert_eq!(in_class, vec![(1, 51), (2, 52)]);
}
