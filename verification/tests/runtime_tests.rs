use sugarfunge::asset;
use sugarfunge::bundle;
use sugarfunge::currency;
use sugarfunge::dex;
use sugarfunge::escrow;
use sugarfunge::primitives::{CurrencyId, DispatchError, Origin, PalletId};
use sugarfunge::balances::Funds;

const MILLICENTS: u128 = 10_000_000_000_000;
const CENTS: u128 = 1_000 * MILLICENTS;
const DOLLARS: u128 = 100 * CENTS;

const SUGAR: CurrencyId = CurrencyId(0, 0);
const DOT: CurrencyId = CurrencyId(0, 1);
const ETH: CurrencyId = CurrencyId(0, 2);
const BTC: CurrencyId = CurrencyId(0, 3);

struct Runtime {
    funds: Funds,
    assets: asset::Pallet,
    currencies: currency::Pallet,
    escrows: escrow::Pallet,
    dex: dex::Pallet,
    bundles: bundle::Pallet,
}

fn new_test_ext() -> Runtime {
    let mut funds = Funds::new(SUGAR);
    funds.set_free(1, 100_000_000 * DOLLARS);
    funds.set_free(2, 100_000_000 * DOLLARS);
    for c in [DOT, ETH, BTC] {
        funds.set_token(c, 1, 100_000_000 * DOLLARS);
    }
    let mut rt = Runtime {
        funds,
        assets: asset::Pallet::new(1),
        currencies: currency::Pallet::new(PalletId(*b"sug/curr"), 1, SUGAR),
        escrows: escrow::Pallet::new(PalletId(*b"sug/crow"), 1),
        dex: dex::Pallet::new(PalletId(*b"sug/dexm"), 1),
        bundles: bundle::Pallet::new(PalletId(*b"sug/bndl")),
    };
    let r = rt.currencies.create_currency(&mut rt.assets, &mut rt.funds, 1, 0, 0, vec![]);
    assert!(r.is_ok());
    rt
}

fn last_currency_event(rt: &Runtime) -> &currency::Event {
    rt.currencies.events.last().expect("Event expected")
}

fn before(rt: &mut Runtime) {
    assert!(rt.currencies.mint(&mut rt.assets, &mut rt.funds, Origin::Signed(1), SUGAR, 500 * DOLLARS).is_ok());
    assert!(matches!(
        last_currency_event(rt),
        currency::Event::Mint { currency_id: SUGAR, amount, who: 1 } if *amount == 500 * DOLLARS
    ));
    assert_eq!(rt.assets.balance_of(1, SUGAR.0, SUGAR.1), 500 * DOLLARS);
    assert!(rt.assets.create_class(&mut rt.funds, Origin::Signed(1), 1, 1, vec![0]).is_ok());
    assert!(rt.assets.create_asset(Origin::Signed(1), 1, 1, vec![0]).is_ok());
    assert!(rt.assets.mint(Origin::Signed(1), 1, 1, 1, 50000 * DOLLARS).is_ok());
    assert_eq!(rt.assets.balance_of(1, 1, 1), 50000 * DOLLARS);
}

fn endow_user_2(rt: &mut Runtime) {
    assert_eq!(rt.assets.balance_of(2, SUGAR.0, SUGAR.1), 0 * DOLLARS);
    assert_eq!(rt.assets.balance_of(2, 1, 1), 0 * DOLLARS);
    assert!(rt.assets.transfer_from(Origin::Signed(1), 1, 2, SUGAR.0, SUGAR.1, 100 * DOLLARS).is_ok());
    assert!(matches!(
        rt.assets.events.last(),
        Some(asset::Event::Transferred { from: 1, to: 2, class_id: 0, asset_id: 0, amount, .. }) if *amount == 100 * DOLLARS
    ));
    assert_eq!(rt.assets.balance_of(2, SUGAR.0, SUGAR.1), 100 * DOLLARS);
}

// escrow

#[test]
fn before_escrow_works() {
    let mut rt = new_test_ext();
    before(&mut rt);
}

fn escrow_filled(rt: &mut Runtime, asset_ids: &Vec<u64>, amounts: &Vec<u128>) -> u64 {
    for class_id in [2u64, 3, 4] {
        assert!(rt.assets.create_class(&mut rt.funds, Origin::Signed(1), 1, class_id, vec![0]).is_ok());
    }
    for class_id in [2u64, 3, 4] {
        assert!(rt.assets.batch_mint(Origin::Signed(1), 2, class_id, asset_ids.clone(), amounts.clone()).is_ok());
    }
    assert!(rt.escrows.register_escrow(&mut rt.assets, &mut rt.funds, Origin::Signed(1), 1000, vec![]).is_ok());
    assert!(rt.escrows.create_account(&mut rt.assets, &mut rt.funds, Origin::Signed(1), 1000, vec![2], vec![1]).is_ok());
    let escrow = match rt.escrows.events.last() {
        Some(escrow::Event::AccountCreated { escrow, who, owners, .. }) => {
            assert_eq!(*who, 1);
            assert_eq!(*owners, vec![2]);
            *escrow
        },
        _ => unreachable!(),
    };
    for class_id in [2u64, 3, 4] {
        assert!(rt
            .escrows
            .deposit_assets(&mut rt.assets, Origin::Signed(2), escrow, vec![class_id], vec![asset_ids.clone()], vec![amounts.clone()])
            .is_ok());
    }
    escrow
}

fn by_class(asset_ids: &Vec<u64>, amounts: &Vec<u128>) -> Vec<(u64, u64, u128)> {
    let mut v = Vec::new();
    for class_id in [2u64, 3, 4] {
        for (i, a) in asset_ids.iter().enumerate() {
            v.push((class_id, *a, amounts[i]));
        }
    }
    v
}

fn dollars_amounts() -> Vec<u128> {
    [100 * DOLLARS, 200 * DOLLARS, 300 * DOLLARS, 400 * DOLLARS, 500 * DOLLARS].to_vec()
}

#[test]
fn escrow_deposit_assets() {
    let mut rt = new_test_ext();
    before(&mut rt);
    let asset_ids = [0, 1, 2, 3, 4].to_vec();
    let amounts = dollars_amounts();
    let escrow = escrow_filled(&mut rt, &asset_ids, &amounts);
    let mut balances = rt.assets.balances_of_owner(escrow).unwrap();
    balances.sort();
    assert_eq!(balances, by_class(&asset_ids, &amounts));
}

#[test]
fn refund_assets() {
    let mut rt = new_test_ext();
    before(&mut rt);
    let asset_ids = [0, 1, 2, 3, 4].to_vec();
    let amounts = dollars_amounts();
    let escrow = escrow_filled(&mut rt, &asset_ids, &amounts);
    let mut balances = rt.assets.balances_of_owner(escrow).unwrap();
    balances.sort();
    assert_eq!(balances, by_class(&asset_ids, &amounts));
    let mut balances = rt.assets.balances_of_owner(2).unwrap();
    balances.sort();
    let mut expected = by_class(&asset_ids, &vec![0; 5]);
    expected.push((1000, 0, 1));
    assert_eq!(balances, expected);
    assert!(rt.escrows.sweep_assets(&mut rt.assets, Origin::Signed(2), 2, escrow).is_ok());
    let mut balances = rt.assets.balances_of_owner(2).unwrap();
    balances.sort();
    let mut expected = by_class(&asset_ids, &amounts);
    expected.push((1000, 0, 0));
    assert_eq!(balances, expected);
}

// dex

#[test]
fn before_exchange_works() {
    let mut rt = new_test_ext();
    before(&mut rt);
}

#[test]
fn many_currencies_works() {
    let mut rt = new_test_ext();
    assert!(rt.currencies.mint(&mut rt.assets, &mut rt.funds, Origin::Signed(1), ETH, 500 * DOLLARS).is_ok());
    assert!(matches!(
        last_currency_event(&rt),
        currency::Event::Mint { currency_id: ETH, amount, who: 1 } if *amount == 500 * DOLLARS
    ));
    assert_eq!(rt.assets.balance_of(1, ETH.0, ETH.1), 500 * DOLLARS);
    assert!(rt.currencies.mint(&mut rt.assets, &mut rt.funds, Origin::Signed(1), BTC, 500 * DOLLARS).is_ok());
    assert!(matches!(
        last_currency_event(&rt),
        currency::Event::Mint { currency_id: BTC, amount, who: 1 } if *amount == 500 * DOLLARS
    ));
    assert_eq!(rt.assets.balance_of(1, BTC.0, BTC.1), 500 * DOLLARS);
}

#[test]
fn endow_user_2_works() {
    let mut rt = new_test_ext();
    before(&mut rt);
    endow_user_2(&mut rt);
}

fn create_exchange(rt: &mut Runtime) {
    assert!(rt
        .dex
        .create_exchange(&mut rt.assets, &mut rt.funds, &rt.currencies, Origin::Signed(1), 0, SUGAR, 1, 9000)
        .is_ok());
    assert!(matches!(rt.dex.events.last(), Some(dex::Event::ExchangeCreated { exchange_id: 0, who: 1 })));
}

#[test]
fn create_exchange_works() {
    let mut rt = new_test_ext();
    before(&mut rt);
    create_exchange(&mut rt);
}

#[test]
fn add_liquidity_works() {
    let mut rt = new_test_ext();
    before(&mut rt);
    create_exchange(&mut rt);
    assert!(rt
        .dex
        .add_liquidity(&mut rt.assets, Origin::Signed(1), 0, 2, [1].to_vec(), [1000 * DOLLARS].to_vec(), [100 * DOLLARS].to_vec())
        .is_ok());
    let balances = dex::Pallet::get_asset_reserves(&rt.assets, 1, 1, [1].to_vec());
    assert_eq!(balances, [49000 * DOLLARS].to_vec());
    let exchange = rt.dex.exchange(0).unwrap();
    assert_eq!(rt.assets.balance_of(2, exchange.lp_class_id, 1), 100 * DOLLARS);
}

fn hundred_each(rt: &mut Runtime) -> (u128, Vec<u128>) {
    create_exchange(rt);
    assert!(rt
        .dex
        .add_liquidity(&mut rt.assets, Origin::Signed(1), 0, 1, [1].to_vec(), [100 * DOLLARS].to_vec(), [100 * DOLLARS].to_vec())
        .is_ok());
    let currency_reserve = rt.dex.currency_reserves(0, 1);
    assert_eq!(currency_reserve, 100 * DOLLARS);
    let exchange = rt.dex.exchange(0).unwrap();
    let balances = dex::Pallet::get_asset_reserves(&rt.assets, exchange.vault, 1, [1].to_vec());
    assert_eq!(balances, [100 * DOLLARS].to_vec());
    (currency_reserve, balances)
}

#[test]
fn sell_price_works() {
    let mut rt = new_test_ext();
    before(&mut rt);
    let (currency_reserve, balances) = hundred_each(&mut rt);
    let amount = 1 * DOLLARS;
    let price = dex::Pallet::get_sell_price(amount, balances[0].saturating_sub(amount), currency_reserve);
    assert_eq!(price, Ok(0_995049752487624381));
}

#[test]
fn buy_price_works() {
    let mut rt = new_test_ext();
    before(&mut rt);
    let (currency_reserve, balances) = hundred_each(&mut rt);
    let amount = 1 * DOLLARS;
    let price = dex::Pallet::get_buy_price(amount, currency_reserve, balances[0]);
    assert_eq!(price, Ok(1_015176894573879499));
}

#[test]
fn single_asset_liquidity_formulas() {
    let mut rt = new_test_ext();
    before(&mut rt);
    hundred_each(&mut rt);
    assert_eq!(rt.dex.total_supplies(0, 1), 100 * DOLLARS);
    assert!(rt
        .dex
        .add_liquidity(&mut rt.assets, Origin::Signed(1), 0, 1, [1].to_vec(), [1 * DOLLARS].to_vec(), [1000 * DOLLARS].to_vec())
        .is_ok());
    assert_eq!(rt.dex.currency_reserves(0, 1), 101_010101010101010102);
    assert_eq!(rt.dex.total_supplies(0, 1), 101_010101010101010101);
    assert_eq!(
        rt.dex.add_liquidity(&mut rt.assets, Origin::Signed(1), 0, 1, [1].to_vec(), [1 * DOLLARS].to_vec(), [1 * DOLLARS].to_vec()),
        Err(DispatchError::Dex(dex::Error::MaxCurrencyAmountExceeded))
    );
    let exchange = rt.dex.exchange(0).unwrap();
    let vault_before = rt.assets.balance_of(exchange.vault, 1, 1);
    assert_eq!(vault_before, 101 * DOLLARS);
    assert!(rt
        .dex
        .remove_liquidity(&mut rt.assets, Origin::Signed(1), 0, 1, [1].to_vec(), [5 * DOLLARS].to_vec(), [0].to_vec(), [0].to_vec())
        .is_ok());
    assert_eq!(rt.dex.currency_reserves(0, 1), 96_010101010101010102);
    assert_eq!(rt.dex.total_supplies(0, 1), 96_010101010101010101);
    assert_eq!(rt.assets.balance_of(exchange.vault, 1, 1), 96_000500000000000000);
}

#[test]
fn add_liquidity_checks_in_order() {
    let mut rt = new_test_ext();
    before(&mut rt);
    create_exchange(&mut rt);
    let add = |rt: &mut Runtime, amount: u128, max: u128| {
        rt.dex.add_liquidity(&mut rt.assets, Origin::Signed(1), 0, 1, [1].to_vec(), [amount].to_vec(), [max].to_vec())
    };
    assert_eq!(add(&mut rt, 0, 0), Err(DispatchError::Dex(dex::Error::InvalidMaxCurrency)));
    assert_eq!(add(&mut rt, 0, 1), Err(DispatchError::Dex(dex::Error::InsufficientAssetAmount)));
    assert_eq!(add(&mut rt, 1, 999_999_999), Err(DispatchError::Dex(dex::Error::InvalidCurrencyAmount)));
    assert!(add(&mut rt, 1, 1_000_000_000).is_ok());
    assert_eq!(rt.dex.currency_reserves(0, 1), 1_000_000_000);
    assert_eq!(rt.dex.total_supplies(0, 1), 1_000_000_000);
}

#[test]
fn buy_assets_works() {
    let mut rt = new_test_ext();
    before(&mut rt);
    endow_user_2(&mut rt);
    create_exchange(&mut rt);
    assert!(rt
        .dex
        .add_liquidity(&mut rt.assets, Origin::Signed(1), 0, 1, [1].to_vec(), [1000 * DOLLARS].to_vec(), [100 * DOLLARS].to_vec())
        .is_ok());
    assert_eq!(rt.assets.balance_of(2, 1, 1), 0 * DOLLARS);
    assert!(rt
        .dex
        .buy_assets(&mut rt.assets, Origin::Signed(2), 0, [1].to_vec(), [10 * DOLLARS].to_vec(), 1000 * DOLLARS, 2)
        .is_ok());
    assert_eq!(rt.assets.balance_of(2, 1, 1), 10 * DOLLARS);
}

#[test]
fn buy_more_assets_than_available() {
    let mut rt = new_test_ext();
    before(&mut rt);
    endow_user_2(&mut rt);
    create_exchange(&mut rt);
    assert!(rt
        .dex
        .add_liquidity(&mut rt.assets, Origin::Signed(1), 0, 1, [1].to_vec(), [2 * DOLLARS].to_vec(), [1 * DOLLARS].to_vec())
        .is_ok());
    assert_eq!(
        rt.dex.buy_assets(&mut rt.assets, Origin::Signed(2), 0, [1].to_vec(), [3 * DOLLARS].to_vec(), 1000 * DOLLARS, 2),
        Err(DispatchError::Dex(dex::Error::InsufficientLiquidity))
    );
}

// currency

#[test]
fn currency_eth_works() {
    let mut rt = new_test_ext();
    let module = rt.currencies.account_id();
    assert!(rt.assets.do_create_asset(module, ETH.0, ETH.1, vec![]).is_ok());
    assert!(rt.currencies.mint(&mut rt.assets, &mut rt.funds, Origin::Signed(1), ETH, 500 * CENTS).is_ok());
    assert!(matches!(
        last_currency_event(&rt),
        currency::Event::Mint { currency_id: ETH, amount, who: 1 } if *amount == 500 * CENTS
    ));
    assert_eq!(rt.assets.balance_of(1, ETH.0, ETH.1), 500 * CENTS);
}

#[test]
fn currency_btc_works() {
    let mut rt = new_test_ext();
    let module = rt.currencies.account_id();
    assert!(rt.assets.do_create_asset(module, BTC.0, BTC.1, vec![]).is_ok());
    assert!(rt.currencies.mint(&mut rt.assets, &mut rt.funds, Origin::Signed(1), BTC, 500 * CENTS).is_ok());
    assert!(matches!(
        last_currency_event(&rt),
        currency::Event::Mint { currency_id: BTC, amount, who: 1 } if *amount == 500 * CENTS
    ));
    assert_eq!(rt.assets.balance_of(1, BTC.0, BTC.1), 500 * CENTS);
}

#[test]
fn issue_and_mint_currency() {
    let mut rt = new_test_ext();
    let new_currency_id = CurrencyId(0, 1000);
    assert_eq!(rt.assets.balance_of(1, new_currency_id.0, new_currency_id.1), 0);
    rt.funds.set_token(new_currency_id, 1, 1000000 * DOLLARS);
    assert_eq!(rt.funds.balance_of(new_currency_id, 1), 1000000 * DOLLARS);
    let module = rt.currencies.account_id();
    assert!(rt.assets.do_create_asset(module, new_currency_id.0, new_currency_id.1, vec![]).is_ok());
    assert!(rt.currencies.mint(&mut rt.assets, &mut rt.funds, Origin::Signed(1), new_currency_id, 500 * CENTS).is_ok());
    assert!(matches!(
        last_currency_event(&rt),
        currency::Event::Mint { currency_id, amount, who: 1 } if *currency_id == new_currency_id && *amount == 500 * CENTS
    ));
    assert_eq!(rt.assets.balance_of(1, new_currency_id.0, new_currency_id.1), 500 * CENTS);
    assert_eq!(rt.currencies.currency_assets.get(&(new_currency_id.0, new_currency_id.1)), Some(&(500 * CENTS)));
}

#[test]
fn currency_burn_assets_works() {
    let mut rt = new_test_ext();
    let currency_id = CurrencyId(1000, 0);
    assert!(rt.assets.do_create_class(&mut rt.funds, 1, 1, currency_id.0, vec![]).is_ok());
    assert!(rt.assets.do_create_asset(1, currency_id.0, currency_id.1, vec![]).is_ok());
    rt.funds.set_token(currency_id, 1, 1000000 * DOLLARS);
    assert_eq!(rt.funds.balance_of(currency_id, 1), 1000000 * DOLLARS);
    assert!(rt.assets.mint(Origin::Signed(1), 1, currency_id.0, currency_id.1, 500 * CENTS).is_ok());
    assert!(rt.currencies.mint(&mut rt.assets, &mut rt.funds, Origin::Signed(1), currency_id, 500 * CENTS).is_ok());
    assert_eq!(rt.assets.balance_of(1, currency_id.0, currency_id.1), 1000 * CENTS);
    assert_eq!(rt.currencies.currency_assets.get(&(currency_id.0, currency_id.1)), Some(&(500 * CENTS)));
    assert!(rt.currencies.burn(&mut rt.assets, &mut rt.funds, Origin::Signed(1), currency_id, 400 * CENTS).is_ok());
    assert_eq!(rt.assets.balance_of(1, currency_id.0, currency_id.1), 600 * CENTS);
    assert_eq!(rt.currencies.currency_assets.get(&(currency_id.0, currency_id.1)), Some(&(100 * CENTS)));
}

#[test]
fn currency_mint_works() {
    let mut rt = new_test_ext();
    assert_eq!(rt.assets.balance_of(1, SUGAR.0, SUGAR.1), 0 * CENTS);
    assert!(rt.currencies.mint(&mut rt.assets, &mut rt.funds, Origin::Signed(1), SUGAR, 500 * CENTS).is_ok());
    assert!(matches!(
        last_currency_event(&rt),
        currency::Event::Mint { currency_id: SUGAR, amount, who: 1 } if *amount == 500 * CENTS
    ));
    assert_eq!(rt.assets.balance_of(1, SUGAR.0, SUGAR.1), 500 * CENTS);
    assert_eq!(rt.currencies.currency_assets.get(&(SUGAR.0, SUGAR.1)), Some(&(500 * CENTS)));
}

#[test]
fn currency_burn_works() {
    let mut rt = new_test_ext();
    assert!(rt.currencies.mint(&mut rt.assets, &mut rt.funds, Origin::Signed(1), SUGAR, 500 * CENTS).is_ok());
    assert!(rt.currencies.burn(&mut rt.assets, &mut rt.funds, Origin::Signed(1), SUGAR, 400 * CENTS).is_ok());
    assert!(matches!(
        last_currency_event(&rt),
        currency::Event::Burn { currency_id: SUGAR, amount, who: 1 } if *amount == 400 * CENTS
    ));
    assert_eq!(rt.assets.balance_of(1, SUGAR.0, SUGAR.1), 100 * CENTS);
}

// bundle

fn before_bundle(rt: &mut Runtime) {
    for class_id in [2000u64, 3000, 4000] {
        assert!(rt.assets.do_create_class(&mut rt.funds, 1, 1, class_id, vec![0]).is_ok());
    }
    let asset_ids = [1, 2, 3, 4, 5].to_vec();
    let amounts = [100, 200, 300, 400, 500].to_vec();
    for class_id in [2000u64, 3000, 4000] {
        assert!(rt.assets.do_batch_mint(1, 2, class_id, asset_ids.clone(), amounts.clone()).is_ok());
    }
}

fn schema() -> bundle::BundleSchema {
    let ids: Vec<u64> = vec![1, 2, 3, 4, 5];
    let amounts: Vec<u128> = vec![1, 2, 3, 4, 5];
    (vec![2000, 3000, 4000], vec![ids.clone(), ids.clone(), ids], vec![amounts.clone(), amounts.clone(), amounts])
}

fn register_bundle(rt: &mut Runtime) -> bundle::BundleId {
    let schema = schema();
    let bundle_id = bundle::Pallet::hash_of(&schema);
    assert!(rt.bundles.do_register_bundle(&mut rt.assets, &mut rt.funds, 1, 9000, 0, bundle_id, &schema, vec![]).is_ok());
    bundle_id
}

fn class_balances(rt: &Runtime, owner: u64) -> Vec<u128> {
    rt.assets.balance_of_single_owner_batch(owner, 4000, vec![1, 2, 3, 4, 5]).unwrap()
}

#[test]
fn before_bundle_works() {
    let mut rt = new_test_ext();
    before_bundle(&mut rt);
}

#[test]
fn mint_bundle_works() {
    let mut rt = new_test_ext();
    before_bundle(&mut rt);
    let bundle_id = register_bundle(&mut rt);
    assert_eq!(rt.bundles.asset_bundles(9000, 0), Some(bundle_id));
    rt.bundles.do_mint_bundles(&mut rt.assets, 2, 2, 2, bundle_id, 10).unwrap();
    let vault = rt.bundles.bundles(bundle_id).unwrap().vault;
    assert_eq!(10, rt.assets.balance_of(2, 9000, 0));
    assert_eq!(
        rt.bundles.events.last(),
        Some(&bundle::Event::Mint { bundle_id, who: 2, from: 2, to: 2, amount: 10 })
    );
    assert_eq!(vec![10, 20, 30, 40, 50], class_balances(&rt, vault));
    assert_eq!(vec![90, 180, 270, 360, 450], class_balances(&rt, 2));
}

#[test]
fn mint_bundle_fails() {
    let mut rt = new_test_ext();
    before_bundle(&mut rt);
    assert!(rt.assets.do_transfer_from(2, 2, 1, 4000, 1, 91).is_ok());
    let bundle_id = register_bundle(&mut rt);
    assert_eq!(
        rt.bundles.do_mint_bundles(&mut rt.assets, 2, 2, 2, bundle_id, 10),
        Err(DispatchError::Bundle(bundle::Error::InsufficientBalance))
    );
    assert_eq!(vec![9, 200, 300, 400, 500], class_balances(&rt, 2));
}

#[test]
fn add_assets_to_existing_bundle() {
    let mut rt = new_test_ext();
    before_bundle(&mut rt);
    let bundle_id = register_bundle(&mut rt);
    rt.bundles.do_mint_bundles(&mut rt.assets, 2, 2, 2, bundle_id, 10).unwrap();
    rt.bundles.do_mint_bundles(&mut rt.assets, 2, 2, 2, bundle_id, 10).unwrap();
    let vault = rt.bundles.bundles(bundle_id).unwrap().vault;
    assert_eq!(20, rt.assets.balance_of(2, 9000, 0));
    assert_eq!(vec![20, 40, 60, 80, 100], class_balances(&rt, vault));
    assert_eq!(vec![80, 160, 240, 320, 400], class_balances(&rt, 2));
}

#[test]
fn burn_bundle_works() {
    let mut rt = new_test_ext();
    before_bundle(&mut rt);
    let bundle_id = register_bundle(&mut rt);
    rt.bundles.do_mint_bundles(&mut rt.assets, 2, 2, 2, bundle_id, 10).unwrap();
    rt.bundles.do_mint_bundles(&mut rt.assets, 2, 2, 2, bundle_id, 10).unwrap();
    let vault = rt.bundles.bundles(bundle_id).unwrap().vault;
    assert_eq!(20, rt.assets.balance_of(2, 9000, 0));
    assert_eq!(vec![20, 40, 60, 80, 100], class_balances(&rt, vault));
    assert_eq!(vec![80, 160, 240, 320, 400], class_balances(&rt, 2));
    assert!(rt.bundles.do_burn_bundles(&mut rt.assets, 2, 2, 2, bundle_id, 5).is_ok());
    assert_eq!(
        rt.bundles.events.last(),
        Some(&bundle::Event::Burn { bundle_id, who: 2, from: 2, to: 2, amount: 5 })
    );
    assert_eq!(15, rt.assets.balance_of(2, 9000, 0));
    assert_eq!(vec![15, 30, 45, 60, 75], class_balances(&rt, vault));
}

// asset registry

#[test]
fn test_verify_class_id_successful() {
    let mut rt = new_test_ext();
    assert!(rt.assets.do_create_class(&mut rt.funds, 1, 1, 2000, vec![0]).is_ok());
    assert_eq!(rt.assets.class_exists(2000), true);
}

#[test]
fn test_verify_class_id_not_initialized() {
    let rt = new_test_ext();
    assert_eq!(rt.assets.class_exists(2000), false);
}

#[test]
fn test_verify_class_id_failed() {
    let mut rt = new_test_ext();
    assert!(rt.assets.do_create_class(&mut rt.funds, 1, 1, 2000, vec![0]).is_ok());
    assert_eq!(rt.assets.class_exists(2001), false);
}

#[test]
fn test_verify_account_owner_successful() {
    let mut rt = new_test_ext();
    assert!(rt.assets.do_create_class(&mut rt.funds, 1, 1, 2000, vec![0]).is_ok());
    assert_eq!(rt.assets.account_is_owner(1, 2000), true);
}

#[test]
fn test_verify_account_owner_no_initialized() {
    let rt = new_test_ext();
    assert_eq!(rt.assets.account_is_owner(1, 2000), false);
}

#[test]
fn test_verify_account_owner_failed_wrong_account() {
    let mut rt = new_test_ext();
    assert!(rt.assets.do_create_class(&mut rt.funds, 1, 1, 2000, vec![0]).is_ok());
    assert_eq!(rt.assets.account_is_owner(2, 2000), false);
}

#[test]
fn test_verify_account_owner_failed_wrong_class_id() {
    let mut rt = new_test_ext();
    assert!(rt.assets.do_create_class(&mut rt.funds, 1, 1, 2000, vec![0]).is_ok());
    assert_eq!(rt.assets.account_is_owner(2, 2000), false);
}

#[test]
fn bundle_mint_burn_round_trip() {
    let mut rt = new_test_ext();
    before_bundle(&mut rt);
    let bundle_id = register_bundle(&mut rt);
    let vault = rt.bundles.bundles(bundle_id).unwrap().vault;
    rt.bundles.do_mint_bundles(&mut rt.assets, 2, 2, 2, bundle_id, 7).unwrap();
    assert_eq!(vec![7, 14, 21, 28, 35], class_balances(&rt, vault));
    assert!(rt.bundles.do_burn_bundles(&mut rt.assets, 2, 2, 2, bundle_id, 7).is_ok());
    assert_eq!(vec![100, 200, 300, 400, 500], class_balances(&rt, 2));
    assert_eq!(vec![0, 0, 0, 0, 0], class_balances(&rt, vault));
    assert_eq!(rt.assets.balance_of(2, 9000, 0), 0);
}

#[test]
fn batch_mint_then_burn_restores() {
    let mut rt = new_test_ext();
    before_bundle(&mut rt);
    assert!(rt.assets.do_batch_mint(1, 5, 2000, vec![1, 1, 2], vec![3, 4, 5]).is_ok());
    assert_eq!(rt.assets.balance_of(5, 2000, 1), 7);
    assert!(rt.assets.do_batch_burn(1, 5, 2000, vec![1, 1, 2], vec![3, 4, 5]).is_ok());
    assert_eq!(rt.assets.balance_of_single_owner_batch(5, 2000, vec![1, 2]), Ok(vec![0, 0]));
    assert_eq!(
        rt.assets.do_batch_burn(1, 5, 2000, vec![1], vec![1, 2]),
        Err(DispatchError::Asset(asset::Error::InvalidArrayLength))
    );
}
