use sugarfunge::asset;
use sugarfunge::market::{self, AmountOp, AssetRate, RateAccount, RateAction, RateBalance, AMM};
use sugarfunge::balances::Funds;
use sugarfunge::primitives::{CurrencyId, DispatchError, PalletId};

struct Runtime {
    funds: Funds,
    assets: asset::Pallet,
    market: market::Pallet,
}

fn new_test_ext() -> Runtime {
    let mut funds = Funds::new(CurrencyId(0, 0));
    funds.set_free(1, 1_000_000);
    funds.set_free(2, 1_000_000);
    Runtime {
        funds,
        assets: asset::Pallet::new(1),
        market: market::Pallet::new(PalletId(*b"sug/mrkt")),
    }
}

fn rate(class_id: u64, asset_id: u64, action: RateAction, from: RateAccount, to: RateAccount) -> AssetRate {
    AssetRate { class_id, asset_id, action, from, to }
}

fn simple_market_rates() -> Vec<AssetRate> {
    vec![
        rate(2000, 1, RateAction::Transfer(1), RateAccount::Market, RateAccount::Buyer),
        rate(2000, 2, RateAction::Mint(1), RateAccount::Market, RateAccount::Buyer),
        rate(3000, 1, RateAction::Has(AmountOp::GreaterEqualThan, 5000), RateAccount::Buyer, RateAccount::Market),
        rate(3000, 2, RateAction::Transfer(5), RateAccount::Buyer, RateAccount::Market),
        rate(3000, 3, RateAction::Burn(50), RateAccount::Buyer, RateAccount::Market),
        rate(4000, 1, RateAction::Transfer(2), RateAccount::Market, RateAccount::Account(0)),
        rate(4000, 1, RateAction::Transfer(1), RateAccount::Buyer, RateAccount::Account(0)),
    ]
}

fn swap_market_rates() -> Vec<AssetRate> {
    vec![
        rate(2000, 1, RateAction::Transfer(1), RateAccount::Market, RateAccount::Buyer),
        rate(2000, 2, RateAction::MarketTransfer(AMM::Constant, 2000, 1), RateAccount::Buyer, RateAccount::Market),
    ]
}

fn last_event(rt: &Runtime) -> &market::Event {
    rt.market.events.last().expect("Event expected")
}

fn before_market(rt: &mut Runtime) {
    for class_id in [2000u64, 3000, 4000] {
        assert!(rt.assets.do_create_class(&mut rt.funds, 1, 1, class_id, vec![]).is_ok());
    }
    let asset_ids = [1, 2, 3, 4, 5].to_vec();
    let amounts = [100, 200, 300, 400, 500].to_vec();
    for class_id in [2000u64, 3000, 4000] {
        assert!(rt.assets.do_batch_mint(1, 2, class_id, asset_ids.clone(), amounts.clone()).is_ok());
    }
    assert!(rt.market.do_create_market(1, 1000).is_ok());
    assert_eq!(last_event(rt), &market::Event::Created { market_id: 1000, who: 1 });
}

fn add_some_liquidity(rt: &mut Runtime) {
    assert!(rt.assets.do_batch_mint(1, 2, 8000, vec![1, 2, 3], vec![1000, 1000, 1000]).is_ok());
    assert!(rt.assets.do_batch_mint(1, 2, 9000, vec![1, 2, 3], vec![1000, 1000, 1000]).is_ok());
    assert!(rt
        .market
        .add_liquidity(
            &mut rt.assets,
            2,
            2000,
            100,
            vec![8000, 9000],
            vec![vec![1, 2, 3], vec![1, 2, 3]],
            vec![vec![10, 20, 30], vec![100, 200, 300]]
        )
        .is_ok());
}

fn market_2000(rt: &mut Runtime) -> Vec<AssetRate> {
    assert!(rt.market.do_create_market(2, 2000).is_ok());
    let rates = simple_market_rates();
    assert!(rt.market.do_create_market_rate(2, 2000, 100, &rates).is_ok());
    rates
}

fn find_balance(balances: &Vec<RateBalance>, rate: &AssetRate) -> Option<i128> {
    balances.iter().find_map(|RateBalance { rate: r, balance }| if r == rate { Some(*balance) } else { None })
}

fn mint_to_buyer(rt: &mut Runtime, with_royalty_class: bool) {
    assert!(rt.assets.do_batch_mint(1, 3, 2000, vec![1, 2], vec![100, 100]).is_ok());
    assert!(rt.assets.do_batch_mint(1, 3, 3000, vec![1, 2, 3], vec![10000, 50, 300]).is_ok());
    if with_royalty_class {
        assert!(rt.assets.do_batch_mint(1, 3, 4000, vec![1, 2], vec![100, 100]).is_ok());
    }
}

#[test]
fn before_market_works() {
    let mut rt = new_test_ext();
    before_market(&mut rt);
}

#[test]
fn create_market_works() {
    let mut rt = new_test_ext();
    before_market(&mut rt);
    assert!(rt.market.do_create_market(1, 1001).is_ok());
    assert_eq!(last_event(&rt), &market::Event::Created { market_id: 1001, who: 1 });
}

#[test]
fn create_market_rate_works() {
    let mut rt = new_test_ext();
    before_market(&mut rt);
    let market_rate = simple_market_rates();
    assert!(rt.market.do_create_market_rate(1, 1000, 2, &market_rate).is_ok());
    assert_eq!(last_event(&rt), &market::Event::RateCreated { market_id: 1000, market_rate_id: 2, who: 1 });
}

#[test]
fn invalid_market_fails() {
    let mut rt = new_test_ext();
    before_market(&mut rt);
    let n = rt.market.events.len();
    let r = rt.market.do_quote_deposit(&rt.assets, 1, 1001, 1, 2);
    assert_eq!(r.err(), Some(DispatchError::Market(market::Error::InvalidMarket)));
    assert_eq!(rt.market.events.len(), n);
}

#[test]
fn invalid_market_rate_fails() {
    let mut rt = new_test_ext();
    before_market(&mut rt);
    let n = rt.market.events.len();
    let r = rt.market.do_quote_deposit(&rt.assets, 1, 1000, 1000, 2);
    assert_eq!(r.err(), Some(DispatchError::Market(market::Error::InvalidMarketRate)));
    assert_eq!(rt.market.events.len(), n);
}

#[test]
fn quote_deposit_fails() {
    let mut rt = new_test_ext();
    before_market(&mut rt);
    let rates = market_2000(&mut rt);
    let (can_deposit, deposits) = rt.market.do_quote_deposit(&rt.assets, 2, 2000, 100, 100).unwrap();
    assert_eq!(can_deposit, false);
    assert_eq!(deposits.get(&rates[0]), Some(100));
    assert_eq!(deposits.get(&rates[1]), None);
    assert_eq!(deposits.get(&rates[2]), None);
    assert_eq!(deposits.get(&rates[3]), None);
    assert_eq!(deposits.get(&rates[4]), None);
    assert_eq!(deposits.get(&rates[5]), Some(-100));
    assert_eq!(deposits.get(&rates[6]), None);
}

#[test]
fn quote_deposit_works() {
    let mut rt = new_test_ext();
    before_market(&mut rt);
    let rates = market_2000(&mut rt);
    let (can_deposit, deposits) = rt.market.do_quote_deposit(&rt.assets, 2, 2000, 100, 2).unwrap();
    assert_eq!(can_deposit, true);
    assert_eq!(deposits.get(&rates[0]), Some(2));
    assert_eq!(deposits.get(&rates[1]), None);
    assert_eq!(deposits.get(&rates[2]), None);
    assert_eq!(deposits.get(&rates[3]), None);
    assert_eq!(deposits.get(&rates[4]), None);
    assert_eq!(deposits.get(&rates[5]), Some(4));
    assert_eq!(deposits.get(&rates[6]), None);
}

#[test]
fn deposit_works() {
    let mut rt = new_test_ext();
    before_market(&mut rt);
    let rates = market_2000(&mut rt);
    assert!(rt.market.do_deposit(&mut rt.assets, 2, 2000, 100, 4).is_ok());
    match last_event(&rt) {
        market::Event::Deposit { who, market_id, market_rate_id, amount, balances, success } => {
            assert_eq!(*who, 2);
            assert_eq!(*market_id, 2000);
            assert_eq!(*market_rate_id, 100);
            assert_eq!(*amount, 4);
            assert_eq!(*success, true);
            assert_eq!(find_balance(balances, &rates[0]), Some(4));
            assert_eq!(find_balance(balances, &rates[1]), None);
            assert_eq!(find_balance(balances, &rates[2]), None);
            assert_eq!(find_balance(balances, &rates[3]), None);
            assert_eq!(find_balance(balances, &rates[5]), Some(8));
            assert_eq!(find_balance(balances, &rates[6]), None);
        },
        _ => unreachable!(),
    }
}

#[test]
fn deposit_fails() {
    let mut rt = new_test_ext();
    before_market(&mut rt);
    let rates = market_2000(&mut rt);
    assert!(rt.market.do_deposit(&mut rt.assets, 2, 2000, 100, 100).is_ok());
    match last_event(&rt) {
        market::Event::Deposit { who, market_id, market_rate_id, amount, balances, success } => {
            assert_eq!(*success, false);
            assert_eq!(*who, 2);
            assert_eq!(*market_id, 2000);
            assert_eq!(*market_rate_id, 100);
            assert_eq!(*amount, 100);
            assert_eq!(find_balance(balances, &rates[0]), Some(100));
            assert_eq!(find_balance(balances, &rates[1]), None);
            assert_eq!(find_balance(balances, &rates[2]), None);
            assert_eq!(find_balance(balances, &rates[3]), None);
            assert_eq!(find_balance(balances, &rates[5]), Some(-100));
            assert_eq!(find_balance(balances, &rates[6]), None);
        },
        _ => unreachable!(),
    }
}

#[test]
fn quote_exchange_insufficient() {
    let mut rt = new_test_ext();
    before_market(&mut rt);
    let rates = market_2000(&mut rt);
    assert!(rt.market.do_deposit(&mut rt.assets, 2, 2000, 100, 4).is_ok());
    let (can_do_exchange, balances) = rt.market.do_quote_exchange(&rt.assets, 3, 2000, 100, 3).unwrap();
    assert_eq!(can_do_exchange, false);
    assert_eq!(balances.get(&rates[0]), Some(3));
    assert_eq!(balances.get(&rates[1]), Some(3));
    assert_eq!(balances.get(&rates[2]), Some(-5000));
    assert_eq!(balances.get(&rates[3]), Some(-15));
    assert_eq!(balances.get(&rates[4]), Some(-150));
    assert_eq!(balances.get(&rates[5]), Some(6));
    assert_eq!(balances.get(&rates[6]), Some(-3));
}

#[test]
fn quote_exchange_sufficient() {
    let mut rt = new_test_ext();
    before_market(&mut rt);
    let rates = market_2000(&mut rt);
    assert!(rt.market.do_deposit(&mut rt.assets, 2, 2000, 100, 4).is_ok());
    mint_to_buyer(&mut rt, true);
    let (can_do_exchange, balances) = rt.market.do_quote_exchange(&rt.assets, 3, 2000, 100, 3).unwrap();
    assert_eq!(can_do_exchange, true);
    assert_eq!(balances.get(&rates[0]), Some(3));
    assert_eq!(balances.get(&rates[1]), Some(3));
    assert_eq!(balances.get(&rates[2]), Some(5000));
    assert_eq!(balances.get(&rates[3]), Some(15));
    assert_eq!(balances.get(&rates[4]), Some(150));
    assert_eq!(balances.get(&rates[5]), Some(6));
    assert_eq!(balances.get(&rates[6]), Some(3));
}

#[test]
fn exchange_assets_works() {
    let mut rt = new_test_ext();
    before_market(&mut rt);
    let rates = market_2000(&mut rt);
    assert!(rt.market.do_deposit(&mut rt.assets, 2, 2000, 100, 4).is_ok());
    mint_to_buyer(&mut rt, true);
    assert!(rt.market.do_exchange_assets(&mut rt.assets, 3, 2000, 100, 3).is_ok());
    match last_event(&rt) {
        market::Event::Exchanged { buyer, market_id, market_rate_id, amount, balances, success } => {
            assert_eq!(*success, true);
            assert_eq!(*buyer, 3);
            assert_eq!(*market_id, 2000);
            assert_eq!(*market_rate_id, 100);
            assert_eq!(*amount, 3);
            assert_eq!(find_balance(balances, &rates[0]), Some(3));
            assert_eq!(find_balance(balances, &rates[1]), Some(3));
            assert_eq!(find_balance(balances, &rates[2]), Some(5000));
            assert_eq!(find_balance(balances, &rates[3]), Some(15));
            assert_eq!(find_balance(balances, &rates[4]), Some(150));
            assert_eq!(find_balance(balances, &rates[5]), Some(6));
            assert_eq!(find_balance(balances, &rates[6]), Some(3));
        },
        _ => unreachable!(),
    }
}

#[test]
fn exchange_assets_fails() {
    let mut rt = new_test_ext();
    before_market(&mut rt);
    let rates = market_2000(&mut rt);
    assert!(rt.market.do_deposit(&mut rt.assets, 2, 2000, 100, 4).is_ok());
    mint_to_buyer(&mut rt, false);
    assert!(rt.market.do_exchange_assets(&mut rt.assets, 3, 2000, 100, 3).is_ok());
    match last_event(&rt) {
        market::Event::Exchanged { buyer, market_id, market_rate_id, amount, balances, success } => {
            assert_eq!(*success, false);
            assert_eq!(*buyer, 3);
            assert_eq!(*market_id, 2000);
            assert_eq!(*market_rate_id, 100);
            assert_eq!(*amount, 3);
            assert_eq!(find_balance(balances, &rates[0]), Some(3));
            assert_eq!(find_balance(balances, &rates[1]), Some(3));
            assert_eq!(find_balance(balances, &rates[2]), Some(5000));
            assert_eq!(find_balance(balances, &rates[3]), Some(15));
            assert_eq!(find_balance(balances, &rates[4]), Some(150));
            assert_eq!(find_balance(balances, &rates[5]), Some(6));
            assert_eq!(find_balance(balances, &rates[6]), Some(-3));
        },
        _ => unreachable!(),
    }
}

fn vault_holds(rt: &Runtime, expected: Vec<(u64, u64, u128)>) {
    let market_vault = rt.market.get_vault(2000).unwrap();
    let market_balances = rt.assets.balances_of_owner(market_vault).unwrap();
    for (b_class_id, b_asset_id, b_balance) in expected {
        assert!(market_balances
            .iter()
            .any(|(class_id, asset_id, balance)| *class_id == b_class_id && *asset_id == b_asset_id && *balance == b_balance));
    }
}

#[test]
fn add_liquidity() {
    let mut rt = new_test_ext();
    before_market(&mut rt);
    market_2000(&mut rt);
    assert!(rt.market.do_deposit(&mut rt.assets, 2, 2000, 100, 4).is_ok());
    add_some_liquidity(&mut rt);
    vault_holds(&rt, vec![(8000, 1, 10), (8000, 2, 20), (8000, 3, 30), (9000, 1, 100), (9000, 2, 200), (9000, 3, 300)]);
}

#[test]
fn remove_liquidity() {
    let mut rt = new_test_ext();
    before_market(&mut rt);
    market_2000(&mut rt);
    assert!(rt.market.do_deposit(&mut rt.assets, 2, 2000, 100, 4).is_ok());
    add_some_liquidity(&mut rt);
    assert!(rt
        .market
        .remove_liquidity(
            &mut rt.assets,
            2,
            2000,
            100,
            vec![8000, 9000],
            vec![vec![1, 2, 3], vec![1, 2, 3]],
            vec![vec![1, 2, 3], vec![10, 20, 30]]
        )
        .is_ok());
    vault_holds(&rt, vec![(8000, 1, 9), (8000, 2, 18), (8000, 3, 27), (9000, 1, 90), (9000, 2, 180), (9000, 3, 270)]);
}

#[test]
fn dex_price_works() {
    let mut rt = new_test_ext();
    before_market(&mut rt);
    assert!(rt.market.do_create_market(2, 9000).is_ok());
    assert!(rt.assets.do_batch_mint(1, 2, 2000, vec![1], vec![10000]).is_ok());
    assert!(rt.assets.do_batch_mint(1, 3, 2000, vec![2], vec![10000]).is_ok());
    let rates = swap_market_rates();
    assert!(rt.market.do_create_market_rate(2, 9000, 100, &rates).is_ok());
    assert!(rt.market.do_deposit(&mut rt.assets, 2, 9000, 100, 10000).is_ok());
    let market_vault = rt.market.get_vault(9000).unwrap();
    let market_balances = rt.assets.balances_of_owner(market_vault).unwrap();
    assert_eq!(vec![(2000, 1, 10000)], market_balances);
}

#[test]
fn market_transfer_line_leaves_quote_unchanged() {
    let mut rt = new_test_ext();
    before_market(&mut rt);
    let rates = market_2000(&mut rt);
    let mut with_line = rates.clone();
    with_line.insert(
        3,
        rate(2000, 3, RateAction::MarketTransfer(AMM::Constant, 2000, 1), RateAccount::Buyer, RateAccount::Market),
    );
    assert!(rt.market.do_create_market_rate(2, 2000, 101, &with_line).is_ok());
    assert!(rt.market.do_deposit(&mut rt.assets, 2, 2000, 100, 4).is_ok());
    for amount in [1u128, 3, 5] {
        assert_eq!(
            rt.market.do_quote_exchange(&rt.assets, 3, 2000, 100, amount),
            rt.market.do_quote_exchange(&rt.assets, 3, 2000, 101, amount)
        );
    }
    mint_to_buyer(&mut rt, true);
    for amount in [1u128, 3, 5] {
        assert_eq!(
            rt.market.do_quote_exchange(&rt.assets, 3, 2000, 100, amount),
            rt.market.do_quote_exchange(&rt.assets, 3, 2000, 101, amount)
        );
    }
}

#[test]
fn smaller_exchange_stays_feasible() {
    let mut rt = new_test_ext();
    before_market(&mut rt);
    market_2000(&mut rt);
    assert!(rt.market.do_deposit(&mut rt.assets, 2, 2000, 100, 4).is_ok());
    mint_to_buyer(&mut rt, true);
    let (can_do_exchange, _) = rt.market.do_quote_exchange(&rt.assets, 3, 2000, 100, 3).unwrap();
    assert!(can_do_exchange);
    for amount in [1u128, 2] {
        let (smaller, _) = rt.market.do_quote_exchange(&rt.assets, 3, 2000, 100, amount).unwrap();
        assert!(smaller);
    }
}
