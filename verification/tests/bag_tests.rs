use sugarfunge::asset;
use sugarfunge::bag;
use sugarfunge::balances::Funds;
use sugarfunge::primitives::{CurrencyId, Origin, PalletId};

const MILLICENTS: u128 = 10_000_000_000_000;
const CENTS: u128 = 1_000 * MILLICENTS;
const DOLLARS: u128 = 100 * CENTS;

struct Runtime {
    funds: Funds,
    assets: asset::Pallet,
    bags: bag::Pallet,
}

fn new_test_ext() -> Runtime {
    let mut funds = Funds::new(CurrencyId(0, 0));
    funds.set_free(1, 1000000 * DOLLARS);
    funds.set_free(2, 1000000 * DOLLARS);
    Runtime {
        funds,
        assets: asset::Pallet::new(500 * MILLICENTS),
        bags: bag::Pallet::new(PalletId(*b"sug/crow"), 1),
    }
}

fn before_bag(rt: &mut Runtime) {
    assert!(rt.assets.do_mint(1, 1, 0, 0, 500 * DOLLARS).is_ok());
    assert_eq!(rt.assets.balance_of(1, 0, 0), 500 * DOLLARS);
    assert!(rt.assets.create_class(&mut rt.funds, Origin::Signed(1), 1, 1, vec![]).is_ok());
    assert!(rt.assets.create_asset(Origin::Signed(1), 1, 1, vec![]).is_ok());
    assert!(rt.assets.do_mint(1, 1, 1, 1, 50000 * DOLLARS).is_ok());
    assert_eq!(rt.assets.balance_of(1, 1, 1), 50000 * DOLLARS);
    assert!(rt.bags.do_register(&mut rt.assets, &mut rt.funds, 1, 1000, vec![]).is_ok());
}

fn fill_classes(rt: &mut Runtime, asset_ids: &Vec<u64>, amounts: &Vec<u128>) {
    for class_id in [2u64, 3, 4] {
        assert!(rt.assets.create_class(&mut rt.funds, Origin::Signed(1), 1, class_id, vec![]).is_ok());
    }
    for class_id in [2u64, 3, 4] {
        assert!(rt.assets.do_batch_mint(1, 2, class_id, asset_ids.clone(), amounts.clone()).is_ok());
    }
}

fn created_bag(rt: &Runtime) -> u64 {
    match rt.bags.events.last() {
        Some(bag::Event::Created { bag, who, class_id, asset_id, owners }) => {
            assert_eq!(*who, 1);
            assert_eq!(*class_id, 1000);
            assert_eq!(*asset_id, 0);
            assert_eq!(*owners, vec![2]);
            *bag
        },
        _ => unreachable!(),
    }
}

fn deposited(asset_ids: &Vec<u64>, amounts: &Vec<u128>) -> Vec<(u64, u64, u128)> {
    let mut v = Vec::new();
    for class_id in [2u64, 3, 4] {
        for (i, a) in asset_ids.iter().enumerate() {
            v.push((class_id, *a, amounts[i]));
        }
    }
    v
}

#[test]
fn before_bag_works() {
    let mut rt = new_test_ext();
    before_bag(&mut rt);
}

#[test]
fn tests_deposit_assets() {
    let mut rt = new_test_ext();
    before_bag(&mut rt);
    let asset_ids = [0, 1, 2, 3, 4].to_vec();
    let amounts = [100 * DOLLARS, 200 * DOLLARS, 300 * DOLLARS, 400 * DOLLARS, 500 * DOLLARS].to_vec();
    fill_classes(&mut rt, &asset_ids, &amounts);
    assert!(rt.bags.create(&mut rt.assets, &mut rt.funds, Origin::Signed(1), 1000, vec![2], vec![1]).is_ok());
    let bag = created_bag(&rt);
    assert!(rt
        .bags
        .deposit(
            &mut rt.assets,
            Origin::Signed(2),
            bag,
            vec![2, 3, 4],
            vec![asset_ids.clone(), asset_ids.clone(), asset_ids.clone()],
            vec![amounts.clone(), amounts.clone(), amounts.clone()],
        )
        .is_ok());
    let mut balances = rt.assets.balances_of_owner(bag).unwrap();
    balances.sort();
    assert_eq!(balances, deposited(&asset_ids, &amounts));
    let mut balances = rt.assets.balances_of_owner(2).unwrap();
    balances.sort();
    let mut expected = deposited(&asset_ids, &vec![0; 5]);
    expected.push((1000, 0, 1));
    assert_eq!(balances, expected);
}

#[test]
fn sweep_assets() {
    let mut rt = new_test_ext();
    before_bag(&mut rt);
    let asset_ids = [0, 1, 2, 3, 4].to_vec();
    let amounts = [100 * DOLLARS, 200 * DOLLARS, 300 * DOLLARS, 400 * DOLLARS, 500 * DOLLARS].to_vec();
    fill_classes(&mut rt, &asset_ids, &amounts);
    assert!(rt.bags.create(&mut rt.assets, &mut rt.funds, Origin::Signed(1), 1000, vec![2], vec![1]).is_ok());
    let bag = created_bag(&rt);
    assert!(rt
        .bags
        .deposit(
            &mut rt.assets,
            Origin::Signed(2),
            bag,
            vec![2, 3, 4],
            vec![asset_ids.clone(), asset_ids.clone(), asset_ids.clone()],
            vec![amounts.clone(), amounts.clone(), amounts.clone()],
        )
        .is_ok());
    let mut balances = rt.assets.balances_of_owner(bag).unwrap();
    balances.sort();
    assert_eq!(balances, deposited(&asset_ids, &amounts));
    assert!(rt.bags.sweep(&mut rt.assets, Origin::Signed(2), 2, bag).is_ok());
    let mut balances = rt.assets.balances_of_owner(2).unwrap();
    balances.sort();
    let mut expected = deposited(&asset_ids, &amounts);
    expected.push((1000, 0, 0));
    assert_eq!(balances, expected);
}

#[test]
fn sweep_empties_bag() {
    let mut rt = new_test_ext();
    before_bag(&mut rt);
    let asset_ids = [0, 1, 2, 3, 4].to_vec();
    let amounts = [100 * DOLLARS, 200 * DOLLARS, 300 * DOLLARS, 400 * DOLLARS, 500 * DOLLARS].to_vec();
    fill_classes(&mut rt, &asset_ids, &amounts);
    assert!(rt.bags.create(&mut rt.assets, &mut rt.funds, Origin::Signed(1), 1000, vec![2], vec![1]).is_ok());
    let bag = created_bag(&rt);
    assert!(rt
        .bags
        .deposit(&mut rt.assets, Origin::Signed(2), bag, vec![2, 4], vec![asset_ids.clone(), asset_ids.clone()], vec![amounts.clone(), amounts.clone()])
        .is_ok());
    assert_eq!(rt.bags.sweep(&mut rt.assets, Origin::Signed(1), 1, bag), Err(sugarfunge::primitives::DispatchError::Bag(bag::Error::InsufficientShares)));
    assert!(rt.bags.sweep(&mut rt.assets, Origin::Signed(2), 3, bag).is_ok());
    let left = rt.assets.balances_of_owner(bag).unwrap();
    assert!(left.iter().all(|(_, _, b)| *b == 0));
    assert_eq!(rt.assets.balance_of(3, 4, 2), 300 * DOLLARS);
    assert_eq!(rt.assets.balance_of(3, 3, 2), 0);
    assert_eq!(rt.assets.balance_of(2, 3, 2), 300 * DOLLARS);
}

#[test]
fn register_without_deposit_fails() {
    let mut rt = new_test_ext();
    assert_eq!(
        rt.bags.do_register(&mut rt.assets, &mut rt.funds, 3, 1000, vec![]),
        Err(sugarfunge::primitives::DispatchError::CurrencyFailure)
    );
    assert!(!rt.assets.class_exists(1000));
    assert!(rt.bags.do_register(&mut rt.assets, &mut rt.funds, 1, 1000, vec![]).is_ok());
    assert!(rt.assets.class_exists(1000));
}

#[test]
fn create_bag_without_deposit_fails() {
    let mut rt = new_test_ext();
    before_bag(&mut rt);
    assert_eq!(
        rt.bags.create(&mut rt.assets, &mut rt.funds, Origin::Signed(3), 1000, vec![3], vec![1]),
        Err(sugarfunge::primitives::DispatchError::CurrencyFailure)
    );
    assert_eq!(rt.bags.next_bag_id.get(&1000), None);
}
