use asset_ledger::assets::{AssetDetails, Error, Event, Pallet};

const ALICE: u64 = 1;
const BOB: u64 = 2;
const CAROL: u64 = 3;

#[test]
fn create_registers_empty_asset() {
    let mut p = Pallet::new();
    let id = p.create(ALICE);
    assert_eq!(id, 0);
    assert_eq!(p.asset(0), Some(AssetDetails { owner: ALICE, supply: 0 }));
    assert_eq!(p.nonce(), 1);
    assert_eq!(p.events(), &vec![Event::Created { owner: ALICE, asset_id: 0 }]);
}

#[test]
fn sequential_creates_yield_increasing_ids() {
    let mut p = Pallet::new();
    let mut ids = Vec::new();
    for i in 0..6u64 {
        ids.push(p.create(i));
    }
    assert_eq!(ids, vec![0, 1, 2, 3, 4, 5]);
    for w in ids.windows(2) {
        assert!(w[0] < w[1]);
    }
    assert_eq!(p.nonce(), 6);
}

#[test]
fn mint_transfer_burn_scenario() {
    let mut p = Pallet::new();
    assert_eq!(p.create(ALICE), 0);
    assert_eq!(p.mint(ALICE, 0, 100, BOB), Ok(()));
    assert_eq!(p.account(0, BOB), 100);
    assert_eq!(p.asset(0).unwrap().supply, 100);
    assert_eq!(
        p.events().last(),
        Some(&Event::Minted { asset_id: 0, owner: ALICE, total_supply: 100 })
    );

    assert_eq!(p.transfer(BOB, 0, 30, CAROL), Ok(()));
    assert_eq!(p.account(0, BOB), 70);
    assert_eq!(p.account(0, CAROL), 30);
    assert_eq!(
        p.events().last(),
        Some(&Event::Transferred { asset_id: 0, from: BOB, to: CAROL, amount: 30 })
    );

    assert_eq!(p.burn(BOB, 0, 1000), Ok(()));
    assert_eq!(p.account(0, BOB), 0);
    assert_eq!(p.asset(0).unwrap().supply, 30);
    assert_eq!(
        p.events().last(),
        Some(&Event::Burned { asset_id: 0, owner: BOB, total_supply: 30 })
    );
}

#[test]
fn holdings_add_up_to_supply() {
    let mut p = Pallet::new();
    p.create(ALICE);
    p.create(BOB);
    p.mint(ALICE, 0, 500, ALICE).unwrap();
    p.mint(BOB, 1, 40, CAROL).unwrap();
    p.transfer(ALICE, 0, 120, BOB).unwrap();
    p.transfer(BOB, 0, 20, CAROL).unwrap();
    p.burn(ALICE, 0, 80).unwrap();
    p.burn(CAROL, 1, 100).unwrap();
    p.mint(ALICE, 0, 7, CAROL).unwrap();
    for id in 0..2u64 {
        let sum: u128 = [ALICE, BOB, CAROL].iter().map(|a| p.account(id, *a)).sum();
        assert_eq!(sum, p.asset(id).unwrap().supply);
    }
    assert_eq!(p.asset(0).unwrap().supply, 427);
    assert_eq!(p.asset(1).unwrap().supply, 0);
}

#[test]
fn burn_beyond_balance_clamps_at_zero() {
    let mut p = Pallet::new();
    p.create(ALICE);
    p.mint(ALICE, 0, 10, BOB).unwrap();
    p.burn(BOB, 0, u128::MAX).unwrap();
    assert_eq!(p.account(0, BOB), 0);
    assert_eq!(p.asset(0).unwrap().supply, 0);
    p.burn(BOB, 0, 5).unwrap();
    assert_eq!(p.account(0, BOB), 0);
    assert_eq!(p.asset(0).unwrap().supply, 0);
}

#[test]
fn mint_at_supply_ceiling_mints_nothing() {
    let mut p = Pallet::new();
    p.create(ALICE);
    p.mint(ALICE, 0, u128::MAX - 3, BOB).unwrap();
    p.mint(ALICE, 0, 10, CAROL).unwrap();
    assert_eq!(p.asset(0).unwrap().supply, u128::MAX);
    assert_eq!(p.account(0, CAROL), 3);
    assert_eq!(
        p.events().last(),
        Some(&Event::Minted { asset_id: 0, owner: ALICE, total_supply: 3 })
    );
    p.mint(ALICE, 0, 5, CAROL).unwrap();
    assert_eq!(p.asset(0).unwrap().supply, u128::MAX);
    assert_eq!(p.account(0, CAROL), 3);
    assert_eq!(
        p.events().last(),
        Some(&Event::Minted { asset_id: 0, owner: ALICE, total_supply: 0 })
    );
}

#[test]
fn mint_by_non_owner_is_refused() {
    let mut p = Pallet::new();
    p.create(ALICE);
    p.mint(ALICE, 0, 50, BOB).unwrap();
    let events = p.events().len();
    assert_eq!(p.mint(BOB, 0, 10, BOB), Err(Error::NoPermission));
    assert_eq!(p.account(0, BOB), 50);
    assert_eq!(p.asset(0).unwrap().supply, 50);
    assert_eq!(p.events().len(), events);
}

#[test]
fn set_metadata_by_owner_and_non_owner() {
    let mut p = Pallet::new();
    p.create(ALICE);
    assert_eq!(p.set_metadata(BOB, 0, b"Gold".to_vec(), b"GLD".to_vec()), Err(Error::NoPermission));
    assert!(p.metadata(0).is_none());
    assert_eq!(p.events().len(), 1);
    assert_eq!(p.set_metadata(ALICE, 0, b"Gold".to_vec(), b"GLD".to_vec()), Ok(()));
    let m = p.metadata(0).unwrap();
    assert_eq!(m.name, b"Gold".to_vec());
    assert_eq!(m.symbol, b"GLD".to_vec());
    assert_eq!(
        p.events().last(),
        Some(&Event::MetadataSet { asset_id: 0, name: b"Gold".to_vec(), symbol: b"GLD".to_vec() })
    );
}

#[test]
fn unknown_asset_is_refused_everywhere() {
    let mut p = Pallet::new();
    p.create(ALICE);
    assert_eq!(p.mint(ALICE, 1, 10, BOB), Err(Error::Unknown));
    assert_eq!(p.burn(ALICE, 1, 10), Err(Error::Unknown));
    assert_eq!(p.transfer(ALICE, 1, 10, BOB), Err(Error::Unknown));
    assert_eq!(p.set_metadata(ALICE, 1, vec![1], vec![2]), Err(Error::Unknown));
    assert_eq!(p.ensure_is_owner(u64::MAX, ALICE), Err(Error::Unknown));
    assert_eq!(p.asset(1), None);
    assert_eq!(p.account(1, BOB), 0);
    assert_eq!(p.events().len(), 1);
}

#[test]
fn ensure_is_owner_checks_owner_field() {
    let mut p = Pallet::new();
    p.create(ALICE);
    assert_eq!(p.ensure_is_owner(0, ALICE), Ok(()));
    assert_eq!(p.ensure_is_owner(0, BOB), Err(Error::NoPermission));
}

#[test]
fn transfer_needs_no_ownership_and_clamps() {
    let mut p = Pallet::new();
    p.create(ALICE);
    p.mint(ALICE, 0, 25, BOB).unwrap();
    assert_eq!(p.transfer(CAROL, 0, 10, BOB), Ok(()));
    assert_eq!(p.account(0, BOB), 25);
    assert_eq!(
        p.events().last(),
        Some(&Event::Transferred { asset_id: 0, from: CAROL, to: BOB, amount: 0 })
    );
    assert_eq!(p.transfer(BOB, 0, 40, CAROL), Ok(()));
    assert_eq!(p.account(0, BOB), 0);
    assert_eq!(p.account(0, CAROL), 25);
    assert_eq!(p.asset(0).unwrap().supply, 25);
}

#[test]
fn transfer_to_self_keeps_balance() {
    let mut p = Pallet::new();
    p.create(ALICE);
    p.mint(ALICE, 0, 25, BOB).unwrap();
    assert_eq!(p.transfer(BOB, 0, 10, BOB), Ok(()));
    assert_eq!(p.account(0, BOB), 25);
}

#[test]
fn zero_supply_asset_stays_registered() {
    let mut p = Pallet::new();
    p.create(ALICE);
    p.mint(ALICE, 0, 9, ALICE).unwrap();
    p.burn(ALICE, 0, 9).unwrap();
    assert_eq!(p.asset(0), Some(AssetDetails { owner: ALICE, supply: 0 }));
    assert_eq!(p.mint(ALICE, 0, 1, BOB), Ok(()));
}

#[test]
fn transfer_back_undoes_transfer() {
    let mut p = Pallet::new();
    p.create(ALICE);
    p.mint(ALICE, 0, u128::MAX, BOB).unwrap();
    p.transfer(BOB, 0, 1000, CAROL).unwrap();
    assert_eq!(p.account(0, CAROL), 1000);
    p.transfer(CAROL, 0, 1000, BOB).unwrap();
    assert_eq!(p.account(0, BOB), u128::MAX);
    assert_eq!(p.account(0, CAROL), 0);
    assert_eq!(p.asset(0).unwrap().supply, u128::MAX);
}
