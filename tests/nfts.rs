use asset_ledger::nfts::{Error, Event, Pallet};
use asset_ledger::traits::NFTTrait;

const ALICE: u64 = 1;
const BOB: u64 = 2;
const CAROL: u64 = 3;

#[test]
fn nft_mint_with_zero_supply_is_refused() {
    let mut p = Pallet::new();
    assert_eq!(p.mint(ALICE, vec![1, 2, 3], 0), Err(Error::NoSupply));
    assert_eq!(p.nonce(), 0);
    assert!(p.events().is_empty());
    assert!(p.unique_asset(0).is_none());
    assert_eq!(p.mint(ALICE, vec![1, 2, 3], 4), Ok(0));
}

#[test]
fn nft_mint_credits_creator() {
    let mut p = Pallet::new();
    assert_eq!(p.mint(ALICE, b"art".to_vec(), 10), Ok(0));
    assert_eq!(p.mint(BOB, b"song".to_vec(), 1), Ok(1));
    let d = p.unique_asset(0).unwrap();
    assert_eq!(d.creator, ALICE);
    assert_eq!(d.supply, 10);
    assert_eq!(d.metadata, b"art".to_vec());
    assert_eq!(p.account(0, ALICE), 10);
    assert_eq!(p.account(1, BOB), 1);
    assert_eq!(p.account(1, ALICE), 0);
    assert_eq!(p.nonce(), 2);
    assert_eq!(
        p.events(),
        &vec![
            Event::Created { creator: ALICE, asset_id: 0 },
            Event::Created { creator: BOB, asset_id: 1 }
        ]
    );
}

#[test]
fn nft_burn_reduces_supply() {
    let mut p = Pallet::new();
    p.mint(ALICE, vec![], 10).unwrap();
    assert_eq!(p.burn(ALICE, 0, 4), Ok(()));
    assert_eq!(p.account(0, ALICE), 6);
    assert_eq!(p.unique_asset(0).unwrap().supply, 6);
    assert_eq!(
        p.events().last(),
        Some(&Event::Burned { asset_id: 0, owner: ALICE, total_supply: 6 })
    );
    assert_eq!(p.burn(ALICE, 0, 100), Ok(()));
    assert_eq!(p.account(0, ALICE), 0);
    assert_eq!(p.unique_asset(0).unwrap().supply, 0);
}

#[test]
fn nft_burn_checks_asset_and_holding() {
    let mut p = Pallet::new();
    p.mint(ALICE, vec![], 10).unwrap();
    assert_eq!(p.burn(ALICE, 5, 1), Err(Error::Unknown));
    assert_eq!(p.burn(BOB, 0, 1), Err(Error::NotOwned));
    assert_eq!(p.unique_asset(0).unwrap().supply, 10);
    assert_eq!(p.events().len(), 1);
}

#[test]
fn nft_transfer_moves_realized_amount() {
    let mut p = Pallet::new();
    p.mint(ALICE, vec![], 10).unwrap();
    assert_eq!(p.transfer(ALICE, 0, 3, BOB), Ok(()));
    assert_eq!(p.account(0, ALICE), 7);
    assert_eq!(p.account(0, BOB), 3);
    assert_eq!(p.transfer(BOB, 0, 50, CAROL), Ok(()));
    assert_eq!(p.account(0, BOB), 0);
    assert_eq!(p.account(0, CAROL), 3);
    assert_eq!(
        p.events().last(),
        Some(&Event::Transferred { asset_id: 0, from: BOB, to: CAROL, amount: 3 })
    );
    assert_eq!(p.unique_asset(0).unwrap().supply, 10);
}

#[test]
fn nft_transfer_checks_asset_and_holding() {
    let mut p = Pallet::new();
    p.mint(ALICE, vec![], 10).unwrap();
    assert_eq!(p.transfer(ALICE, 1, 3, BOB), Err(Error::Unknown));
    assert_eq!(p.transfer(BOB, 0, 3, ALICE), Err(Error::NotOwned));
    assert_eq!(p.account(0, ALICE), 10);
    assert_eq!(p.events().len(), 1);
}

#[test]
fn nft_ensure_own_some() {
    let mut p = Pallet::new();
    p.mint(ALICE, vec![], 1).unwrap();
    assert_eq!(p.ensure_own_some(0, ALICE), Ok(()));
    assert_eq!(p.ensure_own_some(0, BOB), Err(Error::NotOwned));
}

#[test]
fn nft_capability_reads_and_moves_holdings() {
    let mut p = Pallet::new();
    p.mint(ALICE, vec![9], 8).unwrap();
    assert_eq!(NFTTrait::amount_owned(&p, 0, ALICE), 8);
    assert_eq!(NFTTrait::amount_owned(&p, 0, BOB), 0);
    assert_eq!(NFTTrait::transfer(&mut p, 0, ALICE, BOB, 5), 5);
    assert_eq!(NFTTrait::transfer(&mut p, 0, ALICE, BOB, 5), 3);
    assert_eq!(NFTTrait::transfer(&mut p, 0, CAROL, BOB, 5), 0);
    assert_eq!(NFTTrait::amount_owned(&p, 0, ALICE), 0);
    assert_eq!(NFTTrait::amount_owned(&p, 0, BOB), 8);
    assert_eq!(
        p.events().last(),
        Some(&Event::Transferred { asset_id: 0, from: CAROL, to: BOB, amount: 0 })
    );
}
