use vstd::prelude::*;

use crate::allocator::IdAllocator;
use crate::balances::BalanceStore;
use crate::registry::Registry;
use crate::traits::NFTTrait;
use crate::types::{realized, sat_add, AccountId, NFTId};

verus! {

/// Registry record of a unique asset. Its supply is fixed when it is minted
/// and only ever shrinks.
#[derive(Clone, Debug, PartialEq, Eq)]
pub struct UniqueAssetDetails {
    pub creator: AccountId,
    pub supply: u128,
    pub metadata: Vec<u8>,
}

impl UniqueAssetDetails {
    pub fn new(creator: AccountId, metadata: Vec<u8>, supply: u128) -> (r: Self)
        ensures
            r == (UniqueAssetDetails { creator, supply, metadata }),
    {
        UniqueAssetDetails { creator, supply, metadata }
    }
}

/// Notification recorded by each successful operation.
#[derive(Clone, Copy, Debug, PartialEq, Eq, Structural)]
pub enum Event {
    /// New unique asset created
    Created { creator: AccountId, asset_id: NFTId },
    /// Some assets have been burned; `total_supply` is the supply left
    Burned { asset_id: NFTId, owner: AccountId, total_supply: u128 },
    /// Some assets have been transferred
    Transferred { asset_id: NFTId, from: AccountId, to: AccountId, amount: u128 },
}

#[derive(Clone, Copy, Debug, PartialEq, Eq, Structural)]
pub enum Error {
    /// The asset ID is unknown
    Unknown,
    /// The signing account does not own any amount of this asset
    NotOwned,
    /// Supply must be positive
    NoSupply,
}

/// The unique asset ledger.
pub struct Pallet {
    nonce: IdAllocator,
    unique_asset: Registry<UniqueAssetDetails>,
    account: BalanceStore,
    events: Vec<Event>,
}

impl Pallet {
    /// Registry record of asset `id`, if it was minted.
    pub closed spec fn details(&self, id: NFTId) -> Option<UniqueAssetDetails> {
        self.unique_asset.details(id)
    }

    /// Holding of `who` in asset `id`.
    pub closed spec fn balance(&self, id: NFTId, who: AccountId) -> nat {
        self.account.balance(id, who)
    }

    /// Sum over all accounts of their holdings in asset `id`.
    pub closed spec fn total(&self, id: NFTId) -> int {
        self.account.total(id)
    }

    /// The id that the next `mint` hands out.
    pub closed spec fn next_id(&self) -> NFTId {
        self.nonce.current()
    }

    /// Notifications recorded so far, oldest first.
    pub closed spec fn log(&self) -> Seq<Event> {
        self.events@
    }

    pub closed spec fn wf(&self) -> bool {
        self.unique_asset.wf() && self.account.wf()
    }

    /// Supply recorded for `id`; zero for an asset that does not exist.
    pub open spec fn supply_of(&self, id: NFTId) -> int {
        match self.details(id) {
            Some(d) => d.supply as int,
            None => 0,
        }
    }

    /// For every asset, the holdings of all accounts add up to its supply.
    pub open spec fn conserved(&self) -> bool {
        forall|id: NFTId| #[trigger] self.total(id) == self.supply_of(id)
    }

    /// Every existing asset has an id below the allocator's counter.
    pub open spec fn ids_issued(&self) -> bool {
        forall|id: NFTId| #[trigger] self.details(id).is_some() ==> id < self.next_id()
    }

    pub open spec fn ledger_inv(&self) -> bool {
        self.wf() && self.conserved() && self.ids_issued()
    }

    /// What the holding check on `id` for `who` gives.
    pub open spec fn own_check(&self, id: NFTId, who: AccountId) -> Result<(), Error> {
        if self.balance(id, who) > 0 {
            Ok(())
        } else {
            Err(Error::NotOwned)
        }
    }

    /// What the existence and holding checks of `burn` and `transfer` give.
    pub open spec fn holder_check(&self, id: NFTId, who: AccountId) -> Result<(), Error> {
        if self.details(id).is_none() {
            Err(Error::Unknown)
        } else {
            self.own_check(id, who)
        }
    }

    pub open spec fn details_kept_except(&self, other: &Self, id: NFTId) -> bool {
        forall|i: NFTId| i != id ==> #[trigger] self.details(i) == other.details(i)
    }

    pub open spec fn balances_kept_except(
        &self,
        other: &Self,
        id: NFTId,
        a: AccountId,
        b: AccountId,
    ) -> bool {
        forall|i: NFTId, c: AccountId|
            !(i == id && (c == a || c == b)) ==> #[trigger] self.balance(i, c) == other.balance(
                i,
                c,
            )
    }

    /// Effect of moving up to `amount` of `id` from `from` to `to`.
    pub open spec fn moved(
        &self,
        before: &Self,
        id: NFTId,
        from: AccountId,
        to: AccountId,
        amount: u128,
    ) -> bool {
        let held = before.balance(id, from);
        let moved = realized(held, amount);
        &&& from != to ==> self.balance(id, from) == held - moved && self.balance(id, to)
            == sat_add(before.balance(id, to) as int, moved as int)
        &&& from == to ==> self.balance(id, from) == held
        &&& self.balances_kept_except(before, id, from, to)
        &&& self.details_kept_except(before, id)
        &&& self.details(id) == before.details(id)
        &&& self.next_id() == before.next_id()
        &&& self.log() == before.log().push(
            Event::Transferred { asset_id: id, from, to, amount: moved as u128 },
        )
    }

    /// While holdings add up to supplies, no account holds more of an asset
    /// than its recorded supply.
    pub proof fn lemma_balance_within_supply(&self, id: NFTId, who: AccountId)
        requires
            self.wf(),
            self.conserved(),
        ensures
            self.balance(id, who) <= self.supply_of(id),
    {
        self.account.lemma_balance_le_total(id, who);
        assert(self.total(id) == self.supply_of(id));
    }

    /// While holdings add up to supplies, two distinct accounts together
    /// hold no more of an asset than its recorded supply.
    pub proof fn lemma_two_balances_within_supply(&self, id: NFTId, a: AccountId, b: AccountId)
        requires
            self.wf(),
            self.conserved(),
            a != b,
        ensures
            self.balance(id, a) + self.balance(id, b) <= self.supply_of(id),
    {
        self.account.lemma_two_balances_le_total(id, a, b);
        assert(self.total(id) == self.supply_of(id));
    }

    /// An id that the allocator has not handed out yet names no asset, so
    /// every operation on it fails `Unknown`.
    pub proof fn lemma_unissued_is_unknown(&self, id: NFTId, who: AccountId)
        requires
            self.ids_issued(),
            id >= self.next_id(),
        ensures
            self.details(id).is_none(),
            self.holder_check(id, who) == Err::<(), Error>(Error::Unknown),
    {
        if self.details(id).is_some() {
            assert(id < self.next_id());
        }
    }

    /// An empty ledger whose first asset gets id zero.
    pub fn new() -> (r: Self)
        ensures
            r.ledger_inv(),
            r.next_id() == 0,
            r.log() == Seq::<Event>::empty(),
            forall|id: NFTId| #[trigger] r.details(id) == None::<UniqueAssetDetails>,
            forall|id: NFTId, who: AccountId| #[trigger] r.balance(id, who) == 0,
    {
        let r = Pallet {
            nonce: IdAllocator::new(),
            unique_asset: Registry::new(),
            account: BalanceStore::new(),
            events: Vec::new(),
        };
        assert(r.conserved());
        r
    }

    fn deposit_event(&mut self, e: Event)
        ensures
            final(self).log() == old(self).log().push(e),
            final(self).nonce == old(self).nonce,
            final(self).unique_asset == old(self).unique_asset,
            final(self).account == old(self).account,
    {
        self.events.push(e);
    }

    /// Fails `NotOwned` when `account` holds none of asset `asset_id`.
    pub fn ensure_own_some(&self, asset_id: NFTId, account: AccountId) -> (r: Result<(), Error>)
        requires
            self.wf(),
        ensures
            r == self.own_check(asset_id, account),
    {
        let owned = self.account.get(asset_id, account);
        if owned > 0 {
            Ok(())
        } else {
            Err(Error::NotOwned)
        }
    }

    /// Creates an asset with a fixed `supply`, all of it held by `origin`,
    /// under the next id of the allocator. A zero supply is refused.
    pub fn mint(&mut self, origin: AccountId, metadata: Vec<u8>, supply: u128) -> (r: Result<
        NFTId,
        Error,
    >)
        requires
            old(self).wf(),
        ensures
            r == if supply == 0 {
                Err::<NFTId, Error>(Error::NoSupply)
            } else {
                Ok(old(self).next_id())
            },
            r.is_ok() && old(self).ids_issued() ==> old(self).details(r.unwrap()).is_none(),
            final(self).wf(),
            r.is_err() ==> *final(self) == *old(self),
            r.is_ok() ==> {
                let id = old(self).next_id();
                &&& final(self).details(id) == Some(
                    UniqueAssetDetails { creator: origin, supply, metadata },
                )
                &&& final(self).details_kept_except(old(self), id)
                &&& final(self).balance(id, origin) == supply
                &&& final(self).balances_kept_except(old(self), id, origin, origin)
                &&& final(self).next_id() == id.saturating_add(1)
                &&& final(self).log() == old(self).log().push(
                    Event::Created { creator: origin, asset_id: id },
                )
            },
            old(self).conserved() && old(self).details(old(self).next_id()).is_none()
                ==> final(self).conserved(),
            old(self).ledger_inv() && old(self).next_id() < u64::MAX ==> final(self).ledger_inv(),
    {
        if supply == 0 {
            return Err(Error::NoSupply);
        }
        let id = self.nonce.next_id();
        let details = UniqueAssetDetails::new(origin, metadata, supply);
        self.unique_asset.insert(id, details);
        proof {
            old(self).account.lemma_balance_le_total(id, origin);
        }
        self.account.set(id, origin, supply);
        self.deposit_event(Event::Created { creator: origin, asset_id: id });
        proof {
            if old(self).ids_issued() {
                if old(self).details(id).is_some() {
                    assert(id < old(self).next_id());
                }
            }
            if old(self).conserved() && old(self).details(id).is_none() {
                assert(old(self).total(id) == old(self).supply_of(id));
                assert forall|i: NFTId| #[trigger] self.total(i) == self.supply_of(i) by {
                    assert(old(self).total(i) == old(self).supply_of(i));
                }
            }
            if old(self).ids_issued() && id < u64::MAX {
                assert forall|i: NFTId| #[trigger] self.details(i).is_some() implies i
                    < self.next_id() by {
                    if i != id {
                        assert(old(self).details(i).is_some());
                    }
                }
            }
        }
        Ok(id)
    }

    /// Burns up to `amount` of asset `asset_id` from the caller, who must
    /// hold some: never more than it holds. The supply drops by what was
    /// actually burned, and the supply left is reported.
    pub fn burn(&mut self, origin: AccountId, asset_id: NFTId, amount: u128) -> (r: Result<
        (),
        Error,
    >)
        requires
            old(self).wf(),
        ensures
            r == old(self).holder_check(asset_id, origin),
            final(self).wf(),
            r.is_err() ==> *final(self) == *old(self),
            r.is_ok() ==> {
                let d = old(self).details(asset_id).unwrap();
                let held = old(self).balance(asset_id, origin);
                let burned = realized(held, amount);
                let supply = d.supply.saturating_sub(burned as u128);
                &&& final(self).balance(asset_id, origin) == held - burned
                &&& final(self).balances_kept_except(old(self), asset_id, origin, origin)
                &&& final(self).details(asset_id) == Some(
                    UniqueAssetDetails { creator: d.creator, supply, metadata: d.metadata },
                )
                &&& final(self).details_kept_except(old(self), asset_id)
                &&& final(self).next_id() == old(self).next_id()
                &&& final(self).log() == old(self).log().push(
                    Event::Burned { asset_id, owner: origin, total_supply: supply },
                )
            },
            old(self).conserved() ==> final(self).conserved(),
            old(self).ledger_inv() ==> final(self).ledger_inv(),
    {
        if self.unique_asset.get(asset_id).is_none() {
            return Err(Error::Unknown);
        }
        match self.ensure_own_some(asset_id, origin) {
            Err(e) => return Err(e),
            Ok(()) => {},
        }
        let mut details = match self.unique_asset.take(asset_id) {
            Some(d) => d,
            None => return Err(Error::Unknown),
        };
        let old_balance = self.account.get(asset_id, origin);
        let new_balance = old_balance.saturating_sub(amount);
        let burned_amount = old_balance - new_balance;
        proof {
            old(self).account.lemma_balance_le_total(asset_id, origin);
        }
        self.account.set(asset_id, origin, new_balance);
        details.supply = details.supply.saturating_sub(burned_amount);
        let total_supply = details.supply;
        self.unique_asset.insert(asset_id, details);
        self.deposit_event(Event::Burned { asset_id, owner: origin, total_supply });
        proof {
            if old(self).conserved() {
                assert(old(self).total(asset_id) == old(self).supply_of(asset_id));
                assert forall|i: NFTId| #[trigger] self.total(i) == self.supply_of(i) by {
                    assert(old(self).total(i) == old(self).supply_of(i));
                }
            }
            if old(self).ids_issued() {
                assert forall|i: NFTId| #[trigger] self.details(i).is_some() implies i
                    < self.next_id() by {
                    assert(old(self).details(i).is_some());
                }
            }
        }
        Ok(())
    }

    /// Moves up to `amount` of asset `asset_id` from the caller, who must
    /// hold some, to `to`: never more than the caller holds.
    pub fn transfer(&mut self, origin: AccountId, asset_id: NFTId, amount: u128, to: AccountId) -> (r:
        Result<(), Error>)
        requires
            old(self).wf(),
        ensures
            r == old(self).holder_check(asset_id, origin),
            final(self).wf(),
            r.is_err() ==> *final(self) == *old(self),
            r.is_ok() ==> final(self).moved(old(self), asset_id, origin, to, amount),
            r.is_ok() && old(self).conserved() && origin != to ==> final(self).balance(asset_id, to)
                == old(self).balance(asset_id, to) + realized(
                old(self).balance(asset_id, origin),
                amount,
            ),
            old(self).conserved() ==> final(self).conserved(),
            old(self).ledger_inv() ==> final(self).ledger_inv(),
    {
        if self.unique_asset.get(asset_id).is_none() {
            return Err(Error::Unknown);
        }
        match self.ensure_own_some(asset_id, origin) {
            Err(e) => return Err(e),
            Ok(()) => {},
        }
        self.inner_transfer(asset_id, origin, to, amount);
        Ok(())
    }

    fn inner_transfer(&mut self, nft_id: NFTId, from: AccountId, to: AccountId, amount: u128) -> (r:
        u128)
        requires
            old(self).wf(),
        ensures
            r == realized(old(self).balance(nft_id, from), amount),
            final(self).wf(),
            final(self).moved(old(self), nft_id, from, to, amount),
            old(self).conserved() && from != to ==> final(self).balance(nft_id, to)
                == old(self).balance(nft_id, to) + r,
            old(self).conserved() ==> final(self).conserved(),
    {
        let old_balance = self.account.get(nft_id, from);
        let new_balance = old_balance.saturating_sub(amount);
        let transferred_amount = old_balance - new_balance;
        self.account.set(nft_id, from, new_balance);
        let ghost mid = self.account;
        let balance_to = self.account.get(nft_id, to);
        proof {
            mid.lemma_balance_le_total(nft_id, to);
        }
        self.account.set(nft_id, to, balance_to.saturating_add(transferred_amount));
        self.deposit_event(
            Event::Transferred { asset_id: nft_id, from, to, amount: transferred_amount },
        );
        proof {
            if old(self).conserved() {
                if from != to {
                    old(self).lemma_two_balances_within_supply(nft_id, from, to);
                }
                assert(old(self).total(nft_id) == old(self).supply_of(nft_id));
                assert forall|i: NFTId| #[trigger] self.total(i) == self.supply_of(i) by {
                    assert(old(self).total(i) == old(self).supply_of(i));
                }
            }
        }
        transferred_amount
    }

    /// Registry record of asset `id`, if it was minted.
    pub fn unique_asset(&self, id: NFTId) -> (r: Option<&UniqueAssetDetails>)
        requires
            self.wf(),
        ensures
            r.is_some() == self.details(id).is_some(),
            r.is_some() ==> *r.unwrap() == self.details(id).unwrap(),
    {
        self.unique_asset.get(id)
    }

    /// Holding of `who` in asset `id`; zero when nothing was recorded.
    pub fn account(&self, id: NFTId, who: AccountId) -> (r: u128)
        requires
            self.wf(),
        ensures
            r == self.balance(id, who),
    {
        self.account.get(id, who)
    }

    /// The id that the next `mint` hands out.
    pub fn nonce(&self) -> (r: NFTId)
        ensures
            r == self.next_id(),
    {
        self.nonce.peek()
    }

    /// Notifications recorded so far, oldest first.
    pub fn events(&self) -> (r: &Vec<Event>)
        ensures
            r@ == self.log(),
    {
        &self.events
    }
}

impl NFTTrait for Pallet {
    type AccountId = AccountId;

    open spec fn owned(&self, nft_id: NFTId, account: AccountId) -> nat {
        self.balance(nft_id, account)
    }

    open spec fn well_formed(&self) -> bool {
        self.wf()
    }

    fn amount_owned(&self, nft_id: NFTId, account: AccountId) -> (r: u128) {
        self.account.get(nft_id, account)
    }

    fn transfer(&mut self, nft_id: NFTId, from: AccountId, to: AccountId, amount: u128) -> (r:
        u128) {
        self.inner_transfer(nft_id, from, to, amount)
    }
}

} // verus!
