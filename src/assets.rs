use vstd::prelude::*;

use crate::allocator::IdAllocator;
use crate::balances::BalanceStore;
use crate::registry::Registry;
use crate::types::{realized, sat_add, AccountId, AssetId};

verus! {

/// Registry record of a fungible asset.
#[derive(Clone, Copy, Debug, PartialEq, Eq, Structural)]
pub struct AssetDetails {
    pub owner: AccountId,
    pub supply: u128,
}

impl AssetDetails {
    /// Details of a fresh asset: owned by `owner`, nothing in circulation.
    pub fn new(owner: AccountId) -> (r: Self)
        ensures
            r == (AssetDetails { owner, supply: 0 }),
    {
        AssetDetails { owner, supply: 0 }
    }
}

/// Name and symbol of a fungible asset.
#[derive(Clone, Debug, PartialEq, Eq)]
pub struct AssetMetadata {
    pub name: Vec<u8>,
    pub symbol: Vec<u8>,
}

impl AssetMetadata {
    pub fn new(name: Vec<u8>, symbol: Vec<u8>) -> (r: Self)
        ensures
            r.name == name,
            r.symbol == symbol,
    {
        AssetMetadata { name, symbol }
    }
}

/// Notification recorded by each successful operation.
#[derive(Clone, Debug, PartialEq, Eq)]
pub enum Event {
    /// New asset created
    Created { owner: AccountId, asset_id: AssetId },
    /// New metadata has been set for an asset
    MetadataSet { asset_id: AssetId, name: Vec<u8>, symbol: Vec<u8> },
    /// Some assets have been minted; `total_supply` is the amount minted
    Minted { asset_id: AssetId, owner: AccountId, total_supply: u128 },
    /// Some assets have been burned; `total_supply` is the supply left
    Burned { asset_id: AssetId, owner: AccountId, total_supply: u128 },
    /// Some assets have been transferred
    Transferred { asset_id: AssetId, from: AccountId, to: AccountId, amount: u128 },
}

#[derive(Clone, Copy, Debug, PartialEq, Eq, Structural)]
pub enum Error {
    /// The asset ID is unknown
    Unknown,
    /// The signing account has no permission to do the operation
    NoPermission,
}

/// The fungible asset ledger.
pub struct Pallet {
    nonce: IdAllocator,
    asset: Registry<AssetDetails>,
    account: BalanceStore,
    metadata: Registry<AssetMetadata>,
    events: Vec<Event>,
}

impl Pallet {
    /// Registry record of asset `id`, if it was created.
    pub closed spec fn details(&self, id: AssetId) -> Option<AssetDetails> {
        self.asset.details(id)
    }

    /// Holding of `who` in asset `id`.
    pub closed spec fn balance(&self, id: AssetId, who: AccountId) -> nat {
        self.account.balance(id, who)
    }

    /// Sum over all accounts of their holdings in asset `id`.
    pub closed spec fn total(&self, id: AssetId) -> int {
        self.account.total(id)
    }

    pub closed spec fn meta(&self, id: AssetId) -> Option<AssetMetadata> {
        self.metadata.details(id)
    }

    /// The id that the next `create` hands out.
    pub closed spec fn next_id(&self) -> AssetId {
        self.nonce.current()
    }

    /// Notifications recorded so far, oldest first.
    pub closed spec fn log(&self) -> Seq<Event> {
        self.events@
    }

    pub closed spec fn wf(&self) -> bool {
        self.asset.wf() && self.account.wf() && self.metadata.wf()
    }

    /// Supply recorded for `id`; zero for an asset that does not exist.
    pub open spec fn supply_of(&self, id: AssetId) -> int {
        match self.details(id) {
            Some(d) => d.supply as int,
            None => 0,
        }
    }

    /// For every asset, the holdings of all accounts add up to its supply.
    pub open spec fn conserved(&self) -> bool {
        forall|id: AssetId| #[trigger] self.total(id) == self.supply_of(id)
    }

    /// Every existing asset has an id below the allocator's counter.
    pub open spec fn ids_issued(&self) -> bool {
        forall|id: AssetId| #[trigger] self.details(id).is_some() ==> id < self.next_id()
    }

    pub open spec fn ledger_inv(&self) -> bool {
        self.wf() && self.conserved() && self.ids_issued()
    }

    /// What the ownership check on `id` for `who` gives.
    pub open spec fn owner_check(&self, id: AssetId, who: AccountId) -> Result<(), Error> {
        match self.details(id) {
            None => Err(Error::Unknown),
            Some(d) => if d.owner == who {
                Ok(())
            } else {
                Err(Error::NoPermission)
            },
        }
    }

    pub open spec fn details_kept_except(&self, other: &Self, id: AssetId) -> bool {
        forall|i: AssetId| i != id ==> #[trigger] self.details(i) == other.details(i)
    }

    pub open spec fn balances_kept_except(
        &self,
        other: &Self,
        id: AssetId,
        a: AccountId,
        b: AccountId,
    ) -> bool {
        forall|i: AssetId, c: AccountId|
            !(i == id && (c == a || c == b)) ==> #[trigger] self.balance(i, c) == other.balance(
                i,
                c,
            )
    }

    pub open spec fn balances_kept(&self, other: &Self) -> bool {
        forall|i: AssetId, c: AccountId| #[trigger] self.balance(i, c) == other.balance(i, c)
    }

    pub open spec fn meta_kept(&self, other: &Self) -> bool {
        forall|i: AssetId| #[trigger] self.meta(i) == other.meta(i)
    }

    /// While holdings add up to supplies, no account holds more of an asset
    /// than its recorded supply.
    pub proof fn lemma_balance_within_supply(&self, id: AssetId, who: AccountId)
        requires
            self.wf(),
            self.conserved(),
        ensures
            self.balance(id, who) <= self.supply_of(id),
    {
        self.account.lemma_balance_le_total(id, who);
        assert(self.total(id) == self.supply_of(id));
    }

    /// While holdings add up to supplies, two distinct accounts together
    /// hold no more of an asset than its recorded supply.
    pub proof fn lemma_two_balances_within_supply(&self, id: AssetId, a: AccountId, b: AccountId)
        requires
            self.wf(),
            self.conserved(),
            a != b,
        ensures
            self.balance(id, a) + self.balance(id, b) <= self.supply_of(id),
    {
        self.account.lemma_two_balances_le_total(id, a, b);
        assert(self.total(id) == self.supply_of(id));
    }

    /// An id that the allocator has not handed out yet names no asset, so
    /// every operation on it fails `Unknown`.
    pub proof fn lemma_unissued_is_unknown(&self, id: AssetId, who: AccountId)
        requires
            self.ids_issued(),
            id >= self.next_id(),
        ensures
            self.details(id).is_none(),
            self.owner_check(id, who) == Err::<(), Error>(Error::Unknown),
    {
        if self.details(id).is_some() {
            assert(id < self.next_id());
        }
    }

    /// An empty ledger whose first asset gets id zero.
    pub fn new() -> (r: Self)
        ensures
            r.ledger_inv(),
            r.next_id() == 0,
            r.log() == Seq::<Event>::empty(),
            forall|id: AssetId| #[trigger] r.details(id) == None::<AssetDetails>,
            forall|id: AssetId| #[trigger] r.meta(id) == None::<AssetMetadata>,
            forall|id: AssetId, who: AccountId| #[trigger] r.balance(id, who) == 0,
    {
        let r = Pallet {
            nonce: IdAllocator::new(),
            asset: Registry::new(),
            account: BalanceStore::new(),
            metadata: Registry::new(),
            events: Vec::new(),
        };
        assert(r.conserved());
        r
    }

    fn deposit_event(&mut self, e: Event)
        ensures
            final(self).log() == old(self).log().push(e),
            final(self).nonce == old(self).nonce,
            final(self).asset == old(self).asset,
            final(self).account == old(self).account,
            final(self).metadata == old(self).metadata,
    {
        self.events.push(e);
    }

    /// Fails `Unknown` when asset `asset_id` does not exist and `NoPermission`
    /// when `account` is not its owner.
    pub fn ensure_is_owner(&self, asset_id: AssetId, account: AccountId) -> (r: Result<(), Error>)
        requires
            self.wf(),
        ensures
            r == self.owner_check(asset_id, account),
    {
        match self.asset.get(asset_id) {
            None => Err(Error::Unknown),
            Some(d) => if d.owner == account {
                Ok(())
            } else {
                Err(Error::NoPermission)
            },
        }
    }

    /// Creates an asset owned by `origin` with nothing in circulation, under
    /// the next id of the allocator.
    pub fn create(&mut self, origin: AccountId) -> (r: AssetId)
        requires
            old(self).wf(),
        ensures
            r == old(self).next_id(),
            old(self).ids_issued() ==> old(self).details(r).is_none(),
            r < u64::MAX ==> final(self).next_id() == r + 1,
            final(self).wf(),
            final(self).details(old(self).next_id()) == Some(AssetDetails::new_spec(origin)),
            final(self).details_kept_except(old(self), old(self).next_id()),
            final(self).balances_kept(old(self)),
            final(self).meta_kept(old(self)),
            final(self).next_id() == old(self).next_id().saturating_add(1),
            final(self).log() == old(self).log().push(
                Event::Created { owner: origin, asset_id: old(self).next_id() },
            ),
            old(self).conserved() && old(self).details(old(self).next_id()).is_none()
                ==> final(self).conserved(),
            old(self).ledger_inv() && old(self).next_id() < u64::MAX ==> final(self).ledger_inv(),
    {
        let id = self.nonce.next_id();
        let details = AssetDetails::new(origin);
        self.asset.insert(id, details);
        self.deposit_event(Event::Created { owner: origin, asset_id: id });
        proof {
            if old(self).ids_issued() {
                if old(self).details(id).is_some() {
                    assert(id < old(self).next_id());
                }
            }
            if old(self).conserved() && old(self).details(id).is_none() {
                assert forall|i: AssetId| #[trigger] self.total(i) == self.supply_of(i) by {
                    assert(old(self).total(i) == old(self).supply_of(i));
                }
            }
            if old(self).ids_issued() && id < u64::MAX {
                assert forall|i: AssetId| #[trigger] self.details(i).is_some() implies i
                    < self.next_id() by {
                    if i != id {
                        assert(old(self).details(i).is_some());
                    }
                }
            }
        }
        id
    }

    /// Records `name` and `symbol` for asset `asset_id`; only its owner may.
    pub fn set_metadata(
        &mut self,
        origin: AccountId,
        asset_id: AssetId,
        name: Vec<u8>,
        symbol: Vec<u8>,
    ) -> (r: Result<(), Error>)
        requires
            old(self).wf(),
        ensures
            r == old(self).owner_check(asset_id, origin),
            final(self).wf(),
            r.is_err() ==> *final(self) == *old(self),
            r.is_ok() ==> {
                &&& final(self).meta(asset_id).is_some()
                &&& final(self).meta(asset_id).unwrap().name@ == name@
                &&& final(self).meta(asset_id).unwrap().symbol@ == symbol@
                &&& forall|i: AssetId| i != asset_id ==> #[trigger] final(self).meta(i) == old(
                    self,
                ).meta(i)
                &&& final(self).details_kept_except(old(self), asset_id)
                &&& final(self).details(asset_id) == old(self).details(asset_id)
                &&& final(self).balances_kept(old(self))
                &&& final(self).next_id() == old(self).next_id()
                &&& final(self).log() == old(self).log().push(
                    Event::MetadataSet { asset_id, name, symbol },
                )
            },
            old(self).conserved() ==> final(self).conserved(),
            old(self).ledger_inv() ==> final(self).ledger_inv(),
    {
        match self.ensure_is_owner(asset_id, origin) {
            Err(e) => return Err(e),
            Ok(()) => {},
        }
        let name_copy = name.clone();
        let symbol_copy = symbol.clone();
        proof {
            assert(name_copy@ =~= name@);
            assert(symbol_copy@ =~= symbol@);
        }
        let new_meta = AssetMetadata::new(name_copy, symbol_copy);
        self.metadata.insert(asset_id, new_meta);
        self.deposit_event(Event::MetadataSet { asset_id, name, symbol });
        proof {
            if old(self).conserved() {
                assert forall|i: AssetId| #[trigger] self.total(i) == self.supply_of(i) by {
                    assert(old(self).total(i) == old(self).supply_of(i));
                }
            }
            if old(self).ids_issued() {
                assert forall|i: AssetId| #[trigger] self.details(i).is_some() implies i
                    < self.next_id() by {
                    assert(old(self).details(i).is_some());
                }
            }
        }
        Ok(())
    }

    /// Mints `amount` of asset `asset_id` to `to`; only the owner may. The
    /// supply saturates at the largest `u128`, and only what it actually grew
    /// by is credited and reported.
    pub fn mint(&mut self, origin: AccountId, asset_id: AssetId, amount: u128, to: AccountId) -> (r:
        Result<(), Error>)
        requires
            old(self).wf(),
        ensures
            r == old(self).owner_check(asset_id, origin),
            final(self).wf(),
            r.is_err() ==> *final(self) == *old(self),
            r.is_ok() ==> {
                let d = old(self).details(asset_id).unwrap();
                let supply = d.supply.saturating_add(amount);
                &&& final(self).details(asset_id) == Some(
                    AssetDetails { owner: d.owner, supply },
                )
                &&& final(self).details_kept_except(old(self), asset_id)
                &&& final(self).balance(asset_id, to) == sat_add(
                    old(self).balance(asset_id, to) as int,
                    supply - d.supply,
                )
                &&& final(self).balances_kept_except(old(self), asset_id, to, to)
                &&& final(self).meta_kept(old(self))
                &&& final(self).next_id() == old(self).next_id()
                &&& final(self).log() == old(self).log().push(
                    Event::Minted {
                        asset_id,
                        owner: origin,
                        total_supply: (supply - d.supply) as u128,
                    },
                )
            },
            r.is_ok() && old(self).details(asset_id).unwrap().supply == u128::MAX ==> {
                &&& final(self).details(asset_id) == old(self).details(asset_id)
                &&& final(self).log().last() == (Event::Minted {
                    asset_id,
                    owner: origin,
                    total_supply: 0,
                })
            },
            old(self).conserved() ==> final(self).conserved(),
            old(self).ledger_inv() ==> final(self).ledger_inv(),
    {
        match self.ensure_is_owner(asset_id, origin) {
            Err(e) => return Err(e),
            Ok(()) => {},
        }
        let mut details = match self.asset.get(asset_id) {
            Some(d) => *d,
            None => return Err(Error::Unknown),
        };
        let old_supply = details.supply;
        details.supply = details.supply.saturating_add(amount);
        let minted_amount = details.supply - old_supply;
        self.asset.insert(asset_id, details);
        let balance = self.account.get(asset_id, to);
        proof {
            old(self).account.lemma_balance_le_total(asset_id, to);
        }
        self.account.set(asset_id, to, balance.saturating_add(minted_amount));
        self.deposit_event(
            Event::Minted { asset_id, owner: origin, total_supply: minted_amount },
        );
        proof {
            if old(self).conserved() {
                assert(old(self).total(asset_id) == old(self).supply_of(asset_id));
                assert forall|i: AssetId| #[trigger] self.total(i) == self.supply_of(i) by {
                    assert(old(self).total(i) == old(self).supply_of(i));
                }
            }
            if old(self).ids_issued() {
                assert forall|i: AssetId| #[trigger] self.details(i).is_some() implies i
                    < self.next_id() by {
                    assert(old(self).details(i).is_some());
                }
            }
        }
        Ok(())
    }

    /// Burns up to `amount` of asset `asset_id` from the caller: never more
    /// than it holds. The supply drops by what was actually burned, and the
    /// supply left is reported.
    pub fn burn(&mut self, origin: AccountId, asset_id: AssetId, amount: u128) -> (r: Result<
        (),
        Error,
    >)
        requires
            old(self).wf(),
        ensures
            r.is_ok() == old(self).details(asset_id).is_some(),
            final(self).wf(),
            r.is_err() ==> r == Err::<(), Error>(Error::Unknown) && *final(self) == *old(self),
            r.is_ok() ==> {
                let d = old(self).details(asset_id).unwrap();
                let held = old(self).balance(asset_id, origin);
                let burned = realized(held, amount);
                let supply = d.supply.saturating_sub(burned as u128);
                &&& final(self).balance(asset_id, origin) == held - burned
                &&& final(self).balances_kept_except(old(self), asset_id, origin, origin)
                &&& final(self).details(asset_id) == Some(
                    AssetDetails { owner: d.owner, supply },
                )
                &&& final(self).details_kept_except(old(self), asset_id)
                &&& final(self).meta_kept(old(self))
                &&& final(self).next_id() == old(self).next_id()
                &&& final(self).log() == old(self).log().push(
                    Event::Burned { asset_id, owner: origin, total_supply: supply },
                )
            },
            old(self).conserved() ==> final(self).conserved(),
            old(self).ledger_inv() ==> final(self).ledger_inv(),
    {
        let mut details = match self.asset.get(asset_id) {
            Some(d) => *d,
            None => return Err(Error::Unknown),
        };
        let old_balance = self.account.get(asset_id, origin);
        let new_balance = old_balance.saturating_sub(amount);
        let burned_amount = old_balance - new_balance;
        proof {
            old(self).account.lemma_balance_le_total(asset_id, origin);
        }
        self.account.set(asset_id, origin, new_balance);
        details.supply = details.supply.saturating_sub(burned_amount);
        let total_supply = details.supply;
        self.asset.insert(asset_id, details);
        self.deposit_event(Event::Burned { asset_id, owner: origin, total_supply });
        proof {
            if old(self).conserved() {
                assert(old(self).total(asset_id) == old(self).supply_of(asset_id));
                assert forall|i: AssetId| #[trigger] self.total(i) == self.supply_of(i) by {
                    assert(old(self).total(i) == old(self).supply_of(i));
                }
            }
            if old(self).ids_issued() {
                assert forall|i: AssetId| #[trigger] self.details(i).is_some() implies i
                    < self.next_id() by {
                    assert(old(self).details(i).is_some());
                }
            }
        }
        Ok(())
    }

    /// Moves up to `amount` of asset `asset_id` from the caller to `to`:
    /// never more than the caller holds. Anyone holding the asset may.
    pub fn transfer(
        &mut self,
        origin: AccountId,
        asset_id: AssetId,
        amount: u128,
        to: AccountId,
    ) -> (r: Result<(), Error>)
        requires
            old(self).wf(),
        ensures
            r.is_ok() == old(self).details(asset_id).is_some(),
            final(self).wf(),
            r.is_err() ==> r == Err::<(), Error>(Error::Unknown) && *final(self) == *old(self),
            r.is_ok() ==> {
                let held = old(self).balance(asset_id, origin);
                let moved = realized(held, amount);
                &&& origin != to ==> final(self).balance(asset_id, origin) == held - moved
                    && final(self).balance(asset_id, to) == sat_add(
                    old(self).balance(asset_id, to) as int,
                    moved as int,
                )
                &&& origin == to ==> final(self).balance(asset_id, origin) == held
                &&& final(self).balances_kept_except(old(self), asset_id, origin, to)
                &&& final(self).details_kept_except(old(self), asset_id)
                &&& final(self).details(asset_id) == old(self).details(asset_id)
                &&& final(self).meta_kept(old(self))
                &&& final(self).next_id() == old(self).next_id()
                &&& final(self).log() == old(self).log().push(
                    Event::Transferred { asset_id, from: origin, to, amount: moved as u128 },
                )
            },
            r.is_ok() && old(self).conserved() && origin != to ==> final(self).balance(asset_id, to)
                == old(self).balance(asset_id, to) + realized(
                old(self).balance(asset_id, origin),
                amount,
            ),
            old(self).conserved() ==> final(self).conserved(),
            old(self).ledger_inv() ==> final(self).ledger_inv(),
    {
        if self.asset.get(asset_id).is_none() {
            return Err(Error::Unknown);
        }
        let from = origin;
        let old_balance = self.account.get(asset_id, from);
        let new_balance = old_balance.saturating_sub(amount);
        let transferred_amount = old_balance.saturating_sub(new_balance);
        self.account.set(asset_id, from, new_balance);
        let ghost mid = self.account;
        let balance_to = self.account.get(asset_id, to);
        proof {
            mid.lemma_balance_le_total(asset_id, to);
        }
        self.account.set(asset_id, to, balance_to.saturating_add(transferred_amount));
        self.deposit_event(
            Event::Transferred { asset_id, from, to, amount: transferred_amount },
        );
        proof {
            if old(self).conserved() {
                if origin != to {
                    old(self).lemma_two_balances_within_supply(asset_id, origin, to);
                }
                assert(old(self).total(asset_id) == old(self).supply_of(asset_id));
                assert forall|i: AssetId| #[trigger] self.total(i) == self.supply_of(i) by {
                    assert(old(self).total(i) == old(self).supply_of(i));
                }
            }
            if old(self).ids_issued() {
                assert forall|i: AssetId| #[trigger] self.details(i).is_some() implies i
                    < self.next_id() by {
                    assert(old(self).details(i).is_some());
                }
            }
        }
        Ok(())
    }

    /// Registry record of asset `id`, if it was created.
    pub fn asset(&self, id: AssetId) -> (r: Option<AssetDetails>)
        requires
            self.wf(),
        ensures
            r == self.details(id),
    {
        match self.asset.get(id) {
            Some(d) => Some(*d),
            None => None,
        }
    }

    /// Holding of `who` in asset `id`; zero when nothing was recorded.
    pub fn account(&self, id: AssetId, who: AccountId) -> (r: u128)
        requires
            self.wf(),
        ensures
            r == self.balance(id, who),
    {
        self.account.get(id, who)
    }

    /// Name and symbol of asset `id`, if they were set.
    pub fn metadata(&self, id: AssetId) -> (r: Option<&AssetMetadata>)
        requires
            self.wf(),
        ensures
            r.is_some() == self.meta(id).is_some(),
            r.is_some() ==> *r.unwrap() == self.meta(id).unwrap(),
    {
        self.metadata.get(id)
    }

    /// The id that the next `create` hands out.
    pub fn nonce(&self) -> (r: AssetId)
        ensures
            r == self.next_id(),
    {
        self.nonce.peek()
    }

    /// Notifications recorded so far, oldest first.
    pub fn events(&self) -> (r: &Vec<Event>)
        ensures
            r@ == self.log(),
    {
        &self.events
    }
}

impl AssetDetails {
    pub open spec fn new_spec(owner: AccountId) -> AssetDetails {
        AssetDetails { owner, supply: 0 }
    }
}

} // verus!
