use vstd::prelude::*;

use crate::types::{realized, sat_add, NFTId};

verus! {

/// Lets other components read and move holdings of unique assets without
/// going through the signed entry points.
pub trait NFTTrait {
    type AccountId;

    /// Amount of `nft_id` that `account` holds.
    spec fn owned(&self, nft_id: NFTId, account: Self::AccountId) -> nat;

    spec fn well_formed(&self) -> bool;

    fn amount_owned(&self, nft_id: NFTId, account: Self::AccountId) -> (r: u128)
        requires
            self.well_formed(),
        ensures
            r == self.owned(nft_id, account),
    ;

    /// Moves up to `amount` of `nft_id` from `from` to `to`, never more than
    /// `from` holds, and returns the amount moved. The recipient is credited
    /// with a saturating add; every other holding stays as it was.
    fn transfer(
        &mut self,
        nft_id: NFTId,
        from: Self::AccountId,
        to: Self::AccountId,
        amount: u128,
    ) -> (r: u128)
        requires
            old(self).well_formed(),
        ensures
            final(self).well_formed(),
            r == realized(old(self).owned(nft_id, from), amount),
            from != to ==> final(self).owned(nft_id, from) == old(self).owned(nft_id, from) - r,
            from == to ==> final(self).owned(nft_id, from) == old(self).owned(nft_id, from),
            from != to ==> final(self).owned(nft_id, to) == sat_add(
                old(self).owned(nft_id, to) as int,
                r as int,
            ),
            forall|i: NFTId, c: Self::AccountId|
                !(i == nft_id && (c == from || c == to)) ==> #[trigger] final(self).owned(i, c)
                    == old(self).owned(i, c),
    ;
}

} // verus!
