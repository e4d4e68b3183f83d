use vstd::prelude::*;

verus! {

/// Identifier of a fungible asset.
pub type AssetId = u64;

/// Identifier of a unique (non-fungible) asset.
pub type NFTId = u64;

/// Identifier of an account holding balances.
pub type AccountId = u64;

/// `a + b`, clamped at the largest `u128`.
pub open spec fn sat_add(a: int, b: int) -> int {
    if a + b > u128::MAX {
        u128::MAX as int
    } else {
        a + b
    }
}

/// `min(held, amount)`: what a burn or transfer of `amount` actually moves.
pub open spec fn realized(held: nat, amount: u128) -> nat {
    if held >= amount {
        amount as nat
    } else {
        held
    }
}

} // verus!
