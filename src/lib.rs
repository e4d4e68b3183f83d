pub mod types;
pub mod allocator;
pub mod balances;
pub mod registry;
pub mod traits;
pub mod assets;
pub mod nfts;
