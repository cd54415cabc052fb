//! Verified core of an NFT registry and an escrowing NFT marketplace.

pub mod address;
pub mod balances;
pub mod laws;
pub mod marketplace;
pub mod nft;
