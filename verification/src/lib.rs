//! A verified model of an NFT collection contract: minting, transfers,
//! approvals, burning, pausing, whitelisting and royalty settings, held as
//! plain values and updated by operations whose contracts are proved.

pub mod address;
pub mod tables;
pub mod types;
pub mod model;
pub mod laws;
pub mod contract;
pub mod behaviour;

pub use address::Address;
pub use contract::NFTContract;
pub use types::{CollectionInfo, NFTMetadata, NftError, RoyaltyInfo};
