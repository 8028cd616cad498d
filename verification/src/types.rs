use vstd::prelude::*;

use crate::address::Address;

verus! {

/// The abstract value of one token's record.
#[verifier::ext_equal]
pub struct TokenView {
    pub token_id: u32,
    pub name: Seq<char>,
    pub description: Seq<char>,
    pub uri: Seq<char>,
    pub owner: Seq<u8>,
    pub creator: Seq<u8>,
    pub is_burned: bool,
    pub mint_timestamp: u64,
    pub transfer_count: u32,
}

/// The record kept for one token.
#[derive(Debug, Clone, PartialEq, Eq)]
pub struct NFTMetadata {
    pub token_id: u32,
    pub name: String,
    pub description: String,
    pub uri: String,
    pub owner: Address,
    pub creator: Address,
    pub is_burned: bool,
    pub mint_timestamp: u64,
    pub transfer_count: u32,
}

impl View for NFTMetadata {
    type V = TokenView;

    open spec fn view(&self) -> TokenView {
        TokenView {
            token_id: self.token_id,
            name: self.name@,
            description: self.description@,
            uri: self.uri@,
            owner: self.owner@,
            creator: self.creator@,
            is_burned: self.is_burned,
            mint_timestamp: self.mint_timestamp,
            transfer_count: self.transfer_count,
        }
    }
}

impl NFTMetadata {
    /// A second record with the same contents.
    pub fn copy(&self) -> (r: NFTMetadata)
        ensures
            r@ == self@,
    {
        NFTMetadata {
            token_id: self.token_id,
            name: self.name.clone(),
            description: self.description.clone(),
            uri: self.uri.clone(),
            owner: self.owner.copy(),
            creator: self.creator.copy(),
            is_burned: self.is_burned,
            mint_timestamp: self.mint_timestamp,
            transfer_count: self.transfer_count,
        }
    }
}

/// The abstract value of a collection summary.
pub struct CollectionInfoView {
    pub name: Seq<char>,
    pub symbol: Seq<char>,
    pub description: Seq<char>,
    pub max_supply: u32,
    pub total_minted: u32,
    pub royalty_bps: u32,
    pub royalty_receiver: Seq<u8>,
    pub is_paused: bool,
    pub whitelist_enabled: bool,
}

/// A summary of the collection's settings and counters.
#[derive(Debug, Clone, PartialEq, Eq)]
pub struct CollectionInfo {
    pub name: String,
    pub symbol: String,
    pub description: String,
    pub max_supply: u32,
    pub total_minted: u32,
    pub royalty_bps: u32,
    pub royalty_receiver: Address,
    pub is_paused: bool,
    pub whitelist_enabled: bool,
}

impl View for CollectionInfo {
    type V = CollectionInfoView;

    open spec fn view(&self) -> CollectionInfoView {
        CollectionInfoView {
            name: self.name@,
            symbol: self.symbol@,
            description: self.description@,
            max_supply: self.max_supply,
            total_minted: self.total_minted,
            royalty_bps: self.royalty_bps,
            royalty_receiver: self.royalty_receiver@,
            is_paused: self.is_paused,
            whitelist_enabled: self.whitelist_enabled,
        }
    }
}

/// The abstract value of the royalty settings.
pub struct RoyaltyInfoView {
    pub receiver: Seq<u8>,
    pub amount_bps: u32,
}

/// Who receives royalties, and how many basis points of a sale they get.
#[derive(Debug, Clone, PartialEq, Eq)]
pub struct RoyaltyInfo {
    pub receiver: Address,
    pub amount_bps: u32,
}

impl View for RoyaltyInfo {
    type V = RoyaltyInfoView;

    open spec fn view(&self) -> RoyaltyInfoView {
        RoyaltyInfoView { receiver: self.receiver@, amount_bps: self.amount_bps }
    }
}

/// Why a request was refused. A refused request changes nothing.
#[derive(Debug, Clone, Copy, PartialEq, Eq, Structural)]
pub enum NftError {
    AlreadyInitialized,
    NotInitialized,
    InitRoyaltyTooHigh,
    RoyaltyTooHigh,
    MissingValue,
    Paused,
    MaxSupplyReached,
    NotWhitelisted,
    LengthMismatch,
    EmptyBatch,
    BatchExceedsMaxSupply,
    TokenNotFound,
    TokenBurned,
    NotOwnerOrApproved,
    NotOwner,
    AlreadyBurned,
    SelfOperator,
    MaxSupplyBelowMinted,
    Overflow,
}

/// The text that describes each refusal.
pub open spec fn error_text(e: NftError) -> Seq<char> {
    match e {
        NftError::AlreadyInitialized => "already initialized"@,
        NftError::NotInitialized => "not initialized"@,
        NftError::InitRoyaltyTooHigh => "royalty_bps cannot exceed 10000 (100%)"@,
        NftError::RoyaltyTooHigh => "royalty_bps cannot exceed 10000"@,
        NftError::MissingValue => "called `Option::unwrap()` on a `None` value"@,
        NftError::Paused => "contract is paused"@,
        NftError::MaxSupplyReached => "max supply reached"@,
        NftError::NotWhitelisted => "address not whitelisted"@,
        NftError::LengthMismatch => "names, descriptions, uris must have equal length"@,
        NftError::EmptyBatch => "batch cannot be empty"@,
        NftError::BatchExceedsMaxSupply => "batch would exceed max supply"@,
        NftError::TokenNotFound => "token not found"@,
        NftError::TokenBurned => "token is burned"@,
        NftError::NotOwnerOrApproved => "not owner or approved"@,
        NftError::NotOwner => "not owner"@,
        NftError::AlreadyBurned => "already burned"@,
        NftError::SelfOperator => "owner cannot be operator of themselves"@,
        NftError::MaxSupplyBelowMinted => "new max supply below current minted count"@,
        NftError::Overflow => "arithmetic overflow"@,
    }
}

impl NftError {
    /// The text that describes the refusal.
    pub fn message(&self) -> (r: &'static str)
        ensures
            r@ == error_text(*self),
    {
        match self {
            NftError::AlreadyInitialized => "already initialized",
            NftError::NotInitialized => "not initialized",
            NftError::InitRoyaltyTooHigh => "royalty_bps cannot exceed 10000 (100%)",
            NftError::RoyaltyTooHigh => "royalty_bps cannot exceed 10000",
            NftError::MissingValue => "called `Option::unwrap()` on a `None` value",
            NftError::Paused => "contract is paused",
            NftError::MaxSupplyReached => "max supply reached",
            NftError::NotWhitelisted => "address not whitelisted",
            NftError::LengthMismatch => "names, descriptions, uris must have equal length",
            NftError::EmptyBatch => "batch cannot be empty",
            NftError::BatchExceedsMaxSupply => "batch would exceed max supply",
            NftError::TokenNotFound => "token not found",
            NftError::TokenBurned => "token is burned",
            NftError::NotOwnerOrApproved => "not owner or approved",
            NftError::NotOwner => "not owner",
            NftError::AlreadyBurned => "already burned",
            NftError::SelfOperator => "owner cannot be operator of themselves",
            NftError::MaxSupplyBelowMinted => "new max supply below current minted count",
            NftError::Overflow => "arithmetic overflow",
        }
    }
}

} // verus!
