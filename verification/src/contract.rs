use vstd::prelude::*;

use crate::address::Address;
use crate::laws::{
    lemma_approve_keeps, lemma_burn_keeps, lemma_empty_consistent, lemma_initialize_keeps,
    lemma_minted_keeps, lemma_minted_many_keeps, lemma_settings_keep, lemma_transfer_keeps,
    lemma_with_uri_keeps,
};
use crate::model::{new_token, outcome, Call, ContractView};
use crate::tables::{list_in, AddressSet, OperatorTable, OwnerIndex};
use crate::types::{CollectionInfo, NFTMetadata, NftError, RoyaltyInfo, TokenView};

verus! {

/// An NFT collection: its settings, its tokens, who owns them, who may move
/// them, and who may receive new ones.
pub struct NFTContract {
    admin: Option<Address>,
    collection_name: String,
    collection_symbol: String,
    collection_desc: String,
    royalty_receiver: Address,
    max_supply: u32,
    token_count: u32,
    active_count: u32,
    paused: bool,
    whitelist_enabled: bool,
    royalty_bps: u32,
    tokens: Vec<NFTMetadata>,
    approved: Vec<Option<Address>>,
    owner_tokens: OwnerIndex,
    operators: OperatorTable,
    whitelist: AddressSet,
}

/// The abstract values of a list of token records.
pub open spec fn token_views(v: Seq<NFTMetadata>) -> Seq<TokenView> {
    v.map_values(|t: NFTMetadata| t@)
}

/// The approvals recorded in `v`, by token id.
pub open spec fn approval_views(v: Seq<Option<Address>>) -> Map<u32, Seq<u8>> {
    Map::new(
        |id: u32| (id as int) < v.len() && v[id as int] is Some,
        |id: u32| v[id as int].unwrap()@,
    )
}

/// The texts held by a list of strings.
pub open spec fn string_views(v: Seq<String>) -> Seq<Seq<char>> {
    v.map_values(|t: String| t@)
}

/// The addresses held by a list of addresses.
pub open spec fn address_views(v: Seq<Address>) -> Seq<Seq<u8>> {
    v.map_values(|a: Address| a@)
}

/// The abstract value of an optional address.
pub open spec fn option_view(a: Option<Address>) -> Option<Seq<u8>> {
    match a {
        Some(x) => Some(x@),
        None => None,
    }
}

impl View for NFTContract {
    type V = ContractView;

    closed spec fn view(&self) -> ContractView {
        ContractView {
            admin: option_view(self.admin),
            name: self.collection_name@,
            symbol: self.collection_symbol@,
            description: self.collection_desc@,
            royalty_receiver: self.royalty_receiver@,
            max_supply: self.max_supply,
            active_count: self.active_count,
            paused: self.paused,
            whitelist_enabled: self.whitelist_enabled,
            royalty_bps: self.royalty_bps,
            tokens: token_views(self.tokens@),
            approved: approval_views(self.approved@),
            owner_tokens: self.owner_tokens@,
            operators: self.operators@,
            whitelist: self.whitelist@,
        }
    }
}

impl NFTContract {
    /// The internal tables are consistent.
    closed spec fn tables_ok(&self) -> bool {
        &&& self.approved@.len() == self.tokens@.len()
        &&& self.owner_tokens.wf()
        &&& self.operators.wf()
        &&& self.whitelist.wf()
    }

    /// The collection's well-formedness: its tables are consistent, its
    /// counter of minted tokens matches its records, and its abstract state
    /// is consistent.
    pub closed spec fn wf(&self) -> bool {
        &&& self.tables_ok()
        &&& self.token_count as int == self.tokens@.len()
        &&& self@.consistent()
    }

    /// A collection that has not been initialized: empty storage.
    pub fn new() -> (r: NFTContract)
        ensures
            r.wf(),
            r@ == ContractView::empty(),
    {
        let r = NFTContract {
            admin: None,
            collection_name: String::new(),
            collection_symbol: String::new(),
            collection_desc: String::new(),
            royalty_receiver: Address::from_bytes(Vec::new()),
            max_supply: 0,
            token_count: 0,
            active_count: 0,
            paused: false,
            whitelist_enabled: false,
            royalty_bps: 0,
            tokens: Vec::new(),
            approved: Vec::new(),
            owner_tokens: OwnerIndex::new(),
            operators: OperatorTable::new(),
            whitelist: AddressSet::new(),
        };
        proof {
            lemma_empty_consistent();
            assert(token_views(r.tokens@) =~= Seq::empty());
            assert(approval_views(r.approved@) =~= Map::empty());
            assert(r.royalty_receiver@ =~= Seq::<u8>::empty());
            assert(r@ =~= ContractView::empty());
        }
        r
    }

    /// Every collection reachable from `new` through the operations is
    /// consistent: well-formedness, which `new` establishes and every
    /// operation keeps, implies it.
    pub proof fn lemma_reachable_consistent(&self)
        requires
            self.wf(),
        ensures
            self@.consistent(),
    {
    }

    // ---------------- queries ----------------

    /// The number of tokens minted so far, burned ones included.
    pub fn total_minted(&self) -> (r: u32)
        requires
            self.wf(),
        ensures
            r == self@.tokens.len(),
    {
        self.token_count
    }

    /// The number of tokens that are not burned.
    pub fn total_supply(&self) -> (r: u32)
        requires
            self.wf(),
        ensures
            r == self@.active_count,
    {
        self.active_count
    }

    /// Whether the collection is paused.
    pub fn is_paused(&self) -> (r: bool)
        ensures
            r == self@.paused,
    {
        self.paused
    }

    /// Whether `address` is on the whitelist.
    pub fn is_whitelisted(&self, address: &Address) -> (r: bool)
        ensures
            r == self@.whitelist.contains(address@),
    {
        self.whitelist.contains(address)
    }

    /// The administrator; refused before initialization.
    pub fn get_admin(&self) -> (r: Result<Address, NftError>)
        ensures
            match r {
                Ok(a) => self@.admin == Some(a@),
                Err(e) => self@.admin is None && e == NftError::NotInitialized,
            },
    {
        match &self.admin {
            Some(a) => Ok(a.copy()),
            None => Err(NftError::NotInitialized),
        }
    }

    /// The record of token `token_id`, burned or not.
    pub fn get_nft(&self, token_id: u32) -> (r: Result<NFTMetadata, NftError>)
        requires
            self.wf(),
        ensures
            match r {
                Ok(t) => (token_id as int) < self@.tokens.len() && t@ == self@.tokens[token_id as int],
                Err(e) => (token_id as int) >= self@.tokens.len() && e == NftError::TokenNotFound,
            },
    {
        self.get_token_or_panic(token_id)
    }

    /// The owner of the unburned token `token_id`.
    pub fn owner_of(&self, token_id: u32) -> (r: Result<Address, NftError>)
        requires
            self.wf(),
        ensures
            match r {
                Ok(a) => (token_id as int) < self@.tokens.len()
                    && !self@.tokens[token_id as int].is_burned
                    && a@ == self@.tokens[token_id as int].owner,
                Err(e) => if (token_id as int) >= self@.tokens.len() {
                    e == NftError::TokenNotFound
                } else {
                    self@.tokens[token_id as int].is_burned && e == NftError::TokenBurned
                },
            },
    {
        match self.get_token_or_panic(token_id) {
            Ok(nft) => {
                if nft.is_burned {
                    Err(NftError::TokenBurned)
                } else {
                    Ok(nft.owner)
                }
            },
            Err(e) => Err(e),
        }
    }

    /// The ids recorded for `owner`, in the order they were added.
    pub fn tokens_of(&self, owner: &Address) -> (r: Vec<u32>)
        requires
            self.wf(),
        ensures
            r@ == self@.owner_list(owner@),
    {
        self.owner_tokens.get(owner)
    }

    /// The address approved to move token `token_id`, if any.
    pub fn get_approved(&self, token_id: u32) -> (r: Option<Address>)
        requires
            self.wf(),
        ensures
            option_view(r) == (if self@.approved.contains_key(token_id) {
                Some(self@.approved[token_id])
            } else {
                None
            }),
    {
        if (token_id as usize) < self.approved.len() {
            match &self.approved[token_id as usize] {
                Some(a) => Some(a.copy()),
                None => None,
            }
        } else {
            None
        }
    }

    /// Whether `operator` may move every token of `owner`.
    pub fn is_approved_for_all(&self, owner: &Address, operator: &Address) -> (r: bool)
        requires
            self.wf(),
        ensures
            r == self@.is_operator(owner@, operator@),
    {
        match self.operators.get(owner, operator) {
            Some(b) => b,
            None => false,
        }
    }

    /// The collection's settings and counters; before initialization the
    /// stored settings are missing, and the request is refused as such.
    pub fn collection_info(&self) -> (r: Result<CollectionInfo, NftError>)
        requires
            self.wf(),
        ensures
            match r {
                Ok(info) => self@.initialized() && info@.name == self@.name && info@.symbol
                    == self@.symbol && info@.description == self@.description
                    && info@.max_supply == self@.max_supply && info@.total_minted
                    == self@.tokens.len() && info@.royalty_bps == self@.royalty_bps
                    && info@.royalty_receiver == self@.royalty_receiver && info@.is_paused
                    == self@.paused && info@.whitelist_enabled == self@.whitelist_enabled,
                Err(e) => !self@.initialized() && e == NftError::MissingValue,
            },
    {
        if self.admin.is_none() {
            return Err(NftError::MissingValue);
        }
        Ok(
            CollectionInfo {
                name: self.collection_name.clone(),
                symbol: self.collection_symbol.clone(),
                description: self.collection_desc.clone(),
                max_supply: self.max_supply,
                total_minted: self.token_count,
                royalty_bps: self.royalty_bps,
                royalty_receiver: self.royalty_receiver.copy(),
                is_paused: self.paused,
                whitelist_enabled: self.whitelist_enabled,
            },
        )
    }

    /// Who receives royalties and at what rate; before initialization the
    /// receiver is missing, and the request is refused as such.
    pub fn royalty_info(&self) -> (r: Result<RoyaltyInfo, NftError>)
        ensures
            match r {
                Ok(info) => self@.initialized() && info@.receiver == self@.royalty_receiver
                    && info@.amount_bps == self@.royalty_bps,
                Err(e) => !self@.initialized() && e == NftError::MissingValue,
            },
    {
        if self.admin.is_none() {
            return Err(NftError::MissingValue);
        }
        Ok(RoyaltyInfo { receiver: self.royalty_receiver.copy(), amount_bps: self.royalty_bps })
    }

    // ---------------- operations ----------------

    /// Sets up the collection. Refused when it is already set up, or when
    /// the royalty exceeds 10000 basis points.
    pub fn initialize(
        &mut self,
        admin: Address,
        collection_name: String,
        collection_symbol: String,
        collection_desc: String,
        max_supply: u32,
        royalty_bps: u32,
        royalty_receiver: Address,
    ) -> (r: Result<(), NftError>)
        requires
            old(self).wf(),
        ensures
            final(self).wf(),
            old(self)@.history_kept(final(self)@),
            old(self)@.step((Call::Initialize {
                admin: admin@,
                name: collection_name@,
                symbol: collection_symbol@,
                description: collection_desc@,
                max_supply,
                royalty_bps,
                royalty_receiver: royalty_receiver@,
            })) == outcome(r, final(self)@),
            match r {
                Ok(()) => old(self)@.initialize_error(royalty_bps) is None && final(self)@
                    == old(self)@.initialized_with(
                    admin@,
                    collection_name@,
                    collection_symbol@,
                    collection_desc@,
                    max_supply,
                    royalty_bps,
                    royalty_receiver@,
                ),
                Err(e) => old(self)@.initialize_error(royalty_bps) == Some(e) && final(self)@
                    == old(self)@,
            },
    {
        if self.admin.is_some() {
            return Err(NftError::AlreadyInitialized);
        }
        if royalty_bps > 10000 {
            return Err(NftError::InitRoyaltyTooHigh);
        }
        let ghost s0 = self@;
        let ghost target = s0.initialized_with(
            admin@,
            collection_name@,
            collection_symbol@,
            collection_desc@,
            max_supply,
            royalty_bps,
            royalty_receiver@,
        );
        proof {
            lemma_initialize_keeps(
                s0,
                admin@,
                collection_name@,
                collection_symbol@,
                collection_desc@,
                max_supply,
                royalty_bps,
                royalty_receiver@,
            );
        }
        self.admin = Some(admin);
        self.collection_name = collection_name;
        self.collection_symbol = collection_symbol;
        self.collection_desc = collection_desc;
        self.max_supply = max_supply;
        self.token_count = 0;
        self.active_count = 0;
        self.paused = false;
        self.whitelist_enabled = false;
        self.royalty_bps = royalty_bps;
        self.royalty_receiver = royalty_receiver;
        assert(self@ =~= target);
        Ok(())
    }

    /// Mints a new token to `to` and returns its id, the number of tokens
    /// minted before it. Refused before initialization, while paused, when
    /// the supply cap is reached, when the whitelist is on and lacks `to`,
    /// or when no id is left.
    pub fn mint(
        &mut self,
        to: Address,
        name: String,
        description: String,
        uri: String,
        timestamp: u64,
    ) -> (r: Result<u32, NftError>)
        requires
            old(self).wf(),
        ensures
            final(self).wf(),
            old(self)@.history_kept(final(self)@),
            old(self)@.step((Call::Mint { to: to@, name: name@, description: description@, uri: uri@, timestamp })) == outcome(r, final(self)@),
            match r {
                Ok(id) => old(self)@.mint_error(to@) is None && id == old(self)@.tokens.len()
                    && final(self)@ == old(self)@.minted(to@, name@, description@, uri@, timestamp),
                Err(e) => old(self)@.mint_error(to@) == Some(e) && final(self)@ == old(self)@,
            },
    {
        match self.require_admin() {
            Ok(()) => {},
            Err(e) => return Err(e),
        }
        match self.require_not_paused() {
            Ok(()) => {},
            Err(e) => return Err(e),
        }
        match self.check_max_supply() {
            Ok(()) => {},
            Err(e) => return Err(e),
        }
        if self.is_whitelist_enabled() && !self.is_whitelisted(&to) {
            return Err(NftError::NotWhitelisted);
        }
        if self.token_count == u32::MAX {
            return Err(NftError::Overflow);
        }
        let token_id: u32 = self.mint_one(&to, name, description, uri, timestamp);
        Ok(token_id)
    }

    /// Records a new token for `to` with the next id; the checks are the
    /// caller's.
    fn mint_one(
        &mut self,
        to: &Address,
        name: String,
        description: String,
        uri: String,
        timestamp: u64,
    ) -> (r: u32)
        requires
            old(self).wf(),
            old(self)@.initialized(),
            old(self)@.tokens.len() < u32::MAX,
            old(self)@.max_supply == 0 || old(self)@.tokens.len() < old(self)@.max_supply,
        ensures
            final(self).wf(),
            old(self)@.history_kept(final(self)@),
            r == old(self)@.tokens.len(),
            final(self)@ == old(self)@.minted(to@, name@, description@, uri@, timestamp),
    {
        let ghost s0 = self@;
        let ghost target = s0.minted(to@, name@, description@, uri@, timestamp);
        proof {
            lemma_minted_keeps(s0, to@, name@, description@, uri@, timestamp);
            crate::model::lemma_unburned_bound(s0.tokens);
        }
        let ghost old_tokens = self.tokens@;
        let ghost old_approved = self.approved@;
        let token_id: u32 = self.next_token_id();
        let nft = NFTMetadata {
            token_id,
            name,
            description,
            uri,
            owner: to.copy(),
            creator: to.copy(),
            is_burned: false,
            mint_timestamp: timestamp,
            transfer_count: 0,
        };
        let ghost nft_view = nft@;
        self.save_token(nft);
        self.add_token_to_owner(to, token_id);
        self.increment_active_count();
        proof {
            assert(nft_view == new_token(token_id, to@, name@, description@, uri@, timestamp));
            assert(token_views(self.tokens@) =~= token_views(old_tokens).push(nft_view));
            assert(approval_views(self.approved@) =~= approval_views(old_approved));
            assert(self@ =~= target);
        }
        token_id
    }

    /// Mints one token to `to` for each position of the three lists, with
    /// consecutive ids, and returns the ids. Refused before initialization,
    /// while paused, when the lists differ in length or are empty, when the
    /// batch would pass the supply cap or the id range, or when the
    /// whitelist is on and lacks `to`.
    pub fn batch_mint(
        &mut self,
        to: Address,
        names: Vec<String>,
        descriptions: Vec<String>,
        uris: Vec<String>,
        timestamp: u64,
    ) -> (r: Result<Vec<u32>, NftError>)
        requires
            old(self).wf(),
            names@.len() <= u32::MAX,
        ensures
            final(self).wf(),
            old(self)@.history_kept(final(self)@),
            old(self)@.step((Call::BatchMint {
                to: to@,
                names: string_views(names@),
                descriptions: string_views(descriptions@),
                uris: string_views(uris@),
                timestamp,
            })) == outcome(r, final(self)@),
            match r {
                Ok(ids) => (forall|k: int|
                    0 <= k < names@.len() ==> {
                        let t = #[trigger] final(self)@.tokens[ids@[k] as int];
                        &&& t.token_id == ids@[k]
                        &&& t.name == names@[k]@
                        &&& t.description == descriptions@[k]@
                        &&& t.uri == uris@[k]@
                        &&& t.owner == to@
                        &&& t.creator == to@
                    }) && old(self)@.batch_mint_error(
                    to@,
                    names@.len(),
                    names@.len() == descriptions@.len() && names@.len() == uris@.len(),
                ) is None && ids@ == Seq::new(
                    names@.len(),
                    |k: int| (old(self)@.tokens.len() + k) as u32,
                ) && final(self)@ == old(self)@.minted_many(
                    to@,
                    string_views(names@),
                    string_views(descriptions@),
                    string_views(uris@),
                    timestamp,
                    names@.len(),
                ),
                Err(e) => old(self)@.batch_mint_error(
                    to@,
                    names@.len(),
                    names@.len() == descriptions@.len() && names@.len() == uris@.len(),
                ) == Some(e) && final(self)@ == old(self)@,
            },
    {
        match self.require_admin() {
            Ok(()) => {},
            Err(e) => return Err(e),
        }
        match self.require_not_paused() {
            Ok(()) => {},
            Err(e) => return Err(e),
        }
        let count: usize = names.len();
        if count != descriptions.len() || count != uris.len() {
            return Err(NftError::LengthMismatch);
        }
        if count == 0 {
            return Err(NftError::EmptyBatch);
        }
        let max_supply: u32 = self.max_supply;
        if max_supply > 0 {
            if self.token_count as u64 + count as u64 > u32::MAX as u64 {
                return Err(NftError::Overflow);
            }
            if self.token_count as u64 + count as u64 > max_supply as u64 {
                return Err(NftError::BatchExceedsMaxSupply);
            }
        }
        if self.is_whitelist_enabled() && !self.is_whitelisted(&to) {
            return Err(NftError::NotWhitelisted);
        }
        if self.token_count as u64 + count as u64 > u32::MAX as u64 {
            return Err(NftError::Overflow);
        }
        let ghost s0 = self@;
        let ghost nv = string_views(names@);
        let ghost dv = string_views(descriptions@);
        let ghost uv = string_views(uris@);
        proof {
            lemma_minted_many_keeps(s0, to@, nv, dv, uv, timestamp, count as nat);
        }
        proof {
            crate::behaviour::law_batch_mint(s0, to@, nv, dv, uv, timestamp);
        }
        let mut minted_ids: Vec<u32> = Vec::new();
        let mut i: usize = 0;
        while i < count
            invariant
                count == names@.len(),
                count == descriptions@.len(),
                count == uris@.len(),
                nv == string_views(names@),
                dv == string_views(descriptions@),
                uv == string_views(uris@),
                i <= count,
                s0.consistent(),
                s0.initialized(),
                s0.tokens.len() + count <= u32::MAX,
                s0.max_supply == 0 || s0.tokens.len() + count <= s0.max_supply,
                self.wf(),
                self@ == s0.minted_many(to@, nv, dv, uv, timestamp, i as nat),
                s0.history_kept(self@),
                minted_ids@ == Seq::new(i as nat, |k: int| (s0.tokens.len() + k) as u32),
            decreases count - i,
        {
            proof {
                lemma_minted_many_keeps(s0, to@, nv, dv, uv, timestamp, i as nat);
            }
            let token_id: u32 = self.mint_one(
                &to,
                names[i].clone(),
                descriptions[i].clone(),
                uris[i].clone(),
                timestamp,
            );
            minted_ids.push(token_id);
            proof {
                lemma_minted_many_keeps(s0, to@, nv, dv, uv, timestamp, (i + 1) as nat);
                assert(minted_ids@ =~= Seq::new((i + 1) as nat, |k: int| (s0.tokens.len() + k) as u32));
            }
            i = i + 1;
        }
        Ok(minted_ids)
    }

    /// Moves token `token_id` to `to` on behalf of `from`, who must own it,
    /// be approved for it, or be an operator of its owner. The token's
    /// transfer count grows by one and its approval is cleared. Refused while
    /// paused, for an unknown or burned token, for anyone else, or when the
    /// count cannot grow.
    pub fn transfer(&mut self, from: Address, to: Address, token_id: u32) -> (r: Result<
        (),
        NftError,
    >)
        requires
            old(self).wf(),
        ensures
            final(self).wf(),
            old(self)@.history_kept(final(self)@),
            old(self)@.step((Call::Transfer { from: from@, to: to@, token_id })) == outcome(r, final(self)@),
            match r {
                Ok(()) => old(self)@.transfer_error(from@, token_id) is None && final(self)@
                    == old(self)@.transferred(to@, token_id),
                Err(e) => old(self)@.transfer_error(from@, token_id) == Some(e) && final(self)@
                    == old(self)@,
            },
    {
        match self.require_not_paused() {
            Ok(()) => {},
            Err(e) => return Err(e),
        }
        let mut nft = match self.get_token_or_panic(token_id) {
            Ok(t) => t,
            Err(e) => return Err(e),
        };
        if nft.is_burned {
            return Err(NftError::TokenBurned);
        }
        let id: usize = token_id as usize;
        let is_approved_addr = match &self.approved[id] {
            Some(a) => a.same(&from),
            None => false,
        };
        let is_operator = match self.operators.get(&nft.owner, &from) {
            Some(b) => b,
            None => false,
        };
        if !nft.owner.same(&from) && !is_approved_addr && !is_operator {
            return Err(NftError::NotOwnerOrApproved);
        }
        if nft.transfer_count == u32::MAX {
            return Err(NftError::Overflow);
        }
        let ghost s0 = self@;
        let ghost old_tokens = self.tokens@;
        let ghost old_approved = self.approved@;
        proof {
            lemma_transfer_keeps(s0, from@, to@, token_id);
        }
        let owner = nft.owner.copy();
        self.remove_token_from_owner(&owner, token_id);
        nft.owner = to.copy();
        nft.transfer_count = nft.transfer_count + 1;
        let ghost nft_view = nft@;
        self.save_token(nft);
        self.add_token_to_owner(&to, token_id);
        self.approved.set(id, None);
        proof {
            assert(token_views(self.tokens@) =~= token_views(old_tokens).update(id as int, nft_view));
            assert(approval_views(self.approved@) =~= approval_views(old_approved).remove(token_id));
            assert(self@ =~= s0.transferred(to@, token_id));
        }
        Ok(())
    }

    /// Lets `approved` move token `token_id` once, on behalf of its owner
    /// `owner`. Refused for an unknown token, for anyone but its owner, or
    /// for a burned token.
    pub fn approve(&mut self, owner: Address, approved: Address, token_id: u32) -> (r: Result<
        (),
        NftError,
    >)
        requires
            old(self).wf(),
        ensures
            final(self).wf(),
            old(self)@.history_kept(final(self)@),
            old(self)@.step((Call::Approve { owner: owner@, approved: approved@, token_id })) == outcome(r, final(self)@),
            match r {
                Ok(()) => old(self)@.approve_error(owner@, token_id) is None && final(self)@
                    == (ContractView {
                    approved: old(self)@.approved.insert(token_id, approved@),
                    ..old(self)@
                }),
                Err(e) => old(self)@.approve_error(owner@, token_id) == Some(e) && final(self)@
                    == old(self)@,
            },
    {
        let nft = match self.get_token_or_panic(token_id) {
            Ok(t) => t,
            Err(e) => return Err(e),
        };
        if !nft.owner.same(&owner) {
            return Err(NftError::NotOwner);
        }
        if nft.is_burned {
            return Err(NftError::TokenBurned);
        }
        let ghost s0 = self@;
        let ghost old_approved = self.approved@;
        proof {
            lemma_approve_keeps(s0, owner@, approved@, token_id);
        }
        let ghost av = approved@;
        self.approved.set(token_id as usize, Some(approved));
        proof {
            assert(approval_views(self.approved@) =~= approval_views(old_approved).insert(token_id, av));
            assert(self@ =~= ContractView { approved: s0.approved.insert(token_id, av), ..s0 });
        }
        Ok(())
    }

    /// Records whether `operator` may move every token of `owner`. Refused
    /// when the two are the same address.
    pub fn set_approval_for_all(&mut self, owner: Address, operator: Address, approved: bool) -> (r:
        Result<(), NftError>)
        requires
            old(self).wf(),
        ensures
            final(self).wf(),
            old(self)@.history_kept(final(self)@),
            old(self)@.step((Call::SetApprovalForAll { owner: owner@, operator: operator@, is_approved: approved })) == outcome(r, final(self)@),
            match r {
                Ok(()) => owner@ != operator@ && final(self)@ == (ContractView {
                    operators: old(self)@.operators.insert((owner@, operator@), approved),
                    ..old(self)@
                }),
                Err(e) => owner@ == operator@ && e == NftError::SelfOperator && final(self)@
                    == old(self)@,
            },
    {
        if owner.same(&operator) {
            return Err(NftError::SelfOperator);
        }
        let ghost s0 = self@;
        self.operators.set(&owner, &operator, approved);
        proof {
            let n = ContractView { operators: s0.operators.insert((owner@, operator@), approved), ..s0 };
            assert(self@ =~= n);
            lemma_settings_keep(s0, n);
        }
        Ok(())
    }

    /// Burns token `token_id` of `owner`: it stays on record, marked burned,
    /// leaves its owner's list, loses its approval, and leaves the supply.
    /// Refused while paused, for an unknown token, for anyone but its owner,
    /// or for a token already burned.
    pub fn burn(&mut self, owner: Address, token_id: u32) -> (r: Result<(), NftError>)
        requires
            old(self).wf(),
        ensures
            final(self).wf(),
            old(self)@.history_kept(final(self)@),
            old(self)@.step((Call::Burn { owner: owner@, token_id })) == outcome(r, final(self)@),
            match r {
                Ok(()) => old(self)@.burn_error(owner@, token_id) is None && final(self)@
                    == old(self)@.burned(token_id),
                Err(e) => old(self)@.burn_error(owner@, token_id) == Some(e) && final(self)@
                    == old(self)@,
            },
    {
        match self.require_not_paused() {
            Ok(()) => {},
            Err(e) => return Err(e),
        }
        let mut nft = match self.get_token_or_panic(token_id) {
            Ok(t) => t,
            Err(e) => return Err(e),
        };
        if !nft.owner.same(&owner) {
            return Err(NftError::NotOwner);
        }
        if nft.is_burned {
            return Err(NftError::AlreadyBurned);
        }
        let ghost s0 = self@;
        let ghost old_tokens = self.tokens@;
        let ghost old_approved = self.approved@;
        proof {
            lemma_burn_keeps(s0, owner@, token_id);
        }
        nft.is_burned = true;
        let ghost nft_view = nft@;
        self.save_token(nft);
        self.remove_token_from_owner(&owner, token_id);
        self.approved.set(token_id as usize, None);
        if self.active_count > 0 {
            self.active_count = self.active_count - 1;
        }
        proof {
            assert(token_views(self.tokens@) =~= token_views(old_tokens).update(token_id as int, nft_view));
            assert(approval_views(self.approved@) =~= approval_views(old_approved).remove(token_id));
            assert(self@ =~= s0.burned(token_id));
        }
        Ok(())
    }

    /// Replaces the URI of an unburned token. Refused before initialization,
    /// for an unknown token, or for a burned one.
    pub fn update_uri(&mut self, token_id: u32, new_uri: String) -> (r: Result<(), NftError>)
        requires
            old(self).wf(),
        ensures
            final(self).wf(),
            old(self)@.history_kept(final(self)@),
            old(self)@.step((Call::UpdateUri { token_id, uri: new_uri@ })) == outcome(r, final(self)@),
            match r {
                Ok(()) => old(self)@.update_uri_error(token_id) is None && final(self)@
                    == old(self)@.with_uri(token_id, new_uri@),
                Err(e) => old(self)@.update_uri_error(token_id) == Some(e) && final(self)@
                    == old(self)@,
            },
    {
        match self.require_admin() {
            Ok(()) => {},
            Err(e) => return Err(e),
        }
        let mut nft = match self.get_token_or_panic(token_id) {
            Ok(t) => t,
            Err(e) => return Err(e),
        };
        if nft.is_burned {
            return Err(NftError::TokenBurned);
        }
        let ghost s0 = self@;
        let ghost old_tokens = self.tokens@;
        proof {
            lemma_with_uri_keeps(s0, token_id, new_uri@);
        }
        nft.uri = new_uri;
        let ghost nft_view = nft@;
        self.save_token(nft);
        proof {
            assert(token_views(self.tokens@) =~= token_views(old_tokens).update(token_id as int, nft_view));
            assert(self@ =~= s0.with_uri(token_id, new_uri@));
        }
        Ok(())
    }

    /// Sets the royalty rate and receiver. Refused before initialization or
    /// for a rate above 10000 basis points.
    pub fn update_royalty(&mut self, royalty_bps: u32, royalty_receiver: Address) -> (r: Result<
        (),
        NftError,
    >)
        requires
            old(self).wf(),
        ensures
            final(self).wf(),
            old(self)@.history_kept(final(self)@),
            old(self)@.step((Call::UpdateRoyalty { royalty_bps, royalty_receiver: royalty_receiver@ })) == outcome(r, final(self)@),
            match r {
                Ok(()) => old(self)@.update_royalty_error(royalty_bps) is None && final(self)@
                    == (ContractView {
                    royalty_bps,
                    royalty_receiver: royalty_receiver@,
                    ..old(self)@
                }),
                Err(e) => old(self)@.update_royalty_error(royalty_bps) == Some(e) && final(self)@
                    == old(self)@,
            },
    {
        match self.require_admin() {
            Ok(()) => {},
            Err(e) => return Err(e),
        }
        if royalty_bps > 10000 {
            return Err(NftError::RoyaltyTooHigh);
        }
        let ghost s0 = self@;
        let ghost rv = royalty_receiver@;
        self.royalty_bps = royalty_bps;
        self.royalty_receiver = royalty_receiver;
        proof {
            let n = ContractView { royalty_bps, royalty_receiver: rv, ..s0 };
            assert(self@ =~= n);
            lemma_settings_keep(s0, n);
        }
        Ok(())
    }

    /// Sets the supply cap (0 for none). Refused before initialization, or
    /// for a nonzero cap below the number of tokens minted.
    pub fn update_max_supply(&mut self, new_max: u32) -> (r: Result<(), NftError>)
        requires
            old(self).wf(),
        ensures
            final(self).wf(),
            old(self)@.history_kept(final(self)@),
            old(self)@.step((Call::UpdateMaxSupply { new_max })) == outcome(r, final(self)@),
            match r {
                Ok(()) => old(self)@.update_max_supply_error(new_max) is None && final(self)@
                    == (ContractView { max_supply: new_max, ..old(self)@ }),
                Err(e) => old(self)@.update_max_supply_error(new_max) == Some(e) && final(self)@
                    == old(self)@,
            },
    {
        match self.require_admin() {
            Ok(()) => {},
            Err(e) => return Err(e),
        }
        let token_count: u32 = self.token_count;
        if new_max != 0 && new_max < token_count {
            return Err(NftError::MaxSupplyBelowMinted);
        }
        let ghost s0 = self@;
        self.max_supply = new_max;
        proof {
            let n = ContractView { max_supply: new_max, ..s0 };
            assert(self@ =~= n);
            lemma_settings_keep(s0, n);
        }
        Ok(())
    }

    /// Pauses the collection. Refused before initialization.
    pub fn pause(&mut self) -> (r: Result<(), NftError>)
        requires
            old(self).wf(),
        ensures
            final(self).wf(),
            old(self)@.history_kept(final(self)@),
            old(self)@.step(Call::Pause) == outcome(r, final(self)@),
            match r {
                Ok(()) => old(self)@.initialized() && final(self)@ == (ContractView {
                    paused: true,
                    ..old(self)@
                }),
                Err(e) => old(self)@.uninitialized_error() == Some(e) && final(self)@ == old(self)@,
            },
    {
        self.set_paused(true)
    }

    /// Lifts a pause. Refused before initialization.
    pub fn unpause(&mut self) -> (r: Result<(), NftError>)
        requires
            old(self).wf(),
        ensures
            final(self).wf(),
            old(self)@.history_kept(final(self)@),
            old(self)@.step(Call::Unpause) == outcome(r, final(self)@),
            match r {
                Ok(()) => old(self)@.initialized() && final(self)@ == (ContractView {
                    paused: false,
                    ..old(self)@
                }),
                Err(e) => old(self)@.uninitialized_error() == Some(e) && final(self)@ == old(self)@,
            },
    {
        self.set_paused(false)
    }

    fn set_paused(&mut self, paused: bool) -> (r: Result<(), NftError>)
        requires
            old(self).wf(),
        ensures
            final(self).wf(),
            old(self)@.history_kept(final(self)@),
            match r {
                Ok(()) => old(self)@.initialized() && final(self)@ == (ContractView {
                    paused,
                    ..old(self)@
                }),
                Err(e) => old(self)@.uninitialized_error() == Some(e) && final(self)@ == old(self)@,
            },
    {
        match self.require_admin() {
            Ok(()) => {},
            Err(e) => return Err(e),
        }
        let ghost s0 = self@;
        self.paused = paused;
        proof {
            let n = ContractView { paused, ..s0 };
            assert(self@ =~= n);
            lemma_settings_keep(s0, n);
        }
        Ok(())
    }

    /// Hands the administration to `new_admin`. Refused before
    /// initialization.
    pub fn transfer_admin(&mut self, new_admin: Address) -> (r: Result<(), NftError>)
        requires
            old(self).wf(),
        ensures
            final(self).wf(),
            old(self)@.history_kept(final(self)@),
            old(self)@.step((Call::TransferAdmin { new_admin: new_admin@ })) == outcome(r, final(self)@),
            match r {
                Ok(()) => old(self)@.initialized() && final(self)@ == (ContractView {
                    admin: Some(new_admin@),
                    ..old(self)@
                }),
                Err(e) => old(self)@.uninitialized_error() == Some(e) && final(self)@ == old(self)@,
            },
    {
        match self.require_admin() {
            Ok(()) => {},
            Err(e) => return Err(e),
        }
        let ghost s0 = self@;
        let ghost av = new_admin@;
        self.admin = Some(new_admin);
        proof {
            let n = ContractView { admin: Some(av), ..s0 };
            assert(self@ =~= n);
            lemma_settings_keep(s0, n);
        }
        Ok(())
    }

    /// Turns the whitelist requirement for minting on or off. Refused before
    /// initialization.
    pub fn toggle_whitelist(&mut self, enabled: bool) -> (r: Result<(), NftError>)
        requires
            old(self).wf(),
        ensures
            final(self).wf(),
            old(self)@.history_kept(final(self)@),
            old(self)@.step((Call::ToggleWhitelist { enabled })) == outcome(r, final(self)@),
            match r {
                Ok(()) => old(self)@.initialized() && final(self)@ == (ContractView {
                    whitelist_enabled: enabled,
                    ..old(self)@
                }),
                Err(e) => old(self)@.uninitialized_error() == Some(e) && final(self)@ == old(self)@,
            },
    {
        match self.require_admin() {
            Ok(()) => {},
            Err(e) => return Err(e),
        }
        let ghost s0 = self@;
        self.whitelist_enabled = enabled;
        proof {
            let n = ContractView { whitelist_enabled: enabled, ..s0 };
            assert(self@ =~= n);
            lemma_settings_keep(s0, n);
        }
        Ok(())
    }

    /// Puts `address` on the whitelist. Refused before initialization.
    pub fn add_to_whitelist(&mut self, address: Address) -> (r: Result<(), NftError>)
        requires
            old(self).wf(),
        ensures
            final(self).wf(),
            old(self)@.history_kept(final(self)@),
            old(self)@.step((Call::AddToWhitelist { address: address@ })) == outcome(r, final(self)@),
            match r {
                Ok(()) => old(self)@.initialized() && final(self)@ == (ContractView {
                    whitelist: old(self)@.whitelist.insert(address@),
                    ..old(self)@
                }),
                Err(e) => old(self)@.uninitialized_error() == Some(e) && final(self)@ == old(self)@,
            },
    {
        match self.require_admin() {
            Ok(()) => {},
            Err(e) => return Err(e),
        }
        let ghost s0 = self@;
        self.whitelist.insert(&address);
        proof {
            let n = ContractView { whitelist: s0.whitelist.insert(address@), ..s0 };
            assert(self@ =~= n);
            lemma_settings_keep(s0, n);
        }
        Ok(())
    }

    /// Takes `address` off the whitelist. Refused before initialization.
    pub fn remove_from_whitelist(&mut self, address: Address) -> (r: Result<(), NftError>)
        requires
            old(self).wf(),
        ensures
            final(self).wf(),
            old(self)@.history_kept(final(self)@),
            old(self)@.step((Call::RemoveFromWhitelist { address: address@ })) == outcome(r, final(self)@),
            match r {
                Ok(()) => old(self)@.initialized() && final(self)@ == (ContractView {
                    whitelist: old(self)@.whitelist.remove(address@),
                    ..old(self)@
                }),
                Err(e) => old(self)@.uninitialized_error() == Some(e) && final(self)@ == old(self)@,
            },
    {
        match self.require_admin() {
            Ok(()) => {},
            Err(e) => return Err(e),
        }
        let ghost s0 = self@;
        self.whitelist.remove(&address);
        proof {
            let n = ContractView { whitelist: s0.whitelist.remove(address@), ..s0 };
            assert(self@ =~= n);
            lemma_settings_keep(s0, n);
        }
        Ok(())
    }

    /// Puts every address of `addresses` on the whitelist. Refused before
    /// initialization.
    pub fn batch_add_whitelist(&mut self, addresses: Vec<Address>) -> (r: Result<(), NftError>)
        requires
            old(self).wf(),
        ensures
            final(self).wf(),
            old(self)@.history_kept(final(self)@),
            old(self)@.step((Call::BatchAddWhitelist { addresses: address_views(addresses@) })) == outcome(r, final(self)@),
            match r {
                Ok(()) => old(self)@.initialized() && final(self)@ == (ContractView {
                    whitelist: old(self)@.whitelist.union(address_views(addresses@).to_set()),
                    ..old(self)@
                }),
                Err(e) => old(self)@.uninitialized_error() == Some(e) && final(self)@ == old(self)@,
            },
    {
        match self.require_admin() {
            Ok(()) => {},
            Err(e) => return Err(e),
        }
        let ghost s0 = self@;
        let n: usize = addresses.len();
        let mut i: usize = 0;
        while i < n
            invariant
                n == addresses@.len(),
                i <= n,
                self.wf(),
                self@ == (ContractView {
                    whitelist: s0.whitelist.union(address_views(addresses@).take(i as int).to_set()),
                    ..s0
                }),
                s0.consistent(),
            decreases n - i,
        {
            self.whitelist.insert(&addresses[i]);
            proof {
                let av = address_views(addresses@);
                assert(av.take(i + 1) =~= av.take(i as int).push(av[i as int]));
                assert(av.take(i + 1).to_set() =~= av.take(i as int).to_set().insert(av[i as int])) by {
                    av.take(i as int).lemma_push_to_set_commute(av[i as int]);
                }
                let n2 = ContractView {
                    whitelist: s0.whitelist.union(av.take(i + 1).to_set()),
                    ..s0
                };
                assert(self@ =~= n2);
                lemma_settings_keep(s0, n2);
            }
            i = i + 1;
        }
        proof {
            assert(address_views(addresses@).take(n as int) =~= address_views(addresses@));
            lemma_settings_keep(s0, self@);
        }
        Ok(())
    }

    // ---------------- internal steps ----------------

    fn require_admin(&self) -> (r: Result<(), NftError>)
        ensures
            r == (match self@.uninitialized_error() {
                Some(e) => Err(e),
                None => Ok(()),
            }),
    {
        if self.admin.is_none() {
            Err(NftError::NotInitialized)
        } else {
            Ok(())
        }
    }

    fn require_not_paused(&self) -> (r: Result<(), NftError>)
        ensures
            r == (if self@.paused {
                Err(NftError::Paused)
            } else {
                Ok(())
            }),
    {
        if self.paused {
            Err(NftError::Paused)
        } else {
            Ok(())
        }
    }

    fn check_max_supply(&self) -> (r: Result<(), NftError>)
        requires
            self.wf(),
        ensures
            r == (if self@.max_supply > 0 && self@.tokens.len() >= self@.max_supply {
                Err(NftError::MaxSupplyReached)
            } else {
                Ok(())
            }),
    {
        if self.max_supply == 0 {
            return Ok(());
        }
        if self.token_count >= self.max_supply {
            return Err(NftError::MaxSupplyReached);
        }
        Ok(())
    }

    fn is_whitelist_enabled(&self) -> (r: bool)
        ensures
            r == self@.whitelist_enabled,
    {
        self.whitelist_enabled
    }

    fn next_token_id(&mut self) -> (r: u32)
        requires
            old(self).token_count < u32::MAX,
        ensures
            r == old(self).token_count,
            *final(self) == (NFTContract { token_count: (old(self).token_count + 1) as u32, ..*old(self) }),
    {
        let count: u32 = self.token_count;
        self.token_count = count + 1;
        count
    }

    fn increment_active_count(&mut self)
        requires
            old(self).active_count < u32::MAX,
        ensures
            *final(self) == (NFTContract { active_count: (old(self).active_count + 1) as u32, ..*old(self) }),
    {
        self.active_count = self.active_count + 1;
    }

    /// Stores `nft` under its id: over the existing record, or as the next one.
    fn save_token(&mut self, nft: NFTMetadata)
        requires
            (nft.token_id as int) <= old(self).tokens@.len(),
            old(self).approved@.len() == old(self).tokens@.len(),
        ensures
            *final(self) == (NFTContract {
                tokens: final(self).tokens,
                approved: final(self).approved,
                ..*old(self)
            }),
            if (nft.token_id as int) < old(self).tokens@.len() {
                &&& final(self).tokens@ == old(self).tokens@.update(nft.token_id as int, nft)
                &&& final(self).approved == old(self).approved
            } else {
                &&& final(self).tokens@ == old(self).tokens@.push(nft)
                &&& final(self).approved@ == old(self).approved@.push(None)
            },
    {
        let id: usize = nft.token_id as usize;
        if id < self.tokens.len() {
            self.tokens.set(id, nft);
        } else {
            self.tokens.push(nft);
            self.approved.push(None);
        }
    }

    fn add_token_to_owner(&mut self, owner: &Address, token_id: u32)
        requires
            old(self).owner_tokens.wf(),
        ensures
            *final(self) == (NFTContract { owner_tokens: final(self).owner_tokens, ..*old(self) }),
            final(self).owner_tokens.wf(),
            final(self).owner_tokens@ == old(self).owner_tokens@.insert(
                owner@,
                list_in(old(self).owner_tokens@, owner@).push(token_id),
            ),
    {
        let mut tokens = self.owner_tokens.get(owner);
        tokens.push(token_id);
        self.owner_tokens.set(owner, tokens);
    }

    fn remove_token_from_owner(&mut self, owner: &Address, token_id: u32)
        requires
            old(self).owner_tokens.wf(),
        ensures
            *final(self) == (NFTContract { owner_tokens: final(self).owner_tokens, ..*old(self) }),
            final(self).owner_tokens.wf(),
            final(self).owner_tokens@ == old(self).owner_tokens@.insert(
                owner@,
                list_in(old(self).owner_tokens@, owner@).remove_value(token_id),
            ),
    {
        let mut tokens = self.owner_tokens.get(owner);
        let ghost before = tokens@;
        let len: usize = tokens.len();
        let mut idx: Option<usize> = None;
        let mut i: usize = 0;
        while i < len
            invariant_except_break
                idx is None,
            invariant
                len == tokens.len(),
                tokens@ == before,
                i <= len,
                forall|j: int| 0 <= j < i ==> before[j] != token_id,
            ensures
                match idx {
                    Some(k) => k < len && before[k as int] == token_id && forall|j: int|
                        0 <= j < k ==> before[j] != token_id,
                    None => forall|j: int| 0 <= j < len ==> before[j] != token_id,
                },
            decreases len - i,
        {
            if tokens[i] == token_id {
                idx = Some(i);
                break;
            }
            i = i + 1;
        }
        proof {
            before.index_of_first_ensures(token_id);
        }
        match idx {
            Some(k) => {
                tokens.remove(k);
                proof {
                    let f: int = before.index_of_first(token_id).unwrap();
                    assert(!(f < k) && !(k < f));
                    assert(f == k as int);
                    assert(tokens@ =~= before.remove(k as int));
                }
            },
            None => {
                assert(!before.contains(token_id));
            },
        }
        self.owner_tokens.set(owner, tokens);
    }

    fn get_token_or_panic(&self, token_id: u32) -> (r: Result<NFTMetadata, NftError>)
        ensures
            match r {
                Ok(t) => (token_id as int) < self.tokens@.len() && t@ == self.tokens@[token_id as int]@,
                Err(e) => (token_id as int) >= self.tokens@.len() && e == NftError::TokenNotFound,
            },
    {
        if (token_id as usize) < self.tokens.len() {
            Ok(self.tokens[token_id as usize].copy())
        } else {
            Err(NftError::TokenNotFound)
        }
    }
}

} // verus!
