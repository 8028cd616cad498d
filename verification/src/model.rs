use vstd::prelude::*;

use crate::tables::list_in;
use crate::types::{NftError, TokenView};

verus! {

/// The abstract state of a collection: what its storage holds.
#[verifier::ext_equal]
pub struct ContractView {
    /// The administrator; `None` until the collection is initialized.
    pub admin: Option<Seq<u8>>,
    pub name: Seq<char>,
    pub symbol: Seq<char>,
    pub description: Seq<char>,
    pub royalty_receiver: Seq<u8>,
    /// 0 means that the supply is not capped.
    pub max_supply: u32,
    /// The number of tokens that are not burned, as counted by the collection.
    pub active_count: u32,
    pub paused: bool,
    pub whitelist_enabled: bool,
    pub royalty_bps: u32,
    /// Every token ever minted; the token with id `i` stands at index `i`.
    pub tokens: Seq<TokenView>,
    /// The address approved to move a token, by token id.
    pub approved: Map<u32, Seq<u8>>,
    /// The ids recorded for each owner, in the order they were added.
    pub owner_tokens: Map<Seq<u8>, Seq<u32>>,
    /// Operator approvals by (owner, operator).
    pub operators: Map<(Seq<u8>, Seq<u8>), bool>,
    pub whitelist: Set<Seq<u8>>,
}

/// The number of tokens in `tokens` that are not burned.
pub open spec fn unburned_count(tokens: Seq<TokenView>) -> nat
    decreases tokens.len(),
{
    if tokens.len() == 0 {
        0
    } else {
        unburned_count(tokens.drop_last()) + if tokens.last().is_burned {
            0nat
        } else {
            1nat
        }
    }
}

/// The record of a freshly minted token.
pub open spec fn new_token(
    id: u32,
    to: Seq<u8>,
    name: Seq<char>,
    description: Seq<char>,
    uri: Seq<char>,
    timestamp: u64,
) -> TokenView {
    TokenView {
        token_id: id,
        name,
        description,
        uri,
        owner: to,
        creator: to,
        is_burned: false,
        mint_timestamp: timestamp,
        transfer_count: 0,
    }
}

impl ContractView {
    /// The state of a collection that was never initialized.
    pub open spec fn empty() -> ContractView {
        ContractView {
            admin: None,
            name: Seq::empty(),
            symbol: Seq::empty(),
            description: Seq::empty(),
            royalty_receiver: Seq::empty(),
            max_supply: 0,
            active_count: 0,
            paused: false,
            whitelist_enabled: false,
            royalty_bps: 0,
            tokens: Seq::empty(),
            approved: Map::empty(),
            owner_tokens: Map::empty(),
            operators: Map::empty(),
            whitelist: Set::empty(),
        }
    }

    pub open spec fn initialized(self) -> bool {
        self.admin is Some
    }

    /// The ids recorded for `a` (empty where none are).
    pub open spec fn owner_list(self, a: Seq<u8>) -> Seq<u32> {
        list_in(self.owner_tokens, a)
    }

    /// Whether `a` holds the unburned token `id`.
    pub open spec fn owns(self, a: Seq<u8>, id: u32) -> bool {
        &&& (id as int) < self.tokens.len()
        &&& !self.tokens[id as int].is_burned
        &&& self.tokens[id as int].owner == a
    }

    /// Whether `operator` may move every token of `owner`.
    pub open spec fn is_operator(self, owner: Seq<u8>, operator: Seq<u8>) -> bool {
        self.operators.contains_key((owner, operator)) && self.operators[(owner, operator)]
    }

    /// What every reachable state satisfies.
    pub open spec fn consistent(self) -> bool {
        &&& self.tokens.len() <= u32::MAX
        &&& forall|i: int| 0 <= i < self.tokens.len() ==> #[trigger] self.tokens[i].token_id == i
        &&& self.active_count == unburned_count(self.tokens)
        &&& self.royalty_bps <= 10000
        &&& (self.max_supply == 0 || self.tokens.len() <= self.max_supply)
        &&& (!self.initialized() ==> self.tokens.len() == 0)
        &&& forall|id: u32| #[trigger]
            self.approved.contains_key(id) ==> (id as int) < self.tokens.len()
                && !self.tokens[id as int].is_burned
        &&& forall|a: Seq<u8>, id: u32|
            #![trigger self.owner_list(a).contains(id)]
            #![trigger self.owns(a, id)]
            self.owner_list(a).contains(id) <==> self.owns(a, id)
        &&& forall|a: Seq<u8>| #[trigger] self.owner_list(a).no_duplicates()
        &&& self.owner_tokens.dom().finite()
    }

    /// What stays true of the tokens between two states: none disappears,
    /// and no token's id, creator or mint time changes, nor is a burned
    /// token revived.
    pub open spec fn history_kept(self, next: ContractView) -> bool {
        &&& self.tokens.len() <= next.tokens.len()
        &&& forall|i: int|
            0 <= i < self.tokens.len() ==> {
                &&& #[trigger] next.tokens[i].token_id == self.tokens[i].token_id
                &&& next.tokens[i].creator == self.tokens[i].creator
                &&& next.tokens[i].mint_timestamp == self.tokens[i].mint_timestamp
                &&& (self.tokens[i].is_burned ==> next.tokens[i].is_burned)
            }
        &&& (self.initialized() ==> next.initialized())
    }

    /// The refusal of an operation that needs an initialized collection.
    pub open spec fn uninitialized_error(self) -> Option<NftError> {
        if !self.initialized() {
            Some(NftError::NotInitialized)
        } else {
            None
        }
    }

    // ---- initialize ----
    pub open spec fn initialize_error(self, royalty_bps: u32) -> Option<NftError> {
        if self.initialized() {
            Some(NftError::AlreadyInitialized)
        } else if royalty_bps > 10000 {
            Some(NftError::InitRoyaltyTooHigh)
        } else {
            None
        }
    }

    pub open spec fn initialized_with(
        self,
        admin: Seq<u8>,
        name: Seq<char>,
        symbol: Seq<char>,
        description: Seq<char>,
        max_supply: u32,
        royalty_bps: u32,
        royalty_receiver: Seq<u8>,
    ) -> ContractView {
        ContractView {
            admin: Some(admin),
            name,
            symbol,
            description,
            max_supply,
            active_count: 0,
            paused: false,
            whitelist_enabled: false,
            royalty_bps,
            royalty_receiver,
            ..self
        }
    }

    // ---- mint ----
    pub open spec fn whitelist_blocks(self, to: Seq<u8>) -> bool {
        self.whitelist_enabled && !self.whitelist.contains(to)
    }

    pub open spec fn mint_error(self, to: Seq<u8>) -> Option<NftError> {
        if !self.initialized() {
            Some(NftError::NotInitialized)
        } else if self.paused {
            Some(NftError::Paused)
        } else if self.max_supply > 0 && self.tokens.len() >= self.max_supply {
            Some(NftError::MaxSupplyReached)
        } else if self.whitelist_blocks(to) {
            Some(NftError::NotWhitelisted)
        } else if self.tokens.len() >= u32::MAX {
            Some(NftError::Overflow)
        } else {
            None
        }
    }

    /// The state after a token is minted to `to`, with the next id.
    pub open spec fn minted(
        self,
        to: Seq<u8>,
        name: Seq<char>,
        description: Seq<char>,
        uri: Seq<char>,
        timestamp: u64,
    ) -> ContractView {
        let id: u32 = self.tokens.len() as u32;
        ContractView {
            tokens: self.tokens.push(new_token(id, to, name, description, uri, timestamp)),
            owner_tokens: self.owner_tokens.insert(to, self.owner_list(to).push(id)),
            active_count: (self.active_count + 1) as u32,
            ..self
        }
    }

    // ---- batch_mint ----
    pub open spec fn batch_mint_error(self, to: Seq<u8>, count: nat, lengths_match: bool) -> Option<
        NftError,
    > {
        if !self.initialized() {
            Some(NftError::NotInitialized)
        } else if self.paused {
            Some(NftError::Paused)
        } else if !lengths_match {
            Some(NftError::LengthMismatch)
        } else if count == 0 {
            Some(NftError::EmptyBatch)
        } else if self.max_supply > 0 && self.tokens.len() + count > u32::MAX {
            Some(NftError::Overflow)
        } else if self.max_supply > 0 && self.tokens.len() + count > self.max_supply {
            Some(NftError::BatchExceedsMaxSupply)
        } else if self.whitelist_blocks(to) {
            Some(NftError::NotWhitelisted)
        } else if self.tokens.len() + count > u32::MAX {
            Some(NftError::Overflow)
        } else {
            None
        }
    }

    /// The state after the first `n` tokens of a batch are minted to `to`.
    pub open spec fn minted_many(
        self,
        to: Seq<u8>,
        names: Seq<Seq<char>>,
        descriptions: Seq<Seq<char>>,
        uris: Seq<Seq<char>>,
        timestamp: u64,
        n: nat,
    ) -> ContractView
        decreases n,
    {
        if n == 0 {
            self
        } else {
            let k: nat = (n - 1) as nat;
            self.minted_many(to, names, descriptions, uris, timestamp, k).minted(
                to,
                names[k as int],
                descriptions[k as int],
                uris[k as int],
                timestamp,
            )
        }
    }

    // ---- transfer ----
    /// Whether `from` may move token `id`: it owns it, is approved for it, or
    /// is an operator of its owner.
    pub open spec fn may_move(self, from: Seq<u8>, id: u32) -> bool {
        let owner = self.tokens[id as int].owner;
        ||| owner == from
        ||| (self.approved.contains_key(id) && self.approved[id] == from)
        ||| self.is_operator(owner, from)
    }

    pub open spec fn transfer_error(self, from: Seq<u8>, id: u32) -> Option<NftError> {
        if self.paused {
            Some(NftError::Paused)
        } else if id as int >= self.tokens.len() {
            Some(NftError::TokenNotFound)
        } else if self.tokens[id as int].is_burned {
            Some(NftError::TokenBurned)
        } else if !self.may_move(from, id) {
            Some(NftError::NotOwnerOrApproved)
        } else if self.tokens[id as int].transfer_count == u32::MAX {
            Some(NftError::Overflow)
        } else {
            None
        }
    }

    /// The state after token `id` moves to `to`.
    pub open spec fn transferred(self, to: Seq<u8>, id: u32) -> ContractView {
        let t = self.tokens[id as int];
        let cleared = self.owner_tokens.insert(t.owner, self.owner_list(t.owner).remove_value(id));
        ContractView {
            tokens: self.tokens.update(
                id as int,
                TokenView { owner: to, transfer_count: (t.transfer_count + 1) as u32, ..t },
            ),
            owner_tokens: cleared.insert(to, list_in(cleared, to).push(id)),
            approved: self.approved.remove(id),
            ..self
        }
    }

    // ---- approve ----
    pub open spec fn approve_error(self, owner: Seq<u8>, id: u32) -> Option<NftError> {
        if id as int >= self.tokens.len() {
            Some(NftError::TokenNotFound)
        } else if self.tokens[id as int].owner != owner {
            Some(NftError::NotOwner)
        } else if self.tokens[id as int].is_burned {
            Some(NftError::TokenBurned)
        } else {
            None
        }
    }

    // ---- burn ----
    pub open spec fn burn_error(self, owner: Seq<u8>, id: u32) -> Option<NftError> {
        if self.paused {
            Some(NftError::Paused)
        } else if id as int >= self.tokens.len() {
            Some(NftError::TokenNotFound)
        } else if self.tokens[id as int].owner != owner {
            Some(NftError::NotOwner)
        } else if self.tokens[id as int].is_burned {
            Some(NftError::AlreadyBurned)
        } else {
            None
        }
    }

    /// The state after token `id` is burned.
    pub open spec fn burned(self, id: u32) -> ContractView {
        let t = self.tokens[id as int];
        ContractView {
            tokens: self.tokens.update(id as int, TokenView { is_burned: true, ..t }),
            owner_tokens: self.owner_tokens.insert(t.owner, self.owner_list(t.owner).remove_value(id)),
            approved: self.approved.remove(id),
            active_count: if self.active_count > 0 {
                (self.active_count - 1) as u32
            } else {
                self.active_count
            },
            ..self
        }
    }

    // ---- update_uri ----
    pub open spec fn update_uri_error(self, id: u32) -> Option<NftError> {
        if !self.initialized() {
            Some(NftError::NotInitialized)
        } else if id as int >= self.tokens.len() {
            Some(NftError::TokenNotFound)
        } else if self.tokens[id as int].is_burned {
            Some(NftError::TokenBurned)
        } else {
            None
        }
    }

    pub open spec fn with_uri(self, id: u32, uri: Seq<char>) -> ContractView {
        ContractView {
            tokens: self.tokens.update(id as int, TokenView { uri, ..self.tokens[id as int] }),
            ..self
        }
    }

    // ---- update_royalty ----
    pub open spec fn update_royalty_error(self, royalty_bps: u32) -> Option<NftError> {
        if !self.initialized() {
            Some(NftError::NotInitialized)
        } else if royalty_bps > 10000 {
            Some(NftError::RoyaltyTooHigh)
        } else {
            None
        }
    }

    // ---- update_max_supply ----
    pub open spec fn update_max_supply_error(self, new_max: u32) -> Option<NftError> {
        if !self.initialized() {
            Some(NftError::NotInitialized)
        } else if new_max != 0 && (new_max as int) < self.tokens.len() {
            Some(NftError::MaxSupplyBelowMinted)
        } else {
            None
        }
    }
}


/// A request to the collection, with its arguments as abstract values.
pub enum Call {
    Initialize {
        admin: Seq<u8>,
        name: Seq<char>,
        symbol: Seq<char>,
        description: Seq<char>,
        max_supply: u32,
        royalty_bps: u32,
        royalty_receiver: Seq<u8>,
    },
    Mint { to: Seq<u8>, name: Seq<char>, description: Seq<char>, uri: Seq<char>, timestamp: u64 },
    BatchMint {
        to: Seq<u8>,
        names: Seq<Seq<char>>,
        descriptions: Seq<Seq<char>>,
        uris: Seq<Seq<char>>,
        timestamp: u64,
    },
    Transfer { from: Seq<u8>, to: Seq<u8>, token_id: u32 },
    Approve { owner: Seq<u8>, approved: Seq<u8>, token_id: u32 },
    SetApprovalForAll { owner: Seq<u8>, operator: Seq<u8>, is_approved: bool },
    Burn { owner: Seq<u8>, token_id: u32 },
    UpdateUri { token_id: u32, uri: Seq<char> },
    UpdateRoyalty { royalty_bps: u32, royalty_receiver: Seq<u8> },
    UpdateMaxSupply { new_max: u32 },
    Pause,
    Unpause,
    TransferAdmin { new_admin: Seq<u8> },
    ToggleWhitelist { enabled: bool },
    AddToWhitelist { address: Seq<u8> },
    RemoveFromWhitelist { address: Seq<u8> },
    BatchAddWhitelist { addresses: Seq<Seq<u8>> },
}

/// `next` when no refusal is given, else the refusal.
pub open spec fn answer(refusal: Option<NftError>, next: ContractView) -> Result<ContractView, NftError> {
    match refusal {
        Some(e) => Err(e),
        None => Ok(next),
    }
}

/// How a call's result and the state it leaves are seen in the model.
pub open spec fn outcome<T>(r: Result<T, NftError>, next: ContractView) -> Result<ContractView, NftError> {
    match r {
        Ok(_) => Ok(next),
        Err(e) => Err(e),
    }
}

impl ContractView {
    /// What a call does to the collection: the state it leaves, or why it is
    /// refused (a refused call leaves the state as it was).
    pub open spec fn step(self, c: Call) -> Result<ContractView, NftError> {
        match c {
            Call::Initialize {
                admin,
                name,
                symbol,
                description,
                max_supply,
                royalty_bps,
                royalty_receiver,
            } => answer(
                self.initialize_error(royalty_bps),
                self.initialized_with(
                    admin,
                    name,
                    symbol,
                    description,
                    max_supply,
                    royalty_bps,
                    royalty_receiver,
                ),
            ),
            Call::Mint { to, name, description, uri, timestamp } => answer(
                self.mint_error(to),
                self.minted(to, name, description, uri, timestamp),
            ),
            Call::BatchMint { to, names, descriptions, uris, timestamp } => answer(
                self.batch_mint_error(
                    to,
                    names.len(),
                    names.len() == descriptions.len() && names.len() == uris.len(),
                ),
                self.minted_many(to, names, descriptions, uris, timestamp, names.len()),
            ),
            Call::Transfer { from, to, token_id } => answer(
                self.transfer_error(from, token_id),
                self.transferred(to, token_id),
            ),
            Call::Approve { owner, approved, token_id } => answer(
                self.approve_error(owner, token_id),
                ContractView { approved: self.approved.insert(token_id, approved), ..self },
            ),
            Call::SetApprovalForAll { owner, operator, is_approved } => answer(
                if owner == operator {
                    Some(NftError::SelfOperator)
                } else {
                    None
                },
                ContractView {
                    operators: self.operators.insert((owner, operator), is_approved),
                    ..self
                },
            ),
            Call::Burn { owner, token_id } => answer(
                self.burn_error(owner, token_id),
                self.burned(token_id),
            ),
            Call::UpdateUri { token_id, uri } => answer(
                self.update_uri_error(token_id),
                self.with_uri(token_id, uri),
            ),
            Call::UpdateRoyalty { royalty_bps, royalty_receiver } => answer(
                self.update_royalty_error(royalty_bps),
                ContractView { royalty_bps, royalty_receiver, ..self },
            ),
            Call::UpdateMaxSupply { new_max } => answer(
                self.update_max_supply_error(new_max),
                ContractView { max_supply: new_max, ..self },
            ),
            Call::Pause => answer(self.uninitialized_error(), ContractView { paused: true, ..self }),
            Call::Unpause => answer(
                self.uninitialized_error(),
                ContractView { paused: false, ..self },
            ),
            Call::TransferAdmin { new_admin } => answer(
                self.uninitialized_error(),
                ContractView { admin: Some(new_admin), ..self },
            ),
            Call::ToggleWhitelist { enabled } => answer(
                self.uninitialized_error(),
                ContractView { whitelist_enabled: enabled, ..self },
            ),
            Call::AddToWhitelist { address } => answer(
                self.uninitialized_error(),
                ContractView { whitelist: self.whitelist.insert(address), ..self },
            ),
            Call::RemoveFromWhitelist { address } => answer(
                self.uninitialized_error(),
                ContractView { whitelist: self.whitelist.remove(address), ..self },
            ),
            Call::BatchAddWhitelist { addresses } => answer(
                self.uninitialized_error(),
                ContractView { whitelist: self.whitelist.union(addresses.to_set()), ..self },
            ),
        }
    }

    /// The state after the calls are made in order; refused calls change
    /// nothing.
    pub open spec fn run(self, calls: Seq<Call>) -> ContractView
        decreases calls.len(),
    {
        if calls.len() == 0 {
            self
        } else {
            let before = self.run(calls.drop_last());
            match before.step(calls.last()) {
                Ok(next) => next,
                Err(_) => before,
            }
        }
    }
}

// ---------------------------------------------------------------------
// Facts about sequences and counts used by the proofs below.
// ---------------------------------------------------------------------

/// Taking the first occurrence of `v` out of a list without repeats leaves
/// a list without repeats that holds everything else.
pub proof fn lemma_remove_value(s: Seq<u32>, v: u32)
    requires
        s.no_duplicates(),
    ensures
        s.remove_value(v).no_duplicates(),
        forall|x: u32| #[trigger] s.remove_value(v).contains(x) <==> (s.contains(x) && x != v),
{
    s.index_of_first_ensures(v);
    match s.index_of_first(v) {
        Some(i) => {
            let r = s.remove(i);
            assert(r.len() == s.len() - 1);
            assert forall|k: int| 0 <= k < r.len() implies #[trigger] r[k] == (if k < i {
                s[k]
            } else {
                s[k + 1]
            }) by {}
            assert forall|x: u32| #[trigger] r.contains(x) <==> (s.contains(x) && x != v) by {
                if r.contains(x) {
                    let j: int = choose|j: int| 0 <= j < r.len() && r[j] == x;
                    if j < i {
                        assert(s[j] == x);
                    } else {
                        assert(s[j + 1] == x);
                    }
                }
                if s.contains(x) && x != v {
                    let j: int = choose|j: int| 0 <= j < s.len() && s[j] == x;
                    assert(j != i);
                    if j < i {
                        assert(r[j] == x);
                    } else {
                        assert(r[j - 1] == x);
                    }
                }
            }
            assert forall|a: int, b: int| 0 <= a < r.len() && 0 <= b < r.len() && a != b implies r[a]
                != r[b] by {
                let sa: int = if a < i {
                    a
                } else {
                    a + 1
                };
                let sb: int = if b < i {
                    b
                } else {
                    b + 1
                };
                assert(s[sa] != s[sb]);
            }
        },
        None => {},
    }
}

/// Appending a value that a list without repeats lacks keeps it without repeats.
pub proof fn lemma_push_fresh(s: Seq<u32>, v: u32)
    requires
        s.no_duplicates(),
        !s.contains(v),
    ensures
        s.push(v).no_duplicates(),
        forall|x: u32| #[trigger] s.push(v).contains(x) <==> (s.contains(x) || x == v),
{
    let r = s.push(v);
    assert forall|x: u32| #[trigger] r.contains(x) <==> (s.contains(x) || x == v) by {
        if r.contains(x) {
            let j: int = choose|j: int| 0 <= j < r.len() && r[j] == x;
            if j < s.len() {
                assert(s[j] == x);
            }
        }
        if s.contains(x) {
            let j: int = choose|j: int| 0 <= j < s.len() && s[j] == x;
            assert(r[j] == x);
        }
        if x == v {
            assert(r[s.len() as int] == x);
        }
    }
    assert forall|a: int, b: int| 0 <= a < r.len() && 0 <= b < r.len() && a != b implies r[a]
        != r[b] by {
        if a < s.len() && b < s.len() {
            assert(s[a] != s[b]);
        } else if a < s.len() {
            assert(s[a] == r[a]);
        } else {
            assert(s[b] == r[b]);
        }
    }
}

pub proof fn lemma_unburned_push(s: Seq<TokenView>, t: TokenView)
    ensures
        unburned_count(s.push(t)) == unburned_count(s) + if t.is_burned {
            0nat
        } else {
            1nat
        },
{
    assert(s.push(t).drop_last() =~= s);
}

pub proof fn lemma_unburned_update(s: Seq<TokenView>, i: int, t: TokenView)
    requires
        0 <= i < s.len(),
    ensures
        unburned_count(s.update(i, t)) + (if s[i].is_burned {
            0nat
        } else {
            1nat
        }) == unburned_count(s) + (if t.is_burned {
            0nat
        } else {
            1nat
        }),
    decreases s.len(),
{
    if i == s.len() - 1 {
        assert(s.update(i, t).drop_last() =~= s.drop_last());
    } else {
        lemma_unburned_update(s.drop_last(), i, t);
        assert(s.update(i, t).drop_last() =~= s.drop_last().update(i, t));
    }
}

pub proof fn lemma_unburned_bound(s: Seq<TokenView>)
    ensures
        unburned_count(s) <= s.len(),
    decreases s.len(),
{
    if s.len() > 0 {
        lemma_unburned_bound(s.drop_last());
    }
}

} // verus!
