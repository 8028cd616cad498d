//! What each request does, stated directly over its arguments: when it
//! succeeds, and what the collection holds afterwards. These laws speak of
//! `ContractView::step`, to which every operation of `NFTContract` is tied by
//! its contract.

use vstd::prelude::*;

use crate::laws::{lemma_burn_keeps, lemma_counters};
use crate::model::{lemma_unburned_bound, new_token, Call, ContractView};
use crate::types::NftError;

verus! {

/// A successful initialization records exactly the given administrator,
/// texts, cap, royalty rate and royalty receiver, unpaused and without the
/// whitelist requirement; it succeeds exactly on a collection not yet
/// initialized and a royalty of at most 10000 basis points.
pub proof fn law_initialize(
    s: ContractView,
    admin: Seq<u8>,
    name: Seq<char>,
    symbol: Seq<char>,
    description: Seq<char>,
    max_supply: u32,
    royalty_bps: u32,
    royalty_receiver: Seq<u8>,
)
    ensures
        ({
            let r = s.step(
                Call::Initialize {
                    admin,
                    name,
                    symbol,
                    description,
                    max_supply,
                    royalty_bps,
                    royalty_receiver,
                },
            );
            &&& (r is Ok <==> (s.admin is None && royalty_bps <= 10000))
            &&& (s.admin is Some ==> r == Err::<ContractView, NftError>(
                NftError::AlreadyInitialized,
            ))
            &&& (s.admin is None && royalty_bps > 10000 ==> r == Err::<ContractView, NftError>(
                NftError::InitRoyaltyTooHigh,
            ))
            &&& (r matches Ok(n) ==> {
                &&& n.admin == Some(admin)
                &&& n.name == name
                &&& n.symbol == symbol
                &&& n.description == description
                &&& n.max_supply == max_supply
                &&& n.royalty_bps == royalty_bps
                &&& n.royalty_receiver == royalty_receiver
                &&& !n.paused
                &&& !n.whitelist_enabled
                &&& n.active_count == 0
                &&& n.tokens == s.tokens
                &&& n.approved == s.approved
                &&& n.owner_tokens == s.owner_tokens
                &&& n.operators == s.operators
                &&& n.whitelist == s.whitelist
            })
        }),
{
}

/// A successful mint appends one token, whose id is the number minted
/// before, holding exactly the given name, description, URI and time, owned
/// and created by the recipient, unburned and never transferred; earlier
/// tokens are untouched, the recipient's list gains the new id at its end,
/// no other list changes, and the supply grows by one. It succeeds exactly
/// when the collection is initialized and not paused, the cap and the id
/// range leave room, and the whitelist (when on) holds the recipient.
pub proof fn law_mint(
    s: ContractView,
    to: Seq<u8>,
    name: Seq<char>,
    description: Seq<char>,
    uri: Seq<char>,
    timestamp: u64,
)
    requires
        s.consistent(),
    ensures
        ({
            let r = s.step(Call::Mint { to, name, description, uri, timestamp });
            let len = s.tokens.len();
            &&& (r is Ok <==> {
                &&& s.admin is Some
                &&& !s.paused
                &&& (s.max_supply == 0 || len < s.max_supply)
                &&& (!s.whitelist_enabled || s.whitelist.contains(to))
                &&& len < u32::MAX
            })
            &&& (s.admin is None ==> r == Err::<ContractView, NftError>(NftError::NotInitialized))
            &&& (s.admin is Some && s.paused ==> r == Err::<ContractView, NftError>(
                NftError::Paused,
            ))
            &&& (s.admin is Some && !s.paused && s.max_supply > 0 && len >= s.max_supply ==> r
                == Err::<ContractView, NftError>(NftError::MaxSupplyReached))
            &&& (s.admin is Some && !s.paused && (s.max_supply == 0 || len < s.max_supply)
                && s.whitelist_enabled && !s.whitelist.contains(to) ==> r == Err::<
                ContractView,
                NftError,
            >(NftError::NotWhitelisted))
            &&& (s.admin is Some && !s.paused && (s.max_supply == 0 || len < s.max_supply) && (
            !s.whitelist_enabled || s.whitelist.contains(to)) && len >= u32::MAX ==> r == Err::<
                ContractView,
                NftError,
            >(NftError::Overflow))
            &&& (r matches Ok(n) ==> {
                &&& n.tokens.len() == len + 1
                &&& n.tokens[len as int].token_id == len
                &&& n.tokens[len as int].name == name
                &&& n.tokens[len as int].description == description
                &&& n.tokens[len as int].uri == uri
                &&& n.tokens[len as int].owner == to
                &&& n.tokens[len as int].creator == to
                &&& !n.tokens[len as int].is_burned
                &&& n.tokens[len as int].mint_timestamp == timestamp
                &&& n.tokens[len as int].transfer_count == 0
                &&& (forall|i: int| 0 <= i < len ==> n.tokens[i] == s.tokens[i])
                &&& n.owner_list(to) == s.owner_list(to).push(len as u32)
                &&& (forall|a: Seq<u8>| a != to ==> n.owner_list(a) == s.owner_list(a))
                &&& n.active_count == s.active_count + 1
                &&& n == (ContractView {
                    tokens: n.tokens,
                    owner_tokens: n.owner_tokens,
                    active_count: n.active_count,
                    ..s
                })
            })
        }),
{
    lemma_unburned_bound(s.tokens);
}

/// The shape of the state after `m` tokens of a batch are minted: the
/// `k`-th new token, with id `total + k`, is made from the `k`-th name,
/// description and URI.
proof fn lemma_minted_many_shape(
    s: ContractView,
    to: Seq<u8>,
    names: Seq<Seq<char>>,
    descriptions: Seq<Seq<char>>,
    uris: Seq<Seq<char>>,
    timestamp: u64,
    m: nat,
)
    requires
        s.tokens.len() + m <= u32::MAX,
        s.active_count + m <= u32::MAX,
    ensures
        ({
            let n = s.minted_many(to, names, descriptions, uris, timestamp, m);
            let len = s.tokens.len();
            &&& n.tokens.len() == len + m
            &&& (forall|i: int| 0 <= i < len ==> n.tokens[i] == s.tokens[i])
            &&& (forall|k: int|
                0 <= k < m ==> #[trigger] n.tokens[len + k] == new_token(
                    (len + k) as u32,
                    to,
                    names[k],
                    descriptions[k],
                    uris[k],
                    timestamp,
                ))
            &&& n.active_count == s.active_count + m
            &&& n.owner_list(to) == s.owner_list(to) + Seq::new(m, |k: int| (len + k) as u32)
            &&& (forall|a: Seq<u8>| a != to ==> n.owner_list(a) == s.owner_list(a))
            &&& n == (ContractView {
                tokens: n.tokens,
                owner_tokens: n.owner_tokens,
                active_count: n.active_count,
                ..s
            })
        }),
    decreases m,
{
    let len = s.tokens.len();
    if m == 0 {
        assert(s.owner_list(to) + Seq::new(0, |k: int| (len + k) as u32) =~= s.owner_list(to));
    } else {
        let k = (m - 1) as nat;
        lemma_minted_many_shape(s, to, names, descriptions, uris, timestamp, k);
        let p = s.minted_many(to, names, descriptions, uris, timestamp, k);
        let n = s.minted_many(to, names, descriptions, uris, timestamp, m);
        assert(n == p.minted(to, names[k as int], descriptions[k as int], uris[k as int], timestamp));
        assert(s.owner_list(to) + Seq::new(m, |j: int| (len + j) as u32) =~= (s.owner_list(to)
            + Seq::new(k, |j: int| (len + j) as u32)).push((len + k) as u32));
        assert forall|j: int| 0 <= j < m implies #[trigger] n.tokens[len + j] == new_token(
            (len + j) as u32,
            to,
            names[j],
            descriptions[j],
            uris[j],
            timestamp,
        ) by {
            if j < k {
                assert(p.tokens[len + j] == new_token(
                    (len + j) as u32,
                    to,
                    names[j],
                    descriptions[j],
                    uris[j],
                    timestamp,
                ));
            }
        }
    }
}

/// A successful batch mint appends one token per position `k` of the lists,
/// with id `total + k` (the ids it returns), holding exactly the `k`-th name,
/// description and URI, owned and created by the recipient, unburned and
/// never transferred; earlier tokens are untouched, the recipient's list
/// gains the new ids in order, no other list changes, and the supply grows
/// by the batch's length. It succeeds exactly when the collection is
/// initialized and not paused, the three lists have one nonzero length,
/// the cap and the id range leave room for all, and the whitelist (when on)
/// holds the recipient.
pub proof fn law_batch_mint(
    s: ContractView,
    to: Seq<u8>,
    names: Seq<Seq<char>>,
    descriptions: Seq<Seq<char>>,
    uris: Seq<Seq<char>>,
    timestamp: u64,
)
    requires
        s.consistent(),
    ensures
        ({
            let r = s.step(Call::BatchMint { to, names, descriptions, uris, timestamp });
            let len = s.tokens.len();
            let count = names.len();
            &&& (r is Ok <==> {
                &&& s.admin is Some
                &&& !s.paused
                &&& descriptions.len() == count
                &&& uris.len() == count
                &&& count > 0
                &&& len + count <= u32::MAX
                &&& (s.max_supply == 0 || len + count <= s.max_supply)
                &&& (!s.whitelist_enabled || s.whitelist.contains(to))
            })
            &&& (s.admin is None ==> r == Err::<ContractView, NftError>(NftError::NotInitialized))
            &&& (s.admin is Some && s.paused ==> r == Err::<ContractView, NftError>(
                NftError::Paused,
            ))
            &&& (s.admin is Some && !s.paused && (descriptions.len() != count || uris.len()
                != count) ==> r == Err::<ContractView, NftError>(NftError::LengthMismatch))
            &&& (s.admin is Some && !s.paused && descriptions.len() == count && uris.len() == count
                && count == 0 ==> r == Err::<ContractView, NftError>(NftError::EmptyBatch))
            &&& (s.admin is Some && !s.paused && descriptions.len() == count && uris.len() == count
                && count > 0 && s.max_supply > 0 && len + count <= u32::MAX && len + count
                > s.max_supply ==> r == Err::<ContractView, NftError>(
                NftError::BatchExceedsMaxSupply,
            ))
            &&& (s.admin is Some && !s.paused && descriptions.len() == count && uris.len() == count
                && count > 0 && (s.max_supply == 0 || len + count <= s.max_supply)
                && s.whitelist_enabled && !s.whitelist.contains(to) ==> r == Err::<
                ContractView,
                NftError,
            >(NftError::NotWhitelisted))
            &&& (s.admin is Some && !s.paused && descriptions.len() == count && uris.len() == count
                && count > 0 && len + count > u32::MAX && (s.max_supply > 0 || !s.whitelist_enabled
                || s.whitelist.contains(to)) ==> r == Err::<ContractView, NftError>(
                NftError::Overflow,
            ))
            &&& (r matches Ok(n) ==> {
                &&& n.tokens.len() == len + count
                &&& (forall|k: int|
                    0 <= k < count ==> {
                        let t = #[trigger] n.tokens[len + k];
                        &&& t.token_id == len + k
                        &&& t.name == names[k]
                        &&& t.description == descriptions[k]
                        &&& t.uri == uris[k]
                        &&& t.owner == to
                        &&& t.creator == to
                        &&& !t.is_burned
                        &&& t.mint_timestamp == timestamp
                        &&& t.transfer_count == 0
                    })
                &&& (forall|i: int| 0 <= i < len ==> n.tokens[i] == s.tokens[i])
                &&& n.owner_list(to) == s.owner_list(to) + Seq::new(
                    count,
                    |k: int| (len + k) as u32,
                )
                &&& (forall|a: Seq<u8>| a != to ==> n.owner_list(a) == s.owner_list(a))
                &&& n.active_count == s.active_count + count
                &&& n == (ContractView {
                    tokens: n.tokens,
                    owner_tokens: n.owner_tokens,
                    active_count: n.active_count,
                    ..s
                })
            })
        }),
{
    let len = s.tokens.len();
    let count = names.len();
    lemma_counters(s);
    if s.step(Call::BatchMint { to, names, descriptions, uris, timestamp }) is Ok {
        lemma_minted_many_shape(s, to, names, descriptions, uris, timestamp, count);
        let n = s.minted_many(to, names, descriptions, uris, timestamp, count);
        assert forall|k: int| 0 <= k < count implies {
            let t = #[trigger] n.tokens[len + k];
            &&& t.token_id == len + k
            &&& t.name == names[k]
            &&& t.description == descriptions[k]
            &&& t.uri == uris[k]
            &&& t.owner == to
            &&& t.creator == to
            &&& !t.is_burned
            &&& t.mint_timestamp == timestamp
            &&& t.transfer_count == 0
        } by {
            assert(n.tokens[len + k] == new_token(
                (len + k) as u32,
                to,
                names[k],
                descriptions[k],
                uris[k],
                timestamp,
            ));
        }
    }
}


/// A transfer succeeds exactly when the collection is not paused, the token
/// exists and is not burned, `from` is its owner, the address approved for
/// it, or an operator its owner has approved (recorded as `true`), and its
/// transfer count can grow. Then the token belongs to `to`, its count grows
/// by one, nothing else of it or of any other token changes, its approval
/// is gone while every other stands, the former owner's list loses the id,
/// the recipient's list gains it at its end, and no other list, nor the
/// supply, changes.
pub proof fn law_transfer(s: ContractView, from: Seq<u8>, to: Seq<u8>, id: u32)
    ensures
        ({
            let r = s.step(Call::Transfer { from, to, token_id: id });
            let len = s.tokens.len();
            let t = s.tokens[id as int];
            let authorized = t.owner == from || (s.approved.contains_key(id) && s.approved[id]
                == from) || (s.operators.contains_key((t.owner, from)) && s.operators[(
                t.owner,
                from,
            )]);
            &&& (r is Ok <==> {
                &&& !s.paused
                &&& (id as int) < len
                &&& !t.is_burned
                &&& authorized
                &&& t.transfer_count < u32::MAX
            })
            &&& (s.paused ==> r == Err::<ContractView, NftError>(NftError::Paused))
            &&& (!s.paused && (id as int) >= len ==> r == Err::<ContractView, NftError>(
                NftError::TokenNotFound,
            ))
            &&& (!s.paused && (id as int) < len && t.is_burned ==> r == Err::<
                ContractView,
                NftError,
            >(NftError::TokenBurned))
            &&& (!s.paused && (id as int) < len && !t.is_burned && !authorized ==> r == Err::<
                ContractView,
                NftError,
            >(NftError::NotOwnerOrApproved))
            &&& (!s.paused && (id as int) < len && !t.is_burned && authorized && t.transfer_count
                == u32::MAX ==> r == Err::<ContractView, NftError>(NftError::Overflow))
            &&& (r matches Ok(n) ==> {
                let o = t.owner;
                let kept = if to == o {
                    s.owner_list(o).remove_value(id)
                } else {
                    s.owner_list(to)
                };
                &&& n.tokens.len() == len
                &&& n.tokens[id as int].owner == to
                &&& n.tokens[id as int].transfer_count == t.transfer_count + 1
                &&& n.tokens[id as int] == (crate::types::TokenView {
                    owner: to,
                    transfer_count: n.tokens[id as int].transfer_count,
                    ..t
                })
                &&& (forall|i: int| 0 <= i < len && i != id ==> n.tokens[i] == s.tokens[i])
                &&& !n.approved.contains_key(id)
                &&& (forall|x: u32|
                    x != id ==> (n.approved.contains_key(x) == s.approved.contains_key(x) && (
                    s.approved.contains_key(x) ==> n.approved[x] == s.approved[x])))
                &&& n.owner_list(to) == kept.push(id)
                &&& (o != to ==> n.owner_list(o) == s.owner_list(o).remove_value(id))
                &&& (forall|a: Seq<u8>| a != to && a != o ==> n.owner_list(a) == s.owner_list(a))
                &&& n == (ContractView {
                    tokens: n.tokens,
                    approved: n.approved,
                    owner_tokens: n.owner_tokens,
                    ..s
                })
            })
        }),
{
}

/// An approval succeeds exactly when the token exists, `owner` owns it and
/// it is not burned; then `approved` is the address approved for that
/// token and nothing else changes.
pub proof fn law_approve(s: ContractView, owner: Seq<u8>, approved: Seq<u8>, id: u32)
    ensures
        ({
            let r = s.step(Call::Approve { owner, approved, token_id: id });
            let len = s.tokens.len();
            &&& (r is Ok <==> ((id as int) < len && s.tokens[id as int].owner == owner
                && !s.tokens[id as int].is_burned))
            &&& ((id as int) >= len ==> r == Err::<ContractView, NftError>(
                NftError::TokenNotFound,
            ))
            &&& ((id as int) < len && s.tokens[id as int].owner != owner ==> r == Err::<
                ContractView,
                NftError,
            >(NftError::NotOwner))
            &&& ((id as int) < len && s.tokens[id as int].owner == owner
                && s.tokens[id as int].is_burned ==> r == Err::<ContractView, NftError>(
                NftError::TokenBurned,
            ))
            &&& (r matches Ok(n) ==> {
                &&& n.approved.contains_key(id)
                &&& n.approved[id] == approved
                &&& (forall|x: u32|
                    x != id ==> (n.approved.contains_key(x) == s.approved.contains_key(x) && (
                    s.approved.contains_key(x) ==> n.approved[x] == s.approved[x])))
                &&& n == (ContractView { approved: n.approved, ..s })
            })
        }),
{
}

/// Setting an operator approval succeeds exactly when the two addresses
/// differ; then `is_approved_for_all(owner, operator)` is the given value,
/// every other pair stands, and nothing else changes.
pub proof fn law_set_approval_for_all(
    s: ContractView,
    owner: Seq<u8>,
    operator: Seq<u8>,
    approved: bool,
)
    ensures
        ({
            let r = s.step(Call::SetApprovalForAll { owner, operator, is_approved: approved });
            &&& (r is Ok <==> owner != operator)
            &&& (owner == operator ==> r == Err::<ContractView, NftError>(NftError::SelfOperator))
            &&& (r matches Ok(n) ==> {
                &&& n.is_operator(owner, operator) == approved
                &&& n.operators.contains_key((owner, operator))
                &&& (forall|p: (Seq<u8>, Seq<u8>)|
                    p != (owner, operator) ==> (n.operators.contains_key(p)
                        == s.operators.contains_key(p) && (s.operators.contains_key(p)
                        ==> n.operators[p] == s.operators[p])))
                &&& n == (ContractView { operators: n.operators, ..s })
            })
        }),
{
}

/// A burn succeeds exactly when the collection is not paused, the token
/// exists, `owner` is its current owner, and it is not yet burned; any
/// other address is refused with `NotOwner`. Then the token is marked
/// burned with nothing else of it or of any other token changed, its
/// approval is gone, the owner's list loses the id, no other list changes,
/// and the supply drops by one.
pub proof fn law_burn(s: ContractView, owner: Seq<u8>, id: u32)
    requires
        s.consistent(),
    ensures
        ({
            let r = s.step(Call::Burn { owner, token_id: id });
            let len = s.tokens.len();
            let t = s.tokens[id as int];
            &&& (r is Ok <==> (!s.paused && (id as int) < len && t.owner == owner
                && !t.is_burned))
            &&& (s.paused ==> r == Err::<ContractView, NftError>(NftError::Paused))
            &&& (!s.paused && (id as int) >= len ==> r == Err::<ContractView, NftError>(
                NftError::TokenNotFound,
            ))
            &&& (!s.paused && (id as int) < len && t.owner != owner ==> r == Err::<
                ContractView,
                NftError,
            >(NftError::NotOwner))
            &&& (!s.paused && (id as int) < len && t.owner == owner && t.is_burned ==> r
                == Err::<ContractView, NftError>(NftError::AlreadyBurned))
            &&& (r matches Ok(n) ==> {
                &&& n.tokens.len() == len
                &&& n.tokens[id as int] == (crate::types::TokenView { is_burned: true, ..t })
                &&& (forall|i: int| 0 <= i < len && i != id ==> n.tokens[i] == s.tokens[i])
                &&& !n.approved.contains_key(id)
                &&& (forall|x: u32|
                    x != id ==> (n.approved.contains_key(x) == s.approved.contains_key(x) && (
                    s.approved.contains_key(x) ==> n.approved[x] == s.approved[x])))
                &&& n.owner_list(owner) == s.owner_list(owner).remove_value(id)
                &&& (forall|a: Seq<u8>| a != owner ==> n.owner_list(a) == s.owner_list(a))
                &&& n.active_count == s.active_count - 1
                &&& n == (ContractView {
                    tokens: n.tokens,
                    approved: n.approved,
                    owner_tokens: n.owner_tokens,
                    active_count: n.active_count,
                    ..s
                })
            })
        }),
{
    if s.step(Call::Burn { owner, token_id: id }) is Ok {
        lemma_burn_keeps(s, owner, id);
    }
}

/// Changing a URI succeeds exactly when the collection is initialized and
/// the token exists and is not burned; then that token's URI is the given
/// one, nothing else of it changes, every other token is untouched, and
/// nothing else of the collection changes.
pub proof fn law_update_uri(s: ContractView, id: u32, uri: Seq<char>)
    ensures
        ({
            let r = s.step(Call::UpdateUri { token_id: id, uri });
            let len = s.tokens.len();
            &&& (r is Ok <==> (s.admin is Some && (id as int) < len
                && !s.tokens[id as int].is_burned))
            &&& (s.admin is None ==> r == Err::<ContractView, NftError>(NftError::NotInitialized))
            &&& (s.admin is Some && (id as int) >= len ==> r == Err::<ContractView, NftError>(
                NftError::TokenNotFound,
            ))
            &&& (s.admin is Some && (id as int) < len && s.tokens[id as int].is_burned ==> r
                == Err::<ContractView, NftError>(NftError::TokenBurned))
            &&& (r matches Ok(n) ==> {
                &&& n.tokens.len() == len
                &&& n.tokens[id as int].uri == uri
                &&& n.tokens[id as int] == (crate::types::TokenView {
                    uri,
                    ..s.tokens[id as int]
                })
                &&& (forall|i: int| 0 <= i < len && i != id ==> n.tokens[i] == s.tokens[i])
                &&& n == (ContractView { tokens: n.tokens, ..s })
            })
        }),
{
}

/// Changing the royalty succeeds exactly when the collection is
/// initialized and the rate is at most 10000 basis points; then the rate and
/// receiver are the given ones and nothing else changes.
pub proof fn law_update_royalty(s: ContractView, royalty_bps: u32, royalty_receiver: Seq<u8>)
    ensures
        ({
            let r = s.step(Call::UpdateRoyalty { royalty_bps, royalty_receiver });
            &&& (r is Ok <==> (s.admin is Some && royalty_bps <= 10000))
            &&& (s.admin is None ==> r == Err::<ContractView, NftError>(NftError::NotInitialized))
            &&& (s.admin is Some && royalty_bps > 10000 ==> r == Err::<ContractView, NftError>(
                NftError::RoyaltyTooHigh,
            ))
            &&& (r matches Ok(n) ==> n == (ContractView { royalty_bps, royalty_receiver, ..s }))
        }),
{
}

/// Changing the cap succeeds exactly when the collection is initialized and
/// the new cap is 0 or at least the number minted; then it is the cap and
/// nothing else changes.
pub proof fn law_update_max_supply(s: ContractView, new_max: u32)
    ensures
        ({
            let r = s.step(Call::UpdateMaxSupply { new_max });
            &&& (r is Ok <==> (s.admin is Some && (new_max == 0 || new_max >= s.tokens.len())))
            &&& (s.admin is None ==> r == Err::<ContractView, NftError>(NftError::NotInitialized))
            &&& (s.admin is Some && new_max != 0 && new_max < s.tokens.len() ==> r == Err::<
                ContractView,
                NftError,
            >(NftError::MaxSupplyBelowMinted))
            &&& (r matches Ok(n) ==> n == (ContractView { max_supply: new_max, ..s }))
        }),
{
}

/// Administrative switches succeed exactly on an initialized collection,
/// and each changes only what it names: pause sets the pause, unpause lifts
/// it, a handover records the new administrator, the whitelist toggle sets
/// the requirement, and adding, removing or batch-adding changes the
/// whitelist by exactly those addresses.
pub proof fn law_admin_switches(
    s: ContractView,
    new_admin: Seq<u8>,
    enabled: bool,
    address: Seq<u8>,
    addresses: Seq<Seq<u8>>,
)
    ensures
        s.admin is None ==> {
            &&& s.step(Call::Pause) == Err::<ContractView, NftError>(NftError::NotInitialized)
            &&& s.step(Call::Unpause) == Err::<ContractView, NftError>(NftError::NotInitialized)
            &&& s.step(Call::TransferAdmin { new_admin }) == Err::<ContractView, NftError>(
                NftError::NotInitialized,
            )
            &&& s.step(Call::ToggleWhitelist { enabled }) == Err::<ContractView, NftError>(
                NftError::NotInitialized,
            )
            &&& s.step(Call::AddToWhitelist { address }) == Err::<ContractView, NftError>(
                NftError::NotInitialized,
            )
            &&& s.step(Call::RemoveFromWhitelist { address }) == Err::<ContractView, NftError>(
                NftError::NotInitialized,
            )
            &&& s.step(Call::BatchAddWhitelist { addresses }) == Err::<ContractView, NftError>(
                NftError::NotInitialized,
            )
        },
        (s.step(Call::Pause) is Ok <==> s.admin is Some),
        s.step(Call::Pause) matches Ok(n) ==> n == (ContractView { paused: true, ..s }),
        (s.step(Call::Unpause) is Ok <==> s.admin is Some),
        s.step(Call::Unpause) matches Ok(n) ==> n == (ContractView { paused: false, ..s }),
        (s.step(Call::TransferAdmin { new_admin }) is Ok <==> s.admin is Some),
        s.step(Call::TransferAdmin { new_admin }) matches Ok(n) ==> n == (ContractView {
            admin: Some(new_admin),
            ..s
        }),
        (s.step(Call::ToggleWhitelist { enabled }) is Ok <==> s.admin is Some),
        s.step(Call::ToggleWhitelist { enabled }) matches Ok(n) ==> n == (ContractView {
            whitelist_enabled: enabled,
            ..s
        }),
        (s.step(Call::AddToWhitelist { address }) is Ok <==> s.admin is Some),
        s.step(Call::AddToWhitelist { address }) matches Ok(n) ==> {
            &&& n.whitelist.contains(address)
            &&& (forall|b: Seq<u8>| b != address ==> (n.whitelist.contains(b) == s.whitelist.contains(b)))
            &&& n == (ContractView { whitelist: n.whitelist, ..s })
        },
        (s.step(Call::RemoveFromWhitelist { address }) is Ok <==> s.admin is Some),
        s.step(Call::RemoveFromWhitelist { address }) matches Ok(n) ==> {
            &&& !n.whitelist.contains(address)
            &&& (forall|b: Seq<u8>| b != address ==> (n.whitelist.contains(b) == s.whitelist.contains(b)))
            &&& n == (ContractView { whitelist: n.whitelist, ..s })
        },
        (s.step(Call::BatchAddWhitelist { addresses }) is Ok <==> s.admin is Some),
        s.step(Call::BatchAddWhitelist { addresses }) matches Ok(n) ==> {
            &&& (forall|b: Seq<u8>|
                n.whitelist.contains(b) == (s.whitelist.contains(b) || addresses.contains(b)))
            &&& n == (ContractView { whitelist: n.whitelist, ..s })
        },
{
}

} // verus!
