use vstd::prelude::*;

use crate::model::{
    Call, lemma_push_fresh, lemma_remove_value, lemma_unburned_bound, lemma_unburned_push,
    lemma_unburned_update, new_token, unburned_count, ContractView,
};
use crate::tables::list_in;
use crate::types::{NftError, TokenView};

verus! {

/// A collection that was never initialized is consistent.
pub proof fn lemma_empty_consistent()
    ensures
        ContractView::empty().consistent(),
{
    let s = ContractView::empty();
    assert forall|a: Seq<u8>, id: u32| s.owner_list(a).contains(id) <==> s.owns(a, id) by {}
    assert forall|a: Seq<u8>| #[trigger] s.owner_list(a).no_duplicates() by {}
}

/// Initializing a consistent collection keeps it consistent.
pub proof fn lemma_initialize_keeps(
    s: ContractView,
    admin: Seq<u8>,
    name: Seq<char>,
    symbol: Seq<char>,
    description: Seq<char>,
    max_supply: u32,
    royalty_bps: u32,
    royalty_receiver: Seq<u8>,
)
    requires
        s.consistent(),
        s.initialize_error(royalty_bps) is None,
    ensures
        s.initialized_with(admin, name, symbol, description, max_supply, royalty_bps, royalty_receiver).consistent(),
        s.history_kept(s.initialized_with(admin, name, symbol, description, max_supply, royalty_bps, royalty_receiver)),
{
    let t = s.initialized_with(admin, name, symbol, description, max_supply, royalty_bps, royalty_receiver);
    assert(s.tokens.len() == 0);
    assert forall|a: Seq<u8>, id: u32| t.owner_list(a).contains(id) <==> t.owns(a, id) by {
        assert(s.owner_list(a).contains(id) <==> s.owns(a, id));
    }
    assert forall|a: Seq<u8>| #[trigger] t.owner_list(a).no_duplicates() by {
        assert(s.owner_list(a).no_duplicates());
    }
}

/// Minting one token keeps a collection consistent when the supply cap and
/// the id range leave room for it.
pub proof fn lemma_minted_keeps(
    s: ContractView,
    to: Seq<u8>,
    name: Seq<char>,
    description: Seq<char>,
    uri: Seq<char>,
    timestamp: u64,
)
    requires
        s.consistent(),
        s.initialized(),
        s.tokens.len() < u32::MAX,
        s.max_supply == 0 || s.tokens.len() < s.max_supply,
    ensures
        s.minted(to, name, description, uri, timestamp).consistent(),
        s.history_kept(s.minted(to, name, description, uri, timestamp)),
{
    let id: u32 = s.tokens.len() as u32;
    let t = new_token(id, to, name, description, uri, timestamp);
    let n = s.minted(to, name, description, uri, timestamp);
    lemma_unburned_push(s.tokens, t);
    lemma_unburned_bound(s.tokens);
    assert(!s.owner_list(to).contains(id)) by {
        assert(!s.owns(to, id));
    }
    assert(s.owner_list(to).no_duplicates());
    lemma_push_fresh(s.owner_list(to), id);
    assert forall|i: int| 0 <= i < n.tokens.len() implies #[trigger] n.tokens[i].token_id == i by {
        if i < s.tokens.len() {
            assert(n.tokens[i] == s.tokens[i]);
        }
    }
    assert forall|x: u32| #[trigger] n.approved.contains_key(x) implies (x as int) < n.tokens.len()
        && !n.tokens[x as int].is_burned by {
        assert(s.approved.contains_key(x));
        assert(n.tokens[x as int] == s.tokens[x as int]);
    }
    assert forall|a: Seq<u8>, x: u32| n.owner_list(a).contains(x) <==> n.owns(a, x) by {
        assert(s.owner_list(a).contains(x) <==> s.owns(a, x));
        if (x as int) < s.tokens.len() {
            assert(n.tokens[x as int] == s.tokens[x as int]);
        }
    }
    assert forall|a: Seq<u8>| #[trigger] n.owner_list(a).no_duplicates() by {
        assert(s.owner_list(a).no_duplicates());
    }
    assert forall|i: int| 0 <= i < s.tokens.len() implies #[trigger] n.tokens[i].token_id
        == s.tokens[i].token_id && n.tokens[i].creator == s.tokens[i].creator
        && n.tokens[i].mint_timestamp == s.tokens[i].mint_timestamp && (s.tokens[i].is_burned
        ==> n.tokens[i].is_burned) by {
        assert(n.tokens[i] == s.tokens[i]);
    }
}

/// A successful mint keeps a collection consistent.
pub proof fn lemma_mint_keeps(
    s: ContractView,
    to: Seq<u8>,
    name: Seq<char>,
    description: Seq<char>,
    uri: Seq<char>,
    timestamp: u64,
)
    requires
        s.consistent(),
        s.mint_error(to) is None,
    ensures
        s.minted(to, name, description, uri, timestamp).consistent(),
        s.history_kept(s.minted(to, name, description, uri, timestamp)),
{
    lemma_minted_keeps(s, to, name, description, uri, timestamp);
}

/// Minting `n` tokens in a row keeps a collection consistent when the supply
/// cap and the id range leave room for all of them; the `k`-th of them gets
/// id `total_minted + k`.
pub proof fn lemma_minted_many_keeps(
    s: ContractView,
    to: Seq<u8>,
    names: Seq<Seq<char>>,
    descriptions: Seq<Seq<char>>,
    uris: Seq<Seq<char>>,
    timestamp: u64,
    n: nat,
)
    requires
        s.consistent(),
        s.initialized(),
        s.tokens.len() + n <= u32::MAX,
        s.max_supply == 0 || s.tokens.len() + n <= s.max_supply,
    ensures
        s.minted_many(to, names, descriptions, uris, timestamp, n).consistent(),
        s.history_kept(s.minted_many(to, names, descriptions, uris, timestamp, n)),
        s.minted_many(to, names, descriptions, uris, timestamp, n).tokens.len() == s.tokens.len() + n,
        s.minted_many(to, names, descriptions, uris, timestamp, n).initialized(),
        s.minted_many(to, names, descriptions, uris, timestamp, n).max_supply == s.max_supply,
    decreases n,
{
    if n > 0 {
        let k: nat = (n - 1) as nat;
        lemma_minted_many_keeps(s, to, names, descriptions, uris, timestamp, k);
        let m = s.minted_many(to, names, descriptions, uris, timestamp, k);
        lemma_minted_keeps(m, to, names[k as int], descriptions[k as int], uris[k as int], timestamp);
        let f = m.minted(to, names[k as int], descriptions[k as int], uris[k as int], timestamp);
        assert forall|i: int| 0 <= i < s.tokens.len() implies #[trigger] f.tokens[i].token_id
            == s.tokens[i].token_id && f.tokens[i].creator == s.tokens[i].creator
            && f.tokens[i].mint_timestamp == s.tokens[i].mint_timestamp && (s.tokens[i].is_burned
            ==> f.tokens[i].is_burned) by {
            assert(m.tokens[i].token_id == s.tokens[i].token_id);
        }
    }
}


/// A successful transfer keeps a collection consistent.
pub proof fn lemma_transfer_keeps(s: ContractView, from: Seq<u8>, to: Seq<u8>, id: u32)
    requires
        s.consistent(),
        s.transfer_error(from, id) is None,
    ensures
        s.transferred(to, id).consistent(),
        s.history_kept(s.transferred(to, id)),
{
    let t = s.tokens[id as int];
    let o = t.owner;
    let n = s.transferred(to, id);
    let nt = TokenView { owner: to, transfer_count: (t.transfer_count + 1) as u32, ..t };
    assert(n.tokens[id as int] == nt);
    let lo = s.owner_list(o);
    assert(lo.no_duplicates());
    assert(lo.contains(id)) by {
        assert(s.owns(o, id));
    }
    lemma_remove_value(lo, id);
    let cleared = s.owner_tokens.insert(o, lo.remove_value(id));
    let lt = list_in(cleared, to);
    if to != o {
        assert(lt == s.owner_list(to));
        assert(s.owner_list(to).no_duplicates());
        assert(!s.owns(to, id));
    }
    assert(lt.no_duplicates());
    assert(!lt.contains(id));
    lemma_push_fresh(lt, id);
    lemma_unburned_update(s.tokens, id as int, nt);
    assert forall|i: int| 0 <= i < n.tokens.len() implies #[trigger] n.tokens[i].token_id == i by {
        assert(s.tokens[i].token_id == i);
    }
    assert forall|x: u32| #[trigger] n.approved.contains_key(x) implies (x as int) < n.tokens.len()
        && !n.tokens[x as int].is_burned by {
        assert(s.approved.contains_key(x));
    }
    assert forall|a: Seq<u8>, x: u32| n.owner_list(a).contains(x) <==> n.owns(a, x) by {
        assert(s.owner_list(a).contains(x) <==> s.owns(a, x));
        if x != id && (x as int) < s.tokens.len() {
            assert(n.tokens[x as int] == s.tokens[x as int]);
        }
        if a == to {
            assert(n.owner_list(a) == lt.push(id));
        } else if a == o {
            assert(n.owner_list(a) == lo.remove_value(id));
        } else {
            assert(n.owner_list(a) == s.owner_list(a));
            assert(!s.owns(a, id));
        }
    }
    assert forall|a: Seq<u8>| #[trigger] n.owner_list(a).no_duplicates() by {
        assert(s.owner_list(a).no_duplicates());
        if a == to {
            assert(n.owner_list(a) == lt.push(id));
        } else if a == o {
            assert(n.owner_list(a) == lo.remove_value(id));
        } else {
            assert(n.owner_list(a) == s.owner_list(a));
        }
    }
}

/// Approving an address for an unburned token keeps a collection consistent.
pub proof fn lemma_approve_keeps(s: ContractView, owner: Seq<u8>, approved: Seq<u8>, id: u32)
    requires
        s.consistent(),
        s.approve_error(owner, id) is None,
    ensures
        (ContractView { approved: s.approved.insert(id, approved), ..s }).consistent(),
{
    let n = ContractView { approved: s.approved.insert(id, approved), ..s };
    assert forall|a: Seq<u8>, x: u32| n.owner_list(a).contains(x) <==> n.owns(a, x) by {
        assert(s.owner_list(a).contains(x) <==> s.owns(a, x));
    }
    assert forall|a: Seq<u8>| #[trigger] n.owner_list(a).no_duplicates() by {
        assert(s.owner_list(a).no_duplicates());
    }
    assert forall|x: u32| #[trigger] n.approved.contains_key(x) implies (x as int) < n.tokens.len()
        && !n.tokens[x as int].is_burned by {
        if x != id {
            assert(s.approved.contains_key(x));
        }
    }
}

/// A successful burn keeps a collection consistent, and takes exactly one
/// token out of the supply.
pub proof fn lemma_burn_keeps(s: ContractView, owner: Seq<u8>, id: u32)
    requires
        s.consistent(),
        s.burn_error(owner, id) is None,
    ensures
        s.burned(id).consistent(),
        s.history_kept(s.burned(id)),
        s.burned(id).active_count == s.active_count - 1,
        s.burned(id).tokens.len() == s.tokens.len(),
{
    let t = s.tokens[id as int];
    let o = t.owner;
    let n = s.burned(id);
    let nt = TokenView { is_burned: true, ..t };
    assert(n.tokens[id as int] == nt);
    let lo = s.owner_list(o);
    assert(lo.no_duplicates());
    lemma_remove_value(lo, id);
    lemma_unburned_update(s.tokens, id as int, nt);
    assert(s.active_count > 0);
    assert forall|i: int| 0 <= i < n.tokens.len() implies #[trigger] n.tokens[i].token_id == i by {
        assert(s.tokens[i].token_id == i);
    }
    assert forall|x: u32| #[trigger] n.approved.contains_key(x) implies (x as int) < n.tokens.len()
        && !n.tokens[x as int].is_burned by {
        assert(s.approved.contains_key(x));
    }
    assert forall|a: Seq<u8>, x: u32| n.owner_list(a).contains(x) <==> n.owns(a, x) by {
        assert(s.owner_list(a).contains(x) <==> s.owns(a, x));
        if x != id && (x as int) < s.tokens.len() {
            assert(n.tokens[x as int] == s.tokens[x as int]);
        }
        if a == o {
            assert(n.owner_list(a) == lo.remove_value(id));
        } else {
            assert(n.owner_list(a) == s.owner_list(a));
        }
    }
    assert forall|a: Seq<u8>| #[trigger] n.owner_list(a).no_duplicates() by {
        assert(s.owner_list(a).no_duplicates());
        if a == o {
            assert(n.owner_list(a) == lo.remove_value(id));
        } else {
            assert(n.owner_list(a) == s.owner_list(a));
        }
    }
}

/// Changing the URI of an unburned token keeps a collection consistent.
pub proof fn lemma_with_uri_keeps(s: ContractView, id: u32, uri: Seq<char>)
    requires
        s.consistent(),
        s.update_uri_error(id) is None,
    ensures
        s.with_uri(id, uri).consistent(),
        s.history_kept(s.with_uri(id, uri)),
{
    let n = s.with_uri(id, uri);
    let nt = TokenView { uri, ..s.tokens[id as int] };
    lemma_unburned_update(s.tokens, id as int, nt);
    assert forall|i: int| 0 <= i < n.tokens.len() implies #[trigger] n.tokens[i].token_id == i by {
        assert(s.tokens[i].token_id == i);
    }
    assert forall|x: u32| #[trigger] n.approved.contains_key(x) implies (x as int) < n.tokens.len()
        && !n.tokens[x as int].is_burned by {
        assert(s.approved.contains_key(x));
    }
    assert forall|a: Seq<u8>, x: u32| n.owner_list(a).contains(x) <==> n.owns(a, x) by {
        assert(s.owner_list(a).contains(x) <==> s.owns(a, x));
    }
    assert forall|a: Seq<u8>| #[trigger] n.owner_list(a).no_duplicates() by {
        assert(s.owner_list(a).no_duplicates());
    }
}

/// Changing only settings that the consistency conditions do not mention,
/// or the royalty within its bound, or the supply cap to a value that the
/// minted count respects, keeps a collection consistent.
pub proof fn lemma_settings_keep(s: ContractView, n: ContractView)
    requires
        s.consistent(),
        n.tokens == s.tokens,
        n.active_count == s.active_count,
        n.approved == s.approved,
        n.owner_tokens == s.owner_tokens,
        n.royalty_bps <= 10000,
        n.max_supply == 0 || n.tokens.len() <= n.max_supply,
        s.initialized() ==> n.initialized(),
    ensures
        n.consistent(),
        s.history_kept(n),
{
    assert forall|a: Seq<u8>, x: u32| n.owner_list(a).contains(x) <==> n.owns(a, x) by {
        assert(s.owner_list(a).contains(x) <==> s.owns(a, x));
    }
    assert forall|a: Seq<u8>| #[trigger] n.owner_list(a).no_duplicates() by {
        assert(s.owner_list(a).no_duplicates());
    }
}


/// The supply counter equals the number of tokens that are not burned, and
/// never exceeds the number minted; with a cap, the number minted never
/// exceeds it; and the royalty never exceeds 10000 basis points.
pub proof fn lemma_counters(s: ContractView)
    requires
        s.consistent(),
    ensures
        s.active_count == unburned_count(s.tokens),
        s.active_count <= s.tokens.len(),
        s.max_supply == 0 || s.tokens.len() <= s.max_supply,
        s.royalty_bps <= 10000,
{
    lemma_unburned_bound(s.tokens);
}

/// The ids recorded for an owner are exactly the unburned tokens it holds,
/// each recorded once.
pub proof fn lemma_owner_lists_exact(s: ContractView, owner: Seq<u8>, id: u32)
    requires
        s.consistent(),
    ensures
        s.owner_list(owner).contains(id) <==> s.owns(owner, id),
        s.owner_list(owner).no_duplicates(),
{
}

/// A paused collection refuses mints, batch mints, transfers and burns
/// with `Paused` (mints only once it is initialized, since that is checked
/// first).
pub proof fn lemma_paused_refuses(
    s: ContractView,
    who: Seq<u8>,
    count: nat,
    lengths_match: bool,
    id: u32,
)
    requires
        s.paused,
    ensures
        s.initialized() ==> s.mint_error(who) == Some(crate::types::NftError::Paused),
        s.initialized() ==> s.batch_mint_error(who, count, lengths_match) == Some(
            crate::types::NftError::Paused,
        ),
        s.transfer_error(who, id) == Some(crate::types::NftError::Paused),
        s.burn_error(who, id) == Some(crate::types::NftError::Paused),
{
}

/// After a mint, the new token has the next id, belongs to and was created
/// by the recipient, has never been transferred, is listed for the
/// recipient, and counts once more in both the minted total and the supply.
pub proof fn lemma_mint_effect(
    s: ContractView,
    to: Seq<u8>,
    name: Seq<char>,
    description: Seq<char>,
    uri: Seq<char>,
    timestamp: u64,
)
    requires
        s.consistent(),
        s.mint_error(to) is None,
    ensures
        ({
            let n = s.minted(to, name, description, uri, timestamp);
            let id: u32 = s.tokens.len() as u32;
            &&& n.tokens.len() == s.tokens.len() + 1
            &&& n.active_count == s.active_count + 1
            &&& n.owns(to, id)
            &&& n.tokens[id as int].creator == to
            &&& n.tokens[id as int].transfer_count == 0
            &&& n.owner_list(to).contains(id)
        }),
{
    lemma_minted_keeps(s, to, name, description, uri, timestamp);
    let n = s.minted(to, name, description, uri, timestamp);
    let id: u32 = s.tokens.len() as u32;
    lemma_unburned_bound(s.tokens);
    assert(n.owns(to, id));
}

/// After a transfer, the recipient owns the token and lists it, the former
/// owner no longer lists it (unless it is the recipient), its transfer
/// count has grown by one, its creator is unchanged, and no address is
/// approved for it any more; the minted total and the supply are unchanged.
pub proof fn lemma_transfer_effect(s: ContractView, from: Seq<u8>, to: Seq<u8>, id: u32)
    requires
        s.consistent(),
        s.transfer_error(from, id) is None,
    ensures
        ({
            let n = s.transferred(to, id);
            let before = s.tokens[id as int];
            &&& n.owns(to, id)
            &&& n.owner_list(to).contains(id)
            &&& (before.owner != to ==> !n.owner_list(before.owner).contains(id))
            &&& n.tokens[id as int].transfer_count == before.transfer_count + 1
            &&& n.tokens[id as int].creator == before.creator
            &&& !n.approved.contains_key(id)
            &&& n.tokens.len() == s.tokens.len()
            &&& n.active_count == s.active_count
        }),
{
    lemma_transfer_keeps(s, from, to, id);
    let n = s.transferred(to, id);
    assert(n.owns(to, id));
    let before = s.tokens[id as int];
    if before.owner != to {
        assert(!n.owns(before.owner, id));
    }
}

/// After a burn, the token is still on record but burned, listed for no
/// one, approved for no one, and out of the supply; the minted total is
/// unchanged.
pub proof fn lemma_burn_effect(s: ContractView, owner: Seq<u8>, id: u32, anyone: Seq<u8>)
    requires
        s.consistent(),
        s.burn_error(owner, id) is None,
    ensures
        ({
            let n = s.burned(id);
            &&& n.tokens[id as int].is_burned
            &&& !n.owner_list(anyone).contains(id)
            &&& !n.approved.contains_key(id)
            &&& n.tokens.len() == s.tokens.len()
            &&& n.active_count == s.active_count - 1
        }),
{
    lemma_burn_keeps(s, owner, id);
    let n = s.burned(id);
    assert(!n.owns(anyone, id));
}


/// What is recorded is what is read back: an operator approval set for a
/// pair is the one `is_approved_for_all` reports for it, an approval for a
/// token is the one `get_approved` reports, an address put on the whitelist
/// is on it, and one taken off is not.
pub proof fn lemma_read_after_write(
    s: ContractView,
    owner: Seq<u8>,
    operator: Seq<u8>,
    approved: bool,
    id: u32,
    who: Seq<u8>,
)
    ensures
        (ContractView {
            operators: s.operators.insert((owner, operator), approved),
            ..s
        }).is_operator(owner, operator) == approved,
        (ContractView { approved: s.approved.insert(id, who), ..s }).approved[id] == who,
        (ContractView { whitelist: s.whitelist.insert(who), ..s }).whitelist.contains(who),
        !(ContractView { whitelist: s.whitelist.remove(who), ..s }).whitelist.contains(who),
{
}


/// Keeping the tokens' history is transitive.
pub proof fn lemma_history_trans(a: ContractView, b: ContractView, c: ContractView)
    requires
        a.history_kept(b),
        b.history_kept(c),
    ensures
        a.history_kept(c),
{
    assert forall|i: int| 0 <= i < a.tokens.len() implies #[trigger] c.tokens[i].token_id
        == a.tokens[i].token_id && c.tokens[i].creator == a.tokens[i].creator
        && c.tokens[i].mint_timestamp == a.tokens[i].mint_timestamp && (a.tokens[i].is_burned
        ==> c.tokens[i].is_burned) by {
        assert(b.tokens[i].token_id == a.tokens[i].token_id);
        assert(c.tokens[i].token_id == b.tokens[i].token_id);
    }
}

/// Every call that succeeds on a consistent collection leaves it
/// consistent, and keeps the tokens' history.
pub proof fn lemma_step_keeps(s: ContractView, c: Call)
    requires
        s.consistent(),
    ensures
        s.step(c) matches Ok(n) ==> n.consistent() && s.history_kept(n),
{
    match c {
        Call::Initialize {
            admin,
            name,
            symbol,
            description,
            max_supply,
            royalty_bps,
            royalty_receiver,
        } => {
            if s.initialize_error(royalty_bps) is None {
                lemma_initialize_keeps(
                    s,
                    admin,
                    name,
                    symbol,
                    description,
                    max_supply,
                    royalty_bps,
                    royalty_receiver,
                );
            }
        },
        Call::Mint { to, name, description, uri, timestamp } => {
            if s.mint_error(to) is None {
                lemma_mint_keeps(s, to, name, description, uri, timestamp);
            }
        },
        Call::BatchMint { to, names, descriptions, uris, timestamp } => {
            if s.batch_mint_error(
                to,
                names.len(),
                names.len() == descriptions.len() && names.len() == uris.len(),
            ) is None {
                lemma_minted_many_keeps(s, to, names, descriptions, uris, timestamp, names.len());
            }
        },
        Call::Transfer { from, to, token_id } => {
            if s.transfer_error(from, token_id) is None {
                lemma_transfer_keeps(s, from, to, token_id);
            }
        },
        Call::Approve { owner, approved, token_id } => {
            if s.approve_error(owner, token_id) is None {
                lemma_approve_keeps(s, owner, approved, token_id);
            }
        },
        Call::SetApprovalForAll { owner, operator, is_approved } => {
            lemma_settings_keep(
                s,
                ContractView { operators: s.operators.insert((owner, operator), is_approved), ..s },
            );
        },
        Call::Burn { owner, token_id } => {
            if s.burn_error(owner, token_id) is None {
                lemma_burn_keeps(s, owner, token_id);
            }
        },
        Call::UpdateUri { token_id, uri } => {
            if s.update_uri_error(token_id) is None {
                lemma_with_uri_keeps(s, token_id, uri);
            }
        },
        Call::UpdateRoyalty { royalty_bps, royalty_receiver } => {
            if s.update_royalty_error(royalty_bps) is None {
                lemma_settings_keep(s, ContractView { royalty_bps, royalty_receiver, ..s });
            }
        },
        Call::UpdateMaxSupply { new_max } => {
            if s.update_max_supply_error(new_max) is None {
                lemma_settings_keep(s, ContractView { max_supply: new_max, ..s });
            }
        },
        Call::Pause => {
            lemma_settings_keep(s, ContractView { paused: true, ..s });
        },
        Call::Unpause => {
            lemma_settings_keep(s, ContractView { paused: false, ..s });
        },
        Call::TransferAdmin { new_admin } => {
            lemma_settings_keep(s, ContractView { admin: Some(new_admin), ..s });
        },
        Call::ToggleWhitelist { enabled } => {
            lemma_settings_keep(s, ContractView { whitelist_enabled: enabled, ..s });
        },
        Call::AddToWhitelist { address } => {
            lemma_settings_keep(s, ContractView { whitelist: s.whitelist.insert(address), ..s });
        },
        Call::RemoveFromWhitelist { address } => {
            lemma_settings_keep(s, ContractView { whitelist: s.whitelist.remove(address), ..s });
        },
        Call::BatchAddWhitelist { addresses } => {
            lemma_settings_keep(
                s,
                ContractView { whitelist: s.whitelist.union(addresses.to_set()), ..s },
            );
        },
    }
}

/// Any sequence of calls keeps a consistent collection consistent and keeps
/// the tokens' history: no call lowers the number minted, changes a
/// token's id, creator or mint time, or revives a burned token.
pub proof fn lemma_run_keeps(s: ContractView, calls: Seq<Call>)
    requires
        s.consistent(),
    ensures
        s.run(calls).consistent(),
        s.history_kept(s.run(calls)),
    decreases calls.len(),
{
    if calls.len() > 0 {
        let before = s.run(calls.drop_last());
        lemma_run_keeps(s, calls.drop_last());
        lemma_step_keeps(before, calls.last());
        if let Ok(n) = before.step(calls.last()) {
            lemma_history_trans(s, before, n);
        }
    }
}

/// Whether a call is a mint, a batch mint, a transfer or a burn.
pub open spec fn moves_tokens(c: Call) -> bool {
    ||| c is Mint
    ||| c is BatchMint
    ||| c is Transfer
    ||| c is Burn
}

/// What a pause freezes: who owns which token, which tokens are burned,
/// the minted total, the supply and the owners' lists.
pub open spec fn ownership_frozen(a: ContractView, b: ContractView) -> bool {
    &&& b.tokens.len() == a.tokens.len()
    &&& forall|i: int|
        0 <= i < a.tokens.len() ==> (#[trigger] b.tokens[i]).owner == a.tokens[i].owner
            && b.tokens[i].is_burned == a.tokens[i].is_burned
    &&& b.active_count == a.active_count
    &&& b.owner_tokens == a.owner_tokens
}

/// Once an initialized collection is paused, and until a call to unpause,
/// every mint, batch mint, transfer and burn is refused with `Paused`, the
/// collection stays paused, and who owns which token, which tokens are
/// burned, the minted total, the supply and the owners' lists stay as they
/// were; other calls (approvals, settings) still take effect.
pub proof fn lemma_pause_holds(s: ContractView, calls: Seq<Call>)
    requires
        s.initialized(),
        s.paused,
        forall|i: int| 0 <= i < calls.len() ==> !(#[trigger] calls[i] is Unpause),
    ensures
        s.run(calls).paused,
        s.run(calls).initialized(),
        ownership_frozen(s, s.run(calls)),
        forall|i: int|
            0 <= i < calls.len() && moves_tokens(#[trigger] calls[i]) ==> s.run(calls.take(i)).step(
                calls[i],
            ) == Err::<ContractView, NftError>(NftError::Paused),
    decreases calls.len(),
{
    if calls.len() > 0 {
        let rest = calls.drop_last();
        lemma_pause_holds(s, rest);
        let before = s.run(rest);
        let c = calls.last();
        assert(!(c is Unpause)) by {
            assert(calls[calls.len() - 1] == c);
        }
        if let Ok(n) = before.step(c) {
            match c {
                Call::UpdateUri { token_id, uri } => {
                    assert forall|i: int| 0 <= i < s.tokens.len() implies (#[trigger] n.tokens[i]).owner
                        == s.tokens[i].owner && n.tokens[i].is_burned == s.tokens[i].is_burned by {
                        assert(before.tokens[i].owner == s.tokens[i].owner);
                    }
                },
                _ => {},
            }
        }
        assert forall|i: int|
            0 <= i < calls.len() && moves_tokens(#[trigger] calls[i]) implies s.run(
                calls.take(i),
            ).step(calls[i]) == Err::<ContractView, NftError>(NftError::Paused) by {
            if i < calls.len() - 1 {
                assert(rest.take(i) =~= calls.take(i));
                assert(rest[i] == calls[i]);
            } else {
                assert(calls.take(i) =~= rest);
            }
        }
    }
}


/// Whether a call is a transfer, burn or approval of token `id`.
pub open spec fn touches(c: Call, id: u32) -> bool {
    match c {
        Call::Transfer { token_id, .. } => token_id == id,
        Call::Burn { token_id, .. } => token_id == id,
        Call::Approve { token_id, .. } => token_id == id,
        _ => false,
    }
}

/// Whether the `j`-th of the calls, made from `s` after those before it,
/// succeeds.
pub open spec fn succeeds_at(s: ContractView, calls: Seq<Call>, j: int) -> bool {
    s.run(calls.take(j)).step(calls[j]) is Ok
}

/// Whether the `i`-th call is a successful approval of `x` for token `id`,
/// after which no call that succeeds transfers, burns or approves `id`.
pub open spec fn last_approval(s: ContractView, calls: Seq<Call>, id: u32, x: Seq<u8>, i: int) -> bool {
    &&& 0 <= i < calls.len()
    &&& calls[i] matches Call::Approve { approved, token_id, .. } && token_id == id && approved == x
    &&& succeeds_at(s, calls, i)
    &&& forall|j: int| i < j < calls.len() && succeeds_at(s, calls, j) ==> !touches(#[trigger] calls[j], id)
}

/// Minting keeps every approval as it was.
pub proof fn lemma_minted_many_approvals(
    s: ContractView,
    to: Seq<u8>,
    names: Seq<Seq<char>>,
    descriptions: Seq<Seq<char>>,
    uris: Seq<Seq<char>>,
    timestamp: u64,
    n: nat,
)
    ensures
        s.minted_many(to, names, descriptions, uris, timestamp, n).approved == s.approved,
    decreases n,
{
    if n > 0 {
        lemma_minted_many_approvals(s, to, names, descriptions, uris, timestamp, (n - 1) as nat);
    }
}

/// A successful call that does not transfer, burn or approve token `id`
/// leaves its approval as it was; a successful transfer or burn of `id`
/// clears it.
pub proof fn lemma_step_approval(s: ContractView, c: Call, id: u32)
    ensures
        s.step(c) matches Ok(n) ==> (!touches(c, id) ==> (n.approved.contains_key(id)
            == s.approved.contains_key(id) && (s.approved.contains_key(id) ==> n.approved[id]
            == s.approved[id]))),
        s.step(c) matches Ok(n) ==> ((c is Transfer || c is Burn) && touches(c, id)
            ==> !n.approved.contains_key(id)),
{
    match c {
        Call::BatchMint { to, names, descriptions, uris, timestamp } => {
            lemma_minted_many_approvals(s, to, names, descriptions, uris, timestamp, names.len());
        },
        _ => {},
    }
}

/// An approval that stands after any sequence of calls from a state where
/// token `id` had none was set by a successful `approve` of that address
/// for `id` (so by the token's owner at the time, on an unburned token),
/// and no successful call since has transferred, burned or re-approved the
/// token. A fresh collection has no approvals, so this holds of every
/// approval of a collection built by calls from `new`.
#[verifier::rlimit(50)]
pub proof fn lemma_approval_origin(s: ContractView, calls: Seq<Call>, id: u32)
    requires
        !s.approved.contains_key(id),
    ensures
        s.run(calls).approved.contains_key(id) ==> exists|i: int|
            last_approval(s, calls, id, s.run(calls).approved[id], i),
    decreases calls.len(),
{
    if calls.len() > 0 {
        let rest = calls.drop_last();
        let k = calls.len() - 1;
        lemma_approval_origin(s, rest, id);
        let before = s.run(rest);
        let c = calls.last();
        let n = s.run(calls);
        assert(calls.take(k) =~= rest);
        assert(calls[k] == c);
        lemma_step_approval(before, c, id);
        if n.approved.contains_key(id) {
            let x = n.approved[id];
            let approved_here = c matches Call::Approve { token_id, .. } && token_id == id;
            if before.step(c) is Ok && approved_here {
                assert(last_approval(s, calls, id, x, k));
            } else {
                assert(before.approved.contains_key(id) && before.approved[id] == x);
                let i = choose|i: int| last_approval(s, rest, id, x, i);
                assert(rest.take(i) =~= calls.take(i));
                assert forall|j: int| i < j < calls.len() && succeeds_at(s, calls, j) implies !touches(
                    #[trigger] calls[j],
                    id,
                ) by {
                    if j < k {
                        assert(rest.take(j) =~= calls.take(j));
                        assert(rest[j] == calls[j]);
                        assert(succeeds_at(s, rest, j));
                    }
                }
                assert(last_approval(s, calls, id, x, i));
            }
        }
    }
}


/// The total length of the owners' lists that `m` records for the addresses
/// in `keys`.
pub open spec fn listed_total(m: Map<Seq<u8>, Seq<u32>>, keys: Set<Seq<u8>>) -> nat {
    keys.fold(0nat, |acc: nat, a: Seq<u8>| acc + list_in(m, a).len())
}

/// The ids that `m` lists for some address in `keys`.
pub open spec fn listed_ids(m: Map<Seq<u8>, Seq<u32>>, keys: Set<Seq<u8>>) -> Set<u32> {
    Set::new(|id: u32| exists|a: Seq<u8>| keys.contains(a) && #[trigger] list_in(m, a).contains(id))
}

/// The ids of the tokens that are not burned.
pub open spec fn live_ids(tokens: Seq<TokenView>) -> Set<u32> {
    Set::new(|id: u32| (id as int) < tokens.len() && !tokens[id as int].is_burned)
}

/// When no list repeats an id and no id is listed for two addresses, the
/// lists' total length over a finite set of addresses is the number of ids
/// they list.
proof fn lemma_listed_total_counts(m: Map<Seq<u8>, Seq<u32>>, keys: Set<Seq<u8>>)
    requires
        keys.finite(),
        forall|a: Seq<u8>| #[trigger] list_in(m, a).no_duplicates(),
        forall|a: Seq<u8>, b: Seq<u8>, id: u32|
            a != b && #[trigger] list_in(m, a).contains(id) ==> !#[trigger] list_in(m, b).contains(id),
    ensures
        listed_ids(m, keys).finite(),
        listed_total(m, keys) == listed_ids(m, keys).len(),
    decreases keys.len(),
{
    let f = |acc: nat, a: Seq<u8>| acc + list_in(m, a).len();
    if keys.len() == 0 {
        vstd::set_lib::lemma_set_empty_equivalency_len(keys);
        assert(keys =~= Set::<Seq<u8>>::empty());
        assert(listed_ids(m, keys) =~= Set::<u32>::empty());
        vstd::set::fold::lemma_fold_empty::<Seq<u8>, nat>(0nat, f);
    } else {
        let k = keys.choose();
        vstd::set_lib::lemma_set_empty_equivalency_len(keys);
        assert(keys.contains(k));
        let rest = keys.remove(k);
        lemma_listed_total_counts(m, rest);
        assert(rest.insert(k) =~= keys);
        assert(vstd::set::fold::is_fun_commutative(f)) by {
            assert forall|b: nat, a1: Seq<u8>, a2: Seq<u8>| #[trigger] f(f(b, a1), a2) == f(f(b, a2), a1) by {}
        }
        vstd::set::fold::lemma_fold_insert(rest, 0nat, f, k);
        let lk = list_in(m, k);
        lk.unique_seq_to_set();
        assert(listed_ids(m, keys) =~= listed_ids(m, rest) + lk.to_set()) by {
            assert forall|id: u32| #[trigger] listed_ids(m, keys).contains(id) implies (listed_ids(
                m,
                rest,
            ) + lk.to_set()).contains(id) by {
                let a = choose|a: Seq<u8>| keys.contains(a) && #[trigger] list_in(m, a).contains(id);
                if a != k {
                    assert(rest.contains(a));
                }
            }
            assert forall|id: u32| #[trigger] (listed_ids(m, rest) + lk.to_set()).contains(id) implies listed_ids(
                m,
                keys,
            ).contains(id) by {
                if lk.to_set().contains(id) {
                    assert(keys.contains(k) && list_in(m, k).contains(id));
                } else {
                    let a = choose|a: Seq<u8>| rest.contains(a) && #[trigger] list_in(m, a).contains(id);
                    assert(keys.contains(a));
                }
            }
        }
        assert(listed_ids(m, rest).disjoint(lk.to_set())) by {
            assert forall|id: u32| #[trigger] listed_ids(m, rest).contains(id) implies !lk.to_set().contains(id) by {
                let a = choose|a: Seq<u8>| rest.contains(a) && #[trigger] list_in(m, a).contains(id);
                assert(a != k);
            }
        }
        vstd::set_lib::lemma_set_disjoint_lens(listed_ids(m, rest), lk.to_set());
    }
}

/// The number of unburned tokens is the size of the set of their ids.
proof fn lemma_live_ids_count(tokens: Seq<TokenView>)
    requires
        tokens.len() <= u32::MAX,
    ensures
        live_ids(tokens).finite(),
        live_ids(tokens).len() == unburned_count(tokens),
    decreases tokens.len(),
{
    if tokens.len() == 0 {
        assert(live_ids(tokens) =~= Set::<u32>::empty());
    } else {
        let rest = tokens.drop_last();
        lemma_live_ids_count(rest);
        let last: u32 = (tokens.len() - 1) as u32;
        if tokens.last().is_burned {
            assert(live_ids(tokens) =~= live_ids(rest));
        } else {
            assert(live_ids(tokens) =~= live_ids(rest).insert(last));
            assert(!live_ids(rest).contains(last));
        }
    }
}

/// The supply equals the total length of the owners' lists: every unburned
/// token is listed for exactly one owner, once, and nothing else is listed.
pub proof fn lemma_supply_is_listed_total(s: ContractView)
    requires
        s.consistent(),
    ensures
        s.active_count == listed_total(s.owner_tokens, s.owner_tokens.dom()),
        listed_ids(s.owner_tokens, s.owner_tokens.dom()) == live_ids(s.tokens),
{
    let m = s.owner_tokens;
    assert forall|a: Seq<u8>| #[trigger] list_in(m, a).no_duplicates() by {
        assert(s.owner_list(a).no_duplicates());
    }
    assert forall|a: Seq<u8>, b: Seq<u8>, id: u32|
        a != b && #[trigger] list_in(m, a).contains(id) implies !#[trigger] list_in(m, b).contains(id) by {
        assert(s.owner_list(a).contains(id) <==> s.owns(a, id));
        assert(s.owner_list(b).contains(id) <==> s.owns(b, id));
    }
    lemma_listed_total_counts(m, m.dom());
    assert(listed_ids(m, m.dom()) =~= live_ids(s.tokens)) by {
        assert forall|id: u32| #[trigger] listed_ids(m, m.dom()).contains(id) implies live_ids(s.tokens).contains(id) by {
            let a = choose|a: Seq<u8>| m.dom().contains(a) && #[trigger] list_in(m, a).contains(id);
            assert(s.owner_list(a).contains(id) <==> s.owns(a, id));
        }
        assert forall|id: u32| #[trigger] live_ids(s.tokens).contains(id) implies listed_ids(m, m.dom()).contains(id) by {
            let a = s.tokens[id as int].owner;
            assert(s.owns(a, id));
            assert(s.owner_list(a).contains(id));
            assert(m.dom().contains(a));
        }
    }
    lemma_live_ids_count(s.tokens);
}

} // verus!
