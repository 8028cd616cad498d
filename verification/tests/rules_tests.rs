use soroban_nft::{Address, NFTContract, NftError};

const NOW: u64 = 1_700_000_000;

fn addr(name: &str) -> Address {
    Address::from_bytes(name.as_bytes().to_vec())
}

fn s(text: &str) -> String {
    text.to_string()
}

fn fresh(max_supply: u32) -> (NFTContract, Address) {
    let mut c = NFTContract::new();
    let admin = addr("GADMIN");
    assert_eq!(
        c.initialize(admin.clone(), s("Col"), s("COL"), s("Desc"), max_supply, 250, admin.clone()),
        Ok(())
    );
    (c, admin)
}

fn mint(c: &mut NFTContract, to: &Address) -> Result<u32, NftError> {
    c.mint(to.clone(), s("n"), s("d"), s("u"), NOW)
}

fn batch(c: &mut NFTContract, to: &Address, n: usize) -> Result<Vec<u32>, NftError> {
    let names: Vec<String> = (0..n).map(|i| format!("n{}", i)).collect();
    let descs: Vec<String> = (0..n).map(|i| format!("d{}", i)).collect();
    let uris: Vec<String> = (0..n).map(|i| format!("u{}", i)).collect();
    c.batch_mint(to.clone(), names, descs, uris, NOW)
}

#[test]
fn uninitialized_collection_refuses_admin_work_and_reads_zero() {
    let mut c = NFTContract::new();
    let alice = addr("GALICE");
    assert_eq!(c.total_minted(), 0);
    assert_eq!(c.total_supply(), 0);
    assert!(!c.is_paused());
    assert_eq!(c.get_admin(), Err(NftError::NotInitialized));
    assert_eq!(c.collection_info(), Err(NftError::MissingValue));
    assert_eq!(c.royalty_info(), Err(NftError::MissingValue));
    assert_eq!(mint(&mut c, &alice), Err(NftError::NotInitialized));
    assert_eq!(batch(&mut c, &alice, 2), Err(NftError::NotInitialized));
    assert_eq!(c.pause(), Err(NftError::NotInitialized));
    assert_eq!(c.add_to_whitelist(alice.clone()), Err(NftError::NotInitialized));
    assert_eq!(c.update_max_supply(3), Err(NftError::NotInitialized));
    assert_eq!(c.transfer_admin(alice.clone()), Err(NftError::NotInitialized));
    assert_eq!(c.update_uri(0, s("x")), Err(NftError::NotInitialized));
}

#[test]
fn initialize_refuses_royalty_above_ten_thousand() {
    let mut c = NFTContract::new();
    let admin = addr("GADMIN");
    assert_eq!(
        c.initialize(admin.clone(), s("a"), s("b"), s("c"), 0, 10001, admin.clone()),
        Err(NftError::InitRoyaltyTooHigh)
    );
    assert_eq!(c.get_admin(), Err(NftError::NotInitialized));
    assert_eq!(
        c.initialize(admin.clone(), s("a"), s("b"), s("c"), 0, 10000, admin.clone()),
        Ok(())
    );
    assert_eq!(c.royalty_info().unwrap().amount_bps, 10000);
}

#[test]
fn operator_approval_may_be_recorded_before_initialization() {
    let mut c = NFTContract::new();
    let a = addr("GA");
    let b = addr("GB");
    assert_eq!(c.set_approval_for_all(a.clone(), b.clone(), true), Ok(()));
    assert!(c.is_approved_for_all(&a, &b));
    assert!(!c.is_approved_for_all(&b, &a));
}

#[test]
fn ids_are_consecutive_across_mint_and_batch_mint() {
    let (mut c, _) = fresh(0);
    let alice = addr("GALICE");
    assert_eq!(mint(&mut c, &alice), Ok(0));
    assert_eq!(mint(&mut c, &alice), Ok(1));
    assert_eq!(batch(&mut c, &alice, 3), Ok(vec![2, 3, 4]));
    assert_eq!(mint(&mut c, &alice), Ok(5));
    assert_eq!(c.tokens_of(&alice), vec![0, 1, 2, 3, 4, 5]);
    let nft = c.get_nft(3).unwrap();
    assert_eq!(nft.token_id, 3);
    assert_eq!(nft.name, s("n1"));
    assert_eq!(nft.description, s("d1"));
    assert_eq!(nft.uri, s("u1"));
    assert_eq!(nft.mint_timestamp, NOW);
}

#[test]
fn batch_mint_refusals_in_order() {
    let (mut c, _) = fresh(3);
    let alice = addr("GALICE");
    assert_eq!(
        c.batch_mint(alice.clone(), vec![s("a"), s("b")], vec![s("a")], vec![s("a"), s("b")], NOW),
        Err(NftError::LengthMismatch)
    );
    assert_eq!(batch(&mut c, &alice, 0), Err(NftError::EmptyBatch));
    assert_eq!(batch(&mut c, &alice, 4), Err(NftError::BatchExceedsMaxSupply));
    assert_eq!(c.total_minted(), 0);
    assert_eq!(batch(&mut c, &alice, 3), Ok(vec![0, 1, 2]));
    assert_eq!(mint(&mut c, &alice), Err(NftError::MaxSupplyReached));
    c.pause().unwrap();
    assert_eq!(batch(&mut c, &alice, 1), Err(NftError::Paused));
}

#[test]
fn batch_mint_respects_whitelist() {
    let (mut c, _) = fresh(0);
    let alice = addr("GALICE");
    c.toggle_whitelist(true).unwrap();
    assert_eq!(batch(&mut c, &alice, 2), Err(NftError::NotWhitelisted));
    c.batch_add_whitelist(vec![alice.clone()]).unwrap();
    assert_eq!(batch(&mut c, &alice, 2), Ok(vec![0, 1]));
}

#[test]
fn refused_transfer_changes_nothing() {
    let (mut c, _) = fresh(0);
    let alice = addr("GALICE");
    let bob = addr("GBOB");
    let eve = addr("GEVE");
    let id = mint(&mut c, &alice).unwrap();
    assert_eq!(c.transfer(eve.clone(), bob.clone(), id), Err(NftError::NotOwnerOrApproved));
    assert_eq!(c.owner_of(id), Ok(alice.clone()));
    assert_eq!(c.tokens_of(&alice), vec![id]);
    assert_eq!(c.tokens_of(&bob), Vec::<u32>::new());
    assert_eq!(c.get_nft(id).unwrap().transfer_count, 0);
    assert_eq!(c.transfer(alice.clone(), bob.clone(), 7), Err(NftError::TokenNotFound));
    assert_eq!(c.get_nft(7), Err(NftError::TokenNotFound));
}

#[test]
fn self_transfer_keeps_one_entry_and_counts() {
    let (mut c, _) = fresh(0);
    let alice = addr("GALICE");
    let a = mint(&mut c, &alice).unwrap();
    let b = mint(&mut c, &alice).unwrap();
    c.transfer(alice.clone(), alice.clone(), a).unwrap();
    assert_eq!(c.tokens_of(&alice), vec![b, a]);
    assert_eq!(c.get_nft(a).unwrap().transfer_count, 1);
}

#[test]
fn transfer_keeps_order_of_the_rest() {
    let (mut c, _) = fresh(0);
    let alice = addr("GALICE");
    let bob = addr("GBOB");
    let ids = batch(&mut c, &alice, 4).unwrap();
    c.transfer(alice.clone(), bob.clone(), ids[1]).unwrap();
    assert_eq!(c.tokens_of(&alice), vec![0, 2, 3]);
    assert_eq!(c.tokens_of(&bob), vec![1]);
}

#[test]
fn operator_of_another_owner_cannot_move() {
    let (mut c, _) = fresh(0);
    let alice = addr("GALICE");
    let bob = addr("GBOB");
    let op = addr("GOP");
    let id = mint(&mut c, &alice).unwrap();
    c.set_approval_for_all(bob.clone(), op.clone(), true).unwrap();
    assert_eq!(c.transfer(op.clone(), op.clone(), id), Err(NftError::NotOwnerOrApproved));
    assert_eq!(c.set_approval_for_all(op.clone(), op.clone(), true), Err(NftError::SelfOperator));
}

#[test]
fn burn_clears_approval_and_refuses_later_work() {
    let (mut c, _) = fresh(0);
    let alice = addr("GALICE");
    let bob = addr("GBOB");
    let id = mint(&mut c, &alice).unwrap();
    c.approve(alice.clone(), bob.clone(), id).unwrap();
    assert_eq!(c.get_approved(id), Some(bob.clone()));
    c.burn(alice.clone(), id).unwrap();
    assert_eq!(c.get_approved(id), None);
    assert_eq!(c.owner_of(id), Err(NftError::TokenBurned));
    assert_eq!(c.approve(alice.clone(), bob.clone(), id), Err(NftError::TokenBurned));
    assert_eq!(c.update_uri(id, s("x")), Err(NftError::TokenBurned));
    assert_eq!(c.burn(alice.clone(), id), Err(NftError::AlreadyBurned));
    assert_eq!(c.total_supply(), 0);
    assert_eq!(c.total_minted(), 1);
}

#[test]
fn paused_collection_refuses_burn_but_allows_approve() {
    let (mut c, _) = fresh(0);
    let alice = addr("GALICE");
    let bob = addr("GBOB");
    let id = mint(&mut c, &alice).unwrap();
    c.pause().unwrap();
    assert_eq!(c.burn(alice.clone(), id), Err(NftError::Paused));
    assert_eq!(c.approve(alice.clone(), bob.clone(), id), Ok(()));
    c.unpause().unwrap();
    assert_eq!(c.transfer(bob.clone(), bob.clone(), id), Ok(()));
}

#[test]
fn supply_counts_only_live_tokens() {
    let (mut c, _) = fresh(0);
    let alice = addr("GALICE");
    let bob = addr("GBOB");
    let ids = batch(&mut c, &alice, 5).unwrap();
    c.burn(alice.clone(), ids[0]).unwrap();
    c.transfer(alice.clone(), bob.clone(), ids[1]).unwrap();
    c.burn(bob.clone(), ids[1]).unwrap();
    assert_eq!(c.total_supply(), 3);
    assert_eq!(c.total_minted(), 5);
    let live = c.tokens_of(&alice).len() + c.tokens_of(&bob).len();
    assert_eq!(live as u32, c.total_supply());
}

#[test]
fn max_supply_update_rules() {
    let (mut c, _) = fresh(10);
    let alice = addr("GALICE");
    batch(&mut c, &alice, 3).unwrap();
    assert_eq!(c.update_max_supply(2), Err(NftError::MaxSupplyBelowMinted));
    assert_eq!(c.update_max_supply(3), Ok(()));
    assert_eq!(mint(&mut c, &alice), Err(NftError::MaxSupplyReached));
    assert_eq!(c.update_max_supply(0), Ok(()));
    assert_eq!(mint(&mut c, &alice), Ok(3));
    assert_eq!(c.collection_info().unwrap().total_minted, 4);
}

#[test]
fn whitelist_add_remove_round_trip() {
    let (mut c, _) = fresh(0);
    let a = addr("GA");
    c.add_to_whitelist(a.clone()).unwrap();
    c.add_to_whitelist(a.clone()).unwrap();
    assert!(c.is_whitelisted(&a));
    c.remove_from_whitelist(a.clone()).unwrap();
    assert!(!c.is_whitelisted(&a));
}

#[test]
fn messages_describe_refusals() {
    assert_eq!(NftError::NotInitialized.message(), "not initialized");
    assert_eq!(NftError::SelfOperator.message(), "owner cannot be operator of themselves");
    assert_eq!(NftError::EmptyBatch.message(), "batch cannot be empty");
    assert_eq!(NftError::Overflow.message(), "arithmetic overflow");
    assert_eq!(NftError::InitRoyaltyTooHigh.message(), "royalty_bps cannot exceed 10000 (100%)");
    assert_eq!(NftError::RoyaltyTooHigh.message(), "royalty_bps cannot exceed 10000");
}

#[test]
fn addresses_compare_by_bytes() {
    let a = addr("GSAME");
    let b = Address::from_bytes(b"GSAME".to_vec());
    let c = addr("GOTHER");
    assert!(a.same(&b));
    assert!(!a.same(&c));
    assert_eq!(a.to_bytes(), b"GSAME".to_vec());
    assert_eq!(a.copy(), a);
}

#[test]
fn pause_freezes_ownership_across_calls() {
    let (mut c, admin) = fresh(0);
    let alice = addr("GALICE");
    let bob = addr("GBOB");
    let id = mint(&mut c, &alice).unwrap();
    c.pause().unwrap();
    assert_eq!(mint(&mut c, &alice), Err(NftError::Paused));
    assert_eq!(batch(&mut c, &alice, 2), Err(NftError::Paused));
    assert_eq!(c.transfer(alice.clone(), bob.clone(), id), Err(NftError::Paused));
    assert_eq!(c.burn(alice.clone(), id), Err(NftError::Paused));
    assert_eq!(c.update_royalty(100, admin.clone()), Ok(()));
    assert_eq!(c.set_approval_for_all(alice.clone(), bob.clone(), true), Ok(()));
    assert_eq!(c.update_uri(id, s("u2")), Ok(()));
    assert!(c.is_paused());
    assert_eq!(c.owner_of(id), Ok(alice.clone()));
    assert_eq!(c.total_minted(), 1);
    assert_eq!(c.total_supply(), 1);
    assert_eq!(c.tokens_of(&alice), vec![id]);
}

#[test]
fn standing_approval_is_the_last_one_set() {
    let (mut c, _) = fresh(0);
    let alice = addr("GALICE");
    let bob = addr("GBOB");
    let carol = addr("GCAROL");
    let id = mint(&mut c, &alice).unwrap();
    c.approve(alice.clone(), bob.clone(), id).unwrap();
    c.approve(alice.clone(), carol.clone(), id).unwrap();
    assert_eq!(c.get_approved(id), Some(carol.clone()));
    assert_eq!(c.transfer(bob.clone(), bob.clone(), id), Err(NftError::NotOwnerOrApproved));
    c.transfer(carol.clone(), bob.clone(), id).unwrap();
    assert_eq!(c.get_approved(id), None);
}

#[test]
fn initialize_refusal_has_its_own_text() {
    let mut c = NFTContract::new();
    let admin = addr("GADMIN");
    let e = c
        .initialize(admin.clone(), s("a"), s("b"), s("c"), 0, 20000, admin.clone())
        .unwrap_err();
    assert_eq!(e.message(), "royalty_bps cannot exceed 10000 (100%)");
    let (mut c2, admin2) = fresh(0);
    let e2 = c2.update_royalty(20000, admin2).unwrap_err();
    assert_eq!(e2.message(), "royalty_bps cannot exceed 10000");
}
