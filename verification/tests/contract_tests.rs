use soroban_nft::{Address, NFTContract, NftError};

const NOW: u64 = 1_700_000_000;

struct TestEnv {
    contract: NFTContract,
    admin: Address,
    next: u32,
}

impl TestEnv {
    fn generate(&mut self) -> Address {
        self.next += 1;
        Address::from_bytes(format!("G{:055}", self.next).into_bytes())
    }
}

fn ok<T>(r: Result<T, NftError>) -> T {
    match r {
        Ok(v) => v,
        Err(e) => panic!("{}", e.message()),
    }
}

fn s(text: &str) -> String {
    text.to_string()
}

fn setup() -> TestEnv {
    let mut contract = NFTContract::new();
    let admin = Address::from_bytes(b"GADMIN".to_vec());
    ok(contract.initialize(
        admin.clone(),
        s("Stellar Apes"),
        s("SAPE"),
        s("NFT Collection di Soroban Testnet"),
        100u32,
        250u32,
        admin.clone(),
    ));
    TestEnv { contract, admin, next: 0 }
}

fn mint_one(t: &mut TestEnv, to: &Address, id: u32) -> u32 {
    ok(t.contract.mint(
        to.clone(),
        format!("Ape #{}", id),
        s("Seekor kera digital di blockchain Stellar"),
        format!("ipfs://QmApe{}", id),
        NOW,
    ))
}

#[test]
fn test_initialize_collection_info() {
    let t = setup();
    let info = ok(t.contract.collection_info());

    assert_eq!(info.name, s("Stellar Apes"));
    assert_eq!(info.symbol, s("SAPE"));
    assert_eq!(info.max_supply, 100);
    assert_eq!(info.royalty_bps, 250);
    assert!(!info.is_paused);
    assert!(!info.whitelist_enabled);
    assert_eq!(info.total_minted, 0);
}

#[test]
#[should_panic(expected = "already initialized")]
fn test_double_initialize_fails() {
    let mut t = setup();
    let admin = t.admin.clone();
    ok(t.contract.initialize(admin.clone(), s("X"), s("X"), s("X"), 0u32, 0u32, admin));
}

#[test]
fn test_mint_single() {
    let mut t = setup();
    let alice = t.generate();

    let tid = mint_one(&mut t, &alice, 1);
    assert_eq!(tid, 0);
    assert_eq!(t.contract.total_supply(), 1);
    assert_eq!(t.contract.total_minted(), 1);

    let nft = ok(t.contract.get_nft(tid));
    assert_eq!(nft.owner, alice.clone());
    assert_eq!(nft.creator, alice.clone());
    assert_eq!(nft.transfer_count, 0);
    assert!(!nft.is_burned);
    assert!(nft.mint_timestamp > 0);
}

#[test]
fn test_mint_increments_ids() {
    let mut t = setup();
    let alice = t.generate();

    let t0 = mint_one(&mut t, &alice, 1);
    let t1 = mint_one(&mut t, &alice, 2);
    let t2 = mint_one(&mut t, &alice, 3);

    assert_eq!(t0, 0);
    assert_eq!(t1, 1);
    assert_eq!(t2, 2);
    assert_eq!(t.contract.total_minted(), 3);
    assert_eq!(t.contract.tokens_of(&alice).len(), 3);
}

#[test]
fn test_batch_mint() {
    let mut t = setup();
    let alice = t.generate();

    let mut names = Vec::new();
    let mut descs = Vec::new();
    let mut uris = Vec::new();
    for i in 0..5u32 {
        names.push(format!("Ape #{}", i));
        descs.push(s("Batch minted NFT"));
        uris.push(format!("ipfs://QmBatch{}", i));
    }

    let ids = ok(t.contract.batch_mint(alice.clone(), names, descs, uris, NOW));
    assert_eq!(ids.len(), 5);
    assert_eq!(t.contract.total_supply(), 5);
    assert_eq!(t.contract.tokens_of(&alice).len(), 5);

    for i in 0..5u32 {
        assert_eq!(ids[i as usize], i);
    }
}

#[test]
#[should_panic(expected = "max supply reached")]
fn test_mint_exceeds_max_supply() {
    let mut contract = NFTContract::new();
    let admin = Address::from_bytes(b"GADMIN".to_vec());
    let alice = Address::from_bytes(b"GALICE".to_vec());

    ok(contract.initialize(
        admin.clone(),
        s("Limited"),
        s("LTD"),
        s("Limited collection"),
        2u32,
        0u32,
        admin.clone(),
    ));

    ok(contract.mint(alice.clone(), s("NFT 1"), s("First"), s("ipfs://1"), NOW));
    ok(contract.mint(alice.clone(), s("NFT 2"), s("Second"), s("ipfs://2"), NOW));

    ok(contract.mint(alice.clone(), s("NFT 3"), s("Third"), s("ipfs://3"), NOW));
}

#[test]
fn test_transfer_basic() {
    let mut t = setup();
    let alice = t.generate();
    let bob = t.generate();

    let tid = mint_one(&mut t, &alice, 1);
    ok(t.contract.transfer(alice.clone(), bob.clone(), tid));

    assert_eq!(ok(t.contract.owner_of(tid)), bob);
    assert_eq!(t.contract.tokens_of(&alice).len(), 0);
    assert_eq!(t.contract.tokens_of(&bob).len(), 1);

    let nft = ok(t.contract.get_nft(tid));
    assert_eq!(nft.transfer_count, 1);
    assert_eq!(nft.creator, alice);
}

#[test]
fn test_transfer_chain() {
    let mut t = setup();
    let alice = t.generate();
    let bob = t.generate();
    let carol = t.generate();

    let tid = mint_one(&mut t, &alice, 1);
    ok(t.contract.transfer(alice.clone(), bob.clone(), tid));
    ok(t.contract.transfer(bob.clone(), carol.clone(), tid));

    assert_eq!(ok(t.contract.owner_of(tid)), carol);
    let nft = ok(t.contract.get_nft(tid));
    assert_eq!(nft.transfer_count, 2);
    assert_eq!(nft.creator, alice);
}

#[test]
#[should_panic(expected = "not owner or approved")]
fn test_transfer_by_non_owner_fails() {
    let mut t = setup();
    let alice = t.generate();
    let hacker = t.generate();
    let victim = t.generate();

    let tid = mint_one(&mut t, &alice, 1);
    ok(t.contract.transfer(hacker, victim, tid));
}

#[test]
fn test_approve_single_token() {
    let mut t = setup();
    let alice = t.generate();
    let operator = t.generate();
    let bob = t.generate();

    let tid = mint_one(&mut t, &alice, 1);
    ok(t.contract.approve(alice.clone(), operator.clone(), tid));

    assert_eq!(t.contract.get_approved(tid), Some(operator.clone()));

    ok(t.contract.transfer(operator.clone(), bob.clone(), tid));
    assert_eq!(ok(t.contract.owner_of(tid)), bob);

    assert_eq!(t.contract.get_approved(tid), None);
}

#[test]
fn test_set_approval_for_all() {
    let mut t = setup();
    let alice = t.generate();
    let operator = t.generate();
    let bob = t.generate();

    let tid1 = mint_one(&mut t, &alice, 1);
    let tid2 = mint_one(&mut t, &alice, 2);

    ok(t.contract.set_approval_for_all(alice.clone(), operator.clone(), true));
    assert!(t.contract.is_approved_for_all(&alice, &operator));

    ok(t.contract.transfer(operator.clone(), bob.clone(), tid1));
    ok(t.contract.transfer(operator.clone(), bob.clone(), tid2));

    assert_eq!(ok(t.contract.owner_of(tid1)), bob);
    assert_eq!(ok(t.contract.owner_of(tid2)), bob);
    assert_eq!(t.contract.tokens_of(&bob).len(), 2);

    ok(t.contract.set_approval_for_all(alice.clone(), operator.clone(), false));
    assert!(!t.contract.is_approved_for_all(&alice, &operator));
}

#[test]
#[should_panic(expected = "not owner")]
fn test_approve_by_non_owner_fails() {
    let mut t = setup();
    let alice = t.generate();
    let hacker = t.generate();
    let bob = t.generate();

    let tid = mint_one(&mut t, &alice, 1);
    ok(t.contract.approve(hacker, bob, tid));
}

#[test]
fn test_burn() {
    let mut t = setup();
    let alice = t.generate();

    let tid = mint_one(&mut t, &alice, 1);
    assert_eq!(t.contract.total_supply(), 1);

    ok(t.contract.burn(alice.clone(), tid));

    let nft = ok(t.contract.get_nft(tid));
    assert!(nft.is_burned);
    assert_eq!(t.contract.tokens_of(&alice).len(), 0);
    assert_eq!(t.contract.total_supply(), 0);
    assert_eq!(t.contract.total_minted(), 1);
}

#[test]
#[should_panic(expected = "already burned")]
fn test_double_burn_fails() {
    let mut t = setup();
    let alice = t.generate();
    let tid = mint_one(&mut t, &alice, 1);
    ok(t.contract.burn(alice.clone(), tid));
    ok(t.contract.burn(alice.clone(), tid));
}

#[test]
#[should_panic(expected = "not owner")]
fn test_burn_by_non_owner_fails() {
    let mut t = setup();
    let alice = t.generate();
    let hacker = t.generate();
    let tid = mint_one(&mut t, &alice, 1);
    ok(t.contract.burn(hacker, tid));
}

#[test]
#[should_panic(expected = "token is burned")]
fn test_transfer_burned_token_fails() {
    let mut t = setup();
    let alice = t.generate();
    let bob = t.generate();
    let tid = mint_one(&mut t, &alice, 1);
    ok(t.contract.burn(alice.clone(), tid));
    ok(t.contract.transfer(alice, bob, tid));
}

#[test]
fn test_pause_unpause() {
    let mut t = setup();
    let alice = t.generate();

    assert!(!t.contract.is_paused());
    ok(t.contract.pause());
    assert!(t.contract.is_paused());
    ok(t.contract.unpause());
    assert!(!t.contract.is_paused());

    let tid = mint_one(&mut t, &alice, 1);
    assert_eq!(tid, 0);
}

#[test]
#[should_panic(expected = "contract is paused")]
fn test_mint_while_paused_fails() {
    let mut t = setup();
    let alice = t.generate();
    ok(t.contract.pause());
    mint_one(&mut t, &alice, 1);
}

#[test]
#[should_panic(expected = "contract is paused")]
fn test_transfer_while_paused_fails() {
    let mut t = setup();
    let alice = t.generate();
    let bob = t.generate();
    let tid = mint_one(&mut t, &alice, 1);
    ok(t.contract.pause());
    ok(t.contract.transfer(alice, bob, tid));
}

#[test]
fn test_whitelist_flow() {
    let mut t = setup();
    let alice = t.generate();
    let bob = t.generate();

    ok(t.contract.toggle_whitelist(true));
    assert!(!t.contract.is_whitelisted(&alice));

    ok(t.contract.add_to_whitelist(alice.clone()));
    assert!(t.contract.is_whitelisted(&alice));

    let tid = mint_one(&mut t, &alice, 1);
    assert_eq!(tid, 0);

    ok(t.contract.remove_from_whitelist(alice.clone()));
    assert!(!t.contract.is_whitelisted(&alice));

    let _ = bob;
}

#[test]
#[should_panic(expected = "address not whitelisted")]
fn test_mint_not_whitelisted_fails() {
    let mut t = setup();
    let alice = t.generate();

    ok(t.contract.toggle_whitelist(true));

    mint_one(&mut t, &alice, 1);
}

#[test]
fn test_batch_add_whitelist() {
    let mut t = setup();
    let a1 = t.generate();
    let a2 = t.generate();
    let a3 = t.generate();

    let addrs = vec![a1.clone(), a2.clone(), a3.clone()];

    ok(t.contract.batch_add_whitelist(addrs));
    assert!(t.contract.is_whitelisted(&a1));
    assert!(t.contract.is_whitelisted(&a2));
    assert!(t.contract.is_whitelisted(&a3));
}

#[test]
fn test_royalty_info() {
    let t = setup();
    let info = ok(t.contract.royalty_info());

    assert_eq!(info.amount_bps, 250);
    assert_eq!(info.receiver, t.admin);
    println!("Royalty info: {}bps = {}%", info.amount_bps, info.amount_bps / 100);
}

#[test]
fn test_update_royalty() {
    let mut t = setup();
    let new_receiver = t.generate();

    ok(t.contract.update_royalty(500u32, new_receiver.clone()));
    let info = ok(t.contract.royalty_info());

    assert_eq!(info.amount_bps, 500);
    assert_eq!(info.receiver, new_receiver);
}

#[test]
#[should_panic(expected = "royalty_bps cannot exceed 10000")]
fn test_invalid_royalty_fails() {
    let mut t = setup();
    let admin = t.admin.clone();
    ok(t.contract.update_royalty(10001u32, admin));
}

#[test]
fn test_update_uri() {
    let mut t = setup();
    let alice = t.generate();
    let tid = mint_one(&mut t, &alice, 1);

    let new_uri = s("ipfs://QmNewIPFS123");
    ok(t.contract.update_uri(tid, new_uri.clone()));

    let nft = ok(t.contract.get_nft(tid));
    assert_eq!(nft.uri, new_uri);
}

#[test]
fn test_update_max_supply() {
    let mut t = setup();
    ok(t.contract.update_max_supply(200u32));

    let info = ok(t.contract.collection_info());
    assert_eq!(info.max_supply, 200);

    ok(t.contract.update_max_supply(0u32));
    let info = ok(t.contract.collection_info());
    assert_eq!(info.max_supply, 0);
}

#[test]
#[should_panic(expected = "new max supply below current minted count")]
fn test_update_max_supply_below_minted_fails() {
    let mut t = setup();
    let alice = t.generate();

    mint_one(&mut t, &alice, 1);
    mint_one(&mut t, &alice, 2);
    mint_one(&mut t, &alice, 3);

    ok(t.contract.update_max_supply(2u32));
}

#[test]
fn test_transfer_admin() {
    let mut t = setup();
    let new_admin = t.generate();

    ok(t.contract.transfer_admin(new_admin.clone()));
    assert_eq!(ok(t.contract.get_admin()), new_admin);
}

#[test]
fn test_full_e2e_scenario() {
    let mut t = setup();
    let alice = t.generate();
    let bob = t.generate();
    let operator = t.generate();

    let mut names = Vec::new();
    let mut descs = Vec::new();
    let mut uris = Vec::new();
    for i in 0..3u32 {
        names.push(format!("Ape #{}", i));
        descs.push(s("Stellar Ape NFT"));
        uris.push(format!("ipfs://Qm{}", i));
    }
    let ids = ok(t.contract.batch_mint(alice.clone(), names, descs, uris, NOW));
    assert_eq!(t.contract.total_supply(), 3);

    ok(t.contract.set_approval_for_all(alice.clone(), operator.clone(), true));

    ok(t.contract.transfer(operator.clone(), bob.clone(), ids[0]));
    assert_eq!(ok(t.contract.owner_of(ids[0])), bob);

    ok(t.contract.approve(bob.clone(), alice.clone(), ids[0]));
    ok(t.contract.transfer(alice.clone(), alice.clone(), ids[0]));

    let admin = t.admin.clone();
    ok(t.contract.update_royalty(500u32, admin));
    assert_eq!(ok(t.contract.royalty_info()).amount_bps, 500);

    ok(t.contract.pause());

    ok(t.contract.unpause());

    ok(t.contract.burn(alice.clone(), ids[1]));
    assert_eq!(t.contract.total_supply(), 2);
    assert_eq!(t.contract.total_minted(), 3);

    ok(t.contract.update_uri(ids[2], s("ipfs://QmMigratedURI")));

    let nft0 = ok(t.contract.get_nft(ids[0]));
    assert_eq!(nft0.creator, alice);
}
