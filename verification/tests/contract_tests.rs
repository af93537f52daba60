use peer_nft::events::Notification;
use peer_nft::{EntityId, Error, PeerNftcontract, DEFAULT_ADMIN_ROLE, MANAGER};

fn fresh(deployer: u64) -> PeerNftcontract {
    PeerNftcontract::new(
        deployer,
        String::from("My First NFT"),
        String::from("Nova"),
    )
}

#[test]
fn constructor_works_name() {
    let c = fresh(1);
    let key = String::from("name");
    assert_eq!(
        c.get_attribute(EntityId::Collection, key).unwrap(),
        "My First NFT"
    );
}

#[test]
fn constructor_works_symbol() {
    let c = fresh(1);
    let key = String::from("symbol");
    assert_eq!(c.get_attribute(EntityId::Collection, key).unwrap(), "Nova");
}

#[test]
fn check_admin_role() {
    let c = fresh(1);
    assert_eq!(c.get_role_admin(0), 0);
}

#[test]
fn check_what_admin_role_contains() {
    let c = fresh(1);
    assert_eq!(c.role_admin_entry(0), None);
}

#[test]
fn check_do_admin_role_contains() {
    let c = fresh(1);
    assert_eq!(c.role_admin_entry(0).is_some(), false);
}

#[test]
fn constructor_grants_deployer_roles() {
    let c = fresh(7);
    assert!(c.has_role(DEFAULT_ADMIN_ROLE, 7));
    assert!(c.has_role(MANAGER, 7));
    assert!(!c.has_role(MANAGER, 8));
    assert_eq!(c.manager_role_bytes(), MANAGER);
}

#[test]
fn mint_binds_token_and_metadata() {
    let alice: u64 = 2;
    let mut c = fresh(1);
    assert_eq!(
        c.mint(alice, String::from("loc1"), String::from("uri1")),
        Ok(())
    );
    assert_eq!(c.get_token_uri(0).unwrap(), "uri1");
    assert_eq!(c.get_token_location(0).unwrap(), "loc1");
    assert_eq!(c.owner_of(0), Some(alice));
    assert_eq!(c.next_id, 1);
    assert_eq!(c.balance_of(alice), 1);
}

#[test]
fn mint_twice_lists_owned_ids() {
    let alice: u64 = 2;
    let bob: u64 = 3;
    let mut c = fresh(1);
    c.mint(alice, String::from("a"), String::from("b")).unwrap();
    c.mint(alice, String::from("c"), String::from("d")).unwrap();
    assert_eq!(c.nft_ids_of(alice), Some(vec![0, 1]));
    assert_eq!(c.nft_ids_of(bob), Some(vec![]));
}

#[test]
fn mint_ids_are_never_reused() {
    let alice: u64 = 2;
    let mut c = fresh(1);
    c.mint(alice, String::from("l0"), String::from("u0")).unwrap();
    c.mint(alice, String::from("l1"), String::from("u1")).unwrap();
    assert_eq!(c.burn(alice, alice, 0), Ok(()));
    c.mint(alice, String::from("l2"), String::from("u2")).unwrap();
    assert_eq!(c.owner_of(0), None);
    assert_eq!(c.nft_ids_of(alice), Some(vec![1, 2]));
    assert_eq!(c.next_id, 3);
}

#[test]
fn manager_mint_needs_role() {
    let mallory: u64 = 9;
    let mut c = fresh(1);
    let r = c.manager_mint(mallory, mallory, String::from("l"), String::from("u"));
    assert_eq!(r, Err(Error::MissingRole));
    assert_eq!(c.next_id, 0);
    assert_eq!(c.balance_of(mallory), 0);
    assert_eq!(c.owner_of(0), None);
}

#[test]
fn manager_mint_with_role_succeeds() {
    let alice: u64 = 2;
    let mut c = fresh(1);
    assert_eq!(
        c.manager_mint(1, alice, String::from("l"), String::from("u")),
        Ok(())
    );
    assert_eq!(c.owner_of(0), Some(alice));
    assert_eq!(c.balance_of(alice), 1);
}

#[test]
fn update_token_uri_needs_role() {
    let alice: u64 = 2;
    let mut c = fresh(1);
    c.mint(alice, String::from("loc"), String::from("uri")).unwrap();
    let r = c.update_token_uri(alice, 0, String::from("x"));
    assert_eq!(r, Err(Error::MissingRole));
    assert_eq!(c.get_token_uri(0).unwrap(), "uri");
}

#[test]
fn manager_updates_and_removes_metadata() {
    let alice: u64 = 2;
    let mut c = fresh(1);
    c.mint(alice, String::from("loc"), String::from("uri")).unwrap();
    assert_eq!(c.update_token_uri(1, 0, String::from("uri2")), Ok(()));
    assert_eq!(c.update_token_location(1, 0, String::from("loc2")), Ok(()));
    assert_eq!(c.get_token_uri(0).unwrap(), "uri2");
    assert_eq!(c.get_token_location(0).unwrap(), "loc2");
    assert_eq!(c.remove_token_uri(1, 0), Ok(()));
    assert_eq!(c.get_token_uri(0), None);
    assert_eq!(c.get_token_location(0).unwrap(), "loc2");
    assert_eq!(c.remove_token_location(1, 0), Ok(()));
    assert_eq!(c.get_token_location(0), None);
}

#[test]
fn burn_by_stranger_is_rejected() {
    let alice: u64 = 2;
    let mallory: u64 = 9;
    let mut c = fresh(1);
    c.mint(alice, String::from("loc"), String::from("uri")).unwrap();
    let r = c.burn(mallory, alice, 0);
    assert_eq!(r, Err(Error::NotApproved));
    assert_eq!(c.owner_of(0), Some(alice));
    assert_eq!(c.balance_of(alice), 1);
    assert_eq!(c.get_token_uri(0).unwrap(), "uri");
}

#[test]
fn burn_clears_everything_for_the_token() {
    let alice: u64 = 2;
    let bob: u64 = 3;
    let mut c = fresh(1);
    c.mint(alice, String::from("loc"), String::from("uri")).unwrap();
    c.approve(alice, bob, Some(0), true);
    assert_eq!(c.burn(alice, alice, 0), Ok(()));
    assert_eq!(c.owner_of(0), None);
    assert_eq!(c.get_token_uri(0), None);
    assert_eq!(c.get_token_location(0), None);
    assert_eq!(c.balance_of(alice), 0);
    assert!(!c.is_approved(alice, bob, 0));
}

#[test]
fn burn_by_approved_operator_succeeds() {
    let alice: u64 = 2;
    let bob: u64 = 3;
    let mut c = fresh(1);
    c.mint(alice, String::from("loc"), String::from("uri")).unwrap();
    c.approve(alice, bob, Some(0), true);
    assert_eq!(c.burn(bob, alice, 0), Ok(()));
    assert_eq!(c.owner_of(0), None);
}

#[test]
fn burn_unknown_token_is_not_found() {
    let mut c = fresh(1);
    assert_eq!(c.burn(1, 1, 5), Err(Error::TokenNotFound));
    assert_eq!(c.transfer(1, 2, 5), Err(Error::TokenNotFound));
    assert_eq!(
        c.manager_transfer(1, 2, 5, vec![]),
        Err(Error::TokenNotFound)
    );
    assert_eq!(
        c.manager_burn(1, 1, 5, String::new(), String::new()),
        Err(Error::TokenNotFound)
    );
}

#[test]
fn transfer_moves_ownership_and_clears_approval() {
    let alice: u64 = 2;
    let bob: u64 = 3;
    let carol: u64 = 4;
    let mut c = fresh(1);
    c.mint(alice, String::from("loc"), String::from("uri")).unwrap();
    c.approve(alice, bob, Some(0), true);
    assert!(c.is_approved(alice, bob, 0));
    assert_eq!(c.transfer(alice, carol, 0), Ok(()));
    assert_eq!(c.owner_of(0), Some(carol));
    assert_eq!(c.balance_of(alice), 0);
    assert_eq!(c.balance_of(carol), 1);
    // The operator's old single-token approval is gone and holds nothing
    // against the new owner: a transfer attempt by the operator fails.
    assert!(!c.is_approved(alice, bob, 0));
    assert_eq!(c.transfer(bob, bob, 0), Err(Error::NotApproved));
    assert_eq!(c.owner_of(0), Some(carol));
}

#[test]
fn approved_operator_can_transfer() {
    let alice: u64 = 2;
    let bob: u64 = 3;
    let carol: u64 = 4;
    let mut c = fresh(1);
    c.mint(alice, String::from("loc"), String::from("uri")).unwrap();
    c.approve(alice, bob, None, true);
    assert_eq!(c.transfer(bob, carol, 0), Ok(()));
    assert_eq!(c.owner_of(0), Some(carol));
    // The approve-for-all record is scoped to the old owner's identity and
    // remains, but it holds nothing over the token now owned by carol.
    assert!(c.is_approved(alice, bob, 0));
    assert_eq!(c.transfer(bob, bob, 0), Err(Error::NotApproved));
}

#[test]
fn approval_can_be_revoked() {
    let alice: u64 = 2;
    let bob: u64 = 3;
    let mut c = fresh(1);
    c.approve(alice, bob, None, true);
    assert!(c.is_approved(alice, bob, 7));
    c.approve(alice, bob, None, false);
    assert!(!c.is_approved(alice, bob, 7));
}

#[test]
fn manager_transfer_bypasses_approval() {
    let alice: u64 = 2;
    let bob: u64 = 3;
    let mut c = fresh(1);
    c.mint(alice, String::from("loc"), String::from("uri")).unwrap();
    assert_eq!(c.manager_transfer(1, bob, 0, vec![1, 2]), Ok(()));
    assert_eq!(c.owner_of(0), Some(bob));
    assert_eq!(
        c.manager_transfer(bob, alice, 0, vec![]),
        Err(Error::MissingRole)
    );
}

#[test]
fn manager_burn_is_id_keyed() {
    let alice: u64 = 2;
    let bob: u64 = 3;
    let mut c = fresh(1);
    c.mint(alice, String::from("loc"), String::from("uri")).unwrap();
    // The account argument is not the owner; the removal still debits the
    // actual owner and retires the token.
    assert_eq!(
        c.manager_burn(1, bob, 0, String::new(), String::new()),
        Ok(())
    );
    assert_eq!(c.owner_of(0), None);
    assert_eq!(c.balance_of(alice), 0);
    assert_eq!(c.balance_of(bob), 0);
}

#[test]
fn grant_role_needs_admin_membership() {
    let mallory: u64 = 9;
    let x: u64 = 10;
    let r: u32 = 77;
    let mut c = fresh(1);
    assert_eq!(c.grant_role(mallory, r, x), Err(Error::MissingRole));
    assert!(!c.has_role(r, x));
}

#[test]
fn role_grant_revoke_round_trip() {
    let x: u64 = 10;
    let r: u32 = 77;
    let mut c = fresh(1);
    assert_eq!(c.grant_role(1, r, x), Ok(()));
    assert!(c.has_role(r, x));
    // Granting again is idempotent.
    assert_eq!(c.grant_role(1, r, x), Ok(()));
    assert!(c.has_role(r, x));
    assert_eq!(c.revoke_role(1, r, x), Ok(()));
    assert!(!c.has_role(r, x));
    // Revoking a non-member is idempotent.
    assert_eq!(c.revoke_role(1, r, x), Ok(()));
    assert!(!c.has_role(r, x));
}

#[test]
fn set_role_admin_moves_authority() {
    let admin2: u64 = 20;
    let x: u64 = 10;
    let r: u32 = 77;
    let adm: u32 = 88;
    let mut c = fresh(1);
    assert_eq!(c.set_role_admin(1, r, adm), Ok(()));
    assert_eq!(c.get_role_admin(r), adm);
    assert_eq!(c.role_admin_entry(r), Some(adm));
    // The deployer holds role 0, not role 88: it can no longer grant r.
    assert_eq!(c.grant_role(1, r, x), Err(Error::MissingRole));
    // A member of the new admin role can.
    assert_eq!(c.grant_role(1, adm, admin2), Ok(()));
    assert_eq!(c.grant_role(admin2, r, x), Ok(()));
    assert!(c.has_role(r, x));
}

#[test]
fn balances_always_sum_to_live_tokens() {
    let alice: u64 = 2;
    let bob: u64 = 3;
    let mut c = fresh(1);
    c.mint(alice, String::from("a"), String::from("b")).unwrap();
    c.mint(bob, String::from("c"), String::from("d")).unwrap();
    c.mint(alice, String::from("e"), String::from("f")).unwrap();
    assert_eq!(c.balance_of(alice) + c.balance_of(bob), 3);
    c.burn(alice, alice, 0).unwrap();
    c.transfer(bob, alice, 1).unwrap();
    assert_eq!(c.balance_of(alice), 2);
    assert_eq!(c.balance_of(bob), 0);
    assert_eq!(c.balance_of(alice) + c.balance_of(bob), 2);
}

#[test]
fn set_code_is_role_gated() {
    let c = fresh(1);
    assert_eq!(c.set_code(1, [0u8; 32]), Ok(()));
    assert_eq!(c.set_code(9, [0u8; 32]), Err(Error::MissingRole));
}

#[test]
fn mint_records_three_notifications() {
    let alice: u64 = 2;
    let mut c = fresh(1);
    let base: usize = c.notifications().len();
    c.mint(alice, String::from("loc1"), String::from("uri1")).unwrap();
    let log = c.notifications();
    assert_eq!(log.len(), base + 3);
    match &log[base] {
        Notification::SetTokenUri(e) => {
            assert_eq!(e.id, 0);
            assert_eq!(e.token_uri, "uri1");
        },
        other => panic!("unexpected notification {:?}", other),
    }
    match &log[base + 1] {
        Notification::SetTokenLocation(e) => {
            assert_eq!(e.id, 0);
            assert_eq!(e.token_location, "loc1");
        },
        other => panic!("unexpected notification {:?}", other),
    }
    match &log[base + 2] {
        Notification::Transfer(e) => {
            assert_eq!(e.from, None);
            assert_eq!(e.to, Some(alice));
            assert_eq!(e.id, 0);
        },
        other => panic!("unexpected notification {:?}", other),
    }
}

#[test]
fn failed_operations_record_nothing() {
    let mallory: u64 = 9;
    let mut c = fresh(1);
    let base: usize = c.notifications().len();
    let _ = c.manager_mint(mallory, mallory, String::from("l"), String::from("u"));
    let _ = c.grant_role(mallory, 77, mallory);
    let _ = c.burn(mallory, mallory, 0);
    assert_eq!(c.notifications().len(), base);
}
