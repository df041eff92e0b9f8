use relationship_ledger::errors::ErrorCode;
use relationship_ledger::groups::{
    admin_leave, close, create, invite, leave, modify_name, modify_open_ivites, modify_successor,
    GroupStore,
};
use relationship_ledger::ident::Identity;

fn id(b: u8) -> Identity {
    Identity { bytes: vec![b; 32] }
}

fn id2(a: u8, b: u8) -> Identity {
    let mut bytes = vec![0u8; 32];
    bytes[0] = a;
    bytes[1] = b;
    Identity { bytes }
}

fn key64() -> String {
    "k".repeat(64)
}

/// Number of live invitations addressed to the group at `ga`.
fn live_invites(store: &GroupStore, ga: &Identity) -> usize {
    store
        .invitations
        .iter()
        .filter(|e| e.invitation.group_key.bytes == ga.bytes)
        .count()
}

/// A store with one group created by payer 1 with admin/signer 2.
fn one_group() -> (GroupStore, Identity) {
    let mut store = GroupStore::new(id(200));
    let ga = create(
        &mut store,
        &id(2),
        &id(1),
        &vec![42u8; 32],
        b"group-one".to_vec(),
        false,
        String::from("the group"),
        key64(),
        0,
    )
    .unwrap();
    (store, ga)
}

fn invitation_address_of(store: &GroupStore, recipient: &Identity, ga: &Identity) -> Identity {
    let (addr, _bump) =
        relationship_ledger::address::invitation_address(recipient, ga, &store.program).unwrap();
    addr
}

#[test]
fn create_initializes_group_and_creator_invitation() {
    let (store, ga) = one_group();
    assert_eq!(store.groups.len(), 1);
    assert_eq!(store.invitations.len(), 1);
    let ge = &store.groups[0];
    assert_eq!(ge.address.bytes, ga.bytes);
    assert_eq!(ge.group.creator.bytes, vec![1u8; 32]);
    assert_eq!(ge.group.admin.bytes, vec![2u8; 32]);
    assert_eq!(ge.group.members, 1);
    assert!(!ge.group.open_invites);
    assert_eq!(ge.group.name, "the group");
    let ie = &store.invitations[0];
    assert_eq!(ie.invitation.sender.bytes, vec![1u8; 32]);
    assert_eq!(ie.invitation.recipient.bytes, vec![2u8; 32]);
    assert_eq!(ie.invitation.group_key.bytes, ga.bytes);
    assert_eq!(ie.invitation.group_id, b"group-one".to_vec());
    assert_eq!(ie.invitation.encryption_key, key64());
}

#[test]
fn create_same_hash_twice_fails_existent() {
    let (mut store, _ga) = one_group();
    let r = create(
        &mut store,
        &id(3),
        &id(3),
        &vec![42u8; 32],
        b"again".to_vec(),
        false,
        String::from("another"),
        key64(),
        0,
    );
    assert!(matches!(r, Err(ErrorCode::ExistentRequest)));
    assert_eq!(store.groups.len(), 1);
}

#[test]
fn create_validates_fields() {
    let mut store = GroupStore::new(id(200));
    // Name too short.
    let r = create(
        &mut store,
        &id(2),
        &id(1),
        &vec![1u8; 32],
        b"gid".to_vec(),
        false,
        String::from("ab"),
        key64(),
        0,
    );
    assert!(matches!(r, Err(ErrorCode::IncorrectField)));
    // Empty group id.
    let r = create(
        &mut store,
        &id(2),
        &id(1),
        &vec![1u8; 32],
        Vec::new(),
        false,
        String::from("abc"),
        key64(),
        0,
    );
    assert!(matches!(r, Err(ErrorCode::IncorrectField)));
    // Encryption key must be exactly 64 characters.
    let r = create(
        &mut store,
        &id(2),
        &id(1),
        &vec![1u8; 32],
        b"gid".to_vec(),
        false,
        String::from("abc"),
        "k".repeat(63),
        0,
    );
    assert!(matches!(r, Err(ErrorCode::IncorrectField)));
    assert!(store.groups.is_empty());
    assert!(store.invitations.is_empty());
}

#[test]
fn invite_by_admin_increments_members() {
    let (mut store, ga) = one_group();
    let ia = invite(
        &mut store,
        &id(2),
        &id(2),
        &ga,
        &id(3),
        b"group-one".to_vec(),
        key64(),
        1,
    )
    .unwrap();
    assert_eq!(store.groups[0].group.members, 2);
    assert_eq!(store.invitations.len(), 2);
    let ie = &store.invitations[1];
    assert_eq!(ie.address.bytes, ia.bytes);
    assert_eq!(ie.invitation.recipient.bytes, vec![3u8; 32]);
    assert_eq!(ie.invitation.sender.bytes, vec![2u8; 32]);
    assert_eq!(ie.invitation.storage_tag, 1);
}

#[test]
fn invite_same_recipient_twice_collides_at_storage_layer() {
    let (mut store, ga) = one_group();
    invite(&mut store, &id(2), &id(2), &ga, &id(3), b"g".to_vec(), key64(), 0).unwrap();
    let r = invite(&mut store, &id(2), &id(2), &ga, &id(3), b"g".to_vec(), key64(), 0);
    assert!(matches!(r, Err(ErrorCode::ExistentRequest)));
    assert_eq!(store.groups[0].group.members, 2);
}

#[test]
fn invite_to_missing_group_fails() {
    let (mut store, _ga) = one_group();
    let r = invite(
        &mut store,
        &id(2),
        &id(2),
        &id(250),
        &id(3),
        b"g".to_vec(),
        key64(),
        0,
    );
    assert!(matches!(r, Err(ErrorCode::InvitationMismatch)));
}

#[test]
fn member_invites_iff_open_invites() {
    // Scenario: create group G with creator C (members = 1); C invites R
    // with open_invites = false (succeeds, members = 2); R invites S while
    // not admin (fails WrongPrivileges); C sets open_invites = true; R
    // invites S (succeeds, members = 3).
    let (mut store, ga) = one_group();
    let c = id(2);
    let r_member = id(3);
    let s_guest = id(4);
    assert_eq!(store.groups[0].group.members, 1);

    invite(&mut store, &c, &c, &ga, &r_member, b"g".to_vec(), key64(), 0).unwrap();
    assert_eq!(store.groups[0].group.members, 2);

    let refused = invite(
        &mut store,
        &r_member,
        &r_member,
        &ga,
        &s_guest,
        b"g".to_vec(),
        key64(),
        0,
    );
    assert!(matches!(refused, Err(ErrorCode::WrongPrivileges)));
    assert_eq!(store.groups[0].group.members, 2);

    modify_open_ivites(&mut store, &c, &ga, true).unwrap();

    invite(
        &mut store,
        &r_member,
        &r_member,
        &ga,
        &s_guest,
        b"g".to_vec(),
        key64(),
        0,
    )
    .unwrap();
    assert_eq!(store.groups[0].group.members, 3);
}

#[test]
fn members_equals_live_invitations_at_all_times() {
    let (mut store, ga) = one_group();
    assert_eq!(store.groups[0].group.members as usize, live_invites(&store, &ga));

    invite(&mut store, &id(2), &id(2), &ga, &id(3), b"g".to_vec(), key64(), 0).unwrap();
    assert_eq!(store.groups[0].group.members as usize, live_invites(&store, &ga));

    invite(&mut store, &id(2), &id(2), &ga, &id(4), b"g".to_vec(), key64(), 0).unwrap();
    assert_eq!(store.groups[0].group.members as usize, live_invites(&store, &ga));

    // A second group does not disturb the first one's count.
    let gb = create(
        &mut store,
        &id(12),
        &id(11),
        &vec![77u8; 32],
        b"group-two".to_vec(),
        true,
        String::from("other"),
        key64(),
        0,
    )
    .unwrap();
    assert_eq!(store.groups[0].group.members as usize, live_invites(&store, &ga));
    assert_eq!(store.groups[1].group.members as usize, live_invites(&store, &gb));

    // Member 3 leaves.
    let ia3 = invitation_address_of(&store, &id(3), &ga);
    leave(&mut store, &id(3), &ga, &ia3, &id(2)).unwrap();
    assert_eq!(store.groups[0].group.members as usize, live_invites(&store, &ga));

    // The admin hands over and leaves.
    let ia2 = invitation_address_of(&store, &id(2), &ga);
    let ia4 = invitation_address_of(&store, &id(4), &ga);
    admin_leave(&mut store, &id(2), &ga, &ia2, &ia4, &id(1)).unwrap();
    assert_eq!(store.groups[0].group.members as usize, live_invites(&store, &ga));
    assert_eq!(store.groups[0].group.members, 1);
}

#[test]
fn leave_refunds_the_inviter_not_the_leaver() {
    let (mut store, ga) = one_group();
    // Admin 2 invites 3, paying from account 6.
    invite(&mut store, &id(2), &id(6), &ga, &id(3), b"g".to_vec(), key64(), 0).unwrap();
    let ia3 = invitation_address_of(&store, &id(3), &ga);
    let refund = leave(&mut store, &id(3), &ga, &ia3, &id(6)).unwrap();
    assert_eq!(refund.bytes, vec![6u8; 32]);
    assert_eq!(store.groups[0].group.members, 1);
}

#[test]
fn leave_rejects_wrong_refund_target() {
    let (mut store, ga) = one_group();
    invite(&mut store, &id(2), &id(6), &ga, &id(3), b"g".to_vec(), key64(), 0).unwrap();
    let ia3 = invitation_address_of(&store, &id(3), &ga);
    let r = leave(&mut store, &id(3), &ga, &ia3, &id(2));
    assert!(matches!(r, Err(ErrorCode::PayerMismatch)));
    assert_eq!(store.groups[0].group.members, 2);
}

#[test]
fn admin_can_revoke_another_members_invitation() {
    let (mut store, ga) = one_group();
    invite(&mut store, &id(2), &id(2), &ga, &id(3), b"g".to_vec(), key64(), 0).unwrap();
    let ia3 = invitation_address_of(&store, &id(3), &ga);
    // The admin (2) closes member 3's invitation: the admin-side arm.
    let refund = leave(&mut store, &id(2), &ga, &ia3, &id(2)).unwrap();
    assert_eq!(refund.bytes, vec![2u8; 32]);
    assert_eq!(store.groups[0].group.members, 1);
}

#[test]
fn admin_cannot_plain_leave_over_own_invitation() {
    let (mut store, ga) = one_group();
    invite(&mut store, &id(2), &id(2), &ga, &id(3), b"g".to_vec(), key64(), 0).unwrap();
    let ia2 = invitation_address_of(&store, &id(2), &ga);
    let r = leave(&mut store, &id(2), &ga, &ia2, &id(1));
    assert!(matches!(r, Err(ErrorCode::WrongPrivileges)));
}

#[test]
fn outsider_cannot_leave_with_someone_elses_invitation() {
    let (mut store, ga) = one_group();
    invite(&mut store, &id(2), &id(2), &ga, &id(3), b"g".to_vec(), key64(), 0).unwrap();
    let ia3 = invitation_address_of(&store, &id(3), &ga);
    let r = leave(&mut store, &id(5), &ga, &ia3, &id(2));
    assert!(matches!(r, Err(ErrorCode::WrongPrivileges)));
}

#[test]
fn admin_leave_hands_role_to_successor() {
    let (mut store, ga) = one_group();
    invite(&mut store, &id(2), &id(2), &ga, &id(3), b"g".to_vec(), key64(), 0).unwrap();
    let ia2 = invitation_address_of(&store, &id(2), &ga);
    let ia3 = invitation_address_of(&store, &id(3), &ga);
    let refund = admin_leave(&mut store, &id(2), &ga, &ia2, &ia3, &id(1)).unwrap();
    // The creator (1) funded the admin's own invitation at group creation.
    assert_eq!(refund.bytes, vec![1u8; 32]);
    assert_eq!(store.groups[0].group.admin.bytes, vec![3u8; 32]);
    assert_eq!(store.groups[0].group.members, 1);
}

#[test]
fn admin_leave_requires_distinct_successor() {
    let (mut store, ga) = one_group();
    invite(&mut store, &id(2), &id(2), &ga, &id(3), b"g".to_vec(), key64(), 0).unwrap();
    let ia2 = invitation_address_of(&store, &id(2), &ga);
    let r = admin_leave(&mut store, &id(2), &ga, &ia2, &ia2, &id(1));
    assert!(matches!(r, Err(ErrorCode::InvitationMismatch)));
}

#[test]
fn modify_successor_changes_admin_only() {
    let (mut store, ga) = one_group();
    invite(&mut store, &id(2), &id(2), &ga, &id(3), b"g".to_vec(), key64(), 0).unwrap();
    let ia3 = invitation_address_of(&store, &id(3), &ga);
    modify_successor(&mut store, &id(2), &ga, &ia3).unwrap();
    assert_eq!(store.groups[0].group.admin.bytes, vec![3u8; 32]);
    // Membership is unchanged.
    assert_eq!(store.groups[0].group.members, 2);
}

#[test]
fn modify_successor_rejects_foreign_invitation() {
    let (mut store, ga) = one_group();
    let gb = create(
        &mut store,
        &id(12),
        &id(11),
        &vec![77u8; 32],
        b"group-two".to_vec(),
        true,
        String::from("other"),
        key64(),
        0,
    )
    .unwrap();
    let foreign = invitation_address_of(&store, &id(12), &gb);
    let r = modify_successor(&mut store, &id(2), &ga, &foreign);
    assert!(matches!(r, Err(ErrorCode::InvitationMismatch)));
}

#[test]
fn modify_name_revalidates() {
    let (mut store, ga) = one_group();
    let r = modify_name(&mut store, &id(2), &ga, String::from("ab"));
    assert!(matches!(r, Err(ErrorCode::IncorrectField)));
    assert_eq!(store.groups[0].group.name, "the group");
    modify_name(&mut store, &id(2), &ga, String::from("renamed")).unwrap();
    assert_eq!(store.groups[0].group.name, "renamed");
}

#[test]
fn modify_parameters_admin_only() {
    let (mut store, ga) = one_group();
    let r = modify_open_ivites(&mut store, &id(3), &ga, true);
    assert!(matches!(r, Err(ErrorCode::WrongPrivileges)));
    let r = modify_name(&mut store, &id(3), &ga, String::from("renamed"));
    assert!(matches!(r, Err(ErrorCode::WrongPrivileges)));
}

#[test]
fn close_succeeds_with_one_member_and_refunds_both_deposits() {
    let (mut store, ga) = one_group();
    let ia2 = invitation_address_of(&store, &id(2), &ga);
    let (group_refund, invitation_refund) =
        close(&mut store, &id(2), &ga, &ia2, &id(1), &id(1)).unwrap();
    assert_eq!(group_refund.bytes, vec![1u8; 32]);
    assert_eq!(invitation_refund.bytes, vec![1u8; 32]);
    assert!(store.groups.is_empty());
    assert!(store.invitations.is_empty());
}

#[test]
fn close_with_two_members_fails_not_empty() {
    let (mut store, ga) = one_group();
    invite(&mut store, &id(2), &id(2), &ga, &id(3), b"g".to_vec(), key64(), 0).unwrap();
    let ia2 = invitation_address_of(&store, &id(2), &ga);
    let r = close(&mut store, &id(2), &ga, &ia2, &id(1), &id(1));
    assert!(matches!(r, Err(ErrorCode::NotEmpty)));
    assert_eq!(store.groups.len(), 1);
}

#[test]
fn close_rejects_wrong_creator_refund() {
    let (mut store, ga) = one_group();
    let ia2 = invitation_address_of(&store, &id(2), &ga);
    let r = close(&mut store, &id(2), &ga, &ia2, &id(9), &id(1));
    assert!(matches!(r, Err(ErrorCode::PayerMismatch)));
    assert_eq!(store.groups.len(), 1);
}

#[test]
fn closed_group_frees_its_address_for_recreation() {
    let (mut store, ga) = one_group();
    let ia2 = invitation_address_of(&store, &id(2), &ga);
    close(&mut store, &id(2), &ga, &ia2, &id(1), &id(1)).unwrap();
    // The same group hash derives the same address, now free again.
    let gb = create(
        &mut store,
        &id(4),
        &id(3),
        &vec![42u8; 32],
        b"group-one".to_vec(),
        true,
        String::from("revived"),
        key64(),
        0,
    )
    .unwrap();
    assert_eq!(gb.bytes, ga.bytes);
    assert_eq!(store.groups[0].group.creator.bytes, vec![3u8; 32]);
    assert_eq!(store.groups[0].group.members, 1);
}

#[test]
fn member_count_capacity_is_enforced() {
    let (mut store, ga) = one_group();
    // Fill the group up to its count field's capacity of 255.
    for k in 0..254u8 {
        invite(
            &mut store,
            &id(2),
            &id(2),
            &ga,
            &id2(10, k),
            b"g".to_vec(),
            key64(),
            0,
        )
        .unwrap();
    }
    assert_eq!(store.groups[0].group.members, 255);
    let r = invite(
        &mut store,
        &id(2),
        &id(2),
        &ga,
        &id(99),
        b"g".to_vec(),
        key64(),
        0,
    );
    assert!(matches!(r, Err(ErrorCode::IncorrectField)));
    assert_eq!(store.groups[0].group.members, 255);
}
