use relationship_ledger::errors::ErrorCode;
use relationship_ledger::friends::{
    accept_request, close_request, deny_request, make_request, remove_friend, remove_request,
    FriendRequest, Status,
};
use relationship_ledger::ident::Identity;

fn id(b: u8) -> Identity {
    Identity { bytes: vec![b; 32] }
}

/// A fresh record slot: what a newly allocated record reads as.
fn fresh() -> FriendRequest {
    FriendRequest::uninitialized(id(0), id(0), id(0))
}

fn pending_pair() -> (FriendRequest, Identity, Identity, Identity) {
    // user1 = 9 > user2 = 5 lexicographically.
    let user1 = id(9);
    let user2 = id(5);
    let payer = id(7);
    let mut req = fresh();
    let r = make_request(
        &mut req,
        &id(9),
        &payer,
        user1,
        user2,
        String::from("key-of-9"),
    );
    assert!(r.is_ok());
    (req, id(9), id(5), id(7))
}

#[test]
fn make_request_sets_pending_and_records_depositor() {
    let (req, _u1, _u2, _payer) = pending_pair();
    assert_eq!(req.status, Status::Pending);
    assert_eq!(req.from.bytes, vec![9u8; 32]);
    assert_eq!(req.to.bytes, vec![5u8; 32]);
    assert_eq!(req.payer.bytes, vec![7u8; 32]);
    assert_eq!(req.from_encrypted_key, "key-of-9");
    assert_eq!(req.to_encrypted_key, "");
}

#[test]
fn make_request_callable_by_second_party() {
    // The recipient-side party may also initiate; from becomes the caller.
    let mut req = fresh();
    let r = make_request(&mut req, &id(5), &id(5), id(9), id(5), String::from("k"));
    assert!(r.is_ok());
    assert_eq!(req.from.bytes, vec![5u8; 32]);
    assert_eq!(req.to.bytes, vec![9u8; 32]);
}

#[test]
fn make_request_rejects_wrong_order() {
    let mut req = fresh();
    let r = make_request(&mut req, &id(5), &id(7), id(5), id(9), String::from("k"));
    assert!(matches!(r, Err(ErrorCode::OrderMismatch)));
    assert_eq!(req.status, Status::Uninitialized);
}

#[test]
fn make_request_rejects_equal_identities() {
    let mut req = fresh();
    let r = make_request(&mut req, &id(5), &id(7), id(5), id(5), String::from("k"));
    assert!(matches!(r, Err(ErrorCode::OrderMismatch)));
}

#[test]
fn make_request_rejects_third_party() {
    let mut req = fresh();
    let r = make_request(&mut req, &id(3), &id(3), id(9), id(5), String::from("k"));
    assert!(matches!(r, Err(ErrorCode::WrongPrivileges)));
}

#[test]
fn make_request_rejects_oversized_key() {
    let mut req = fresh();
    let big = "x".repeat(129);
    let r = make_request(&mut req, &id(9), &id(7), id(9), id(5), big);
    assert!(matches!(r, Err(ErrorCode::IncorrectField)));
    let fits = "x".repeat(128);
    let r2 = make_request(&mut req, &id(9), &id(7), id(9), id(5), fits);
    assert!(r2.is_ok());
}

#[test]
fn make_request_while_pending_fails_existent() {
    let (mut req, _u1, _u2, _p) = pending_pair();
    let r = make_request(&mut req, &id(9), &id(7), id(9), id(5), String::from("k2"));
    assert!(matches!(r, Err(ErrorCode::ExistentRequest)));
    assert_eq!(req.status, Status::Pending);
}

#[test]
fn make_request_while_accepted_fails_existent() {
    let (mut req, _u1, _u2, _p) = pending_pair();
    accept_request(&mut req, &id(5), String::from("key-of-5")).unwrap();
    let r = make_request(&mut req, &id(9), &id(7), id(9), id(5), String::from("k2"));
    assert!(matches!(r, Err(ErrorCode::ExistentRequest)));
    assert_eq!(req.status, Status::Accepted);
}

#[test]
fn make_request_after_denied_resets_to_pending() {
    let (mut req, _u1, _u2, _p) = pending_pair();
    deny_request(&mut req, &id(5)).unwrap();
    let r = make_request(&mut req, &id(5), &id(3), id(9), id(5), String::from("k2"));
    assert!(r.is_ok());
    assert_eq!(req.status, Status::Pending);
    // The depositor was recorded at first initialization and is kept.
    assert_eq!(req.payer.bytes, vec![7u8; 32]);
}

#[test]
fn make_request_after_removed_friend_resets_to_pending() {
    let (mut req, _u1, _u2, _p) = pending_pair();
    accept_request(&mut req, &id(5), String::from("key-of-5")).unwrap();
    remove_friend(&mut req, &id(5)).unwrap();
    let r = make_request(&mut req, &id(9), &id(7), id(9), id(5), String::from("k2"));
    assert!(r.is_ok());
    assert_eq!(req.status, Status::Pending);
}

#[test]
fn make_request_after_request_removed_resets_to_pending() {
    let (mut req, _u1, _u2, _p) = pending_pair();
    remove_request(&mut req, &id(9)).unwrap();
    let r = make_request(&mut req, &id(9), &id(7), id(9), id(5), String::from("k2"));
    assert!(r.is_ok());
    assert_eq!(req.status, Status::Pending);
}

#[test]
fn accept_request_stores_key_and_accepts() {
    let (mut req, _u1, _u2, _p) = pending_pair();
    let r = accept_request(&mut req, &id(5), String::from("key-of-5"));
    assert!(r.is_ok());
    assert_eq!(req.status, Status::Accepted);
    assert_eq!(req.from_encrypted_key, "key-of-9");
    assert_eq!(req.to_encrypted_key, "key-of-5");
}

#[test]
fn accept_request_rejects_non_recipient() {
    let (mut req, _u1, _u2, _p) = pending_pair();
    let r = accept_request(&mut req, &id(9), String::from("k"));
    assert!(matches!(r, Err(ErrorCode::WrongPrivileges)));
    assert_eq!(req.status, Status::Pending);
}

#[test]
fn accept_request_requires_pending() {
    let (mut req, _u1, _u2, _p) = pending_pair();
    deny_request(&mut req, &id(5)).unwrap();
    let r = accept_request(&mut req, &id(5), String::from("k"));
    assert!(matches!(r, Err(ErrorCode::NotPendingRequest)));
}

#[test]
fn deny_request_wipes_keys_and_never_accepts() {
    let (mut req, _u1, _u2, _p) = pending_pair();
    deny_request(&mut req, &id(5)).unwrap();
    assert_eq!(req.status, Status::Denied);
    assert_ne!(req.status, Status::Accepted);
    assert_eq!(req.from_encrypted_key, "");
    assert_eq!(req.to_encrypted_key, "");
}

#[test]
fn deny_request_rejects_non_recipient() {
    let (mut req, _u1, _u2, _p) = pending_pair();
    let r = deny_request(&mut req, &id(9));
    assert!(matches!(r, Err(ErrorCode::WrongPrivileges)));
}

#[test]
fn remove_request_wipes_keys_and_never_accepts() {
    let (mut req, _u1, _u2, _p) = pending_pair();
    remove_request(&mut req, &id(9)).unwrap();
    assert_eq!(req.status, Status::RequestRemoved);
    assert_ne!(req.status, Status::Accepted);
    assert_eq!(req.from_encrypted_key, "");
    assert_eq!(req.to_encrypted_key, "");
}

#[test]
fn remove_request_rejects_recipient_side() {
    let (mut req, _u1, _u2, _p) = pending_pair();
    let r = remove_request(&mut req, &id(5));
    assert!(matches!(r, Err(ErrorCode::WrongPrivileges)));
}

#[test]
fn remove_request_on_accepted_fails_already_friends() {
    let (mut req, _u1, _u2, _p) = pending_pair();
    accept_request(&mut req, &id(5), String::from("k")).unwrap();
    let r = remove_request(&mut req, &id(9));
    assert!(matches!(r, Err(ErrorCode::AlreadyFriends)));
}

#[test]
fn remove_request_twice_fails_already_removed() {
    let (mut req, _u1, _u2, _p) = pending_pair();
    remove_request(&mut req, &id(9)).unwrap();
    let r = remove_request(&mut req, &id(9));
    assert!(matches!(r, Err(ErrorCode::AlreadyRemoved)));
}

#[test]
fn remove_friend_requires_accepted() {
    let (mut req, _u1, _u2, _p) = pending_pair();
    let r = remove_friend(&mut req, &id(9));
    assert!(matches!(r, Err(ErrorCode::NotFriends)));
}

#[test]
fn remove_friend_wipes_keys() {
    let (mut req, _u1, _u2, _p) = pending_pair();
    accept_request(&mut req, &id(5), String::from("key-of-5")).unwrap();
    remove_friend(&mut req, &id(9)).unwrap();
    assert_eq!(req.status, Status::RemovedFriend);
    assert_eq!(req.from_encrypted_key, "");
    assert_eq!(req.to_encrypted_key, "");
}

#[test]
fn close_request_refunds_exactly_the_depositor() {
    let (mut req, _u1, _u2, _p) = pending_pair();
    remove_request(&mut req, &id(9)).unwrap();
    let refund = close_request(&mut req, &id(9), &id(7)).unwrap();
    assert_eq!(refund.bytes, vec![7u8; 32]);
    assert_eq!(req.status, Status::Uninitialized);
}

#[test]
fn close_request_rejects_other_refund_target_unmodified() {
    let (mut req, _u1, _u2, _p) = pending_pair();
    remove_request(&mut req, &id(9)).unwrap();
    let r = close_request(&mut req, &id(9), &id(8));
    assert!(matches!(r, Err(ErrorCode::PayerMismatch)));
    // The record is left unmodified.
    assert_eq!(req.status, Status::RequestRemoved);
    assert_eq!(req.payer.bytes, vec![7u8; 32]);
}

#[test]
fn close_request_requires_terminal_removed_state() {
    let (mut req, _u1, _u2, _p) = pending_pair();
    let r = close_request(&mut req, &id(9), &id(7));
    assert!(matches!(r, Err(ErrorCode::ExistentRequest)));
}

#[test]
fn close_request_after_remove_friend_succeeds() {
    let (mut req, _u1, _u2, _p) = pending_pair();
    accept_request(&mut req, &id(5), String::from("k")).unwrap();
    remove_friend(&mut req, &id(5)).unwrap();
    let refund = close_request(&mut req, &id(5), &id(7)).unwrap();
    assert_eq!(refund.bytes, vec![7u8; 32]);
}

#[test]
fn closed_record_can_be_recreated_with_a_new_depositor() {
    let (mut req, _u1, _u2, _p) = pending_pair();
    remove_request(&mut req, &id(9)).unwrap();
    close_request(&mut req, &id(9), &id(7)).unwrap();
    // The address is free again; a fresh request records the new depositor.
    let r = make_request(&mut req, &id(5), &id(4), id(9), id(5), String::from("k3"));
    assert!(r.is_ok());
    assert_eq!(req.status, Status::Pending);
    assert_eq!(req.payer.bytes, vec![4u8; 32]);
    assert_eq!(req.from.bytes, vec![5u8; 32]);
}

#[test]
fn close_request_rejects_third_party() {
    let (mut req, _u1, _u2, _p) = pending_pair();
    remove_request(&mut req, &id(9)).unwrap();
    let r = close_request(&mut req, &id(3), &id(7));
    assert!(matches!(r, Err(ErrorCode::WrongPrivileges)));
}
