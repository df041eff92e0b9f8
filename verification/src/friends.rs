//! The friend pairing state machine: one record per unordered pair of
//! identities, created in canonical order, moving through
//! request -> accept/deny/remove -> close, with key material wiped on every
//! transition away from an active state and the storage deposit refunded to
//! its original depositor on destruction.
//!
//! The host locates the pair's one record by its canonical derived address
//! (see the addressing module); the operations here govern the record's
//! content, and a record in status `Uninitialized` stands for "no record at
//! the address".

use vstd::prelude::*;
use crate::errors::ErrorCode;
use crate::ident::{lex_gt, Identity};
use crate::validation::check_len;

verus! {

/// Upper bound, in stored units, for each party's opaque secret-exchange
/// material.
pub const ENCRYPTED_KEY_MAX: usize = 128;

/// Fixed capacity of a friend request record, declared at creation: a
/// fixed-width type tag, the status byte, three identities, and two
/// length-prefixed key fields at their maxima. A record can never grow
/// beyond this budget; unused string capacity is wasted space, not
/// reclaimed.
pub const FRIEND_REQUEST_LEN: usize = 8 + 32 + 1 + 32 + 32 + (4 + 128) + (4 + 128);

/// Lifecycle states of a friend request record. `Uninitialized` stands for
/// "no record lives at the derived address": a freshly allocated record reads
/// as `Uninitialized`, and destroying a record returns it to that state.
#[derive(Clone, Copy, Debug, PartialEq, Eq, Structural)]
pub enum Status {
    Uninitialized,
    Pending,
    Accepted,
    Denied,
    RemovedFriend,
    RequestRemoved,
}

/// The one record of an unordered pair {from, to}. `payer` is the identity
/// that funded the record's storage and is owed its refund on destruction.
pub struct FriendRequest {
    pub from: Identity,
    pub status: Status,
    pub to: Identity,
    pub payer: Identity,
    pub from_encrypted_key: String,
    pub to_encrypted_key: String,
}

impl FriendRequest {
    /// Key material is wiped outside the active states: in every state but
    /// `Pending` and `Accepted` both fields are empty, and in `Pending` the
    /// recipient's field is still empty.
    pub open spec fn keys_wiped(&self) -> bool {
        match self.status {
            Status::Pending => self.to_encrypted_key@.len() == 0,
            Status::Accepted => true,
            _ => self.from_encrypted_key@.len() == 0 && self.to_encrypted_key@.len() == 0,
        }
    }

    /// Well-formedness: identities are 32 bytes, key material is within its
    /// declared capacity, and the wipe invariant holds.
    pub open spec fn wf(&self) -> bool {
        &&& self.from.wf()
        &&& self.to.wf()
        &&& self.payer.wf()
        &&& self.from_encrypted_key@.len() <= ENCRYPTED_KEY_MAX
        &&& self.to_encrypted_key@.len() <= ENCRYPTED_KEY_MAX
        &&& self.keys_wiped()
    }

    /// A record whose address holds no relationship: all fields empty.
    pub fn uninitialized(from: Identity, to: Identity, payer: Identity) -> (r: FriendRequest)
        requires
            from.wf(),
            to.wf(),
            payer.wf(),
        ensures
            r.wf(),
            r.status == Status::Uninitialized,
            r.from@ == from@,
            r.to@ == to@,
            r.payer@ == payer@,
            r.from_encrypted_key@.len() == 0,
            r.to_encrypted_key@.len() == 0,
    {
        FriendRequest {
            from,
            status: Status::Uninitialized,
            to,
            payer,
            from_encrypted_key: String::new(),
            to_encrypted_key: String::new(),
        }
    }
}

/// The capacity a friend request record occupies: one unit per fixed-width
/// byte and one per stored unit of each length-prefixed field.
pub open spec fn record_size(r: FriendRequest) -> nat {
    (8 + 32 + 1 + 32 + 32 + 4 + 4) + r.from_encrypted_key@.len() + r.to_encrypted_key@.len()
}

/// The hard capacity invariant: a well-formed friend request record never
/// outgrows its fixed budget.
pub proof fn lemma_record_fits(r: FriendRequest)
    requires
        r.wf(),
    ensures
        record_size(r) <= FRIEND_REQUEST_LEN,
{
}

/// In a well-formed record, key material never outlives an active state:
/// outside `Pending` and `Accepted` both fields are empty, and in `Pending`
/// the recipient's field is still empty. Every operation of this module
/// preserves well-formedness, so this holds in every reachable state.
pub proof fn lemma_keys_wiped_outside_active(r: FriendRequest)
    requires
        r.wf(),
    ensures
        r.status != Status::Pending && r.status != Status::Accepted
            ==> r.from_encrypted_key@.len() == 0 && r.to_encrypted_key@.len() == 0,
        r.status == Status::Pending ==> r.to_encrypted_key@.len() == 0,
{
}

/// Which way `make_request` decides, stated directly from the rules: the pair
/// must be named in canonical order, the caller must be one of the pair, no
/// active record may occupy the address, and the key material must fit.
pub open spec fn make_request_outcome(
    s0: Status,
    user: Seq<u8>,
    user1: Seq<u8>,
    user2: Seq<u8>,
    key_len: nat,
) -> Result<(), ErrorCode> {
    if !lex_gt(user1, user2) {
        Err(ErrorCode::OrderMismatch)
    } else if user != user1 && user != user2 {
        Err(ErrorCode::WrongPrivileges)
    } else if s0 == Status::Pending || s0 == Status::Accepted {
        Err(ErrorCode::ExistentRequest)
    } else if check_len(key_len, 0, ENCRYPTED_KEY_MAX as nat, false) is Some {
        Err(ErrorCode::IncorrectField)
    } else {
        Ok(())
    }
}

/// Create, or re-create from a non-active state, the request record of the
/// pair {user1, user2}. The caller becomes `from`, the other party `to`; the
/// depositor is recorded only when the record is first initialized; the
/// caller's key material is stored, the other party's wiped; the status
/// becomes `Pending`.
pub fn make_request(
    request: &mut FriendRequest,
    user: &Identity,
    payer: &Identity,
    user1: Identity,
    user2: Identity,
    k: String,
) -> (r: Result<(), ErrorCode>)
    requires
        old(request).wf(),
        user.wf(),
        payer.wf(),
        user1.wf(),
        user2.wf(),
    ensures
        r == make_request_outcome(old(request).status, user@, user1@, user2@, k@.len()),
        r is Err ==> *final(request) == *old(request),
        r is Ok ==> {
            &&& final(request).wf()
            &&& final(request).status == Status::Pending
            &&& (if user@ == user1@ {
                final(request).from@ == user1@ && final(request).to@ == user2@
            } else {
                final(request).from@ == user2@ && final(request).to@ == user1@
            })
            &&& final(request).payer@ == (if old(request).status == Status::Uninitialized {
                payer@
            } else {
                old(request).payer@
            })
            &&& final(request).from_encrypted_key@ == k@
            &&& final(request).to_encrypted_key@.len() == 0
        },
{
    if !user1.gt(&user2) {
        return Err(ErrorCode::OrderMismatch);
    }
    if !user.same(&user1) && !user.same(&user2) {
        return Err(ErrorCode::WrongPrivileges);
    }
    if request.status == Status::Pending || request.status == Status::Accepted {
        return Err(ErrorCode::ExistentRequest);
    }
    if k.as_str().unicode_len() > ENCRYPTED_KEY_MAX {
        return Err(ErrorCode::IncorrectField);
    }
    if request.status == Status::Uninitialized {
        request.payer = payer.clone();
    }
    if user.same(&user1) {
        request.from = user1;
        request.to = user2;
    } else {
        request.from = user2;
        request.to = user1;
    }
    request.from_encrypted_key = k;
    request.to_encrypted_key = String::new();
    request.status = Status::Pending;
    Ok(())
}

/// Which way `accept_request` decides: only the addressed party may accept,
/// only a pending request can be accepted, and the key material must fit.
pub open spec fn accept_request_outcome(
    s0: Status,
    user: Seq<u8>,
    to: Seq<u8>,
    key_len: nat,
) -> Result<(), ErrorCode> {
    if user != to {
        Err(ErrorCode::WrongPrivileges)
    } else if s0 != Status::Pending {
        Err(ErrorCode::NotPendingRequest)
    } else if check_len(key_len, 0, ENCRYPTED_KEY_MAX as nat, false) is Some {
        Err(ErrorCode::IncorrectField)
    } else {
        Ok(())
    }
}

/// Accept a pending request: stores the recipient's key material and moves
/// the record to `Accepted`.
pub fn accept_request(request: &mut FriendRequest, user: &Identity, k: String) -> (r: Result<
    (),
    ErrorCode,
>)
    requires
        old(request).wf(),
        user.wf(),
    ensures
        r == accept_request_outcome(old(request).status, user@, old(request).to@, k@.len()),
        r is Err ==> *final(request) == *old(request),
        r is Ok ==> {
            &&& final(request).wf()
            &&& final(request).status == Status::Accepted
            &&& final(request).to_encrypted_key@ == k@
            &&& final(request).from == old(request).from
            &&& final(request).to == old(request).to
            &&& final(request).payer == old(request).payer
            &&& final(request).from_encrypted_key == old(request).from_encrypted_key
        },
{
    if !user.same(&request.to) {
        return Err(ErrorCode::WrongPrivileges);
    }
    if request.status != Status::Pending {
        return Err(ErrorCode::NotPendingRequest);
    }
    if k.as_str().unicode_len() > ENCRYPTED_KEY_MAX {
        return Err(ErrorCode::IncorrectField);
    }
    request.to_encrypted_key = k;
    request.status = Status::Accepted;
    Ok(())
}

/// Which way `deny_request` decides: only the addressed party may deny, and
/// only a pending request can be denied.
pub open spec fn deny_request_outcome(s0: Status, user: Seq<u8>, to: Seq<u8>) -> Result<
    (),
    ErrorCode,
> {
    if user != to {
        Err(ErrorCode::WrongPrivileges)
    } else if s0 != Status::Pending {
        Err(ErrorCode::NotPendingRequest)
    } else {
        Ok(())
    }
}

/// Deny a pending request: wipes both parties' key material and moves the
/// record to `Denied`. The record is never `Accepted` afterwards.
pub fn deny_request(request: &mut FriendRequest, user: &Identity) -> (r: Result<(), ErrorCode>)
    requires
        old(request).wf(),
        user.wf(),
    ensures
        r == deny_request_outcome(old(request).status, user@, old(request).to@),
        r is Err ==> *final(request) == *old(request),
        r is Ok ==> {
            &&& final(request).wf()
            &&& final(request).status == Status::Denied
            &&& final(request).from_encrypted_key@.len() == 0
            &&& final(request).to_encrypted_key@.len() == 0
            &&& final(request).from == old(request).from
            &&& final(request).to == old(request).to
            &&& final(request).payer == old(request).payer
        },
{
    if !user.same(&request.to) {
        return Err(ErrorCode::WrongPrivileges);
    }
    if request.status != Status::Pending {
        return Err(ErrorCode::NotPendingRequest);
    }
    request.status = Status::Denied;
    request.from_encrypted_key = String::new();
    request.to_encrypted_key = String::new();
    Ok(())
}

/// Which way `remove_request` decides: only the requester may retract, an
/// accepted pair must use `remove_friend` instead, and a request already
/// retracted stays retracted.
pub open spec fn remove_request_outcome(s0: Status, user: Seq<u8>, from: Seq<u8>) -> Result<
    (),
    ErrorCode,
> {
    if user != from {
        Err(ErrorCode::WrongPrivileges)
    } else if s0 == Status::Accepted {
        Err(ErrorCode::AlreadyFriends)
    } else if s0 == Status::RequestRemoved {
        Err(ErrorCode::AlreadyRemoved)
    } else {
        Ok(())
    }
}

/// Retract one's own request: wipes both parties' key material and moves the
/// record to `RequestRemoved`. The record is never `Accepted` afterwards.
pub fn remove_request(request: &mut FriendRequest, user: &Identity) -> (r: Result<(), ErrorCode>)
    requires
        old(request).wf(),
        user.wf(),
    ensures
        r == remove_request_outcome(old(request).status, user@, old(request).from@),
        r is Err ==> *final(request) == *old(request),
        r is Ok ==> {
            &&& final(request).wf()
            &&& final(request).status == Status::RequestRemoved
            &&& final(request).from_encrypted_key@.len() == 0
            &&& final(request).to_encrypted_key@.len() == 0
            &&& final(request).from == old(request).from
            &&& final(request).to == old(request).to
            &&& final(request).payer == old(request).payer
        },
{
    if !user.same(&request.from) {
        return Err(ErrorCode::WrongPrivileges);
    }
    if request.status == Status::Accepted {
        return Err(ErrorCode::AlreadyFriends);
    }
    if request.status == Status::RequestRemoved {
        return Err(ErrorCode::AlreadyRemoved);
    }
    request.status = Status::RequestRemoved;
    request.from_encrypted_key = String::new();
    request.to_encrypted_key = String::new();
    Ok(())
}

/// Which way `remove_friend` decides: either party may end an accepted
/// friendship, and only an accepted one.
pub open spec fn remove_friend_outcome(
    s0: Status,
    user: Seq<u8>,
    from: Seq<u8>,
    to: Seq<u8>,
) -> Result<(), ErrorCode> {
    if user != from && user != to {
        Err(ErrorCode::WrongPrivileges)
    } else if s0 != Status::Accepted {
        Err(ErrorCode::NotFriends)
    } else {
        Ok(())
    }
}

/// End an accepted friendship: wipes both parties' key material and moves the
/// record to `RemovedFriend`.
pub fn remove_friend(request: &mut FriendRequest, user: &Identity) -> (r: Result<(), ErrorCode>)
    requires
        old(request).wf(),
        user.wf(),
    ensures
        r == remove_friend_outcome(
            old(request).status,
            user@,
            old(request).from@,
            old(request).to@,
        ),
        r is Err ==> *final(request) == *old(request),
        r is Ok ==> {
            &&& final(request).wf()
            &&& final(request).status == Status::RemovedFriend
            &&& final(request).from_encrypted_key@.len() == 0
            &&& final(request).to_encrypted_key@.len() == 0
            &&& final(request).from == old(request).from
            &&& final(request).to == old(request).to
            &&& final(request).payer == old(request).payer
        },
{
    if !user.same(&request.from) && !user.same(&request.to) {
        return Err(ErrorCode::WrongPrivileges);
    }
    if request.status != Status::Accepted {
        return Err(ErrorCode::NotFriends);
    }
    request.status = Status::RemovedFriend;
    request.from_encrypted_key = String::new();
    request.to_encrypted_key = String::new();
    Ok(())
}

/// Which way `close_request` decides: either party may close, only a record
/// in a terminal removed state can be closed, and the refund target must be
/// the recorded depositor.
pub open spec fn close_request_outcome(
    s0: Status,
    user: Seq<u8>,
    from: Seq<u8>,
    to: Seq<u8>,
    payer_arg: Seq<u8>,
    payer_rec: Seq<u8>,
) -> Result<(), ErrorCode> {
    if user != from && user != to {
        Err(ErrorCode::WrongPrivileges)
    } else if s0 != Status::RequestRemoved && s0 != Status::RemovedFriend {
        Err(ErrorCode::ExistentRequest)
    } else if payer_arg != payer_rec {
        Err(ErrorCode::PayerMismatch)
    } else {
        Ok(())
    }
}

/// Destroy a record in a terminal removed state and refund its storage
/// deposit. On success the returned identity -- exactly the recorded
/// depositor -- receives the refund, and the record returns to
/// `Uninitialized`, freeing the pair's address. With any other refund target
/// the operation fails with `PayerMismatch` and the record is unmodified.
pub fn close_request(request: &mut FriendRequest, user: &Identity, payer: &Identity) -> (r: Result<
    Identity,
    ErrorCode,
>)
    requires
        old(request).wf(),
        user.wf(),
        payer.wf(),
    ensures
        (match r {
            Ok(refunded) => {
                &&& close_request_outcome(
                    old(request).status,
                    user@,
                    old(request).from@,
                    old(request).to@,
                    payer@,
                    old(request).payer@,
                ) is Ok
                &&& refunded@ == old(request).payer@
                &&& refunded.wf()
            },
            Err(e) => close_request_outcome(
                old(request).status,
                user@,
                old(request).from@,
                old(request).to@,
                payer@,
                old(request).payer@,
            ) == Err::<(), ErrorCode>(e),
        }),
        r is Err ==> *final(request) == *old(request),
        r is Ok ==> {
            &&& final(request).wf()
            &&& final(request).status == Status::Uninitialized
            &&& final(request).from_encrypted_key@.len() == 0
            &&& final(request).to_encrypted_key@.len() == 0
        },
{
    if !user.same(&request.from) && !user.same(&request.to) {
        return Err(ErrorCode::WrongPrivileges);
    }
    if request.status != Status::RequestRemoved && request.status != Status::RemovedFriend {
        return Err(ErrorCode::ExistentRequest);
    }
    if !payer.same(&request.payer) {
        return Err(ErrorCode::PayerMismatch);
    }
    let refunded = request.payer.clone();
    request.status = Status::Uninitialized;
    request.from_encrypted_key = String::new();
    request.to_encrypted_key = String::new();
    Ok(refunded)
}

} // verus!
