//! The error taxonomy. Every check is local and immediate: a failing check
//! aborts the whole operation with no observable side effect, and the kind is
//! surfaced to the caller verbatim.

use vstd::prelude::*;

verus! {

/// Why an operation was rejected.
#[derive(Clone, Copy, Debug, PartialEq, Eq, Structural)]
pub enum ErrorCode {
    /// Caller identity does not match the role the operation requires.
    WrongPrivileges,
    /// The record's status is not the one the operation requires.
    NotPendingRequest,
    /// The two parties are not friends yet.
    NotFriends,
    /// The two parties are already friends.
    AlreadyFriends,
    /// The request was already removed.
    AlreadyRemoved,
    /// A pairwise operation named its identities out of canonical order.
    OrderMismatch,
    /// An active record already occupies the derived address.
    ExistentRequest,
    /// The refund target does not match the recorded depositor.
    PayerMismatch,
    /// A referenced invitation does not belong to the group being acted on,
    /// or a successor/recipient equality constraint fails, or a referenced
    /// record is not present at its claimed address.
    InvitationMismatch,
    /// Group closure attempted while more than one member remains.
    NotEmpty,
    /// A field's length lies outside its configured bounds, or a count would
    /// exceed its record's fixed capacity.
    IncorrectField,
    /// A defensive rejection: a validator was configured with a minimum above
    /// its maximum, or address derivation found no usable discriminator. In
    /// correct configurations neither can trigger.
    InputError,
    /// A required signature is missing or does not control the claimed
    /// authority.
    MissingRequiredSignature,
    /// Asset metadata does not belong to the mint provided.
    MetadataMismatch,
    /// The referenced asset record is not a master edition.
    WrongEdition,
    /// The delegation service must be listed among the asset's creators.
    SatelliteMustListAmongCreators,
    /// The claimed relayer is not the derived delegation authority.
    OwnerMismatch,
}

} // verus!
