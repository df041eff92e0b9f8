//! User profile records: simple attribute setters guarded by the validation
//! layer. No state machine; every field is a bounded string.

use vstd::prelude::*;
use crate::errors::ErrorCode;
use crate::validation::{check_len, length_check};

verus! {

/// A user profile record.
pub struct User {
    pub name: String,
    pub photo_hash: String,
    pub status: String,
    pub banner_image_hash: String,
    pub extra_1: String,
    pub extra_2: String,
}

/// Fixed capacity of a user profile record: a fixed-width type tag and six
/// length-prefixed fields at their maxima.
pub const USER_LEN: usize = 8 + (4 + 32) + (4 + 64) + (4 + 128) + (4 + 64) + (4 + 64) + (4 + 64);

/// The capacity a user profile record occupies.
pub open spec fn user_size(u: User) -> nat {
    (8 + 4 + 4 + 4 + 4 + 4 + 4) + u.name@.len() + u.photo_hash@.len() + u.status@.len()
        + u.banner_image_hash@.len() + u.extra_1@.len() + u.extra_2@.len()
}

/// The hard capacity invariant: a well-formed user profile never outgrows
/// its fixed budget.
pub proof fn lemma_user_fits(u: User)
    requires
        u.wf(),
    ensures
        user_size(u) <= USER_LEN,
{
}

impl User {
    /// Every stored field respects its configured bounds. The banner and the
    /// two extra fields are optional: absent (empty) or within bounds.
    pub open spec fn wf(&self) -> bool {
        &&& check_len(self.name@.len(), 3, 32, true) is None
        &&& check_len(self.photo_hash@.len(), 64, 64, true) is None
        &&& check_len(self.status@.len(), 3, 128, true) is None
        &&& check_len(self.banner_image_hash@.len(), 64, 64, false) is None
        &&& check_len(self.extra_1@.len(), 0, 64, false) is None
        &&& check_len(self.extra_2@.len(), 0, 64, false) is None
    }
}

/// Which way `create` decides: the mandatory name, photo hash and status are
/// validated in that order.
pub open spec fn create_outcome(name_len: nat, photo_len: nat, status_len: nat) -> Result<
    (),
    ErrorCode,
> {
    match check_len(name_len, 3, 32, true) {
        Some(e) => Err(e),
        None => match check_len(photo_len, 64, 64, true) {
            Some(e) => Err(e),
            None => match check_len(status_len, 3, 128, true) {
                Some(e) => Err(e),
                None => Ok(()),
            },
        },
    }
}

/// Create a user profile from its three mandatory attributes; the optional
/// fields start out empty.
pub fn create(name: String, photo_hash: String, status: String) -> (r: Result<User, ErrorCode>)
    ensures
        (match r {
            Ok(u) => {
                &&& create_outcome(name@.len(), photo_hash@.len(), status@.len()) is Ok
                &&& u.wf()
                &&& u.name@ == name@
                &&& u.photo_hash@ == photo_hash@
                &&& u.status@ == status@
                &&& u.banner_image_hash@.len() == 0
                &&& u.extra_1@.len() == 0
                &&& u.extra_2@.len() == 0
            },
            Err(e) => create_outcome(name@.len(), photo_hash@.len(), status@.len()) == Err::<
                (),
                ErrorCode,
            >(e),
        }),
{
    length_check(&name, 3, 32, true)?;
    length_check(&photo_hash, 64, 64, true)?;
    length_check(&status, 3, 128, true)?;
    Ok(
        User {
            name,
            photo_hash,
            status,
            banner_image_hash: String::new(),
            extra_1: String::new(),
            extra_2: String::new(),
        },
    )
}

/// Replace the profile's display name (3 to 32 characters, mandatory).
pub fn set_name(user: &mut User, name: String) -> (r: Result<(), ErrorCode>)
    requires
        old(user).wf(),
    ensures
        (match check_len(name@.len(), 3, 32, true) {
            None => r == Ok::<(), ErrorCode>(()),
            Some(e) => r == Err::<(), ErrorCode>(e),
        }),
        r is Err ==> *final(user) == *old(user),
        r is Ok ==> {
            &&& final(user).wf()
            &&& final(user).name@ == name@
            &&& final(user).photo_hash == old(user).photo_hash
            &&& final(user).status == old(user).status
            &&& final(user).banner_image_hash == old(user).banner_image_hash
            &&& final(user).extra_1 == old(user).extra_1
            &&& final(user).extra_2 == old(user).extra_2
        },
{
    length_check(&name, 3, 32, true)?;
    user.name = name;
    Ok(())
}

/// Replace the profile's photo hash (exactly 64 characters, mandatory).
pub fn set_photo_hash(user: &mut User, photo_hash: String) -> (r: Result<(), ErrorCode>)
    requires
        old(user).wf(),
    ensures
        (match check_len(photo_hash@.len(), 64, 64, true) {
            None => r == Ok::<(), ErrorCode>(()),
            Some(e) => r == Err::<(), ErrorCode>(e),
        }),
        r is Err ==> *final(user) == *old(user),
        r is Ok ==> {
            &&& final(user).wf()
            &&& final(user).photo_hash@ == photo_hash@
            &&& final(user).name == old(user).name
            &&& final(user).status == old(user).status
            &&& final(user).banner_image_hash == old(user).banner_image_hash
            &&& final(user).extra_1 == old(user).extra_1
            &&& final(user).extra_2 == old(user).extra_2
        },
{
    length_check(&photo_hash, 64, 64, true)?;
    user.photo_hash = photo_hash;
    Ok(())
}

/// Replace the profile's status text (3 to 128 characters, mandatory).
pub fn set_status(user: &mut User, status: String) -> (r: Result<(), ErrorCode>)
    requires
        old(user).wf(),
    ensures
        (match check_len(status@.len(), 3, 128, true) {
            None => r == Ok::<(), ErrorCode>(()),
            Some(e) => r == Err::<(), ErrorCode>(e),
        }),
        r is Err ==> *final(user) == *old(user),
        r is Ok ==> {
            &&& final(user).wf()
            &&& final(user).status@ == status@
            &&& final(user).name == old(user).name
            &&& final(user).photo_hash == old(user).photo_hash
            &&& final(user).banner_image_hash == old(user).banner_image_hash
            &&& final(user).extra_1 == old(user).extra_1
            &&& final(user).extra_2 == old(user).extra_2
        },
{
    length_check(&status, 3, 128, true)?;
    user.status = status;
    Ok(())
}

/// Replace the profile's banner image hash (optional; absent or exactly 64
/// characters).
pub fn set_banner_image_hash(user: &mut User, banner_image_hash: String) -> (r: Result<
    (),
    ErrorCode,
>)
    requires
        old(user).wf(),
    ensures
        (match check_len(banner_image_hash@.len(), 64, 64, false) {
            None => r == Ok::<(), ErrorCode>(()),
            Some(e) => r == Err::<(), ErrorCode>(e),
        }),
        r is Err ==> *final(user) == *old(user),
        r is Ok ==> {
            &&& final(user).wf()
            &&& final(user).banner_image_hash@ == banner_image_hash@
            &&& final(user).name == old(user).name
            &&& final(user).photo_hash == old(user).photo_hash
            &&& final(user).status == old(user).status
            &&& final(user).extra_1 == old(user).extra_1
            &&& final(user).extra_2 == old(user).extra_2
        },
{
    length_check(&banner_image_hash, 64, 64, false)?;
    user.banner_image_hash = banner_image_hash;
    Ok(())
}

/// Replace the first extra field (optional, up to 64 characters).
pub fn set_extra_one(user: &mut User, extra_1: String) -> (r: Result<(), ErrorCode>)
    requires
        old(user).wf(),
    ensures
        (match check_len(extra_1@.len(), 0, 64, false) {
            None => r == Ok::<(), ErrorCode>(()),
            Some(e) => r == Err::<(), ErrorCode>(e),
        }),
        r is Err ==> *final(user) == *old(user),
        r is Ok ==> {
            &&& final(user).wf()
            &&& final(user).extra_1@ == extra_1@
            &&& final(user).name == old(user).name
            &&& final(user).photo_hash == old(user).photo_hash
            &&& final(user).status == old(user).status
            &&& final(user).banner_image_hash == old(user).banner_image_hash
            &&& final(user).extra_2 == old(user).extra_2
        },
{
    length_check(&extra_1, 0, 64, false)?;
    user.extra_1 = extra_1;
    Ok(())
}

/// Replace the second extra field (optional, up to 64 characters).
pub fn set_extra_two(user: &mut User, extra_2: String) -> (r: Result<(), ErrorCode>)
    requires
        old(user).wf(),
    ensures
        (match check_len(extra_2@.len(), 0, 64, false) {
            None => r == Ok::<(), ErrorCode>(()),
            Some(e) => r == Err::<(), ErrorCode>(e),
        }),
        r is Err ==> *final(user) == *old(user),
        r is Ok ==> {
            &&& final(user).wf()
            &&& final(user).extra_2@ == extra_2@
            &&& final(user).name == old(user).name
            &&& final(user).photo_hash == old(user).photo_hash
            &&& final(user).status == old(user).status
            &&& final(user).banner_image_hash == old(user).banner_image_hash
            &&& final(user).extra_1 == old(user).extra_1
        },
{
    length_check(&extra_2, 0, 64, false)?;
    user.extra_2 = extra_2;
    Ok(())
}

} // verus!
