//! The validation layer: bounded-length checks applied to every user-supplied
//! string or byte field before it is written into a record.

use vstd::prelude::*;
use crate::errors::ErrorCode;

verus! {

/// The validation rule, stated once: a mandatory field may not be empty; a
/// validator configured with `min > max` is itself rejected; otherwise the
/// length must be zero (the field is optional and absent) or within
/// `[min, max]`. Returns `None` when the field passes.
pub open spec fn check_len(n: nat, min: nat, max: nat, mandatory: bool) -> Option<ErrorCode> {
    if mandatory && n == 0 {
        Some(ErrorCode::IncorrectField)
    } else if min > max {
        Some(ErrorCode::InputError)
    } else if n == 0 || (min <= n && n <= max) {
        None
    } else {
        Some(ErrorCode::IncorrectField)
    }
}

/// Length check for a string field, counting characters.
pub fn length_check(
    field: &String,
    min_accepted_length: usize,
    max_accepted_length: usize,
    is_mandatory: bool,
) -> (r: Result<(), ErrorCode>)
    ensures
        (match check_len(
            field@.len(),
            min_accepted_length as nat,
            max_accepted_length as nat,
            is_mandatory,
        ) {
            None => r == Ok::<(), ErrorCode>(()),
            Some(e) => r == Err::<(), ErrorCode>(e),
        }),
{
    let n = field.as_str().unicode_len();
    if is_mandatory && n == 0 {
        return Err(ErrorCode::IncorrectField);
    }
    if min_accepted_length > max_accepted_length {
        return Err(ErrorCode::InputError);
    }
    if (n >= min_accepted_length && n <= max_accepted_length) || n == 0 {
        Ok(())
    } else {
        Err(ErrorCode::IncorrectField)
    }
}

/// Length check for a byte field.
pub fn length_check_vec(
    field: &Vec<u8>,
    min_accepted_length: usize,
    max_accepted_length: usize,
    is_mandatory: bool,
) -> (r: Result<(), ErrorCode>)
    ensures
        (match check_len(
            field@.len(),
            min_accepted_length as nat,
            max_accepted_length as nat,
            is_mandatory,
        ) {
            None => r == Ok::<(), ErrorCode>(()),
            Some(e) => r == Err::<(), ErrorCode>(e),
        }),
{
    let n = field.len();
    if is_mandatory && n == 0 {
        return Err(ErrorCode::IncorrectField);
    }
    if min_accepted_length > max_accepted_length {
        return Err(ErrorCode::InputError);
    }
    if (n >= min_accepted_length && n <= max_accepted_length) || n == 0 {
        Ok(())
    } else {
        Err(ErrorCode::IncorrectField)
    }
}

} // verus!
