//! Checks that the readers share.

use vstd::prelude::*;
use crate::errors::Error;

verus! {

/// Holds a byte count against a ceiling: a count over it is
/// `SizeLimitExceeded` with the ceiling, and without a ceiling every count
/// passes.
pub fn validate_size_constraint(length: usize, limit: Option<usize>) -> (res: Result<(), Error>)
    ensures
        match limit {
            Some(l) if l < length => res == Err::<(), Error>(Error::SizeLimitExceeded(l)),
            _ => res is Ok,
        },
{
    match limit {
        Some(l) => {
            if l < length {
                Err(Error::SizeLimitExceeded(l))
            } else {
                Ok(())
            }
        },
        None => Ok(()),
    }
}

} // verus!
