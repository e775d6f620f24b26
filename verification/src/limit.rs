//! Byte limits: the most that a reader or relay may take, and the room that
//! is left under it.

use vstd::prelude::*;
use crate::errors::Error;

verus! {

/// The most bytes that a reader with this limit may take: without a limit, as
/// many as a count can hold.
pub open spec fn ceiling(limit: Option<usize>) -> usize {
    match limit {
        Some(l) => l,
        None => usize::MAX,
    }
}

/// The result of a reader or relay that worked under the room that a limit
/// left, told in terms of the limit: `SizeLimitExceeded` names the limit
/// itself (without a limit, the largest count), everything else stays as it
/// is.
pub open spec fn under_limit(res: Result<usize, Error>, limit: Option<usize>) -> Result<
    usize,
    Error,
> {
    match res {
        Err(Error::SizeLimitExceeded(_)) => Err(Error::SizeLimitExceeded(ceiling(limit))),
        _ => res,
    }
}

/// Tells a result in terms of the limit, as `under_limit` says.
pub fn name_limit(res: Result<usize, Error>, limit: Option<usize>) -> (named: Result<usize, Error>)
    ensures
        named == under_limit(res, limit),
{
    match res {
        Err(Error::SizeLimitExceeded(_)) => match limit {
            Some(l) => Err(Error::SizeLimitExceeded(l)),
            None => Err(Error::SizeLimitExceeded(usize::MAX)),
        },
        other => other,
    }
}

/// The room that a limit leaves when `length` bytes are there already: what
/// is left under the limit, or, without a limit, under the largest count.
/// There is none where the limit is exceeded already.
pub open spec fn room_under(limit: Option<usize>, length: usize) -> Option<usize> {
    match limit {
        Some(l) => if length > l {
            None
        } else {
            Some((l - length) as usize)
        },
        None => Some((usize::MAX - length) as usize),
    }
}

/// The room that a limit leaves, or `SizeLimitExceeded` with the limit where
/// it is exceeded already.
pub fn room(limit: Option<usize>, length: usize) -> (res: Result<usize, Error>)
    ensures
        match room_under(limit, length) {
            Some(r) => res == Ok::<usize, Error>(r),
            None => limit is Some && res == Err::<usize, Error>(
                Error::SizeLimitExceeded(limit->0),
            ),
        },
{
    match limit {
        Some(l) => {
            if length > l {
                Err(Error::SizeLimitExceeded(l))
            } else {
                Ok(l - length)
            }
        },
        None => Ok(usize::MAX - length),
    }
}

} // verus!
