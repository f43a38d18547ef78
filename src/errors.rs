//! Errors of the cache.
use vstd::prelude::*;

verus! {

#[derive(Debug, PartialEq, Eq)]
pub enum CacheError {
    /// A message from the counter library or the key-value store.
    Msg(String),
    /// The captcha is not in the store.
    CaptchaNotFound,
    /// A captcha of that name is already in the store.
    CaptchaExists,
    ChallengeNotFound,
    DuplicateChallenge,
    /// The clock is before the epoch, or a future instant does not fit in 64 bits.
    Clock,
    /// A captcha's duration must be positive.
    DurationZero,
    /// A persisted record is corrupt or of another encoding version.
    Serialization,
    /// A count would leave the range of `u32`.
    Overflow,
}

impl CacheError {
    pub fn new(msg: String) -> (r: Self)
        ensures
            r == CacheError::Msg(msg),
    {
        CacheError::Msg(msg)
    }
}

pub type CacheResult<T> = Result<T, CacheError>;

} // verus!
