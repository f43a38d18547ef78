//! Challenges handed out for a captcha, each kept until it is fetched or
//! its duration has passed.
use vstd::prelude::*;

use crate::errors::{CacheError, CacheResult};
use crate::mcaptcha::AddVisitorResult;
use crate::store::Store;

verus! {

pub struct Challenge(AddVisitorResult);

impl Challenge {
    pub closed spec fn result(&self) -> AddVisitorResult {
        self.0
    }

    pub fn new(duration: u64, difficulty: u32) -> (r: Self)
        ensures
            r.result() == (AddVisitorResult { duration, difficulty_factor: difficulty }),
    {
        Challenge(AddVisitorResult { duration, difficulty_factor: difficulty })
    }

    pub fn get_duration(&self) -> (r: u64)
        ensures
            r == self.result().duration,
    {
        self.0.duration
    }

    pub fn get_difficulty_factor(&self) -> (r: u32)
        ensures
            r == self.result().difficulty_factor,
    {
        self.0.difficulty_factor
    }

    /// Stores challenge `challenge` of `captcha` for `duration` seconds.
    /// Fails where a live challenge of that name exists.
    pub fn create_challenge(
        store: &mut Store,
        now: u64,
        captcha: &str,
        challenge: &str,
        duration: u64,
        difficulty: u32,
    ) -> (r: CacheResult<()>)
        requires
            old(store).wf(),
        ensures
            final(store).wf(),
            match old(store)@.create_challenge(
                now,
                crate::utils::challenge_name(captcha@, challenge@),
                duration,
                difficulty,
            ) {
                Ok(v) => final(store)@ == v && r is Ok,
                Err(e) => final(store)@ == old(store)@ && r == Err::<(), CacheError>(e),
            },
    {
        let name = crate::utils::get_challenge_name(captcha, challenge);
        let at = store.find_challenge(&name);
        match at {
            Some(i) => {
                let (_, expires_at) = store.challenge_at(i);
                if expires_at > now {
                    return Err(CacheError::DuplicateChallenge);
                }
            },
            None => {},
        }
        let expires_at = match now.checked_add(duration) {
            Some(t) => t,
            None => {
                return Err(CacheError::Clock);
            },
        };
        store.put_challenge(at, name, Self::new(duration, difficulty), expires_at);
        Ok(())
    }

    /// Removes challenge `challenge` of `captcha`. Fails where there is no
    /// live challenge of that name.
    pub fn delete_challenge(store: &mut Store, now: u64, captcha: &str, challenge: &str) -> (r: CacheResult<()>)
        requires
            old(store).wf(),
        ensures
            final(store).wf(),
            match old(store)@.take_challenge(crate::utils::challenge_name(captcha@, challenge@), now) {
                Ok(v) => final(store)@ == v && r is Ok,
                Err(e) => final(store)@ == old(store)@ && r == Err::<(), CacheError>(e),
            },
    {
        match Self::get_challenge(store, now, captcha, challenge) {
            Ok(_) => Ok(()),
            Err(e) => Err(e),
        }
    }

    /// Fetches challenge `challenge` of `captcha` and removes it, so that it
    /// is handed out once. Fails where there is no live challenge of that
    /// name.
    pub fn get_challenge(store: &mut Store, now: u64, captcha: &str, challenge: &str) -> (r: CacheResult<AddVisitorResult>)
        requires
            old(store).wf(),
        ensures
            final(store).wf(),
            match old(store)@.take_challenge(crate::utils::challenge_name(captcha@, challenge@), now) {
                Ok(v) => final(store)@ == v && r == Ok::<AddVisitorResult, CacheError>(
                    AddVisitorResult {
                        duration: old(store)@.challenges[old(store)@.challenge_index(
                            crate::utils::challenge_name(captcha@, challenge@),
                        )].duration,
                        difficulty_factor: old(store)@.challenges[old(store)@.challenge_index(
                            crate::utils::challenge_name(captcha@, challenge@),
                        )].difficulty_factor,
                    },
                ),
                Err(e) => final(store)@ == old(store)@ && r == Err::<AddVisitorResult, CacheError>(e),
            },
    {
        let name = crate::utils::get_challenge_name(captcha, challenge);
        match store.find_challenge(&name) {
            Some(i) => {
                let (_, expires_at) = store.challenge_at(i);
                if expires_at <= now {
                    return Err(CacheError::ChallengeNotFound);
                }
                let c = store.remove_challenge(i);
                Ok(AddVisitorResult { duration: c.get_duration(), difficulty_factor: c.get_difficulty_factor() })
            },
            None => Err(CacheError::ChallengeNotFound),
        }
    }
}

} // verus!
