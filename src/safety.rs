//! The safety watchdog.
//!
//! Each captcha has a safety record that lapses after twice its duration
//! and is renewed every duration. A record that lapses shows that a cycle
//! of renewals, and perhaps a bucket's flush, was lost: the captcha's whole
//! count is then registered for decrement.
use vstd::prelude::*;
use vstd::string::*;

use crate::bucket::Bucket;
use crate::errors::{CacheError, CacheResult};
use crate::store::{Store, StoreState};
use crate::utils::{get_mcaptcha_from_safety, is_mcaptcha_safety, is_prefix, safety_prefix};

verus! {

/// Encoding version of persisted safety records.
pub const MCAPTCHA_SAFETY_VERSION: i32 = 0;

/// What a persisted safety record holds.
pub const SAFETY_RDB_VAL: &'static str = "SAFETY";

pub struct MCaptchaSafety;

impl MCaptchaSafety {
    /// A safety record read back from `data`, persisted with encoding
    /// version `encver`; fails on another version or other contents.
    pub fn from_record(encver: i32, data: &str) -> (r: CacheResult<MCaptchaSafety>)
        ensures
            r is Ok <==> encver == MCAPTCHA_SAFETY_VERSION && data@ == SAFETY_RDB_VAL@,
            r matches Err(e) ==> e == CacheError::Serialization,
    {
        if encver != MCAPTCHA_SAFETY_VERSION {
            return Err(CacheError::Serialization);
        }
        if crate::utils::starts_with(data, SAFETY_RDB_VAL) && data.unicode_len() == SAFETY_RDB_VAL.unicode_len() {
            assert(data@ =~= SAFETY_RDB_VAL@);
            Ok(MCaptchaSafety)
        } else {
            proof {
                if data@ == SAFETY_RDB_VAL@ {
                    assert(data@.subrange(0, SAFETY_RDB_VAL@.len() as int) =~= data@);
                }
            }
            Err(CacheError::Serialization)
        }
    }

    /// Creates the safety record of `mcaptcha_name`, lapsing at
    /// `now + 2 * duration`, unless it exists. Returns whether it was
    /// created: its renewal is then to be scheduled in `duration` seconds.
    pub fn new(store: &mut Store, now: u64, duration: u64, mcaptcha_name: &String) -> (r: CacheResult<bool>)
        requires
            old(store).wf(),
        ensures
            final(store).wf(),
            match old(store)@.safety_new(now, mcaptcha_name@, duration) {
                Ok(v) => final(store)@ == v && r == Ok::<bool, CacheError>(!old(store)@.has_safety(mcaptcha_name@)),
                Err(e) => final(store)@ == old(store)@ && r == Err::<bool, CacheError>(e),
            },
    {
        match store.find_safety(mcaptcha_name) {
            Some(_) => Ok(false),
            None => {
                let expires_at = match Self::expiry(now, duration) {
                    Some(t) => t,
                    None => {
                        return Err(CacheError::Clock);
                    },
                };
                store.insert_safety(mcaptcha_name.clone(), expires_at);
                Ok(true)
            },
        }
    }

    /// `now + 2 * duration`, where it fits.
    fn expiry(now: u64, duration: u64) -> (r: Option<u64>)
        ensures
            r matches Some(t) ==> t == now + 2 * duration,
            r is None <==> now + 2 * duration > u64::MAX,
    {
        match duration.checked_mul(2) {
            Some(d2) => now.checked_add(d2),
            None => None,
        }
    }

    /// Renews the record at `i` to lapse at `now + 2 * duration`.
    fn set_timer(store: &mut Store, i: usize, now: u64, duration: u64) -> (r: CacheResult<()>)
        requires
            old(store).wf(),
            i < old(store)@.safeties.len(),
        ensures
            final(store).wf(),
            r.is_ok() <==> now + 2 * duration <= u64::MAX,
            r.is_ok() ==> final(store)@ == (StoreState {
                safeties: old(store)@.safeties.update(
                    i as int,
                    crate::store::SafetyView {
                        expires_at: (now + 2 * duration) as u64,
                        ..old(store)@.safeties[i as int]
                    },
                ),
                ..old(store)@
            }),
            r.is_err() ==> final(store)@ == old(store)@,
    {
        match Self::expiry(now, duration) {
            Some(t) => {
                store.set_safety_expiry(i, t);
                Ok(())
            },
            None => Err(CacheError::Clock),
        }
    }

    /// Runs when the renewal scheduled for the safety record of captcha key
    /// `mcaptcha_name` fires: a record that is there is renewed; one that is
    /// missing, while its captcha is there, is made anew. Nothing is taken
    /// off any count here. Returns whether the next renewal is to be
    /// scheduled.
    pub fn boost(store: &mut Store, now: u64, mcaptcha_name: &String, duration: u64) -> (r: bool)
        requires
            old(store).wf(),
        ensures
            final(store).wf(),
            (final(store)@, r) == old(store)@.boost(now, mcaptcha_name@, duration),
    {
        match store.find_safety(mcaptcha_name) {
            Some(i) => {
                proof {
                    assert(old(store)@.safeties[i as int].name == mcaptcha_name@);
                }
                match Self::set_timer(store, i, now, duration) {
                    Ok(()) => true,
                    Err(_) => false,
                }
            },
            None => {
                match store.find_captcha(mcaptcha_name) {
                    Some(_) => {
                        match Self::new(store, now, duration, mcaptcha_name) {
                            Ok(_) => true,
                            Err(_) => false,
                        }
                    },
                    None => false,
                }
            },
        }
    }

    /// Runs when the safety record of `mcaptcha_name` has lapsed: see
    /// `StoreState::heal`. Returns whether a renewal, and a bucket's flush,
    /// are to be scheduled.
    pub fn heal(store: &mut Store, node: usize, now: u64, mcaptcha_name: &String) -> (r: (bool, bool))
        requires
            old(store).wf(),
        ensures
            final(store).wf(),
            (final(store)@, r.0, r.1) == old(store)@.heal(node, now, mcaptcha_name@),
    {
        match store.find_safety(mcaptcha_name) {
            Some(i) => store.remove_safety(i),
            None => {},
        }
        let ghost v0 = store@;
        assert(v0 == old(store)@.drop_safety(mcaptcha_name@));
        let ci = match store.find_captcha(mcaptcha_name) {
            Some(ci) => ci,
            None => {
                return (false, false);
            },
        };
        let m = store.captcha(ci);
        let duration = m.get_duration();
        let visitors = m.get_visitors();
        let armed = match Self::new(store, now, duration, mcaptcha_name) {
            Ok(_) => true,
            Err(_) => false,
        };
        if visitors == 0 {
            return (armed, false);
        }
        match Bucket::increment_by(store, node, now, mcaptcha_name.clone(), duration, visitors) {
            Ok(opened) => (armed, opened),
            Err(_) => (armed, false),
        }
    }

    /// Runs when the safety record `key_name` has lapsed: the captcha that
    /// it watched is healed, see `StoreState::heal`. Any other key changes
    /// nothing. Returns whether a renewal, and a bucket's flush, are to be
    /// scheduled.
    pub fn on_delete(store: &mut Store, node: usize, now: u64, key_name: &str) -> (r: (bool, bool))
        requires
            old(store).wf(),
        ensures
            final(store).wf(),
            is_prefix(safety_prefix(), key_name@) ==> (final(store)@, r.0, r.1) == old(store)@.heal(
                node,
                now,
                watched_captcha(key_name@),
            ),
            !is_prefix(safety_prefix(), key_name@) ==> final(store)@ == old(store)@ && r == (false, false),
    {
        if !is_mcaptcha_safety(key_name) {
            return (false, false);
        }
        match get_mcaptcha_from_safety(key_name) {
            Some(name) => {
                assert(name@ =~= watched_captcha(key_name@));
                let name = String::from_str(name);
                Self::heal(store, node, now, &name)
            },
            None => (false, false),
        }
    }
}

/// The captcha key that the safety record `key` watches.
pub open spec fn watched_captcha(key: Seq<char>) -> Seq<char> {
    key.subrange(safety_prefix().len() as int, key.len() as int)
}

} // verus!
