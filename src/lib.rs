//! Leaky-bucket visitor counters for an adaptive CAPTCHA service.
//!
//! Every visitor registered against a captcha schedules a decrement of one
//! in a bucket that is flushed `duration` seconds later; a per-captcha
//! safety record heals counts whose bucket was lost.
use vstd::prelude::*;

pub mod bucket;
pub mod challenge;
pub mod errors;
pub mod laws;
pub mod mcaptcha;
pub mod safety;
pub mod store;
pub mod utils;

use bucket::{marked_bucket, Bucket};
use safety::{watched_captcha, MCaptchaSafety};
use store::Store;
use utils::{bucket_name, is_bucket_timer, is_mcaptcha_safety, is_prefix, occurs_in, safety_prefix, timer_prefix};

verus! {

/// Initial allocation of a bucket's pending decrements.
pub const HIT_PER_SECOND: usize = 100;

pub const PKG_NAME: &'static str = "mcap";

pub const PKG_VERSION: usize = 0;

/// Prefix of the durability marker that backs a bucket.
pub const PREFIX_BUCKET_TIMER: &'static str = "timer:";

/// Prefix of a captcha's safety record.
pub const PREFIX_SAFETY: &'static str = "safety:";

/// Prefix of a captcha's counter key.
pub const PREFIX_CAPTCHA: &'static str = "mcap:captcha::";

/// Prefix of a bucket key; the node id and the instant follow it.
pub const PREFIX_BUCKET: &'static str = "mcap:bucket:{";

pub const PREFIX_CHALLENGE: &'static str = "mcap:CHALLENGE";

/// A bucket's marker outlives the bucket's own flush by this many seconds.
pub const BUCKET_EXPIRY_OFFSET: u64 = 30;

/// Relies on `rand::random::<usize>`: a value drawn from the thread-local
/// generator. Nothing is promised of it.
#[verifier::external_body]
fn random_usize() -> usize {
    rand::random::<usize>()
}

/// A random id for this process. Every bucket that the process opens is
/// stamped with it, so that processes sharing a store keep apart.
pub fn node_id() -> usize {
    random_usize()
}

/// Routes the expiry or eviction of `key_name`: a bucket's marker to the
/// bucket, a safety record to the watchdog; other keys are ignored. Returns
/// whether a renewal, and a bucket's flush, are to be scheduled.
pub fn on_delete(store: &mut Store, node: usize, now: u64, key_name: &str) -> (r: (bool, bool))
    requires
        old(store).wf(),
    ensures
        final(store).wf(),
        occurs_in(timer_prefix(), key_name@) ==> r == (false, false) && (forall|i: int|
            is_prefix(timer_prefix(), key_name@) && old(store)@.first_named(marked_bucket(key_name@), i)
                ==> final(store)@ == old(store)@.flush(old(store)@.buckets[i].node, old(store)@.buckets[i].instant)),
        occurs_in(timer_prefix(), key_name@) && (!is_prefix(timer_prefix(), key_name@) || forall|j: int|
            0 <= j < old(store)@.buckets.len() ==> bucket_name(
                old(store)@.buckets[j].node as nat,
                old(store)@.buckets[j].instant as nat,
            ) != marked_bucket(key_name@)) ==> final(store)@ == old(store)@,
        !occurs_in(timer_prefix(), key_name@) && is_prefix(safety_prefix(), key_name@) ==> (
        final(store)@,
        r.0,
        r.1,
        ) == old(store)@.heal(node, now, watched_captcha(key_name@)),
        !occurs_in(timer_prefix(), key_name@) && !is_prefix(safety_prefix(), key_name@) ==> final(store)@
            == old(store)@ && r == (false, false),
{
    if is_bucket_timer(key_name) {
        Bucket::on_delete(store, key_name);
        (false, false)
    } else if is_mcaptcha_safety(key_name) {
        MCaptchaSafety::on_delete(store, node, now, key_name)
    } else {
        (false, false)
    }
}

} // verus!
