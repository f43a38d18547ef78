//! Buckets of pending decrements.
//!
//! A bucket collects, for one future instant, how much each captcha is to be
//! decremented when that instant comes; it is then flushed as one batch.
use vstd::prelude::*;

use crate::errors::{CacheError, CacheResult};
use crate::mcaptcha::AddVisitorResult;
use crate::store::{flush_counters, Store, StoreState};
use crate::utils::{bucket_name, get_bucket_name_from_timer_name, instant_after, is_bucket_timer, is_prefix, timer_prefix};

verus! {

/// Encoding version of persisted buckets.
pub const REDIS_MCAPTCHA_BUCKET_TYPE_VERSION: i32 = 0;

/// Encoding formats for persistence.
#[derive(Debug, PartialEq, Eq, Structural)]
pub enum Format {
    Json,
}

/// A pending decrement: the captcha's key and the amount.
pub type Pending = Seq<(Seq<char>, u32)>;

/// Total amount pending for `k`.
pub open spec fn pending_amount(s: Pending, k: Seq<char>) -> nat
    decreases s.len(),
{
    if s.len() == 0 {
        0
    } else {
        pending_amount(s.drop_last(), k) + if s.last().0 == k {
            s.last().1 as nat
        } else {
            0
        }
    }
}

/// No key occurs twice.
pub open spec fn distinct_keys(s: Pending) -> bool {
    forall|i: int, j: int| 0 <= i < j < s.len() ==> s[i].0 != s[j].0
}

pub open spec fn has_key(s: Pending, k: Seq<char>) -> bool {
    exists|i: int| 0 <= i < s.len() && s[i].0 == k
}

/// Adding `a` to what is pending for `k`: the entry of `k` grows, or a new
/// entry is appended.
pub open spec fn register(s: Pending, k: Seq<char>, a: u32) -> Pending {
    if has_key(s, k) {
        let i = choose|i: int| 0 <= i < s.len() && s[i].0 == k;
        s.update(i, (k, (s[i].1 + a) as u32))
    } else {
        s.push((k, a))
    }
}

/// `register` keeps every amount within `u32`.
pub open spec fn register_fits(s: Pending, k: Seq<char>, a: u32) -> bool {
    pending_amount(s, k) + a <= u32::MAX
}

pub proof fn lemma_pending_push(s: Pending, e: (Seq<char>, u32), k: Seq<char>)
    ensures
        pending_amount(s.push(e), k) == pending_amount(s, k) + if e.0 == k {
            e.1 as nat
        } else {
            0
        },
{
    assert(s.push(e).drop_last() =~= s);
}

pub proof fn lemma_pending_absent(s: Pending, k: Seq<char>)
    requires
        !has_key(s, k),
    ensures
        pending_amount(s, k) == 0,
    decreases s.len(),
{
    if s.len() > 0 {
        assert(!has_key(s.drop_last(), k)) by {
            if has_key(s.drop_last(), k) {
                let i = choose|i: int| 0 <= i < s.drop_last().len() && s.drop_last()[i].0 == k;
                assert(s[i].0 == k);
            }
        }
        lemma_pending_absent(s.drop_last(), k);
    }
}

pub proof fn lemma_pending_unique(s: Pending, i: int)
    requires
        distinct_keys(s),
        0 <= i < s.len(),
    ensures
        pending_amount(s, s[i].0) == s[i].1,
    decreases s.len(),
{
    let k = s[i].0;
    let t = s.drop_last();
    if i == s.len() - 1 {
        assert(!has_key(t, k)) by {
            if has_key(t, k) {
                let j = choose|j: int| 0 <= j < t.len() && t[j].0 == k;
                assert(s[j].0 == s[i].0);
            }
        }
        lemma_pending_absent(t, k);
    } else {
        assert(t[i] == s[i]);
        lemma_pending_unique(t, i);
    }
}

pub proof fn lemma_pending_update(s: Pending, i: int, v: u32, k: Seq<char>)
    requires
        0 <= i < s.len(),
    ensures
        pending_amount(s.update(i, (s[i].0, v)), k) + (if s[i].0 == k {
            s[i].1 as nat
        } else {
            0
        }) == pending_amount(s, k) + if s[i].0 == k {
            v as nat
        } else {
            0
        },
    decreases s.len(),
{
    let u = s.update(i, (s[i].0, v));
    if i == s.len() - 1 {
        assert(u.drop_last() =~= s.drop_last());
    } else {
        assert(u.drop_last() =~= s.drop_last().update(i, (s[i].0, v)));
        lemma_pending_update(s.drop_last(), i, v, k);
    }
}

/// Registering `a` for `k` adds `a` to what is pending for `k`, and nothing
/// to any other key.
pub proof fn lemma_register_pending(s: Pending, k: Seq<char>, a: u32, q: Seq<char>)
    requires
        distinct_keys(s),
        register_fits(s, k, a),
    ensures
        distinct_keys(register(s, k, a)),
        pending_amount(register(s, k, a), q) == pending_amount(s, q) + if q == k {
            a as nat
        } else {
            0
        },
{
    if has_key(s, k) {
        let i = choose|i: int| 0 <= i < s.len() && s[i].0 == k;
        lemma_pending_unique(s, i);
        lemma_pending_update(s, i, (s[i].1 + a) as u32, q);
        assert(s.update(i, (k, (s[i].1 + a) as u32)) == s.update(i, (s[i].0, (s[i].1 + a) as u32)));
    } else {
        lemma_pending_push(s, (k, a), q);
    }
}

pub struct Bucket {
    /// Instant (seconds since the epoch) at which the bucket is flushed.
    bucket_instant: u64,
    /// Captcha keys and the amounts to take off them at the flush.
    decrement: Vec<(String, u32)>,
}

impl Bucket {
    pub closed spec fn pending(&self) -> Pending {
        self.decrement@.map_values(|e: (String, u32)| (e.0@, e.1))
    }

    pub closed spec fn instant(&self) -> u64 {
        self.bucket_instant
    }

    pub open spec fn wf(&self) -> bool {
        distinct_keys(self.pending())
    }

    /// An empty bucket for `bucket_instant`.
    pub fn empty(bucket_instant: u64) -> (r: Self)
        ensures
            r.wf(),
            r.instant() == bucket_instant,
            r.pending() == Seq::<(Seq<char>, u32)>::empty(),
    {
        let b = Bucket { bucket_instant, decrement: Vec::with_capacity(crate::HIT_PER_SECOND) };
        assert(b.pending() =~= Seq::<(Seq<char>, u32)>::empty());
        b
    }

    pub fn get_bucket_instant(&self) -> (r: u64)
        ensures
            r == self.instant(),
    {
        self.bucket_instant
    }

    /// Number of entries.
    pub fn len(&self) -> (r: usize)
        ensures
            r == self.pending().len(),
    {
        self.decrement.len()
    }

    /// The `i`-th entry.
    pub fn entry(&self, i: usize) -> (r: (&String, u32))
        requires
            i < self.pending().len(),
        ensures
            (r.0@, r.1) == self.pending()[i as int],
    {
        (&self.decrement[i].0, self.decrement[i].1)
    }

    /// A bucket rebuilt from a persisted record of encoding version
    /// `encver`; fails where the version is not this one or a key occurs
    /// twice.
    pub fn from_parts(encver: i32, bucket_instant: u64, decrement: Vec<(String, u32)>) -> (r: CacheResult<Self>)
        ensures
            r matches Ok(b) ==> b.wf() && b.instant() == bucket_instant && b.pending() == decrement@.map_values(
                |e: (String, u32)| (e.0@, e.1),
            ),
            r is Err <==> encver != REDIS_MCAPTCHA_BUCKET_TYPE_VERSION || !distinct_keys(
                decrement@.map_values(|e: (String, u32)| (e.0@, e.1)),
            ),
            r matches Err(e) ==> e == CacheError::Serialization,
    {
        if encver != REDIS_MCAPTCHA_BUCKET_TYPE_VERSION {
            return Err(CacheError::Serialization);
        }
        let ghost p = decrement@.map_values(|e: (String, u32)| (e.0@, e.1));
        let n = decrement.len();
        let mut i: usize = 0;
        while i < n
            invariant
                n == decrement@.len(),
                p == decrement@.map_values(|e: (String, u32)| (e.0@, e.1)),
                i <= n,
                forall|a: int, b: int| 0 <= a < b < n && a < i ==> p[a].0 != p[b].0,
            decreases n - i,
        {
            let mut j: usize = i + 1;
            while j < n
                invariant
                    n == decrement@.len(),
                    p == decrement@.map_values(|e: (String, u32)| (e.0@, e.1)),
                    i < n,
                    i < j <= n,
                    forall|a: int, b: int| 0 <= a < b < n && a < i ==> p[a].0 != p[b].0,
                    forall|b: int| i < b < j ==> p[i as int].0 != p[b].0,
                decreases n - j,
            {
                if decrement[i].0 == decrement[j].0 {
                    assert(p[i as int].0 == p[j as int].0);
                    return Err(CacheError::Serialization);
                }
                j += 1;
            }
            i += 1;
        }
        Ok(Bucket { bucket_instant, decrement })
    }

    /// The instant and the entries, as they are persisted.
    pub fn into_parts(self) -> (r: (u64, Vec<(String, u32)>))
        ensures
            r.0 == self.instant(),
            r.1@.map_values(|e: (String, u32)| (e.0@, e.1)) == self.pending(),
    {
        (self.bucket_instant, self.decrement)
    }

    /// Adds `amount` to what is pending for `captcha`; fails, changing
    /// nothing, where the sum leaves `u32`.
    pub fn register(&mut self, captcha: String, amount: u32) -> (r: CacheResult<()>)
        requires
            old(self).wf(),
        ensures
            final(self).wf(),
            final(self).instant() == old(self).instant(),
            r.is_ok() == register_fits(old(self).pending(), captcha@, amount),
            r.is_ok() ==> final(self).pending() == register(old(self).pending(), captcha@, amount),
            r.is_err() ==> r == Err::<(), CacheError>(CacheError::Overflow) && final(self).pending() == old(self).pending(),
    {
        let ghost s = self.pending();
        let n = self.decrement.len();
        let mut i: usize = 0;
        while i < n
            invariant
                n == self.decrement@.len(),
                s == self.pending(),
                s == old(self).pending(),
                self.bucket_instant == old(self).bucket_instant,
                distinct_keys(s),
                i <= n,
                forall|j: int| 0 <= j < i ==> s[j].0 != captcha@,
            decreases n - i,
        {
            if self.decrement[i].0 == captcha {
                proof {
                    lemma_pending_unique(s, i as int);
                }
                let cur = self.decrement[i].1;
                if cur > u32::MAX - amount {
                    return Err(CacheError::Overflow);
                }
                self.decrement[i].1 = cur + amount;
                proof {
                    assert(has_key(s, captcha@));
                    let c = choose|c: int| 0 <= c < s.len() && s[c].0 == captcha@;
                    assert(c == i);
                    assert(self.pending() =~= s.update(i as int, (captcha@, (s[i as int].1 + amount) as u32)));
                    lemma_register_pending(s, captcha@, amount, captcha@);
                }
                return Ok(());
            }
            i += 1;
        }
        proof {
            assert(!has_key(s, captcha@));
            lemma_pending_absent(s, captcha@);
            lemma_register_pending(s, captcha@, amount, captcha@);
        }
        self.decrement.push((captcha, amount));
        assert(self.pending() =~= s.push((captcha@, amount)));
        Ok(())
    }

    /// Registers `increment_by` against `captcha_name` in this node's bucket
    /// for `now + duration`, opening the bucket where it does not exist.
    /// Returns whether it was opened: its flush is then to be scheduled in
    /// `duration` seconds, and its marker written.
    pub fn increment_by(
        store: &mut Store,
        node: usize,
        now: u64,
        captcha_name: String,
        duration: u64,
        increment_by: u32,
    ) -> (r: CacheResult<bool>)
        requires
            old(store).wf(),
        ensures
            final(store).wf(),
            match old(store)@.increment_by(node, now, captcha_name@, duration, increment_by) {
                Ok(v) => final(store)@ == v && r == Ok::<bool, CacheError>(
                    !old(store)@.has_slot(node, (now + duration) as u64),
                ),
                Err(e) => final(store)@ == old(store)@ && r == Err::<bool, CacheError>(e),
            },
    {
        let bucket_instant = match instant_after(now, duration) {
            Ok(t) => t,
            Err(e) => {
                return Err(e);
            },
        };
        match store.find_slot(node, bucket_instant) {
            Some(i) => {
                match store.register_in_slot(i, captcha_name, increment_by) {
                    Ok(()) => Ok(false),
                    Err(e) => Err(e),
                }
            },
            None => {
                store.open_slot(node, bucket_instant, captcha_name, increment_by);
                Ok(true)
            },
        }
    }

    /// Counts a visitor of `captcha` and registers its decrement in this
    /// node's bucket for `now` plus the captcha's duration.
    fn increment(store: &mut Store, node: usize, now: u64, captcha: &String) -> (r: CacheResult<(AddVisitorResult, bool)>)
        requires
            old(store).wf(),
        ensures
            final(store).wf(),
            match old(store)@.add_visitor(node, now, captcha@) {
                Ok(v) => final(store)@ == v && (r matches Ok((res, opened)) && res.duration == old(store)@.counter(
                    captcha@,
                ).duration && res.difficulty_factor == final(store).difficulty_at(final(store)@.counter_index(captcha@))
                    && opened == !old(store)@.has_slot(
                    node,
                    (now + old(store)@.counter(captcha@).duration) as u64,
                )),
                Err(e) => final(store)@ == old(store)@ && r == Err::<(AddVisitorResult, bool), CacheError>(e),
            },
    {
        let ci = match store.find_captcha(captcha) {
            Some(ci) => ci,
            None => {
                return Err(CacheError::CaptchaNotFound);
            },
        };
        let m = store.captcha(ci);
        if m.get_visitors() == u32::MAX {
            return Err(CacheError::Overflow);
        }
        let duration = m.get_duration();
        let opened = match Bucket::increment_by(store, node, now, captcha.clone(), duration, 1) {
            Ok(opened) => opened,
            Err(e) => {
                return Err(e);
            },
        };
        store.add_visitor_at(ci);
        Ok((store.captcha(ci).get_add_visitor_result(), opened))
    }

    /// Counts a visitor of `captcha`: its count goes up by one now and down
    /// by one `duration` seconds later. Fails, changing nothing, where the
    /// captcha does not exist or a count or instant would overflow. The flag
    /// says whether a bucket was opened, whose flush is to be scheduled.
    pub fn counter_create(store: &mut Store, node: usize, now: u64, captcha: &String) -> (r: CacheResult<(AddVisitorResult, bool)>)
        requires
            old(store).wf(),
        ensures
            final(store).wf(),
            match old(store)@.add_visitor(node, now, captcha@) {
                Ok(v) => final(store)@ == v && (r matches Ok((res, opened)) && res.duration == old(store)@.counter(
                    captcha@,
                ).duration && res.difficulty_factor == final(store).difficulty_at(final(store)@.counter_index(captcha@))
                    && opened == !old(store)@.has_slot(
                    node,
                    (now + old(store)@.counter(captcha@).duration) as u64,
                )),
                Err(e) => final(store)@ == old(store)@ && r == Err::<(AddVisitorResult, bool), CacheError>(e),
            },
    {
        Bucket::increment(store, node, now, captcha)
    }

    /// Takes what this bucket holds off the counters, stopping each at
    /// zero; a captcha that is gone is skipped.
    fn decrement_runner(store: &mut Store, bucket: &Bucket)
        requires
            old(store).wf(),
        ensures
            final(store).wf(),
            final(store)@ == (StoreState {
                counters: flush_counters(old(store)@.counters, bucket.pending()),
                ..old(store)@
            }),
    {
        let ghost c0 = old(store)@.counters;
        let ghost p = bucket.pending();
        let n = bucket.len();
        let mut j: usize = 0;
        assert(flush_counters(c0, p.take(0)) =~= c0) by {
            assert forall|m: int| 0 <= m < c0.len() implies crate::bucket::pending_amount(p.take(0), c0[m].name) == 0 by {
                lemma_pending_absent(p.take(0), c0[m].name);
            }
        }
        while j < n
            invariant
                n == p.len(),
                j <= n,
                store.wf(),
                p == bucket.pending(),
                store@ == (StoreState { counters: flush_counters(c0, p.take(j as int)), ..old(store)@ }),
            decreases n - j,
        {
            let (name, amount) = bucket.entry(j);
            let ghost before = store@.counters;
            proof {
                assert(p.take(j + 1) =~= p.take(j as int).push(p[j as int]));
                assert forall|m: int| 0 <= m < c0.len() implies crate::bucket::pending_amount(p.take(j + 1), c0[m].name)
                    == crate::bucket::pending_amount(p.take(j as int), c0[m].name) + if c0[m].name == name@ {
                    amount as nat
                } else {
                    0
                } by {
                    lemma_pending_push(p.take(j as int), p[j as int], c0[m].name);
                }
            }
            match store.find_captcha(name) {
                Some(ci) => {
                    store.decrement_captcha(ci, amount);
                    proof {
                        assert forall|a: int, b: int| 0 <= a < b < store@.counters.len() implies store@.counters[a].name
                            != store@.counters[b].name by {
                            assert(before[a].name != before[b].name);
                        }
                        assert forall|m: int| 0 <= m < c0.len() && m != ci implies c0[m].name != name@ by {
                            if m < ci {
                                assert(before[m].name != before[ci as int].name);
                            } else {
                                assert(before[ci as int].name != before[m].name);
                            }
                        }
                        assert(store@.counters =~= flush_counters(c0, p.take(j + 1)));
                    }
                },
                None => {
                    proof {
                        assert forall|m: int| 0 <= m < c0.len() implies c0[m].name != name@ by {
                            if c0[m].name == name@ {
                                assert(before[m].name == name@);
                            }
                        }
                        assert(store@.counters =~= flush_counters(c0, p.take(j + 1)));
                    }
                },
            }
            j += 1;
        }
        assert(p.take(n as int) =~= p);
    }

    /// Flushes this node's bucket for `bucket_instant` and removes it; where
    /// there is none, nothing happens.
    fn flush(store: &mut Store, node: usize, bucket_instant: u64)
        requires
            old(store).wf(),
        ensures
            final(store).wf(),
            final(store)@ == old(store)@.flush(node, bucket_instant),
    {
        match store.find_slot(node, bucket_instant) {
            Some(i) => {
                let bucket = store.take_slot(i);
                Bucket::decrement_runner(store, &bucket);
            },
            None => {},
        }
    }

    /// Runs when the marker `key_name` expires or is evicted before its
    /// bucket was flushed: the bucket that it backs, where it still exists,
    /// is flushed and removed. Any other key changes nothing.
    pub fn on_delete(store: &mut Store, key_name: &str)
        requires
            old(store).wf(),
        ensures
            final(store).wf(),
            forall|i: int|
                is_prefix(timer_prefix(), key_name@) && old(store)@.first_named(marked_bucket(key_name@), i)
                    ==> final(store)@ == old(store)@.flush(old(store)@.buckets[i].node, old(store)@.buckets[i].instant),
            !is_prefix(timer_prefix(), key_name@) ==> final(store)@ == old(store)@,
            (forall|j: int|
                0 <= j < old(store)@.buckets.len() ==> bucket_name(
                    old(store)@.buckets[j].node as nat,
                    old(store)@.buckets[j].instant as nat,
                ) != marked_bucket(key_name@)) ==> final(store)@ == old(store)@,
    {
        if !is_bucket_timer(key_name) {
            proof {
                if is_prefix(timer_prefix(), key_name@) {
                    assert(key_name@.subrange(0int, 0int + timer_prefix().len()) == timer_prefix());
                }
            }
            return;
        }
        let bucket_name = match get_bucket_name_from_timer_name(key_name) {
            Some(b) => b,
            None => {
                return;
            },
        };
        assert(bucket_name@ =~= marked_bucket(key_name@));
        match store.find_named_slot(bucket_name) {
            Some(i) => {
                let (node, bucket_instant) = store.slot_key(i);
                proof {
                    assert forall|c: int| old(store)@.first_named(marked_bucket(key_name@), c) implies c == i by {
                        if c < i {
                        } else if c > i {
                        }
                    }
                }
                Bucket::flush(store, node, bucket_instant);
            },
            None => {},
        }
    }

    /// Runs when the bucket's scheduled flush fires: the marker goes first,
    /// so that its expiry cannot flush the bucket again, then the bucket is
    /// flushed and removed.
    pub fn decrement(store: &mut Store, node: usize, bucket_instant: u64)
        requires
            old(store).wf(),
        ensures
            final(store).wf(),
            final(store)@ == old(store)@.flush(node, bucket_instant),
    {
        Bucket::flush(store, node, bucket_instant);
    }
}

/// The bucket that the marker `key` backs: `key` without the marker prefix.
pub open spec fn marked_bucket(key: Seq<char>) -> Seq<char> {
    key.subrange(timer_prefix().len() as int, key.len() as int)
}

} // verus!
