//! The store that the cache works against: captcha counters, buckets of
//! pending decrements, and safety records.
//!
//! Buckets are stamped with the id of the node that opened them, so nodes
//! that share a store never see each other's buckets; counters and safety
//! records are shared.
use vstd::prelude::*;
use vstd::string::*;

use crate::bucket::{distinct_keys, register, register_fits, Bucket, Pending};
use crate::errors::{CacheError, CacheResult};
use crate::challenge::Challenge;
use crate::mcaptcha::{sat_sub, MCaptcha};
use crate::utils::{bucket_name, get_bucket_name};

verus! {

/// A counter as the cache sees it.
pub struct CounterView {
    pub name: Seq<char>,
    pub visitors: u32,
    pub duration: u64,
}

/// A bucket, with the node that opened it.
pub struct SlotView {
    pub node: usize,
    pub instant: u64,
    pub pending: Pending,
}

/// A safety record: the captcha it watches and the instant it lapses.
pub struct SafetyView {
    pub name: Seq<char>,
    pub expires_at: u64,
}

/// A challenge handed out for a captcha, and the instant it lapses.
pub struct ChallengeView {
    pub name: Seq<char>,
    pub duration: u64,
    pub difficulty_factor: u32,
    pub expires_at: u64,
}

pub struct StoreState {
    pub counters: Seq<CounterView>,
    pub buckets: Seq<SlotView>,
    pub safeties: Seq<SafetyView>,
    pub challenges: Seq<ChallengeView>,
}

/// Every counter after a flush of `p`: each loses what is pending for it,
/// stopping at zero.
pub open spec fn flush_counters(cs: Seq<CounterView>, p: Pending) -> Seq<CounterView> {
    cs.map_values(
        |c: CounterView|
            CounterView {
                name: c.name,
                visitors: sat_sub(c.visitors, crate::bucket::pending_amount(p, c.name)),
                duration: c.duration,
            },
    )
}

impl StoreState {
    pub open spec fn wf(self) -> bool {
        &&& forall|i: int, j: int|
            0 <= i < j < self.counters.len() ==> self.counters[i].name != self.counters[j].name
        &&& forall|i: int| 0 <= i < self.counters.len() ==> self.counters[i].duration > 0
        &&& forall|i: int, j: int|
            0 <= i < j < self.buckets.len() ==> !(self.buckets[i].node == self.buckets[j].node
                && self.buckets[i].instant == self.buckets[j].instant)
        &&& forall|i: int| 0 <= i < self.buckets.len() ==> distinct_keys(self.buckets[i].pending)
        &&& forall|i: int, j: int|
            0 <= i < j < self.safeties.len() ==> self.safeties[i].name != self.safeties[j].name
        &&& forall|i: int, j: int|
            0 <= i < j < self.challenges.len() ==> self.challenges[i].name != self.challenges[j].name
    }

    pub open spec fn has_challenge(self, k: Seq<char>) -> bool {
        exists|i: int| 0 <= i < self.challenges.len() && self.challenges[i].name == k
    }

    pub open spec fn challenge_index(self, k: Seq<char>) -> int {
        choose|i: int| 0 <= i < self.challenges.len() && self.challenges[i].name == k
    }

    /// Whether challenge `k` exists and has not lapsed at `now`.
    pub open spec fn has_live_challenge(self, k: Seq<char>, now: u64) -> bool {
        self.has_challenge(k) && self.challenges[self.challenge_index(k)].expires_at > now
    }

    /// Challenge `k` stored for `duration` seconds from `now`, unless a live
    /// one of that name exists; a lapsed one is replaced.
    pub open spec fn create_challenge(self, now: u64, k: Seq<char>, duration: u64, difficulty_factor: u32) -> Result<
        StoreState,
        CacheError,
    > {
        if self.has_live_challenge(k, now) {
            Err(CacheError::DuplicateChallenge)
        } else if now + duration > u64::MAX {
            Err(CacheError::Clock)
        } else {
            let c = ChallengeView { name: k, duration, difficulty_factor, expires_at: (now + duration) as u64 };
            if self.has_challenge(k) {
                Ok(StoreState { challenges: self.challenges.update(self.challenge_index(k), c), ..self })
            } else {
                Ok(StoreState { challenges: self.challenges.push(c), ..self })
            }
        }
    }

    /// The store without challenge `k`, where it is live at `now`.
    pub open spec fn take_challenge(self, k: Seq<char>, now: u64) -> Result<StoreState, CacheError> {
        if self.has_live_challenge(k, now) {
            Ok(StoreState { challenges: self.challenges.remove(self.challenge_index(k)), ..self })
        } else {
            Err(CacheError::ChallengeNotFound)
        }
    }

    pub open spec fn has_counter(self, k: Seq<char>) -> bool {
        exists|i: int| 0 <= i < self.counters.len() && self.counters[i].name == k
    }

    pub open spec fn counter_index(self, k: Seq<char>) -> int {
        choose|i: int| 0 <= i < self.counters.len() && self.counters[i].name == k
    }

    pub open spec fn counter(self, k: Seq<char>) -> CounterView {
        self.counters[self.counter_index(k)]
    }

    pub open spec fn has_slot(self, node: usize, t: u64) -> bool {
        exists|i: int|
            0 <= i < self.buckets.len() && self.buckets[i].node == node && self.buckets[i].instant == t
    }

    pub open spec fn slot_index(self, node: usize, t: u64) -> int {
        choose|i: int|
            0 <= i < self.buckets.len() && self.buckets[i].node == node && self.buckets[i].instant == t
    }

    /// What the bucket of `node` for `t` holds; nothing where there is none.
    pub open spec fn pending_at(self, node: usize, t: u64) -> Pending {
        if self.has_slot(node, t) {
            self.buckets[self.slot_index(node, t)].pending
        } else {
            Seq::empty()
        }
    }

    /// Whether the bucket at `i` has the key `b`, with none before it.
    pub open spec fn first_named(self, b: Seq<char>, i: int) -> bool {
        &&& 0 <= i < self.buckets.len()
        &&& bucket_name(self.buckets[i].node as nat, self.buckets[i].instant as nat) == b
        &&& forall|j: int|
            0 <= j < i ==> bucket_name(self.buckets[j].node as nat, self.buckets[j].instant as nat) != b
    }

    pub open spec fn has_safety(self, k: Seq<char>) -> bool {
        exists|i: int| 0 <= i < self.safeties.len() && self.safeties[i].name == k
    }

    pub open spec fn safety_index(self, k: Seq<char>) -> int {
        choose|i: int| 0 <= i < self.safeties.len() && self.safeties[i].name == k
    }

    pub open spec fn safety(self, k: Seq<char>) -> SafetyView {
        self.safeties[self.safety_index(k)]
    }

    /// `amount` registered for `k` in the bucket of `node` for `t`, which is
    /// opened where it does not exist.
    pub open spec fn register_at(self, node: usize, t: u64, k: Seq<char>, amount: u32) -> StoreState {
        if self.has_slot(node, t) {
            let i = self.slot_index(node, t);
            StoreState {
                buckets: self.buckets.update(
                    i,
                    SlotView { node, instant: t, pending: register(self.buckets[i].pending, k, amount) },
                ),
                ..self
            }
        } else {
            StoreState {
                buckets: self.buckets.push(
                    SlotView { node, instant: t, pending: register(Seq::empty(), k, amount) },
                ),
                ..self
            }
        }
    }

    /// Registering `amount` for `k` at `now + duration` in a bucket of
    /// `node`: the instant must fit in 64 bits and the sum in 32.
    pub open spec fn increment_by(self, node: usize, now: u64, k: Seq<char>, duration: u64, amount: u32) -> Result<
        StoreState,
        CacheError,
    > {
        if now + duration > u64::MAX {
            Err(CacheError::Clock)
        } else if self.has_slot(node, (now + duration) as u64) && !register_fits(
            self.pending_at(node, (now + duration) as u64),
            k,
            amount,
        ) {
            Err(CacheError::Overflow)
        } else {
            Ok(self.register_at(node, (now + duration) as u64, k, amount))
        }
    }

    /// One more visitor for `k`, and a decrement of one registered in a
    /// bucket of `node` for `now` plus the captcha's duration.
    pub open spec fn add_visitor(self, node: usize, now: u64, k: Seq<char>) -> Result<StoreState, CacheError> {
        if !self.has_counter(k) {
            Err(CacheError::CaptchaNotFound)
        } else if self.counter(k).visitors == u32::MAX {
            Err(CacheError::Overflow)
        } else {
            match self.increment_by(node, now, k, self.counter(k).duration, 1) {
                Ok(v) => Ok(
                    StoreState {
                        counters: v.counters.update(
                            self.counter_index(k),
                            CounterView { visitors: (self.counter(k).visitors + 1) as u32, ..self.counter(k) },
                        ),
                        ..v
                    },
                ),
                Err(e) => Err(e),
            }
        }
    }

    /// A new captcha `k` at count `visitors`, with its safety record; a
    /// zero duration is refused.
    pub open spec fn add_captcha(self, now: u64, k: Seq<char>, visitors: u32, duration: u64) -> Result<
        StoreState,
        CacheError,
    > {
        if self.has_counter(k) {
            Err(CacheError::CaptchaExists)
        } else if duration == 0 {
            Err(CacheError::DurationZero)
        } else {
            StoreState {
                counters: self.counters.push(CounterView { name: k, visitors, duration }),
                ..self
            }.safety_new(now, k, duration)
        }
    }

    /// The store without the counter of `k`.
    pub open spec fn delete_captcha(self, k: Seq<char>) -> Result<StoreState, CacheError> {
        if self.has_counter(k) {
            Ok(StoreState { counters: self.counters.remove(self.counter_index(k)), ..self })
        } else {
            Err(CacheError::CaptchaNotFound)
        }
    }

    /// A safety record for `k`, lapsing at `now + 2 * duration`, where `k`
    /// has none.
    pub open spec fn safety_new(self, now: u64, k: Seq<char>, duration: u64) -> Result<StoreState, CacheError> {
        if self.has_safety(k) {
            Ok(self)
        } else if now + 2 * duration > u64::MAX {
            Err(CacheError::Clock)
        } else {
            Ok(
                StoreState {
                    safeties: self.safeties.push(
                        SafetyView { name: k, expires_at: (now + 2 * duration) as u64 },
                    ),
                    ..self
                },
            )
        }
    }

    /// The record of `k` renewed to lapse at `now + 2 * duration`; where it
    /// is missing but the captcha is there, a new one. The flag says whether
    /// the next renewal is to be scheduled.
    pub open spec fn boost(self, now: u64, k: Seq<char>, duration: u64) -> (StoreState, bool) {
        if self.has_safety(k) {
            if now + 2 * duration > u64::MAX {
                (self, false)
            } else {
                (
                    StoreState {
                        safeties: self.safeties.update(
                            self.safety_index(k),
                            SafetyView { name: k, expires_at: (now + 2 * duration) as u64 },
                        ),
                        ..self
                    },
                    true,
                )
            }
        } else if self.has_counter(k) {
            match self.safety_new(now, k, duration) {
                Ok(v) => (v, true),
                Err(_) => (self, false),
            }
        } else {
            (self, false)
        }
    }

    /// The store without the safety record of `k`.
    pub open spec fn drop_safety(self, k: Seq<char>) -> StoreState {
        if self.has_safety(k) {
            StoreState { safeties: self.safeties.remove(self.safety_index(k)), ..self }
        } else {
            self
        }
    }

    /// What follows the lapse of the safety record of `k`: where the
    /// captcha is gone, nothing but the record's removal. Else a new record,
    /// and a decrement of the captcha's whole count registered in a bucket
    /// of `node` for `now` plus its duration. The flags say whether a
    /// renewal, and a bucket's flush, are to be scheduled.
    pub open spec fn heal(self, node: usize, now: u64, k: Seq<char>) -> (StoreState, bool, bool) {
        let v0 = self.drop_safety(k);
        if !v0.has_counter(k) {
            (v0, false, false)
        } else {
            let c = v0.counter(k);
            let (v1, armed) = match v0.safety_new(now, k, c.duration) {
                Ok(v) => (v, true),
                Err(_) => (v0, false),
            };
            if c.visitors == 0 {
                (v1, armed, false)
            } else {
                match v1.increment_by(node, now, k, c.duration, c.visitors) {
                    Ok(v2) => (v2, armed, !v1.has_slot(node, (now + c.duration) as u64)),
                    Err(_) => (v1, armed, false),
                }
            }
        }
    }

    /// The bucket of `node` for `t` flushed into the counters and removed;
    /// nothing happens where there is no such bucket.
    pub open spec fn flush(self, node: usize, t: u64) -> StoreState {
        if self.has_slot(node, t) {
            let i = self.slot_index(node, t);
            StoreState {
                counters: flush_counters(self.counters, self.buckets[i].pending),
                buckets: self.buckets.remove(i),
                ..self
            }
        } else {
            self
        }
    }
}

pub proof fn lemma_counter_index(v: StoreState, i: int)
    requires
        v.wf(),
        0 <= i < v.counters.len(),
    ensures
        v.has_counter(v.counters[i].name),
        v.counter_index(v.counters[i].name) == i,
{
    let k = v.counters[i].name;
    assert(v.has_counter(k));
    let c = v.counter_index(k);
    if c < i {
        assert(v.counters[c].name != v.counters[i].name);
    } else if c > i {
        assert(v.counters[i].name != v.counters[c].name);
    }
}

pub proof fn lemma_slot_index(v: StoreState, i: int)
    requires
        v.wf(),
        0 <= i < v.buckets.len(),
    ensures
        v.has_slot(v.buckets[i].node, v.buckets[i].instant),
        v.slot_index(v.buckets[i].node, v.buckets[i].instant) == i,
{
    let (n, t) = (v.buckets[i].node, v.buckets[i].instant);
    assert(v.has_slot(n, t));
    let c = v.slot_index(n, t);
    if c < i {
        assert(!(v.buckets[c].node == v.buckets[i].node && v.buckets[c].instant == v.buckets[i].instant));
    } else if c > i {
        assert(!(v.buckets[i].node == v.buckets[c].node && v.buckets[i].instant == v.buckets[c].instant));
    }
}

pub proof fn lemma_safety_index(v: StoreState, i: int)
    requires
        v.wf(),
        0 <= i < v.safeties.len(),
    ensures
        v.has_safety(v.safeties[i].name),
        v.safety_index(v.safeties[i].name) == i,
{
    let k = v.safeties[i].name;
    assert(v.has_safety(k));
    let c = v.safety_index(k);
    if c < i {
        assert(v.safeties[c].name != v.safeties[i].name);
    } else if c > i {
        assert(v.safeties[i].name != v.safeties[c].name);
    }
}

pub struct Store {
    captchas: Vec<(String, MCaptcha)>,
    buckets: Vec<(usize, Bucket)>,
    safeties: Vec<(String, u64)>,
    challenges: Vec<(String, Challenge, u64)>,
}

impl View for Store {
    type V = StoreState;

    closed spec fn view(&self) -> StoreState {
        StoreState {
            counters: self.captchas@.map_values(
                |c: (String, MCaptcha)|
                    CounterView { name: c.0@, visitors: c.1.visitors(), duration: c.1.duration() },
            ),
            buckets: self.buckets@.map_values(
                |b: (usize, Bucket)| SlotView { node: b.0, instant: b.1.instant(), pending: b.1.pending() },
            ),
            safeties: self.safeties@.map_values(
                |s: (String, u64)| SafetyView { name: s.0@, expires_at: s.1 },
            ),
            challenges: self.challenges@.map_values(
                |c: (String, Challenge, u64)|
                    ChallengeView {
                        name: c.0@,
                        duration: c.1.result().duration,
                        difficulty_factor: c.1.result().difficulty_factor,
                        expires_at: c.2,
                    },
            ),
        }
    }
}

impl Store {
    pub open spec fn wf(&self) -> bool {
        self@.wf() && self.sound_counters()
    }

    /// Every counter has levels and its current level is one of them.
    pub closed spec fn sound_counters(&self) -> bool {
        forall|i: int| 0 <= i < self.captchas@.len() ==> #[trigger] self.captchas@[i].1.sound()
    }

    /// The difficulty factor of the counter at `i`.
    pub closed spec fn difficulty_at(&self, i: int) -> u32 {
        self.captchas@[i].1.difficulty()
    }

    pub fn new() -> (r: Self)
        ensures
            r.wf(),
            r@.counters.len() == 0,
            r@.buckets.len() == 0,
            r@.safeties.len() == 0,
            r@.challenges.len() == 0,
    {
        let r = Store { captchas: Vec::new(), buckets: Vec::new(), safeties: Vec::new(), challenges: Vec::new() };
        assert(r@.counters.len() == 0);
        r
    }

    pub fn find_captcha(&self, name: &String) -> (r: Option<usize>)
        requires
            self.wf(),
        ensures
            r is None <==> !self@.has_counter(name@),
            r matches Some(i) ==> i < self@.counters.len() && i == self@.counter_index(name@)
                && self@.counters[i as int].name == name@,
    {
        let mut i: usize = 0;
        while i < self.captchas.len()
            invariant
                self.wf(),
                forall|j: int| 0 <= j < i ==> self@.counters[j].name != name@,
            decreases self.captchas.len() - i,
        {
            if self.captchas[i].0 == *name {
                proof {
                    lemma_counter_index(self@, i as int);
                }
                return Some(i);
            }
            i += 1;
        }
        None
    }

    pub fn captcha(&self, i: usize) -> (r: &MCaptcha)
        requires
            i < self@.counters.len(),
        ensures
            r.visitors() == self@.counters[i as int].visitors,
            r.duration() == self@.counters[i as int].duration,
            r.difficulty() == self.difficulty_at(i as int),
            self.wf() ==> r.sound(),
    {
        &self.captchas[i].1
    }

    pub fn decrement_captcha(&mut self, i: usize, amount: u32)
        requires
            old(self).wf(),
            i < old(self)@.counters.len(),
        ensures
            final(self).wf(),
            final(self)@ == (StoreState {
                counters: old(self)@.counters.update(
                    i as int,
                    CounterView {
                        visitors: sat_sub(old(self)@.counters[i as int].visitors, amount as nat),
                        ..old(self)@.counters[i as int]
                    },
                ),
                ..old(self)@
            }),
    {
        assert(old(self).captchas@[i as int].1.sound());
        self.captchas[i].1.decrement_visitor_by(amount);
        assert(self.captchas@[i as int].1.sound());
        assert forall|j: int| 0 <= j < self.captchas@.len() implies #[trigger] self.captchas@[j].1.sound() by {
            if j != i {
                assert(old(self).captchas@[j].1.sound());
            }
        }
        assert forall|a: int, b: int| 0 <= a < b < self@.counters.len() implies self@.counters[a].name
            != self@.counters[b].name by {
            assert(old(self)@.counters[a].name != old(self)@.counters[b].name);
        }
        assert(self@.counters =~= old(self)@.counters.update(
            i as int,
            CounterView {
                visitors: sat_sub(old(self)@.counters[i as int].visitors, amount as nat),
                ..old(self)@.counters[i as int]
            },
        ));
    }

    pub fn add_visitor_at(&mut self, i: usize)
        requires
            old(self).wf(),
            i < old(self)@.counters.len(),
            old(self)@.counters[i as int].visitors < u32::MAX,
        ensures
            final(self).wf(),
            final(self)@ == (StoreState {
                counters: old(self)@.counters.update(
                    i as int,
                    CounterView {
                        visitors: (old(self)@.counters[i as int].visitors + 1) as u32,
                        ..old(self)@.counters[i as int]
                    },
                ),
                ..old(self)@
            }),
    {
        self.captchas[i].1.add_visitor();
        assert(self@.counters =~= old(self)@.counters.update(
            i as int,
            CounterView {
                visitors: (old(self)@.counters[i as int].visitors + 1) as u32,
                ..old(self)@.counters[i as int]
            },
        ));
        assert forall|a: int, b: int| 0 <= a < b < self@.counters.len() implies self@.counters[a].name
            != self@.counters[b].name by {
            assert(old(self)@.counters[a].name != old(self)@.counters[b].name);
        }
    }

    pub fn insert_captcha(&mut self, name: String, m: MCaptcha)
        requires
            old(self).wf(),
            !old(self)@.has_counter(name@),
            m.duration() > 0,
            m.sound(),
        ensures
            final(self).wf(),
            final(self)@ == (StoreState {
                counters: old(self)@.counters.push(
                    CounterView { name: name@, visitors: m.visitors(), duration: m.duration() },
                ),
                ..old(self)@
            }),
    {
        let ghost k = name@;
        let ghost c = CounterView { name: name@, visitors: m.visitors(), duration: m.duration() };
        self.captchas.push((name, m));
        assert(self@.counters =~= old(self)@.counters.push(c));
        assert forall|i: int, j: int| 0 <= i < j < self@.counters.len() implies self@.counters[i].name
            != self@.counters[j].name by {
            if j == self@.counters.len() - 1 {
                assert(old(self)@.counters[i].name != k);
            }
        }
    }

    pub fn remove_captcha(&mut self, i: usize)
        requires
            old(self).wf(),
            i < old(self)@.counters.len(),
        ensures
            final(self).wf(),
            final(self)@ == (StoreState { counters: old(self)@.counters.remove(i as int), ..old(self)@ }),
    {
        self.captchas.remove(i);
        assert(self@.counters =~= old(self)@.counters.remove(i as int));
        assert forall|a: int, b: int| 0 <= a < b < self@.counters.len() implies self@.counters[a].name
            != self@.counters[b].name by {
            let a0 = if a < i { a } else { a + 1 };
            let b0 = if b < i { b } else { b + 1 };
            assert(old(self)@.counters[a0].name != old(self)@.counters[b0].name);
        }
    }

    pub fn find_slot(&self, node: usize, t: u64) -> (r: Option<usize>)
        requires
            self.wf(),
        ensures
            r is None <==> !self@.has_slot(node, t),
            r matches Some(i) ==> i < self@.buckets.len() && i == self@.slot_index(node, t)
                && self@.buckets[i as int].node == node && self@.buckets[i as int].instant == t,
    {
        let mut i: usize = 0;
        while i < self.buckets.len()
            invariant
                self.wf(),
                forall|j: int|
                    0 <= j < i ==> !(self@.buckets[j].node == node && self@.buckets[j].instant == t),
            decreases self.buckets.len() - i,
        {
            if self.buckets[i].0 == node && self.buckets[i].1.get_bucket_instant() == t {
                proof {
                    lemma_slot_index(self@, i as int);
                }
                return Some(i);
            }
            i += 1;
        }
        None
    }

    /// Adds `amount` for `name` to the bucket at `i`; fails, changing
    /// nothing, where the sum leaves `u32`.
    pub fn register_in_slot(&mut self, i: usize, name: String, amount: u32) -> (r: CacheResult<()>)
        requires
            old(self).wf(),
            i < old(self)@.buckets.len(),
        ensures
            final(self).wf(),
            r.is_ok() == crate::bucket::register_fits(old(self)@.buckets[i as int].pending, name@, amount),
            r.is_ok() ==> final(self)@ == (StoreState {
                buckets: old(self)@.buckets.update(
                    i as int,
                    SlotView {
                        pending: register(old(self)@.buckets[i as int].pending, name@, amount),
                        ..old(self)@.buckets[i as int]
                    },
                ),
                ..old(self)@
            }),
            r.is_err() ==> r == Err::<(), crate::errors::CacheError>(crate::errors::CacheError::Overflow)
                && final(self)@ == old(self)@,
    {
        let ghost s = old(self)@.buckets[i as int].pending;
        let ghost k = name@;
        let r = self.buckets[i].1.register(name, amount);
        proof {
            if r.is_ok() {
                crate::bucket::lemma_register_pending(s, k, amount, k);
                assert(self@.buckets =~= old(self)@.buckets.update(
                    i as int,
                    SlotView { pending: register(s, k, amount), ..old(self)@.buckets[i as int] },
                ));
            } else {
                assert(self@.buckets =~= old(self)@.buckets);
            }
            assert(self@.counters =~= old(self)@.counters);
            assert(self@.safeties =~= old(self)@.safeties);
        }
        r
    }

    /// Opens the bucket of `node` for `t`, holding `amount` for `name`.
    pub fn open_slot(&mut self, node: usize, t: u64, name: String, amount: u32)
        requires
            old(self).wf(),
            !old(self)@.has_slot(node, t),
        ensures
            final(self).wf(),
            final(self)@ == (StoreState {
                buckets: old(self)@.buckets.push(
                    SlotView { node, instant: t, pending: register(Seq::empty(), name@, amount) },
                ),
                ..old(self)@
            }),
    {
        let mut b = Bucket::empty(t);
        let ghost k = name@;
        proof {
            crate::bucket::lemma_pending_absent(Seq::empty(), k);
        }
        let r = b.register(name, amount);
        assert(r.is_ok());
        self.buckets.push((node, b));
        let ghost sv = SlotView { node, instant: t, pending: register(Seq::empty(), k, amount) };
        assert(self@.buckets =~= old(self)@.buckets.push(sv));
        assert(self@.counters =~= old(self)@.counters);
        assert(self@.safeties =~= old(self)@.safeties);
        assert forall|a: int, c: int| 0 <= a < c < self@.buckets.len() implies !(self@.buckets[a].node
            == self@.buckets[c].node && self@.buckets[a].instant == self@.buckets[c].instant) by {
            if c == self@.buckets.len() - 1 {
                if self@.buckets[a].node == node && self@.buckets[a].instant == t {
                    assert(old(self)@.has_slot(node, t));
                }
            }
        }
    }

    /// Takes the bucket at `i` out of the store.
    pub fn take_slot(&mut self, i: usize) -> (r: Bucket)
        requires
            old(self).wf(),
            i < old(self)@.buckets.len(),
        ensures
            final(self).wf(),
            r.wf(),
            r.pending() == old(self)@.buckets[i as int].pending,
            r.instant() == old(self)@.buckets[i as int].instant,
            final(self)@ == (StoreState { buckets: old(self)@.buckets.remove(i as int), ..old(self)@ }),
    {
        let (_, b) = self.buckets.remove(i);
        assert(self@.buckets =~= old(self)@.buckets.remove(i as int));
        assert(self@.counters =~= old(self)@.counters);
        assert(self@.safeties =~= old(self)@.safeties);
        assert forall|a: int, c: int| 0 <= a < c < self@.buckets.len() implies !(self@.buckets[a].node
            == self@.buckets[c].node && self@.buckets[a].instant == self@.buckets[c].instant) by {
            let a0 = if a < i { a } else { a + 1 };
            let c0 = if c < i { c } else { c + 1 };
            assert(!(old(self)@.buckets[a0].node == old(self)@.buckets[c0].node
                && old(self)@.buckets[a0].instant == old(self)@.buckets[c0].instant));
        }
        assert forall|a: int| 0 <= a < self@.buckets.len() implies distinct_keys(self@.buckets[a].pending) by {
            let a0 = if a < i { a } else { a + 1 };
            assert(distinct_keys(old(self)@.buckets[a0].pending));
        }
        assert(distinct_keys(old(self)@.buckets[i as int].pending));
        b
    }

    pub fn find_safety(&self, name: &String) -> (r: Option<usize>)
        requires
            self.wf(),
        ensures
            r is None <==> !self@.has_safety(name@),
            r matches Some(i) ==> i < self@.safeties.len() && i == self@.safety_index(name@)
                && self@.safeties[i as int].name == name@,
    {
        let mut i: usize = 0;
        while i < self.safeties.len()
            invariant
                self.wf(),
                forall|j: int| 0 <= j < i ==> self@.safeties[j].name != name@,
            decreases self.safeties.len() - i,
        {
            if self.safeties[i].0 == *name {
                proof {
                    lemma_safety_index(self@, i as int);
                }
                return Some(i);
            }
            i += 1;
        }
        None
    }

    pub fn insert_safety(&mut self, name: String, expires_at: u64)
        requires
            old(self).wf(),
            !old(self)@.has_safety(name@),
        ensures
            final(self).wf(),
            final(self)@ == (StoreState {
                safeties: old(self)@.safeties.push(SafetyView { name: name@, expires_at }),
                ..old(self)@
            }),
    {
        let ghost k = name@;
        self.safeties.push((name, expires_at));
        assert(self@.safeties =~= old(self)@.safeties.push(SafetyView { name: k, expires_at }));
        assert(self@.counters =~= old(self)@.counters);
        assert(self@.buckets =~= old(self)@.buckets);
        assert forall|i: int, j: int| 0 <= i < j < self@.safeties.len() implies self@.safeties[i].name
            != self@.safeties[j].name by {
            if j == self@.safeties.len() - 1 {
                assert(old(self)@.safeties[i].name != k);
            }
        }
    }

    pub fn set_safety_expiry(&mut self, i: usize, expires_at: u64)
        requires
            old(self).wf(),
            i < old(self)@.safeties.len(),
        ensures
            final(self).wf(),
            final(self)@ == (StoreState {
                safeties: old(self)@.safeties.update(
                    i as int,
                    SafetyView { expires_at, ..old(self)@.safeties[i as int] },
                ),
                ..old(self)@
            }),
    {
        self.safeties[i].1 = expires_at;
        assert(self@.safeties =~= old(self)@.safeties.update(
            i as int,
            SafetyView { expires_at, ..old(self)@.safeties[i as int] },
        ));
        assert(self@.counters =~= old(self)@.counters);
        assert(self@.buckets =~= old(self)@.buckets);
    }

    pub fn remove_safety(&mut self, i: usize)
        requires
            old(self).wf(),
            i < old(self)@.safeties.len(),
        ensures
            final(self).wf(),
            final(self)@ == (StoreState { safeties: old(self)@.safeties.remove(i as int), ..old(self)@ }),
    {
        self.safeties.remove(i);
        assert(self@.safeties =~= old(self)@.safeties.remove(i as int));
        assert(self@.counters =~= old(self)@.counters);
        assert(self@.buckets =~= old(self)@.buckets);
        assert forall|a: int, b: int| 0 <= a < b < self@.safeties.len() implies self@.safeties[a].name
            != self@.safeties[b].name by {
            let a0 = if a < i { a } else { a + 1 };
            let b0 = if b < i { b } else { b + 1 };
            assert(old(self)@.safeties[a0].name != old(self)@.safeties[b0].name);
        }
    }

    /// The first bucket whose key is `b`.
    pub fn find_named_slot(&self, b: &str) -> (r: Option<usize>)
        requires
            self.wf(),
        ensures
            r matches Some(i) ==> self@.first_named(b@, i as int),
            r is None ==> forall|j: int|
                0 <= j < self@.buckets.len() ==> bucket_name(self@.buckets[j].node as nat, self@.buckets[j].instant as nat)
                    != b@,
    {
        let target = String::from_str(b);
        let mut i: usize = 0;
        while i < self.buckets.len()
            invariant
                target@ == b@,
                forall|j: int|
                    0 <= j < i ==> bucket_name(self@.buckets[j].node as nat, self@.buckets[j].instant as nat) != b@,
            decreases self.buckets.len() - i,
        {
            let name = get_bucket_name(self.buckets[i].0, self.buckets[i].1.get_bucket_instant());
            if name == target {
                return Some(i);
            }
            i += 1;
        }
        None
    }

    /// The node and the instant of the bucket at `i`.
    pub fn slot_key(&self, i: usize) -> (r: (usize, u64))
        requires
            i < self@.buckets.len(),
        ensures
            r.0 == self@.buckets[i as int].node,
            r.1 == self@.buckets[i as int].instant,
    {
        (self.buckets[i].0, self.buckets[i].1.get_bucket_instant())
    }

    pub fn find_challenge(&self, name: &String) -> (r: Option<usize>)
        requires
            self.wf(),
        ensures
            r is None <==> !self@.has_challenge(name@),
            r matches Some(i) ==> i < self@.challenges.len() && i == self@.challenge_index(name@)
                && self@.challenges[i as int].name == name@,
    {
        let mut i: usize = 0;
        while i < self.challenges.len()
            invariant
                self.wf(),
                forall|j: int| 0 <= j < i ==> self@.challenges[j].name != name@,
            decreases self.challenges.len() - i,
        {
            if self.challenges[i].0 == *name {
                proof {
                    let v = self@;
                    assert(v.challenges[i as int].name == name@);
                    assert(v.has_challenge(name@));
                    let c = v.challenge_index(name@);
                    if c < i {
                        assert(v.challenges[c].name != v.challenges[i as int].name);
                    } else if c > i {
                        assert(v.challenges[i as int].name != v.challenges[c].name);
                    }
                }
                return Some(i);
            }
            i += 1;
        }
        None
    }

    /// The challenge at `i` and the instant it lapses.
    pub fn challenge_at(&self, i: usize) -> (r: (&Challenge, u64))
        requires
            i < self@.challenges.len(),
        ensures
            r.0.result().duration == self@.challenges[i as int].duration,
            r.0.result().difficulty_factor == self@.challenges[i as int].difficulty_factor,
            r.1 == self@.challenges[i as int].expires_at,
    {
        (&self.challenges[i].1, self.challenges[i].2)
    }

    /// Stores challenge `name`, lapsing at `expires_at`, in place of the one
    /// at `at` or after all others.
    pub fn put_challenge(&mut self, at: Option<usize>, name: String, c: Challenge, expires_at: u64)
        requires
            old(self).wf(),
            at matches Some(i) ==> i < old(self)@.challenges.len() && old(self)@.challenges[i as int].name
                == name@,
            at is None ==> !old(self)@.has_challenge(name@),
        ensures
            final(self).wf(),
            ({
                let cv = ChallengeView {
                    name: name@,
                    duration: c.result().duration,
                    difficulty_factor: c.result().difficulty_factor,
                    expires_at,
                };
                final(self)@ == (StoreState {
                    challenges: match at {
                        Some(i) => old(self)@.challenges.update(i as int, cv),
                        None => old(self)@.challenges.push(cv),
                    },
                    ..old(self)@
                })
            }),
    {
        let ghost cv = ChallengeView {
            name: name@,
            duration: c.result().duration,
            difficulty_factor: c.result().difficulty_factor,
            expires_at,
        };
        let ghost k = name@;
        match at {
            Some(i) => {
                self.challenges[i] = (name, c, expires_at);
                assert(self@.challenges =~= old(self)@.challenges.update(i as int, cv));
                assert forall|a: int, b: int| 0 <= a < b < self@.challenges.len() implies self@.challenges[a].name
                    != self@.challenges[b].name by {
                    assert(old(self)@.challenges[a].name != old(self)@.challenges[b].name);
                }
            },
            None => {
                self.challenges.push((name, c, expires_at));
                assert(self@.challenges =~= old(self)@.challenges.push(cv));
                assert forall|a: int, b: int| 0 <= a < b < self@.challenges.len() implies self@.challenges[a].name
                    != self@.challenges[b].name by {
                    if b == old(self)@.challenges.len() {
                        assert(old(self)@.challenges[a].name != k);
                    } else {
                        assert(old(self)@.challenges[a].name != old(self)@.challenges[b].name);
                    }
                }
            },
        }
        assert(self@.counters =~= old(self)@.counters);
        assert(self@.buckets =~= old(self)@.buckets);
        assert(self@.safeties =~= old(self)@.safeties);
    }

    pub fn remove_challenge(&mut self, i: usize) -> (r: Challenge)
        requires
            old(self).wf(),
            i < old(self)@.challenges.len(),
        ensures
            final(self).wf(),
            r.result().duration == old(self)@.challenges[i as int].duration,
            r.result().difficulty_factor == old(self)@.challenges[i as int].difficulty_factor,
            final(self)@ == (StoreState { challenges: old(self)@.challenges.remove(i as int), ..old(self)@ }),
    {
        let (_, c, _) = self.challenges.remove(i);
        assert(self@.challenges =~= old(self)@.challenges.remove(i as int));
        assert(self@.counters =~= old(self)@.counters);
        assert(self@.buckets =~= old(self)@.buckets);
        assert(self@.safeties =~= old(self)@.safeties);
        assert forall|a: int, b: int| 0 <= a < b < self@.challenges.len() implies self@.challenges[a].name
            != self@.challenges[b].name by {
            let a0 = if a < i { a } else { a + 1 };
            let b0 = if b < i { b } else { b + 1 };
            assert(old(self)@.challenges[a0].name != old(self)@.challenges[b0].name);
        }
        c
    }
}

} // verus!
