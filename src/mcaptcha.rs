//! The visitor counter of one captcha.
//!
//! The counter is libmcaptcha's own: it holds the count, the duration and
//! the defense levels that turn a count into a difficulty. The cache reasons
//! about it through plain values: the count, the duration, the levels as
//! `(visitor threshold, difficulty factor)` pairs and the index of the
//! current level.
use vstd::prelude::*;

use libmcaptcha::defense::{Defense, DefenseBuilder, Level};
use libmcaptcha::errors::CaptchaError;
use libmcaptcha::mcaptcha::MCaptcha as LibCounter;

use crate::errors::{CacheError, CacheResult};
use crate::safety::MCaptchaSafety;
use crate::store::{Store, StoreState};

verus! {

#[verifier::external_type_specification]
#[verifier::external_body]
pub struct ExCounter(LibCounter);

#[verifier::external_type_specification]
#[verifier::external_body]
pub struct ExDefense(Defense);

#[verifier::external_type_specification]
#[verifier::external_body]
pub struct ExDefenseBuilder(DefenseBuilder);

#[verifier::external_type_specification]
#[verifier::external_body]
pub struct ExCaptchaError(CaptchaError);

/// The levels added to a defense builder, in the order they were added.
pub uninterp spec fn builder_levels(b: DefenseBuilder) -> Seq<(u32, u32)>;

/// The levels of a defense.
pub uninterp spec fn defense_levels(d: Defense) -> Seq<(u32, u32)>;

/// The index of a defense's current level.
pub uninterp spec fn defense_level(d: Defense) -> nat;

/// The visitor count that a libmcaptcha counter holds.
pub uninterp spec fn visitors_of(m: LibCounter) -> u32;

/// The duration that a libmcaptcha counter was built with.
pub uninterp spec fn duration_of(m: LibCounter) -> u64;

/// The levels of a counter's defense.
pub uninterp spec fn counter_levels(m: LibCounter) -> Seq<(u32, u32)>;

/// The index of the current level of a counter's defense.
pub uninterp spec fn counter_level(m: LibCounter) -> nat;

/// The index `i` points at one of `levels`: indexing by it cannot panic.
pub open spec fn level_in_range(levels: Seq<(u32, u32)>, i: nat) -> bool {
    levels.len() > 0 && i < levels.len()
}

/// No visitor threshold occurs twice.
pub open spec fn distinct_thresholds(levels: Seq<(u32, u32)>) -> bool {
    forall|i: int, j: int| 0 <= i < j < levels.len() ==> levels[i].0 != levels[j].0
}

/// Levels that a defense builder accepts: at least one, every difficulty
/// factor positive, and difficulty not falling as the threshold rises.
pub open spec fn accepted_levels(levels: Seq<(u32, u32)>) -> bool {
    &&& levels.len() > 0
    &&& forall|i: int| 0 <= i < levels.len() ==> levels[i].1 > 0
    &&& forall|i: int, j: int|
        0 <= i < levels.len() && 0 <= j < levels.len() && levels[i].0 < levels[j].0 ==> levels[i].1
            <= levels[j].1
}

/// Relies on `MCaptcha::get_visitors`: the count.
pub assume_specification[ LibCounter::get_visitors ](m: &LibCounter) -> (r: u32)
    ensures
        r == visitors_of(*m),
;

/// Relies on `MCaptcha::get_duration`: the duration.
pub assume_specification[ LibCounter::get_duration ](m: &LibCounter) -> (r: u64)
    ensures
        r == duration_of(*m),
;

/// Relies on `MCaptcha::add_visitor`: the count goes up by one, and the
/// current level moves one step up or down, staying among the levels; the
/// levels and the duration stay. It reads the current level and computes
/// `levels.len() - 1`, so the levels must be non-empty and the index among
/// them; an addition that would overflow is left out too.
pub assume_specification[ LibCounter::add_visitor ](m: &mut LibCounter)
    requires
        visitors_of(*old(m)) < u32::MAX,
        level_in_range(counter_levels(*old(m)), counter_level(*old(m))),
    ensures
        visitors_of(*final(m)) == visitors_of(*old(m)) + 1,
        duration_of(*final(m)) == duration_of(*old(m)),
        counter_levels(*final(m)) == counter_levels(*old(m)),
        level_in_range(counter_levels(*final(m)), counter_level(*final(m))),
;

/// Relies on `MCaptcha::decrement_visitor_by`: the count goes down by
/// `count`, stopping at zero; the duration and the defense stay.
pub assume_specification[ LibCounter::decrement_visitor_by ](m: &mut LibCounter, count: u32)
    ensures
        visitors_of(*final(m)) == if visitors_of(*old(m)) >= count {
            (visitors_of(*old(m)) - count) as u32
        } else {
            0u32
        },
        duration_of(*final(m)) == duration_of(*old(m)),
        counter_levels(*final(m)) == counter_levels(*old(m)),
        counter_level(*final(m)) == counter_level(*old(m)),
;

/// Relies on `MCaptcha::get_difficulty`: the difficulty factor of the
/// current level, which it indexes.
pub assume_specification[ LibCounter::get_difficulty ](m: &LibCounter) -> (r: u32)
    requires
        level_in_range(counter_levels(*m), counter_level(*m)),
    ensures
        r == counter_levels(*m)[counter_level(*m) as int].1,
;

/// Relies on `MCaptcha::get_defense`: a copy of the defense.
pub assume_specification[ LibCounter::get_defense ](m: &LibCounter) -> (r: Defense)
    ensures
        defense_levels(r) == counter_levels(*m),
        defense_level(r) == counter_level(*m),
;

/// Relies on `DefenseBuilder::default`: a builder without levels.
pub assume_specification[ <DefenseBuilder as core::default::Default>::default ]() -> (r: DefenseBuilder)
    ensures
        builder_levels(r) == Seq::<(u32, u32)>::empty(),
;

/// Relies on `DefenseBuilder::build`. With distinct thresholds, it sorts the
/// levels by threshold and then fails on no level, a zero difficulty factor
/// or a factor that falls from one level to the next; else its defense has
/// those levels and starts at the first.
pub assume_specification[ DefenseBuilder::build ](b: &mut DefenseBuilder) -> (r: Result<Defense, CaptchaError>)
    requires
        distinct_thresholds(builder_levels(*old(b))),
    ensures
        r.is_ok() == accepted_levels(builder_levels(*old(b))),
        r matches Ok(d) ==> defense_levels(d).len() == builder_levels(*old(b)).len() && defense_level(d) == 0,
;

/// Relies on `DefenseBuilder::add_level`: it fails, adding nothing, where
/// the threshold was added before; else the level is appended.
#[verifier::external_body]
fn add_level(b: &mut DefenseBuilder, visitor_threshold: u32, difficulty_factor: u32) -> (r: Result<(), CaptchaError>)
    ensures
        r.is_err() == exists|i: int|
            0 <= i < builder_levels(*old(b)).len() && builder_levels(*old(b))[i].0 == visitor_threshold,
        r.is_ok() ==> builder_levels(*final(b)) == builder_levels(*old(b)).push((visitor_threshold, difficulty_factor)),
        r.is_err() ==> builder_levels(*final(b)) == builder_levels(*old(b)),
{
    match b.add_level(Level { visitor_threshold, difficulty_factor }) {
        Ok(_) => Ok(()),
        Err(e) => Err(e),
    }
}

/// Relies on `MCaptchaBuilder::build` with both the defense and the
/// duration set: it fails only on a zero duration, and the counter it
/// builds starts at zero with that defense.
#[verifier::external_body]
fn build_counter(defense: Defense, duration: u64) -> (r: Result<LibCounter, CaptchaError>)
    ensures
        r.is_err() == (duration == 0),
        r matches Ok(c) ==> visitors_of(c) == 0 && duration_of(c) == duration && counter_levels(c)
            == defense_levels(defense) && counter_level(c) == defense_level(defense),
{
    libmcaptcha::mcaptcha::MCaptchaBuilder::default().defense(defense).duration(duration).build()
}

/// Relies on the `Display` impl of `CaptchaError`: its message.
#[verifier::external_body]
fn captcha_error_message(e: &CaptchaError) -> String {
    e.to_string()
}

/// Lifetime and difficulty handed back for each visitor.
#[derive(Debug, Clone, Copy, PartialEq, Eq, Structural)]
pub struct AddVisitorResult {
    pub duration: u64,
    pub difficulty_factor: u32,
}

pub struct MCaptcha {
    m: LibCounter,
}

impl MCaptcha {
    /// The current visitor count.
    pub closed spec fn visitors(&self) -> u32 {
        visitors_of(self.m)
    }

    /// Seconds after which a visitor's count is taken off again.
    pub closed spec fn duration(&self) -> u64 {
        duration_of(self.m)
    }

    /// The levels, as `(visitor threshold, difficulty factor)` pairs.
    pub closed spec fn levels(&self) -> Seq<(u32, u32)> {
        counter_levels(self.m)
    }

    /// The index of the current level.
    pub closed spec fn level(&self) -> nat {
        counter_level(self.m)
    }

    /// The counter has levels and its current level is one of them.
    pub open spec fn sound(&self) -> bool {
        level_in_range(self.levels(), self.level())
    }

    /// The difficulty factor of the current level.
    pub open spec fn difficulty(&self) -> u32 {
        self.levels()[self.level() as int].1
    }

    /// A counter at zero over `defense`; fails exactly where `duration` is
    /// zero.
    fn from_defense(defense: Defense, duration: u64) -> (r: CacheResult<Self>)
        ensures
            duration == 0 ==> r == Err::<Self, CacheError>(CacheError::DurationZero),
            duration > 0 ==> (r matches Ok(m) && m.visitors() == 0 && m.duration() == duration && m.levels()
                == defense_levels(defense) && m.level() == defense_level(defense)),
    {
        match build_counter(defense, duration) {
            Ok(m) => Ok(MCaptcha { m }),
            Err(_) => Err(CacheError::DurationZero),
        }
    }

    /// A counter at zero over `levels`, given as `(visitor threshold,
    /// difficulty factor)` pairs. It is made exactly where the thresholds are
    /// distinct, the levels are accepted and `duration` is positive.
    pub fn new(levels: Vec<(u32, u32)>, duration: u64) -> (r: CacheResult<Self>)
        ensures
            r.is_ok() == (distinct_thresholds(levels@) && accepted_levels(levels@) && duration > 0),
            r matches Ok(m) ==> m.sound() && m.visitors() == 0 && m.duration() == duration && m.level() == 0
                && m.levels().len() == levels@.len(),
            !(distinct_thresholds(levels@) && accepted_levels(levels@)) ==> r matches Err(CacheError::Msg(_)),
            distinct_thresholds(levels@) && accepted_levels(levels@) && duration == 0 ==> r == Err::<
                Self,
                CacheError,
            >(CacheError::DurationZero),
    {
        let mut builder = DefenseBuilder::default();
        let n = levels.len();
        let mut i: usize = 0;
        while i < n
            invariant
                n == levels@.len(),
                i <= n,
                builder_levels(builder) == levels@.take(i as int),
                distinct_thresholds(levels@.take(i as int)),
            decreases n - i,
        {
            let (t, d) = levels[i];
            match add_level(&mut builder, t, d) {
                Ok(()) => {
                    assert(levels@.take(i + 1) =~= levels@.take(i as int).push((t, d)));
                },
                Err(e) => {
                    proof {
                        let j = choose|j: int| 0 <= j < i && levels@.take(i as int)[j].0 == t;
                        assert(levels@[j].0 == levels@[i as int].0);
                    }
                    return Err(CacheError::Msg(captcha_error_message(&e)));
                },
            }
            i += 1;
        }
        assert(levels@.take(n as int) =~= levels@);
        match builder.build() {
            Ok(defense) => Self::from_defense(defense, duration),
            Err(e) => Err(CacheError::Msg(captcha_error_message(&e))),
        }
    }

    /// Counts one more visitor; the defense moves one level towards the
    /// count.
    pub fn add_visitor(&mut self)
        requires
            old(self).sound(),
            old(self).visitors() < u32::MAX,
        ensures
            final(self).sound(),
            final(self).visitors() == old(self).visitors() + 1,
            final(self).duration() == old(self).duration(),
            final(self).levels() == old(self).levels(),
    {
        self.m.add_visitor();
    }

    /// Takes `count` visitors off, stopping at zero.
    pub fn decrement_visitor_by(&mut self, count: u32)
        ensures
            final(self).visitors() == sat_sub(old(self).visitors(), count as nat),
            final(self).duration() == old(self).duration(),
            final(self).levels() == old(self).levels(),
            final(self).level() == old(self).level(),
    {
        self.m.decrement_visitor_by(count);
    }

    /// The difficulty factor of the current defense level.
    pub fn get_difficulty(&self) -> (r: u32)
        requires
            self.sound(),
        ensures
            r == self.difficulty(),
    {
        self.m.get_difficulty()
    }

    pub fn get_duration(&self) -> (r: u64)
        ensures
            r == self.duration(),
    {
        self.m.get_duration()
    }

    pub fn get_visitors(&self) -> (r: u32)
        ensures
            r == self.visitors(),
    {
        self.m.get_visitors()
    }

    /// A counter at zero with the same levels and duration.
    fn reset_copy(&self) -> (r: CacheResult<Self>)
        ensures
            self.duration() > 0 && self.sound() ==> (r matches Ok(c) && c.sound() && c.visitors() == 0
                && c.duration() == self.duration()),
    {
        Self::from_defense(self.m.get_defense(), self.m.get_duration())
    }

    /// Count of captcha `key_name`.
    pub fn get_count(store: &Store, key_name: &String) -> (r: CacheResult<u32>)
        requires
            store.wf(),
        ensures
            store@.has_counter(key_name@) ==> r == Ok::<u32, CacheError>(store@.counter(key_name@).visitors),
            !store@.has_counter(key_name@) ==> r == Err::<u32, CacheError>(CacheError::CaptchaNotFound),
    {
        match store.find_captcha(key_name) {
            Some(i) => Ok(store.captcha(i).get_visitors()),
            None => Err(CacheError::CaptchaNotFound),
        }
    }

    /// Adds captcha `key_name` with its safety record, whose renewal is to
    /// be scheduled in the captcha's duration when `Ok(true)` comes back.
    pub fn add_captcha(store: &mut Store, now: u64, key_name: String, mcaptcha: MCaptcha) -> (r: CacheResult<bool>)
        requires
            old(store).wf(),
            mcaptcha.sound(),
        ensures
            final(store).wf(),
            match old(store)@.add_captcha(now, key_name@, mcaptcha.visitors(), mcaptcha.duration()) {
                Ok(v) => final(store)@ == v && r == Ok::<bool, CacheError>(!old(store)@.has_safety(key_name@)),
                Err(e) => final(store)@ == old(store)@ && r == Err::<bool, CacheError>(e),
            },
    {
        Self::add_captcha_runner(store, now, key_name, mcaptcha)
    }

    fn add_captcha_runner(store: &mut Store, now: u64, key_name: String, mcaptcha: MCaptcha) -> (r: CacheResult<bool>)
        requires
            old(store).wf(),
            mcaptcha.sound(),
        ensures
            final(store).wf(),
            match old(store)@.add_captcha(now, key_name@, mcaptcha.visitors(), mcaptcha.duration()) {
                Ok(v) => final(store)@ == v && r == Ok::<bool, CacheError>(!old(store)@.has_safety(key_name@)),
                Err(e) => final(store)@ == old(store)@ && r == Err::<bool, CacheError>(e),
            },
    {
        if Self::captcha_exists(store, &key_name) {
            return Err(CacheError::CaptchaExists);
        }
        let duration = mcaptcha.get_duration();
        if duration == 0 {
            return Err(CacheError::DurationZero);
        }
        if store.find_safety(&key_name).is_none() && (duration > u64::MAX / 2 || now > u64::MAX - 2 * duration) {
            return Err(CacheError::Clock);
        }
        let name = key_name.clone();
        store.insert_captcha(key_name, mcaptcha);
        MCaptchaSafety::new(store, now, duration, &name)
    }

    /// Whether captcha `key_name` exists.
    pub fn captcha_exists(store: &Store, key_name: &String) -> (r: bool)
        requires
            store.wf(),
        ensures
            r == store@.has_counter(key_name@),
    {
        store.find_captcha(key_name).is_some()
    }

    /// Removes captcha `key_name`.
    pub fn delete_captcha(store: &mut Store, key_name: &String) -> (r: CacheResult<()>)
        requires
            old(store).wf(),
        ensures
            final(store).wf(),
            match old(store)@.delete_captcha(key_name@) {
                Ok(v) => final(store)@ == v && r is Ok,
                Err(e) => final(store)@ == old(store)@ && r == Err::<(), CacheError>(e),
            },
    {
        match store.find_captcha(key_name) {
            Some(i) => {
                store.remove_captcha(i);
                Ok(())
            },
            None => Err(CacheError::CaptchaNotFound),
        }
    }

    /// Moves captcha `key_name` to `new_name`: the levels and the duration
    /// go over, the count starts again at zero. Where `key_name` does not
    /// exist, nothing happens. Returns whether a safety record was made for
    /// `new_name`, whose renewal is then to be scheduled.
    pub fn rename(store: &mut Store, now: u64, key_name: &String, new_name: String) -> (r: CacheResult<bool>)
        requires
            old(store).wf(),
        ensures
            final(store).wf(),
            !old(store)@.has_counter(key_name@) ==> final(store)@ == old(store)@ && r == Ok::<bool, CacheError>(false),
            old(store)@.has_counter(key_name@) ==> match old(store)@.add_captcha(
                now,
                new_name@,
                0,
                old(store)@.counter(key_name@).duration,
            ) {
                Ok(v) => r == Ok::<bool, CacheError>(!old(store)@.has_safety(new_name@)) && v.delete_captcha(key_name@)
                    == Ok::<StoreState, CacheError>(final(store)@),
                Err(e) => final(store)@ == old(store)@ && r == Err::<bool, CacheError>(e),
            },
    {
        match store.find_captcha(key_name) {
            Some(i) => {
                let fresh = match store.captcha(i).reset_copy() {
                    Ok(c) => c,
                    Err(e) => {
                        return Err(e);
                    },
                };
                let armed = match Self::add_captcha_runner(store, now, new_name, fresh) {
                    Ok(armed) => armed,
                    Err(e) => {
                        return Err(e);
                    },
                };
                let ghost v = store@;
                assert(v.has_counter(key_name@)) by {
                    assert(v.counters[i as int] == old(store)@.counters[i as int]);
                }
                match Self::delete_captcha(store, key_name) {
                    Ok(()) => Ok(armed),
                    Err(e) => Err(e),
                }
            },
            None => Ok(false),
        }
    }

    pub fn get_add_visitor_result(&self) -> (r: AddVisitorResult)
        requires
            self.sound(),
        ensures
            r.duration == self.duration(),
            r.difficulty_factor == self.difficulty(),
    {
        AddVisitorResult { duration: self.get_duration(), difficulty_factor: self.get_difficulty() }
    }
}

/// `a - b`, or zero where `b` exceeds `a`.
pub open spec fn sat_sub(a: u32, b: nat) -> u32 {
    if a >= b {
        (a - b) as u32
    } else {
        0
    }
}

} // verus!
