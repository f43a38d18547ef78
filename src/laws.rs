//! What holds across calls: batching, independence of buckets, idempotent
//! flushes, healing of a lost flush, and renewal of a live safety record.
use vstd::prelude::*;

use crate::bucket::{distinct_keys, lemma_pending_absent, lemma_register_pending, pending_amount, register, register_fits};
use crate::mcaptcha::sat_sub;
use crate::utils::{bucket_name, bucket_prefix, dec, digit, timer_prefix};
use crate::store::{lemma_counter_index, lemma_safety_index, lemma_slot_index, CounterView, StoreState};

verus! {

/// Registering keeps the store well formed; the bucket of `node` for `t`
/// then exists and holds `register` of what it held.
pub proof fn lemma_register_at(v: StoreState, node: usize, t: u64, k: Seq<char>, a: u32)
    requires
        v.wf(),
        register_fits(v.pending_at(node, t), k, a),
    ensures
        v.register_at(node, t, k, a).wf(),
        v.register_at(node, t, k, a).has_slot(node, t),
        v.register_at(node, t, k, a).pending_at(node, t) == register(v.pending_at(node, t), k, a),
        v.register_at(node, t, k, a).counters == v.counters,
        v.register_at(node, t, k, a).safeties == v.safeties,
{
    let w = v.register_at(node, t, k, a);
    if v.has_slot(node, t) {
        let i = v.slot_index(node, t);
        lemma_register_pending(v.buckets[i].pending, k, a, k);
        assert forall|x: int, y: int| 0 <= x < y < w.buckets.len() implies !(w.buckets[x].node
            == w.buckets[y].node && w.buckets[x].instant == w.buckets[y].instant) by {
            assert(!(v.buckets[x].node == v.buckets[y].node && v.buckets[x].instant == v.buckets[y].instant));
        }
        assert forall|x: int| 0 <= x < w.buckets.len() implies distinct_keys(w.buckets[x].pending) by {
            assert(distinct_keys(v.buckets[x].pending));
        }
        lemma_slot_index(w, i);
    } else {
        lemma_pending_absent(Seq::empty(), k);
        lemma_register_pending(Seq::empty(), k, a, k);
        let n = v.buckets.len() as int;
        assert forall|x: int, y: int| 0 <= x < y < w.buckets.len() implies !(w.buckets[x].node
            == w.buckets[y].node && w.buckets[x].instant == w.buckets[y].instant) by {
            if y == n {
                if w.buckets[x].node == node && w.buckets[x].instant == t {
                    assert(v.has_slot(node, t));
                }
            } else {
                assert(!(v.buckets[x].node == v.buckets[y].node && v.buckets[x].instant == v.buckets[y].instant));
            }
        }
        assert forall|x: int| 0 <= x < w.buckets.len() implies distinct_keys(w.buckets[x].pending) by {
            if x < n {
                assert(distinct_keys(v.buckets[x].pending));
            }
        }
        lemma_slot_index(w, n);
    }
}

/// A flush keeps the store well formed and leaves no bucket of `node` for
/// `t`; every other bucket stays as it was.
pub proof fn lemma_flush(v: StoreState, node: usize, t: u64)
    requires
        v.wf(),
    ensures
        v.flush(node, t).wf(),
        !v.flush(node, t).has_slot(node, t),
        forall|n2: usize, t2: u64|
            !(n2 == node && t2 == t) ==> #[trigger] v.flush(node, t).has_slot(n2, t2) == v.has_slot(n2, t2)
                && v.flush(node, t).pending_at(n2, t2) == v.pending_at(n2, t2),
        v.flush(node, t).safeties == v.safeties,
        v.flush(node, t).counters.len() == v.counters.len(),
        forall|j: int|
            0 <= j < v.counters.len() ==> #[trigger] v.flush(node, t).counters[j].name == v.counters[j].name
                && v.flush(node, t).counters[j].duration == v.counters[j].duration,
{
    let w = v.flush(node, t);
    if v.has_slot(node, t) {
        let i = v.slot_index(node, t);
        assert forall|x: int, y: int| 0 <= x < y < w.buckets.len() implies !(w.buckets[x].node
            == w.buckets[y].node && w.buckets[x].instant == w.buckets[y].instant) by {
            let x0 = if x < i { x } else { x + 1 };
            let y0 = if y < i { y } else { y + 1 };
            assert(!(v.buckets[x0].node == v.buckets[y0].node && v.buckets[x0].instant == v.buckets[y0].instant));
        }
        assert forall|x: int| 0 <= x < w.buckets.len() implies distinct_keys(w.buckets[x].pending) by {
            let x0 = if x < i { x } else { x + 1 };
            assert(distinct_keys(v.buckets[x0].pending));
        }
        assert forall|x: int, y: int| 0 <= x < y < w.counters.len() implies w.counters[x].name
            != w.counters[y].name by {
            assert(v.counters[x].name != v.counters[y].name);
        }
        assert(!w.has_slot(node, t)) by {
            if w.has_slot(node, t) {
                let x = w.slot_index(node, t);
                let x0 = if x < i { x } else { x + 1 };
                assert(v.buckets[x0].node == node && v.buckets[x0].instant == t);
                if x0 < i {
                    assert(!(v.buckets[x0].node == v.buckets[i].node && v.buckets[x0].instant == v.buckets[i].instant));
                } else {
                    assert(!(v.buckets[i].node == v.buckets[x0].node && v.buckets[i].instant == v.buckets[x0].instant));
                }
            }
        }
        assert forall|n2: usize, t2: u64| !(n2 == node && t2 == t) implies #[trigger] w.has_slot(n2, t2)
            == v.has_slot(n2, t2) && w.pending_at(n2, t2) == v.pending_at(n2, t2) by {
            if v.has_slot(n2, t2) {
                let j = v.slot_index(n2, t2);
                assert(j != i);
                let j1 = if j < i { j } else { j - 1 };
                assert(w.buckets[j1] == v.buckets[j]);
                lemma_slot_index(w, j1);
            }
            if w.has_slot(n2, t2) {
                let x = w.slot_index(n2, t2);
                let x0 = if x < i { x } else { x + 1 };
                assert(v.buckets[x0] == w.buckets[x]);
            }
        }
    }
}

/// Drops of safety records and new safety records keep the store well
/// formed and touch neither counters nor buckets.
pub proof fn lemma_safety_ops(v: StoreState, now: u64, k: Seq<char>, d: u64)
    requires
        v.wf(),
    ensures
        v.drop_safety(k).wf(),
        !v.drop_safety(k).has_safety(k),
        v.drop_safety(k).counters == v.counters,
        v.drop_safety(k).buckets == v.buckets,
        v.safety_new(now, k, d) matches Ok(w) ==> w.wf() && w.counters == v.counters && w.buckets == v.buckets
            && w.has_safety(k),
{
    let w = v.drop_safety(k);
    if v.has_safety(k) {
        let i = v.safety_index(k);
        assert forall|x: int, y: int| 0 <= x < y < w.safeties.len() implies w.safeties[x].name
            != w.safeties[y].name by {
            let x0 = if x < i { x } else { x + 1 };
            let y0 = if y < i { y } else { y + 1 };
            assert(v.safeties[x0].name != v.safeties[y0].name);
        }
        assert(!w.has_safety(k)) by {
            if w.has_safety(k) {
                let x = w.safety_index(k);
                let x0 = if x < i { x } else { x + 1 };
                if x0 < i {
                    assert(v.safeties[x0].name != v.safeties[i].name);
                } else {
                    assert(v.safeties[i].name != v.safeties[x0].name);
                }
            }
        }
    }
    if !v.has_safety(k) && now + 2 * d <= u64::MAX {
        let u = v.safety_new(now, k, d).unwrap();
        let n = v.safeties.len() as int;
        assert forall|x: int, y: int| 0 <= x < y < u.safeties.len() implies u.safeties[x].name
            != u.safeties[y].name by {
            if y == n {
                if u.safeties[x].name == k {
                    assert(v.has_safety(k));
                }
            } else {
                assert(v.safeties[x].name != v.safeties[y].name);
            }
        }
        assert(u.safeties[n].name == k);
    }
}

/// Visitors of `k` counted `n` times in a row, from node `node` at `now`.
pub open spec fn add_visitors(v: StoreState, node: usize, now: u64, k: Seq<char>, n: nat) -> Result<StoreState, crate::errors::CacheError>
    decreases n,
{
    if n == 0 {
        Ok(v)
    } else {
        match add_visitors(v, node, now, k, (n - 1) as nat) {
            Ok(w) => w.add_visitor(node, now, k),
            Err(e) => Err(e),
        }
    }
}

proof fn lemma_add_visitors(v: StoreState, node: usize, now: u64, k: Seq<char>, n: nat)
    requires
        v.wf(),
        v.has_counter(k),
        now + v.counter(k).duration <= u64::MAX,
        !v.has_slot(node, (now + v.counter(k).duration) as u64),
        v.counter(k).visitors + n <= u32::MAX,
    ensures
        add_visitors(v, node, now, k, n) matches Ok(w) && {
            let t = (now + v.counter(k).duration) as u64;
            &&& w.wf()
            &&& w.counters.len() == v.counters.len()
            &&& w.has_counter(k)
            &&& w.counter_index(k) == v.counter_index(k)
            &&& w.counter(k) == CounterView { visitors: (v.counter(k).visitors + n) as u32, ..v.counter(k) }
            &&& pending_amount(w.pending_at(node, t), k) == n
            &&& (n > 0 ==> w.has_slot(node, t))
        },
    decreases n,
{
    let t = (now + v.counter(k).duration) as u64;
    let ci = v.counter_index(k);
    if n == 0 {
        lemma_pending_absent(Seq::empty(), k);
    } else {
        lemma_add_visitors(v, node, now, k, (n - 1) as nat);
        let w1 = add_visitors(v, node, now, k, (n - 1) as nat).unwrap();
        let c = w1.counter(k);
        if w1.has_slot(node, t) {
            assert(distinct_keys(w1.pending_at(node, t)));
        } else {
            lemma_pending_absent(Seq::empty(), k);
        }
        assert(register_fits(w1.pending_at(node, t), k, 1));
        let r = w1.register_at(node, t, k, 1);
        assert(w1.increment_by(node, now, k, c.duration, 1) == Ok::<StoreState, crate::errors::CacheError>(r));
        lemma_register_at(w1, node, t, k, 1);
        lemma_register_pending(w1.pending_at(node, t), k, 1, k);
        let w = StoreState {
            counters: r.counters.update(ci, CounterView { visitors: (c.visitors + 1) as u32, ..c }),
            ..r
        };
        assert(add_visitors(v, node, now, k, n) == Ok::<StoreState, crate::errors::CacheError>(w));
        assert forall|x: int, y: int| 0 <= x < y < w.counters.len() implies w.counters[x].name
            != w.counters[y].name by {
            assert(r.counters[x].name != r.counters[y].name);
        }
        assert(w.buckets == r.buckets);
        assert(w.has_slot(node, t) == r.has_slot(node, t));
        assert(w.slot_index(node, t) == r.slot_index(node, t));
        assert(w.pending_at(node, t) == r.pending_at(node, t));
        lemma_counter_index(w, ci);
    }
}

/// `n` visitors of captcha `k`, counted by one node within one second,
/// all land in the one bucket of that node for that second plus the
/// captcha's duration; flushing that bucket takes exactly `n` off the
/// count, which is back where it was before them.
pub proof fn lemma_same_second_cohort(v: StoreState, node: usize, now: u64, k: Seq<char>, n: nat)
    requires
        v.wf(),
        v.has_counter(k),
        now + v.counter(k).duration <= u64::MAX,
        !v.has_slot(node, (now + v.counter(k).duration) as u64),
        v.counter(k).visitors + n <= u32::MAX,
    ensures
        add_visitors(v, node, now, k, n) matches Ok(w) && {
            let t = (now + v.counter(k).duration) as u64;
            &&& w.counter(k).visitors == v.counter(k).visitors + n
            &&& pending_amount(w.pending_at(node, t), k) == n
            &&& w.flush(node, t).counter(k).visitors == w.counter(k).visitors - n
            &&& !w.flush(node, t).has_slot(node, t)
        },
{
    let t = (now + v.counter(k).duration) as u64;
    lemma_add_visitors(v, node, now, k, n);
    let w = add_visitors(v, node, now, k, n).unwrap();
    let ci = w.counter_index(k);
    lemma_counter_index(w, ci);
    lemma_flush(w, node, t);
    let f = w.flush(node, t);
    assert(f.counters[ci].name == k);
    lemma_counter_index(f, ci);
    if n == 0 {
        assert(!w.has_slot(node, t));
    }
}

/// Flushing one bucket changes no other bucket, of this node or another.
pub proof fn lemma_flush_independent(v: StoreState, node: usize, t: u64, node2: usize, t2: u64)
    requires
        v.wf(),
        !(node == node2 && t == t2),
    ensures
        v.flush(node, t).has_slot(node2, t2) == v.has_slot(node2, t2),
        v.flush(node, t).pending_at(node2, t2) == v.pending_at(node2, t2),
{
    lemma_flush(v, node, t);
    assert(v.flush(node, t).has_slot(node2, t2) == v.has_slot(node2, t2));
}

/// A second flush of the same bucket changes nothing.
pub proof fn lemma_flush_idempotent(v: StoreState, node: usize, t: u64)
    requires
        v.wf(),
    ensures
        v.flush(node, t).flush(node, t) == v.flush(node, t),
{
    lemma_flush(v, node, t);
}

/// A flush that was lost (the bucket is gone and its decrements never ran)
/// is healed when the captcha's safety record lapses: the captcha's whole
/// count `V` is registered in a bucket for `now` plus its duration, a new
/// record is made, and flushing that bucket brings the count to zero.
pub proof fn lemma_lost_flush_healed(v: StoreState, node: usize, now: u64, k: Seq<char>)
    requires
        v.wf(),
        v.has_counter(k),
        v.counter(k).visitors > 0,
        now + 2 * v.counter(k).duration <= u64::MAX,
        !v.has_slot(node, (now + v.counter(k).duration) as u64),
    ensures
        ({
            let (w, armed, opened) = v.heal(node, now, k);
            let t = (now + v.counter(k).duration) as u64;
            &&& armed && opened
            &&& w.has_safety(k)
            &&& w.counter(k) == v.counter(k)
            &&& pending_amount(w.pending_at(node, t), k) == v.counter(k).visitors
            &&& w.flush(node, t).counter(k).visitors == 0
        }),
{
    let c = v.counter(k);
    let t = (now + c.duration) as u64;
    lemma_safety_ops(v, now, k, c.duration);
    let v0 = v.drop_safety(k);
    assert(v0.counter(k) == c);
    lemma_safety_ops(v0, now, k, c.duration);
    let v1 = v0.safety_new(now, k, c.duration).unwrap();
    assert(v1.counter(k) == c);
    assert(!v1.has_slot(node, t));
    lemma_pending_absent(Seq::empty(), k);
    lemma_register_at(v1, node, t, k, c.visitors);
    lemma_register_pending(Seq::empty(), k, c.visitors, k);
    let w = v1.register_at(node, t, k, c.visitors);
    assert(v.heal(node, now, k) == (w, true, true));
    assert(w.has_safety(k)) by {
        let i = v1.safety_index(k);
        assert(w.safeties[i].name == k);
    }
    assert(w.counter(k) == c);
    let ci = w.counter_index(k);
    lemma_counter_index(w, ci);
    lemma_flush(w, node, t);
    let f = w.flush(node, t);
    assert(f.counters[ci].name == k);
    lemma_counter_index(f, ci);
}

/// When the safety record of `k` lapses, the captcha's whole count `V` is
/// added to what the bucket of `node` for `now` plus its duration held for
/// `k` (nothing where there was no such bucket), and no count changes.
pub proof fn lemma_heal_registers_count(v: StoreState, node: usize, now: u64, k: Seq<char>)
    requires
        v.wf(),
        v.has_counter(k),
        v.counter(k).visitors > 0,
        now + 2 * v.counter(k).duration <= u64::MAX,
        register_fits(v.pending_at(node, (now + v.counter(k).duration) as u64), k, v.counter(k).visitors),
    ensures
        ({
            let (w, armed, opened) = v.heal(node, now, k);
            let t = (now + v.counter(k).duration) as u64;
            &&& armed
            &&& opened == !v.has_slot(node, t)
            &&& w.wf()
            &&& w.counters == v.counters
            &&& pending_amount(w.pending_at(node, t), k) == pending_amount(v.pending_at(node, t), k)
                + v.counter(k).visitors
        }),
{
    let c = v.counter(k);
    let t = (now + c.duration) as u64;
    lemma_safety_ops(v, now, k, c.duration);
    let v0 = v.drop_safety(k);
    assert(v0.counter(k) == c);
    lemma_safety_ops(v0, now, k, c.duration);
    let v1 = v0.safety_new(now, k, c.duration).unwrap();
    assert(v1.counter(k) == c);
    assert(v1.buckets == v.buckets);
    assert(v1.has_slot(node, t) == v.has_slot(node, t));
    assert(v1.pending_at(node, t) == v.pending_at(node, t));
    if v.has_slot(node, t) {
        assert(distinct_keys(v.pending_at(node, t)));
    } else {
        lemma_pending_absent(Seq::empty(), k);
    }
    lemma_register_at(v1, node, t, k, c.visitors);
    lemma_register_pending(v1.pending_at(node, t), k, c.visitors, k);
    let w = v1.register_at(node, t, k, c.visitors);
    assert(v.heal(node, now, k) == (w, true, !v.has_slot(node, t)));
}

/// A renewal that finds the safety record alive pushes its lapse to
/// `now + 2 * duration`, after the next renewal at `now + duration`, and
/// touches no count and no bucket.
pub proof fn lemma_boost_renews(v: StoreState, now: u64, k: Seq<char>, duration: u64)
    requires
        v.wf(),
        v.has_safety(k),
        duration > 0,
        now + 2 * duration <= u64::MAX,
    ensures
        ({
            let (w, armed) = v.boost(now, k, duration);
            &&& armed
            &&& w.wf()
            &&& w.has_safety(k)
            &&& w.safety(k).expires_at == now + 2 * duration
            &&& now + duration < w.safety(k).expires_at
            &&& w.counters == v.counters
            &&& w.buckets == v.buckets
        }),
{
    let i = v.safety_index(k);
    let w = v.boost(now, k, duration).0;
    assert forall|x: int, y: int| 0 <= x < y < w.safeties.len() implies w.safeties[x].name
        != w.safeties[y].name by {
        assert(v.safeties[x].name != v.safeties[y].name);
    }
    lemma_safety_index(w, i);
}

/// Renewals of the record of `k` every `duration` seconds from `start`,
/// `n` of them.
pub open spec fn boost_rounds(v: StoreState, start: u64, k: Seq<char>, duration: u64, n: nat) -> StoreState
    decreases n,
{
    if n == 0 {
        v
    } else {
        boost_rounds(v, start, k, duration, (n - 1) as nat).boost(
            (start + (n - 1) * duration) as u64,
            k,
            duration,
        ).0
    }
}

/// While the captcha stays and renewals come every `duration` seconds,
/// the record never lapses: after `n` renewals it lapses at
/// `start + (n + 1) * duration`, after the next renewal, and no count or
/// bucket has been touched.
pub proof fn lemma_boost_rounds(v: StoreState, start: u64, k: Seq<char>, duration: u64, n: nat)
    requires
        v.wf(),
        v.has_safety(k),
        duration > 0,
        start + (n + 1) * duration <= u64::MAX,
    ensures
        ({
            let w = boost_rounds(v, start, k, duration, n);
            &&& w.wf()
            &&& w.has_safety(k)
            &&& w.counters == v.counters
            &&& w.buckets == v.buckets
            &&& n > 0 ==> w.safety(k).expires_at == start + (n + 1) * duration
            &&& n > 0 ==> start + n * duration < w.safety(k).expires_at
        }),
    decreases n,
{
    if n > 0 {
        let m = (n - 1) as nat;
        assert(start + (m + 1) * duration <= start + (n + 1) * duration) by (nonlinear_arith)
            requires
                m + 1 <= n + 1,
        ;
        lemma_boost_rounds(v, start, k, duration, m);
        let w1 = boost_rounds(v, start, k, duration, m);
        let s = start + m * duration;
        assert(s + 2 * duration == start + (n + 1) * duration && start + n * duration == s + duration)
            by (nonlinear_arith)
            requires
                s == start + m * duration,
                n == m + 1,
        ;
        lemma_boost_renews(w1, s as u64, k, duration);
    }
}

/// `amount` registered `n` times in a row for `k` by node `node` at `now`.
pub open spec fn increments(v: StoreState, node: usize, now: u64, k: Seq<char>, duration: u64, n: nat) -> Result<StoreState, crate::errors::CacheError>
    decreases n,
{
    if n == 0 {
        Ok(v)
    } else {
        match increments(v, node, now, k, duration, (n - 1) as nat) {
            Ok(w) => w.increment_by(node, now, k, duration, 1),
            Err(e) => Err(e),
        }
    }
}

/// `n` registrations of one for `k` by one node within one second, where no
/// bucket for that second plus `duration` was open, all succeed and leave
/// that one bucket holding the single entry `(k, n)`: summed, never
/// overwritten.
pub proof fn lemma_increments_coalesce(v: StoreState, node: usize, now: u64, k: Seq<char>, duration: u64, n: nat)
    requires
        v.wf(),
        now + duration <= u64::MAX,
        !v.has_slot(node, (now + duration) as u64),
        1 <= n <= u32::MAX,
    ensures
        increments(v, node, now, k, duration, n) matches Ok(w) && {
            let t = (now + duration) as u64;
            &&& w.wf()
            &&& w.has_slot(node, t)
            &&& w.pending_at(node, t) == seq![(k, n as u32)]
            &&& w.counters == v.counters
            &&& w.safeties == v.safeties
        },
    decreases n,
{
    let t = (now + duration) as u64;
    if n == 1 {
        lemma_pending_absent(Seq::empty(), k);
        lemma_register_at(v, node, t, k, 1);
        assert(register(Seq::<(Seq<char>, u32)>::empty(), k, 1) =~= seq![(k, 1u32)]);
        assert(increments(v, node, now, k, duration, 0) == Ok::<StoreState, crate::errors::CacheError>(v));
    } else {
        lemma_increments_coalesce(v, node, now, k, duration, (n - 1) as nat);
        let w1 = increments(v, node, now, k, duration, (n - 1) as nat).unwrap();
        let p = seq![(k, (n - 1) as u32)];
        assert(w1.pending_at(node, t) == p);
        crate::bucket::lemma_pending_unique(p, 0);
        assert(register_fits(p, k, 1));
        lemma_register_at(w1, node, t, k, 1);
        assert(crate::bucket::has_key(p, k));
        assert(register(p, k, 1) =~= seq![(k, n as u32)]);
    }
}

/// Two nodes that each opened a bucket for the same instant `t` flush them
/// independently: after both flushes, in either order, every counter has
/// lost what both buckets held for it, stopping at zero.
pub proof fn lemma_two_nodes(v: StoreState, a: usize, b: usize, t: u64)
    requires
        v.wf(),
        a != b,
    ensures
        v.flush(a, t).flush(b, t).counters == v.flush(b, t).flush(a, t).counters,
        v.flush(a, t).flush(b, t).counters.len() == v.counters.len(),
        forall|j: int|
            0 <= j < v.counters.len() ==> #[trigger] v.flush(a, t).flush(b, t).counters[j].visitors == sat_sub(
                v.counters[j].visitors,
                pending_amount(v.pending_at(a, t), v.counters[j].name) + pending_amount(
                    v.pending_at(b, t),
                    v.counters[j].name,
                ),
            ),
{
    lemma_one_then_other(v, a, b, t);
    lemma_one_then_other(v, b, a, t);
    let x = v.flush(a, t).flush(b, t).counters;
    let y = v.flush(b, t).flush(a, t).counters;
    assert forall|j: int| 0 <= j < x.len() implies x[j] == y[j] by {
        lemma_flush(v, a, t);
        lemma_flush(v, b, t);
        lemma_flush(v.flush(a, t), b, t);
        lemma_flush(v.flush(b, t), a, t);
    }
    assert(x =~= y);
}

proof fn lemma_flush_counter(v: StoreState, node: usize, t: u64, j: int)
    requires
        v.wf(),
        0 <= j < v.counters.len(),
    ensures
        v.flush(node, t).counters[j] == (CounterView {
            visitors: sat_sub(v.counters[j].visitors, pending_amount(v.pending_at(node, t), v.counters[j].name)),
            ..v.counters[j]
        }),
{
    if !v.has_slot(node, t) {
        lemma_pending_absent(Seq::empty(), v.counters[j].name);
    }
}

proof fn lemma_one_then_other(v: StoreState, a: usize, b: usize, t: u64)
    requires
        v.wf(),
        a != b,
    ensures
        v.flush(a, t).flush(b, t).counters.len() == v.counters.len(),
        forall|j: int|
            0 <= j < v.counters.len() ==> #[trigger] v.flush(a, t).flush(b, t).counters[j] == (CounterView {
                visitors: sat_sub(
                    v.counters[j].visitors,
                    pending_amount(v.pending_at(a, t), v.counters[j].name) + pending_amount(
                        v.pending_at(b, t),
                        v.counters[j].name,
                    ),
                ),
                ..v.counters[j]
            }),
{
    lemma_flush(v, a, t);
    let w = v.flush(a, t);
    lemma_flush(w, b, t);
    assert(w.pending_at(b, t) == v.pending_at(b, t));
    assert forall|j: int| 0 <= j < v.counters.len() implies #[trigger] w.flush(b, t).counters[j] == (CounterView {
        visitors: sat_sub(
            v.counters[j].visitors,
            pending_amount(v.pending_at(a, t), v.counters[j].name) + pending_amount(
                v.pending_at(b, t),
                v.counters[j].name,
            ),
        ),
        ..v.counters[j]
    }) by {
        lemma_flush_counter(v, a, t, j);
        lemma_flush_counter(w, b, t, j);
    }
}

proof fn lemma_dec_digits(n: nat)
    ensures
        dec(n).len() >= 1,
        forall|i: int| 0 <= i < dec(n).len() ==> '0' <= #[trigger] dec(n)[i] <= '9',
    decreases n,
{
    if n >= 10 {
        lemma_dec_digits(n / 10);
    }
}

proof fn lemma_digit_injective(x: nat, y: nat)
    requires
        x < 10,
        y < 10,
        digit(x) == digit(y),
    ensures
        x == y,
{
}

/// Different numbers are written differently.
pub proof fn lemma_dec_injective(a: nat, b: nat)
    requires
        dec(a) == dec(b),
    ensures
        a == b,
    decreases a,
{
    lemma_dec_digits(a / 10);
    lemma_dec_digits(b / 10);
    if a >= 10 && b >= 10 {
        assert(dec(a) == dec(a / 10).push(digit(a % 10)));
        assert(dec(b) == dec(b / 10).push(digit(b % 10)));
        assert(dec(a).drop_last() =~= dec(a / 10));
        assert(dec(b).drop_last() =~= dec(b / 10));
        lemma_dec_injective(a / 10, b / 10);
        assert(dec(a).last() == digit(a % 10));
        assert(dec(b).last() == digit(b % 10));
        lemma_digit_injective(a % 10, b % 10);
    } else if a < 10 && b < 10 {
        assert(dec(a) == seq![digit(a)]);
        assert(dec(b) == seq![digit(b)]);
        assert(dec(a)[0] == digit(a));
        lemma_digit_injective(a, b);
    } else if a < 10 {
        assert(dec(a) == seq![digit(a)]);
        assert(dec(b) == dec(b / 10).push(digit(b % 10)));
    } else {
        assert(dec(b) == seq![digit(b)]);
        assert(dec(a) == dec(a / 10).push(digit(a % 10)));
    }
}

/// Buckets of different nodes, or for different instants, have different
/// keys, and so do their markers.
pub proof fn lemma_bucket_names_distinct(n1: nat, t1: nat, n2: nat, t2: nat)
    requires
        !(n1 == n2 && t1 == t2),
    ensures
        bucket_name(n1, t1) != bucket_name(n2, t2),
        timer_prefix() + bucket_name(n1, t1) != timer_prefix() + bucket_name(n2, t2),
{
    if bucket_name(n1, t1) == bucket_name(n2, t2) {
        lemma_bucket_name_parts(n1, t1, n2, t2);
    }
    if timer_prefix() + bucket_name(n1, t1) == timer_prefix() + bucket_name(n2, t2) {
        let p = timer_prefix().len() as int;
        assert(bucket_name(n1, t1) =~= (timer_prefix() + bucket_name(n1, t1)).subrange(p, p + bucket_name(n1, t1).len()));
        assert(bucket_name(n2, t2) =~= (timer_prefix() + bucket_name(n2, t2)).subrange(p, p + bucket_name(n2, t2).len()));
        lemma_bucket_name_parts(n1, t1, n2, t2);
    }
}

proof fn lemma_bucket_name_parts(n1: nat, t1: nat, n2: nat, t2: nat)
    requires
        bucket_name(n1, t1) == bucket_name(n2, t2),
    ensures
        n1 == n2 && t1 == t2,
{
    let p = bucket_prefix().len() as int;
    let s = bucket_name(n1, t1);
    let (d1, d2) = (dec(n1), dec(n2));
    lemma_dec_digits(n1);
    lemma_dec_digits(n2);
    assert forall|i: int| 0 <= i < d1.len() implies s[p + i] == d1[i] by {}
    assert forall|i: int| 0 <= i < d2.len() implies s[p + i] == d2[i] by {}
    assert(s[p + d1.len()] == '}');
    assert(s[p + d2.len()] == '}');
    if d1.len() < d2.len() {
        assert(s[p + d1.len()] == d2[d1.len() as int]);
    } else if d2.len() < d1.len() {
        assert(s[p + d2.len()] == d1[d2.len() as int]);
    }
    assert(d1 =~= d2);
    lemma_dec_injective(n1, n2);
    let q = p + d1.len() + 2;
    assert(dec(t1) =~= s.subrange(q, s.len() as int));
    assert(dec(t2) =~= s.subrange(q, s.len() as int));
    lemma_dec_injective(t1, t2);
}

} // verus!
