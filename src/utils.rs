//! Names of the keys that the cache writes, and the clock.
use vstd::prelude::*;
use vstd::string::*;

use crate::errors::{CacheError, CacheResult};
use crate::{PREFIX_BUCKET, PREFIX_BUCKET_TIMER, PREFIX_CAPTCHA, PREFIX_CHALLENGE, PREFIX_SAFETY};

verus! {

pub open spec fn timer_prefix() -> Seq<char> {
    seq!['t', 'i', 'm', 'e', 'r', ':']
}

pub open spec fn safety_prefix() -> Seq<char> {
    seq!['s', 'a', 'f', 'e', 't', 'y', ':']
}

pub open spec fn captcha_prefix() -> Seq<char> {
    seq!['m', 'c', 'a', 'p', ':', 'c', 'a', 'p', 't', 'c', 'h', 'a', ':', ':']
}

pub open spec fn bucket_prefix() -> Seq<char> {
    seq!['m', 'c', 'a', 'p', ':', 'b', 'u', 'c', 'k', 'e', 't', ':', '{']
}

proof fn lemma_prefixes()
    ensures
        PREFIX_BUCKET_TIMER@ == timer_prefix(),
        PREFIX_SAFETY@ == safety_prefix(),
        PREFIX_CAPTCHA@ == captcha_prefix(),
        PREFIX_BUCKET@ == bucket_prefix(),
{
    reveal_strlit("timer:");
    reveal_strlit("safety:");
    reveal_strlit("mcap:captcha::");
    reveal_strlit("mcap:bucket:{");
    assert(PREFIX_BUCKET_TIMER@ =~= timer_prefix());
    assert(PREFIX_SAFETY@ =~= safety_prefix());
    assert(PREFIX_CAPTCHA@ =~= captcha_prefix());
    assert(PREFIX_BUCKET@ =~= bucket_prefix());
}

/// The decimal digit for `d < 10`.
pub open spec fn digit(d: nat) -> char {
    if d == 0 {
        '0'
    } else if d == 1 {
        '1'
    } else if d == 2 {
        '2'
    } else if d == 3 {
        '3'
    } else if d == 4 {
        '4'
    } else if d == 5 {
        '5'
    } else if d == 6 {
        '6'
    } else if d == 7 {
        '7'
    } else if d == 8 {
        '8'
    } else {
        '9'
    }
}

/// `n` in decimal, without sign or leading zeros.
pub open spec fn dec(n: nat) -> Seq<char>
    decreases n,
{
    if n < 10 {
        seq![digit(n)]
    } else {
        dec(n / 10).push(digit(n % 10))
    }
}

/// The decimal digit `d` as text.
fn digit_text(d: u64) -> (r: &'static str)
    requires
        d < 10,
    ensures
        r@ == seq![digit(d as nat)],
{
    proof {
        reveal_strlit("0");
        reveal_strlit("1");
        reveal_strlit("2");
        reveal_strlit("3");
        reveal_strlit("4");
        reveal_strlit("5");
        reveal_strlit("6");
        reveal_strlit("7");
        reveal_strlit("8");
        reveal_strlit("9");
    }
    if d == 0 {
        "0"
    } else if d == 1 {
        "1"
    } else if d == 2 {
        "2"
    } else if d == 3 {
        "3"
    } else if d == 4 {
        "4"
    } else if d == 5 {
        "5"
    } else if d == 6 {
        "6"
    } else if d == 7 {
        "7"
    } else if d == 8 {
        "8"
    } else {
        "9"
    }
}

/// Writes `n` in decimal at the end of `s`.
fn append_dec(s: &mut String, n: u64)
    ensures
        final(s)@ == old(s)@ + dec(n as nat),
    decreases n,
{
    if n >= 10 {
        append_dec(s, n / 10);
    }
    let t = digit_text(n % 10);
    s.append(t);
    proof {
        if n >= 10 {
            assert(dec(n as nat) == dec((n / 10) as nat).push(digit((n % 10) as nat)));
        } else {
            assert(dec(n as nat) == seq![digit(n as nat)]);
        }
        assert(s@ =~= old(s)@ + dec(n as nat));
    }
}

/// The key of the bucket that `node` opens for `bucket_instant`.
pub open spec fn bucket_name(node: nat, bucket_instant: nat) -> Seq<char> {
    bucket_prefix() + dec(node) + seq!['}', ':'] + dec(bucket_instant)
}

pub open spec fn is_prefix(p: Seq<char>, s: Seq<char>) -> bool {
    p.len() <= s.len() && s.subrange(0, p.len() as int) == p
}

pub open spec fn occurs_in(p: Seq<char>, s: Seq<char>) -> bool {
    exists|i: int| 0 <= i && i + p.len() <= s.len() && #[trigger] s.subrange(i, i + p.len()) == p
}

/// Whether `s` begins with `p`.
pub fn starts_with(s: &str, p: &str) -> (r: bool)
    ensures
        r == is_prefix(p@, s@),
{
    let pl = p.unicode_len();
    let sl = s.unicode_len();
    if pl > sl {
        return false;
    }
    let mut i: usize = 0;
    while i < pl
        invariant
            pl == p@.len(),
            sl == s@.len(),
            pl <= sl,
            i <= pl,
            forall|j: int| 0 <= j < i ==> s@[j] == p@[j],
        decreases pl - i,
    {
        if s.get_char(i) != p.get_char(i) {
            assert(s@.subrange(0, pl as int)[i as int] != p@[i as int]);
            return false;
        }
        i += 1;
    }
    assert(s@.subrange(0, pl as int) =~= p@);
    true
}

/// Whether `p` occurs anywhere in `s`.
pub fn contains(s: &str, p: &str) -> (r: bool)
    ensures
        r == occurs_in(p@, s@),
{
    let pl = p.unicode_len();
    let sl = s.unicode_len();
    if pl > sl {
        return false;
    }
    if pl == 0 {
        assert(s@.subrange(0int, 0int + p@.len()) =~= p@);
        return true;
    }
    let mut i: usize = 0;
    while i <= sl - pl
        invariant
            0 < pl,
            pl == p@.len(),
            sl == s@.len(),
            pl <= sl,
            i <= sl - pl + 1,
            forall|j: int| 0 <= j < i ==> #[trigger] s@.subrange(j, j + p@.len()) != p@,
        decreases sl - pl + 1 - i,
    {
        let rest = s.substring_char(i, sl);
        if starts_with(rest, p) {
            assert(rest@.subrange(0, pl as int) =~= s@.subrange(i as int, i + pl));
            return true;
        }
        assert(rest@.subrange(0, pl as int) =~= s@.subrange(i as int, i + pl));
        i += 1;
    }
    proof {
        if occurs_in(p@, s@) {
            let j = choose|j: int| 0 <= j && j + p@.len() <= s@.len() && #[trigger] s@.subrange(j, j + p@.len()) == p@;
            assert(s@.subrange(j, j + p@.len()) != p@);
        }
    }
    false
}

/// `s` without the prefix `p`, where it has it.
fn strip_prefix<'a>(s: &'a str, p: &str) -> (r: Option<&'a str>)
    ensures
        r is Some <==> is_prefix(p@, s@),
        r matches Some(rest) ==> s@ == p@ + rest@,
{
    if starts_with(s, p) {
        let rest = s.substring_char(p.unicode_len(), s.unicode_len());
        assert(s@ =~= p@ + rest@);
        Some(rest)
    } else {
        None
    }
}

/// The key of the bucket that `node` opens for `bucket_instant` (seconds
/// since the epoch).
pub fn get_bucket_name(node: usize, bucket_instant: u64) -> (r: String)
    ensures
        r@ == bucket_name(node as nat, bucket_instant as nat),
{
    proof {
        lemma_prefixes();
        reveal_strlit("}:");
    }
    let mut s = String::from_str(PREFIX_BUCKET);
    append_dec(&mut s, node as u64);
    s.append("}:");
    append_dec(&mut s, bucket_instant);
    assert(s@ =~= bucket_name(node as nat, bucket_instant as nat));
    s
}

/// The key of the marker that backs the bucket `bucket_name`.
pub fn get_timer_name_from_bucket_name(bucket_name: &str) -> (r: String)
    ensures
        r@ == timer_prefix() + bucket_name@,
{
    proof {
        lemma_prefixes();
    }
    let mut s = String::from_str(PREFIX_BUCKET_TIMER);
    s.append(bucket_name);
    s
}

/// The bucket that the marker `name` backs, where `name` is a marker's key.
pub fn get_bucket_name_from_timer_name(name: &str) -> (r: Option<&str>)
    ensures
        r is Some <==> is_prefix(timer_prefix(), name@),
        r matches Some(b) ==> name@ == timer_prefix() + b@,
{
    proof {
        lemma_prefixes();
    }
    strip_prefix(name, PREFIX_BUCKET_TIMER)
}

/// The key of the counter of captcha `name`.
pub fn get_captcha_key(name: &str) -> (r: String)
    ensures
        r@ == captcha_prefix() + seq!['{'] + name@ + seq!['}'],
{
    proof {
        lemma_prefixes();
        reveal_strlit("{");
        reveal_strlit("}");
    }
    let mut s = String::from_str(PREFIX_CAPTCHA);
    s.append("{");
    s.append(name);
    s.append("}");
    s
}

pub open spec fn challenge_prefix() -> Seq<char> {
    seq!['m', 'c', 'a', 'p', ':', 'C', 'H', 'A', 'L', 'L', 'E', 'N', 'G', 'E']
}

/// The key of challenge `challenge` of captcha `captcha`.
pub open spec fn challenge_name(captcha: Seq<char>, challenge: Seq<char>) -> Seq<char> {
    challenge_prefix() + seq![':', '{'] + captcha + seq!['}', ':'] + challenge
}

/// The key of challenge `challenge` of captcha `captcha`.
pub fn get_challenge_name(captcha: &str, challenge: &str) -> (r: String)
    ensures
        r@ == challenge_name(captcha@, challenge@),
{
    proof {
        reveal_strlit("mcap:CHALLENGE");
        reveal_strlit(":{");
        reveal_strlit("}:");
        assert(PREFIX_CHALLENGE@ =~= challenge_prefix());
    }
    let mut s = String::from_str(PREFIX_CHALLENGE);
    s.append(":{");
    s.append(captcha);
    s.append("}:");
    s.append(challenge);
    assert(s@ =~= challenge_name(captcha@, challenge@));
    s
}

/// The key of the safety record of captcha key `mcaptcha_name`.
pub fn get_safety_name(mcaptcha_name: &str) -> (r: String)
    ensures
        r@ == safety_prefix() + mcaptcha_name@,
{
    proof {
        lemma_prefixes();
    }
    let mut s = String::from_str(PREFIX_SAFETY);
    s.append(mcaptcha_name);
    s
}

/// The captcha key that the safety record `safety_name` watches.
pub fn get_mcaptcha_from_safety(safety_name: &str) -> (r: Option<&str>)
    ensures
        r is Some <==> is_prefix(safety_prefix(), safety_name@),
        r matches Some(m) ==> safety_name@ == safety_prefix() + m@,
{
    proof {
        lemma_prefixes();
    }
    strip_prefix(safety_name, PREFIX_SAFETY)
}

/// Whether `name` is the key of a bucket's marker.
pub fn is_bucket_timer(name: &str) -> (r: bool)
    ensures
        r == occurs_in(timer_prefix(), name@),
{
    proof {
        lemma_prefixes();
    }
    contains(name, PREFIX_BUCKET_TIMER)
}

/// Whether `name` is the key of a safety record.
pub fn is_mcaptcha_safety(name: &str) -> (r: bool)
    ensures
        r == is_prefix(safety_prefix(), name@),
{
    proof {
        lemma_prefixes();
    }
    starts_with(name, PREFIX_SAFETY)
}

/// Relies on `SystemTime::now` and `SystemTime::duration_since`: whole
/// seconds since the epoch, or nothing where the clock is before it.
#[verifier::external_body]
fn seconds_since_epoch() -> Option<u64> {
    match std::time::SystemTime::now().duration_since(std::time::UNIX_EPOCH) {
        Ok(d) => Some(d.as_secs()),
        Err(_) => None,
    }
}

/// Seconds since the epoch.
pub fn current_time() -> (r: CacheResult<u64>)
    ensures
        r matches Err(e) ==> e == CacheError::Clock,
{
    match seconds_since_epoch() {
        Some(t) => Ok(t),
        None => Err(CacheError::Clock),
    }
}

/// The instant `duration` seconds after `now`; fails where it does not fit
/// in 64 bits.
pub fn instant_after(now: u64, duration: u64) -> (r: CacheResult<u64>)
    ensures
        now + duration <= u64::MAX ==> r == Ok::<u64, CacheError>((now + duration) as u64),
        now + duration > u64::MAX ==> r == Err::<u64, CacheError>(CacheError::Clock),
{
    match now.checked_add(duration) {
        Some(t) => Ok(t),
        None => Err(CacheError::Clock),
    }
}

/// The instant `duration` seconds from now, by the clock: whatever the
/// clock reads, the result is `instant_after` of that reading, or the
/// clock's error.
pub fn get_bucket_instant(duration: u64) -> (r: CacheResult<u64>)
    ensures
        r matches Ok(t) ==> t >= duration,
        r matches Err(e) ==> e == CacheError::Clock,
{
    match current_time() {
        Ok(now) => instant_after(now, duration),
        Err(e) => Err(e),
    }
}

} // verus!
