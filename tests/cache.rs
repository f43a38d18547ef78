use mcaptcha_cache::bucket::Bucket;
use mcaptcha_cache::challenge::Challenge;
use mcaptcha_cache::errors::CacheError;
use mcaptcha_cache::mcaptcha::MCaptcha;
use mcaptcha_cache::{node_id, on_delete};
use mcaptcha_cache::safety::MCaptchaSafety;
use mcaptcha_cache::store::Store;
use mcaptcha_cache::utils::{
    get_bucket_name, get_bucket_name_from_timer_name, get_captcha_key, get_challenge_name, get_mcaptcha_from_safety,
    get_safety_name, get_timer_name_from_bucket_name, instant_after, is_bucket_timer, is_mcaptcha_safety,
};

fn get_levels() -> Vec<(u32, u32)> {
    vec![
        (50, 50),
        (500, 5000),
        (5000, 50000),
        (50000, 500000),
        (500000, 5000000),
    ]
}

const NODE: usize = 7;

fn store_with(name: &str, duration: u64, now: u64) -> Store {
    let mut store = Store::new();
    let m = MCaptcha::new(get_levels(), duration).unwrap();
    assert_eq!(MCaptcha::add_captcha(&mut store, now, name.to_string(), m), Ok(true));
    store
}

fn count(store: &Store, name: &str) -> u32 {
    MCaptcha::get_count(store, &name.to_string()).unwrap()
}

fn visit(store: &mut Store, node: usize, now: u64, name: &str, times: u32) {
    for _ in 0..times {
        Bucket::counter_create(store, node, now, &name.to_string()).unwrap();
    }
}

#[test]
fn timer_name_works() {
    const BUCKET_INSTANT: u64 = 12345678;
    let bucket_name: String = get_bucket_name(NODE, BUCKET_INSTANT);

    let timer_name = get_timer_name_from_bucket_name(&bucket_name);
    assert_eq!(
        get_bucket_name_from_timer_name(&timer_name),
        Some(bucket_name.as_str())
    );
}

#[test]
fn create_mcaptcha_works() {
    let mcaptcha = MCaptcha::new(get_levels(), 30);
    assert!(mcaptcha.is_ok());
    let mut mcaptcha = mcaptcha.unwrap();

    for _ in 0..50 {
        mcaptcha.add_visitor();
    }
    assert_eq!(mcaptcha.get_visitors(), 50);
    assert_eq!(mcaptcha.get_difficulty(), 50);

    for _ in 0..451 {
        mcaptcha.add_visitor();
    }
    assert_eq!(mcaptcha.get_visitors(), 501);
    assert_eq!(mcaptcha.get_difficulty(), 5000);

    mcaptcha.decrement_visitor_by(501);
    for _ in 0..5002 {
        mcaptcha.add_visitor();
    }
    assert_eq!(mcaptcha.get_visitors(), 5002);
    assert_eq!(mcaptcha.get_difficulty(), 50000);
}

#[test]
fn key_names_are_exact() {
    assert_eq!(get_bucket_name(3, 1700000000), "mcap:bucket:{3}:1700000000");
    assert_eq!(get_bucket_name(0, 0), "mcap:bucket:{0}:0");
    assert_eq!(
        get_timer_name_from_bucket_name("mcap:bucket:{3}:10"),
        "timer:mcap:bucket:{3}:10"
    );
    assert_eq!(get_captcha_key("login_form"), "mcap:captcha::{login_form}");
    assert_eq!(get_safety_name("login_form"), "safety:login_form");
    assert_eq!(get_mcaptcha_from_safety("safety:login_form"), Some("login_form"));
    assert_eq!(get_mcaptcha_from_safety("login_form"), None);
    assert_eq!(get_bucket_name_from_timer_name("mcap:bucket:{3}:10"), None);
    assert!(is_bucket_timer("timer:mcap:bucket:{3}:10"));
    assert!(is_bucket_timer("x:timer:"));
    assert!(!is_bucket_timer("safety:login_form"));
    assert!(is_mcaptcha_safety("safety:login_form"));
    assert!(!is_mcaptcha_safety("timer:safety:"));
}

#[test]
fn new_rejects_bad_configuration() {
    assert_eq!(MCaptcha::new(get_levels(), 0).err(), Some(CacheError::DurationZero));
    assert!(matches!(MCaptcha::new(vec![], 30), Err(CacheError::Msg(_))));
    assert!(matches!(
        MCaptcha::new(vec![(50, 50), (50, 60)], 30),
        Err(CacheError::Msg(_))
    ));
    assert!(matches!(MCaptcha::new(vec![(50, 0)], 30), Err(CacheError::Msg(_))));
    assert!(matches!(
        MCaptcha::new(vec![(50, 500), (500, 50)], 30),
        Err(CacheError::Msg(_))
    ));
    assert!(MCaptcha::new(vec![(500, 5000), (50, 50)], 30).is_ok());
    assert!(matches!(MCaptcha::new(vec![(50, 0)], 0), Err(CacheError::Msg(_))));
}

#[test]
fn increment_reports_difficulty_and_duration() {
    let mut store = store_with("login_form", 30, 0);
    let (res, opened) = Bucket::counter_create(&mut store, NODE, 0, &"login_form".to_string()).unwrap();
    assert_eq!(res.duration, 30);
    assert_eq!(res.difficulty_factor, 50);
    assert!(opened);
    assert_eq!(count(&store, "login_form"), 1);
    let (_, opened) = Bucket::counter_create(&mut store, NODE, 0, &"login_form".to_string()).unwrap();
    assert!(!opened);
}

#[test]
fn unknown_captcha_is_not_found() {
    let mut store = Store::new();
    assert_eq!(
        Bucket::counter_create(&mut store, NODE, 0, &"nope".to_string()).err(),
        Some(CacheError::CaptchaNotFound)
    );
    assert_eq!(
        MCaptcha::get_count(&store, &"nope".to_string()),
        Err(CacheError::CaptchaNotFound)
    );
    assert_eq!(
        MCaptcha::delete_captcha(&mut store, &"nope".to_string()),
        Err(CacheError::CaptchaNotFound)
    );
}

#[test]
fn duplicate_captcha_is_refused() {
    let mut store = store_with("login_form", 30, 0);
    let m = MCaptcha::new(get_levels(), 30).unwrap();
    assert_eq!(
        MCaptcha::add_captcha(&mut store, 0, "login_form".to_string(), m),
        Err(CacheError::CaptchaExists)
    );
    assert!(MCaptcha::captcha_exists(&store, &"login_form".to_string()));
    assert!(!MCaptcha::captcha_exists(&store, &"other".to_string()));
}

#[test]
fn far_future_instant_is_a_clock_error() {
    let mut store = store_with("login_form", 30, 0);
    assert_eq!(
        Bucket::counter_create(&mut store, NODE, u64::MAX - 10, &"login_form".to_string()).err(),
        Some(CacheError::Clock)
    );
    assert_eq!(count(&store, "login_form"), 0);
    let m = MCaptcha::new(get_levels(), 30).unwrap();
    assert_eq!(
        MCaptcha::add_captcha(&mut store, u64::MAX - 40, "late".to_string(), m),
        Err(CacheError::Clock)
    );
}

#[test]
fn pending_amount_overflow_is_refused() {
    let mut store = store_with("login_form", 30, 0);
    assert_eq!(
        Bucket::increment_by(&mut store, NODE, 0, "login_form".to_string(), 30, u32::MAX),
        Ok(true)
    );
    assert_eq!(
        Bucket::increment_by(&mut store, NODE, 0, "login_form".to_string(), 30, 1),
        Err(CacheError::Overflow)
    );
}

#[test]
fn same_second_increments_flush_as_one_batch() {
    let mut store = store_with("login_form", 30, 100);
    visit(&mut store, NODE, 100, "login_form", 7);
    assert_eq!(count(&store, "login_form"), 7);
    let slot = store.find_slot(NODE, 130).unwrap();
    let bucket = store.take_slot(slot);
    assert_eq!(bucket.len(), 1);
    assert_eq!(bucket.entry(0).1, 7);
    assert_eq!(bucket.get_bucket_instant(), 130);
}

#[test]
fn one_flush_takes_off_exactly_n() {
    let mut store = store_with("login_form", 30, 100);
    visit(&mut store, NODE, 100, "login_form", 9);
    Bucket::increment_by(&mut store, NODE, 100, "other".to_string(), 30, 4).unwrap();
    Bucket::decrement(&mut store, NODE, 130);
    assert_eq!(count(&store, "login_form"), 0);
    assert_eq!(store.find_slot(NODE, 130), None);
}

#[test]
fn cohorts_of_distinct_seconds_are_independent() {
    let mut store = store_with("login_form", 30, 0);
    visit(&mut store, NODE, 0, "login_form", 3);
    visit(&mut store, NODE, 1, "login_form", 2);
    assert_eq!(count(&store, "login_form"), 5);
    Bucket::decrement(&mut store, NODE, 30);
    assert_eq!(count(&store, "login_form"), 2);
    assert!(store.find_slot(NODE, 31).is_some());
    Bucket::decrement(&mut store, NODE, 31);
    assert_eq!(count(&store, "login_form"), 0);
}

#[test]
fn second_flush_is_a_no_op() {
    let mut store = store_with("login_form", 30, 0);
    visit(&mut store, NODE, 0, "login_form", 4);
    Bucket::decrement(&mut store, NODE, 30);
    assert_eq!(count(&store, "login_form"), 0);
    visit(&mut store, NODE, 5, "login_form", 2);
    Bucket::decrement(&mut store, NODE, 30);
    assert_eq!(count(&store, "login_form"), 2);
}

#[test]
fn marker_expiry_flushes_the_bucket_once() {
    let mut store = store_with("login_form", 30, 0);
    visit(&mut store, NODE, 0, "login_form", 3);
    let marker = get_timer_name_from_bucket_name(&get_bucket_name(NODE, 30));
    assert_eq!(on_delete(&mut store, NODE, 60, &marker), (false, false));
    assert_eq!(count(&store, "login_form"), 0);
    visit(&mut store, NODE, 1, "login_form", 1);
    Bucket::on_delete(&mut store, &marker);
    Bucket::decrement(&mut store, NODE, 30);
    assert_eq!(count(&store, "login_form"), 1);
}

#[test]
fn missing_captcha_is_skipped_at_flush() {
    let mut store = store_with("a", 30, 0);
    let m = MCaptcha::new(get_levels(), 30).unwrap();
    MCaptcha::add_captcha(&mut store, 0, "b".to_string(), m).unwrap();
    visit(&mut store, NODE, 0, "a", 2);
    visit(&mut store, NODE, 0, "b", 3);
    MCaptcha::delete_captcha(&mut store, &"a".to_string()).unwrap();
    Bucket::decrement(&mut store, NODE, 30);
    assert_eq!(count(&store, "b"), 0);
    assert!(!MCaptcha::captcha_exists(&store, &"a".to_string()));
}

#[test]
fn lost_flush_is_healed_by_the_watchdog() {
    let mut store = store_with("login_form", 30, 0);
    visit(&mut store, NODE, 0, "login_form", 5);
    let slot = store.find_slot(NODE, 30).unwrap();
    store.take_slot(slot);
    assert_eq!(count(&store, "login_form"), 5);
    let safety = get_safety_name("login_form");
    assert_eq!(on_delete(&mut store, NODE, 60, &safety), (true, true));
    assert!(store.find_slot(NODE, 90).is_some());
    assert_eq!(count(&store, "login_form"), 5);
    Bucket::decrement(&mut store, NODE, 90);
    assert_eq!(count(&store, "login_form"), 0);
}

#[test]
fn watchdog_on_zero_count_only_renews() {
    let mut store = store_with("login_form", 30, 0);
    assert_eq!(
        MCaptchaSafety::on_delete(&mut store, NODE, 60, "safety:login_form"),
        (true, false)
    );
    assert_eq!(store.find_slot(NODE, 90), None);
    assert_eq!(
        MCaptchaSafety::on_delete(&mut store, NODE, 60, "login_form"),
        (false, false)
    );
}

#[test]
fn watchdog_on_deleted_captcha_stops() {
    let mut store = store_with("login_form", 30, 0);
    MCaptcha::delete_captcha(&mut store, &"login_form".to_string()).unwrap();
    assert_eq!(
        MCaptchaSafety::on_delete(&mut store, NODE, 60, "safety:login_form"),
        (false, false)
    );
    assert!(!MCaptchaSafety::boost(&mut store, 90, &"login_form".to_string(), 30));
}

#[test]
fn boost_renews_a_live_record_without_correction() {
    let mut store = store_with("login_form", 30, 0);
    visit(&mut store, NODE, 0, "login_form", 2);
    for round in 1..5u64 {
        assert!(MCaptchaSafety::boost(&mut store, round * 30, &"login_form".to_string(), 30));
        assert!(store.find_safety(&"login_form".to_string()).is_some());
        assert_eq!(count(&store, "login_form"), 2);
    }
    assert!(store.find_slot(NODE, 30).is_some());
}

#[test]
fn boost_recreates_a_missing_record() {
    let mut store = store_with("login_form", 30, 0);
    let i = store.find_safety(&"login_form".to_string()).unwrap();
    store.remove_safety(i);
    assert!(MCaptchaSafety::boost(&mut store, 30, &"login_form".to_string(), 30));
    assert!(store.find_safety(&"login_form".to_string()).is_some());
    assert_eq!(
        MCaptchaSafety::new(&mut store, 30, 30, &"login_form".to_string()),
        Ok(false)
    );
}

#[test]
fn login_form_scenario() {
    let mut store = store_with("login_form", 30, 0);
    visit(&mut store, NODE, 0, "login_form", 5);
    assert_eq!(count(&store, "login_form"), 5);
    Bucket::decrement(&mut store, NODE, 30);
    assert_eq!(count(&store, "login_form"), 0);
    assert!(MCaptchaSafety::boost(&mut store, 30, &"login_form".to_string(), 30));
    assert_eq!(count(&store, "login_form"), 0);
    assert!(MCaptchaSafety::boost(&mut store, 60, &"login_form".to_string(), 30));
    assert_eq!(count(&store, "login_form"), 0);
    assert_eq!(store.find_slot(NODE, 60), None);
    assert_eq!(store.find_slot(NODE, 90), None);
}

#[test]
fn two_nodes_keep_their_own_buckets() {
    let mut store = store_with("login_form", 30, 0);
    visit(&mut store, 1, 0, "login_form", 3);
    visit(&mut store, 2, 0, "login_form", 4);
    assert_eq!(count(&store, "login_form"), 7);
    assert!(store.find_slot(1, 30).is_some());
    assert!(store.find_slot(2, 30).is_some());
    Bucket::decrement(&mut store, 1, 30);
    assert_eq!(count(&store, "login_form"), 4);
    assert!(store.find_slot(2, 30).is_some());
    Bucket::decrement(&mut store, 1, 30);
    assert_eq!(count(&store, "login_form"), 4);
    Bucket::decrement(&mut store, 2, 30);
    assert_eq!(count(&store, "login_form"), 0);
}

#[test]
fn rename_moves_configuration_and_resets_count() {
    let mut store = store_with("old", 45, 0);
    visit(&mut store, NODE, 0, "old", 3);
    assert_eq!(MCaptcha::rename(&mut store, 10, &"old".to_string(), "new".to_string()), Ok(true));
    assert!(!MCaptcha::captcha_exists(&store, &"old".to_string()));
    assert_eq!(count(&store, "new"), 0);
    let (res, _) = Bucket::counter_create(&mut store, NODE, 10, &"new".to_string()).unwrap();
    assert_eq!(res.duration, 45);
    assert_eq!(MCaptcha::rename(&mut store, 10, &"absent".to_string(), "x".to_string()), Ok(false));
}

#[test]
fn challenge_is_handed_out_once() {
    let mut store = Store::new();
    assert_eq!(Challenge::create_challenge(&mut store, 100, "login_form", "abc", 20, 5000), Ok(()));
    let res = Challenge::get_challenge(&mut store, 110, "login_form", "abc").unwrap();
    assert_eq!(res.duration, 20);
    assert_eq!(res.difficulty_factor, 5000);
    assert_eq!(
        Challenge::get_challenge(&mut store, 110, "login_form", "abc").err(),
        Some(CacheError::ChallengeNotFound)
    );
}

#[test]
fn duplicate_live_challenge_is_refused() {
    let mut store = Store::new();
    Challenge::create_challenge(&mut store, 100, "c", "x", 20, 50).unwrap();
    assert_eq!(
        Challenge::create_challenge(&mut store, 119, "c", "x", 20, 50),
        Err(CacheError::DuplicateChallenge)
    );
    assert_eq!(Challenge::create_challenge(&mut store, 120, "c", "x", 20, 60), Ok(()));
    assert_eq!(Challenge::get_challenge(&mut store, 121, "c", "x").unwrap().difficulty_factor, 60);
}

#[test]
fn lapsed_or_missing_challenge_is_not_found() {
    let mut store = Store::new();
    assert_eq!(
        Challenge::delete_challenge(&mut store, 0, "c", "x"),
        Err(CacheError::ChallengeNotFound)
    );
    Challenge::create_challenge(&mut store, 0, "c", "x", 10, 50).unwrap();
    assert_eq!(
        Challenge::get_challenge(&mut store, 10, "c", "x").err(),
        Some(CacheError::ChallengeNotFound)
    );
    Challenge::create_challenge(&mut store, 0, "c", "y", 10, 50).unwrap();
    assert_eq!(Challenge::delete_challenge(&mut store, 5, "c", "y"), Ok(()));
    assert_eq!(
        Challenge::delete_challenge(&mut store, 5, "c", "y"),
        Err(CacheError::ChallengeNotFound)
    );
    assert_eq!(
        Challenge::create_challenge(&mut store, u64::MAX - 1, "c", "z", 10, 50),
        Err(CacheError::Clock)
    );
}

#[test]
fn challenge_key_is_exact() {
    assert_eq!(get_challenge_name("login_form", "abc"), "mcap:CHALLENGE:{login_form}:abc");
}

#[test]
fn defense_errors_carry_the_library_message() {
    assert_eq!(
        MCaptcha::new(vec![], 30).err(),
        Some(CacheError::Msg(
            "LevelBuilder should have atleaset one level configured".to_string()
        ))
    );
}

#[test]
fn node_ids_are_drawn() {
    let a = node_id();
    let b = node_id();
    let c = node_id();
    assert!(a != b || b != c);
}

#[test]
fn bucket_records_are_checked_on_load() {
    let entries = vec![("a".to_string(), 3u32), ("b".to_string(), 4u32)];
    let b = Bucket::from_parts(0, 130, entries).unwrap();
    assert_eq!(b.get_bucket_instant(), 130);
    assert_eq!(b.len(), 2);
    let (instant, back) = b.into_parts();
    assert_eq!(instant, 130);
    assert_eq!(back, vec![("a".to_string(), 3u32), ("b".to_string(), 4u32)]);
    assert_eq!(
        Bucket::from_parts(1, 130, vec![]).err(),
        Some(CacheError::Serialization)
    );
    let dup = vec![("a".to_string(), 3u32), ("b".to_string(), 1u32), ("a".to_string(), 1u32)];
    assert_eq!(Bucket::from_parts(0, 130, dup).err(), Some(CacheError::Serialization));
}

#[test]
fn safety_records_are_checked_on_load() {
    assert!(MCaptchaSafety::from_record(0, "SAFETY").is_ok());
    assert_eq!(
        MCaptchaSafety::from_record(1, "SAFETY").err(),
        Some(CacheError::Serialization)
    );
    assert_eq!(
        MCaptchaSafety::from_record(0, "SAFE").err(),
        Some(CacheError::Serialization)
    );
    assert_eq!(
        MCaptchaSafety::from_record(0, "SAFETYX").err(),
        Some(CacheError::Serialization)
    );
}

#[test]
fn instant_after_adds_the_duration() {
    assert_eq!(instant_after(1700000000, 30), Ok(1700000030));
    assert_eq!(instant_after(0, 0), Ok(0));
    assert_eq!(instant_after(u64::MAX - 30, 30), Ok(u64::MAX));
    assert_eq!(instant_after(u64::MAX - 29, 30), Err(CacheError::Clock));
}

#[test]
fn counter_reports_its_level_difficulty() {
    let mut m = MCaptcha::new(vec![(1, 20), (2, 40)], 12).unwrap();
    assert_eq!(m.get_visitors(), 0);
    assert_eq!(m.get_duration(), 12);
    assert_eq!(m.get_difficulty(), 20);
    m.add_visitor();
    m.add_visitor();
    assert_eq!(m.get_difficulty(), 40);
    m.decrement_visitor_by(5);
    assert_eq!(m.get_visitors(), 0);
    let r = m.get_add_visitor_result();
    assert_eq!(r, mcaptcha_cache::mcaptcha::AddVisitorResult { duration: 12, difficulty_factor: 40 });
}
