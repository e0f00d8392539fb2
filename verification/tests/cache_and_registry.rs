use edgecb::ident::IdSource;
use edgecb::plan::parse;
use edgecb::plan_cache::{PlanCache, PlanNotFound};
use edgecb::registry::{Phase, RequestRegistry};

#[test]
fn minted_identifiers_carry_their_serial_number() {
    let mut source = IdSource::new();
    assert_eq!(source.count(), 0);
    assert!(!source.is_exhausted());
    assert_eq!(source.mint("abc"), Some("abc-0000000000000000".to_string()));
    assert_eq!(source.mint("abc"), Some("abc-0000000000000001".to_string()));
    for _ in 0..9 {
        source.mint("");
    }
    assert_eq!(source.mint("x"), Some("x-000000000000000b".to_string()));
    for _ in 0..243 {
        source.mint("");
    }
    assert_eq!(source.count(), 255);
    assert_eq!(source.mint(""), Some("-00000000000000ff".to_string()));
    assert_eq!(source.mint("é"), Some("é-0000000000000100".to_string()));
}

#[test]
fn issued_identifiers_hold_a_random_token() {
    let mut source = IdSource::new();
    let a = source.next().unwrap();
    let b = source.next().unwrap();
    assert_eq!(a.len(), 53);
    assert!(a.ends_with("-0000000000000000"));
    assert!(b.ends_with("-0000000000000001"));
    let token = uuid::Uuid::parse_str(&a[..36]).unwrap();
    assert_eq!(token.get_version_num(), 4);
    assert_eq!(&a[..36], token.to_string());
    assert_ne!(a[..36], b[..36]);
    assert_eq!(source.count(), 2);
}

#[test]
fn register_then_lookup_finds_the_plan() {
    let mut cache = PlanCache::new(4);
    assert_eq!(cache.len(), 0);
    let one = parse("SELECT 1").unwrap();
    let two = parse("SELECT 2").unwrap();
    let a = cache.register(one.clone()).unwrap();
    let b = cache.register(two.clone()).unwrap();
    assert_ne!(a, b);
    assert_eq!(cache.len(), 2);
    assert!(cache.contains(&a));
    let found = cache.lookup(&a).unwrap();
    assert_eq!(found.name, a);
    assert_eq!(found.plan, one);
    assert_eq!(found.encoding, Vec::<u8>::new());
    assert_eq!(found.sequence, 0);
    let other = cache.lookup(&b).unwrap();
    assert_eq!(other.plan, two);
    assert_eq!(other.sequence, 1);
    assert_eq!(other.clone(), other);
}

#[test]
fn lookup_of_unknown_name_is_not_found() {
    let mut cache = PlanCache::new(4);
    assert_eq!(cache.lookup("nothing").unwrap_err(), PlanNotFound);
    let name = cache.register(parse("SELECT 1").unwrap()).unwrap();
    assert_eq!(cache.lookup("nothing"), Err(PlanNotFound));
    assert!(!cache.contains("nothing"));
    assert!(cache.contains(&name));
}

#[test]
fn evict_is_idempotent() {
    let mut cache = PlanCache::new(4);
    let name = cache.register(parse("SELECT 1").unwrap()).unwrap();
    assert!(cache.evict(&name));
    assert!(!cache.evict(&name));
    assert!(!cache.contains(&name));
    assert_eq!(cache.lookup(&name), Err(PlanNotFound));
    assert_eq!(cache.len(), 0);
}

#[test]
fn full_cache_drops_the_least_recently_used_before_insert() {
    let mut cache = PlanCache::new(2);
    let a = cache.register(parse("SELECT 1").unwrap()).unwrap();
    let b = cache.register(parse("SELECT 2").unwrap()).unwrap();
    assert!(cache.lookup(&a).is_ok());
    let c = cache.register(parse("SELECT 3").unwrap()).unwrap();
    assert_eq!(cache.len(), 2);
    assert!(cache.contains(&a));
    assert!(!cache.contains(&b));
    assert!(cache.contains(&c));
    let d = cache.register(parse("SELECT 4").unwrap()).unwrap();
    assert!(!cache.contains(&a));
    assert!(cache.contains(&c));
    assert!(cache.contains(&d));
}

#[test]
fn cache_of_capacity_zero_holds_one_plan() {
    let mut cache = PlanCache::new(0);
    let a = cache.register(parse("SELECT 1").unwrap()).unwrap();
    assert!(cache.contains(&a));
    let b = cache.register(parse("SELECT 2").unwrap()).unwrap();
    assert!(!cache.contains(&a));
    assert!(cache.contains(&b));
    assert_eq!(cache.len(), 1);
}

#[test]
fn names_are_not_given_out_again_after_eviction() {
    let mut cache = PlanCache::new(1);
    let mut names: Vec<String> = Vec::new();
    for _ in 0..20 {
        let name = cache.register(parse("SELECT 1").unwrap()).unwrap();
        assert!(!names.contains(&name));
        assert!(cache.evict(&name));
        names.push(name);
    }
}

#[test]
fn begin_cancel_end() {
    let mut registry = RequestRegistry::new();
    let handle = registry.begin("r1").unwrap();
    assert_eq!(handle.request_id, "r1");
    assert!(registry.begin("r1").is_none());
    assert!(registry.begin("r2").is_some());
    assert_eq!(registry.len(), 2);
    assert!(registry.contains("r1"));
    assert_eq!(registry.phase_of("r1"), Some(Phase::Received));
    assert!(!registry.is_cancelled("r1"));
    assert!(registry.cancel("r1"));
    assert!(registry.is_cancelled("r1"));
    assert!(registry.cancel("r1"));
    assert!(registry.is_cancelled("r1"));
    assert!(!registry.is_cancelled("r2"));
    assert!(registry.end("r1"));
    assert!(!registry.end("r1"));
    assert!(!registry.cancel("r1"));
    assert!(!registry.is_cancelled("r1"));
    assert!(!registry.contains("r1"));
    assert_eq!(registry.phase_of("r1"), None);
    assert_eq!(registry.len(), 1);
    assert!(!registry.cancel("never"));
}

#[test]
fn phases_follow_the_life_of_a_request() {
    let mut registry = RequestRegistry::new();
    registry.begin("r").unwrap();
    assert!(!registry.advance("r", Phase::Streaming));
    assert!(!registry.advance("r", Phase::Cancelled));
    assert!(!registry.advance("r", Phase::Completed));
    assert!(registry.advance("r", Phase::Compiling));
    assert!(!registry.advance("r", Phase::Cancelled));
    assert!(registry.advance("r", Phase::Executing));
    assert!(!registry.advance("r", Phase::Completed));
    assert!(registry.cancel("r"));
    assert!(registry.advance("r", Phase::Streaming));
    assert_eq!(registry.phase_of("r"), Some(Phase::Streaming));
    assert!(registry.is_cancelled("r"));
    assert!(registry.advance("r", Phase::Completed));
    assert!(!registry.contains("r"));
    assert!(!registry.advance("r", Phase::Failed));
    assert!(!registry.advance("absent", Phase::Compiling));
}

#[test]
fn prepared_request_skips_compiling_and_can_be_cancelled_while_executing() {
    let mut registry = RequestRegistry::new();
    registry.begin("p").unwrap();
    assert!(registry.advance("p", Phase::Executing));
    assert!(registry.advance("p", Phase::Cancelled));
    assert!(!registry.contains("p"));
    registry.begin("q").unwrap();
    assert!(registry.advance("q", Phase::Compiling));
    assert!(registry.advance("q", Phase::Failed));
    assert!(!registry.contains("q"));
}

#[test]
fn phase_tables() {
    assert!(Phase::Completed.ends_request());
    assert!(Phase::Failed.ends_request());
    assert!(Phase::Cancelled.ends_request());
    assert!(!Phase::Streaming.ends_request());
    assert!(Phase::Received.may_become(Phase::Executing));
    assert!(Phase::Streaming.may_become(Phase::Failed));
    assert!(!Phase::Completed.may_become(Phase::Cancelled));
    assert!(!Phase::Failed.may_become(Phase::Cancelled));
    assert!(!Phase::Received.may_become(Phase::Cancelled));
}

#[test]
fn source_without_serial_numbers_issues_nothing() {
    let mut source = IdSource::from_count(u64::MAX - 1);
    assert!(!source.is_exhausted());
    assert_eq!(source.mint("t"), Some("t-fffffffffffffffe".to_string()));
    assert!(source.is_exhausted());
    assert_eq!(source.count(), u64::MAX);
    assert_eq!(source.mint("t"), None);
    assert_eq!(source.next(), None);
    assert_eq!(source.count(), u64::MAX);
    let mut resumed = IdSource::from_count(0x1234_5678_9abc_def0);
    assert_eq!(resumed.mint(""), Some("-123456789abcdef0".to_string()));
}

#[test]
fn cache_without_names_registers_nothing() {
    let mut cache = PlanCache::with_names(2, IdSource::from_count(u64::MAX - 1));
    let last = cache.register(parse("SELECT 1").unwrap()).unwrap();
    assert!(last.ends_with("-fffffffffffffffe"));
    assert_eq!(cache.register(parse("SELECT 2").unwrap()), None);
    assert_eq!(cache.len(), 1);
    assert!(cache.contains(&last));
    assert!(cache.lookup(&last).is_ok());
}

#[test]
fn encoded_form_is_kept_with_the_plan() {
    let mut cache = PlanCache::new(2);
    let name = cache
        .register_encoded(parse("SELECT 1").unwrap(), vec![7, 8, 9])
        .unwrap();
    assert_eq!(cache.lookup(&name).unwrap().encoding, vec![7, 8, 9]);
}
