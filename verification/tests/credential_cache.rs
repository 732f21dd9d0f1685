use valeriyya::credentials::{StartupPlan, TokenManager};
use valeriyya::record::{encode_record, parse_record, token_is_wf, try_encode_record, StoredToken};

fn manager(token: &str, valid_for: u64, now_mono: u64) -> TokenManager {
    TokenManager::new(
        token.as_bytes().to_vec(),
        valid_for,
        now_mono,
        "token.json".to_string(),
        "discord-secret".to_string(),
        "mongo-secret".to_string(),
        "youtube-secret".to_string(),
    )
}

#[test]
fn fresh_token_served_until_expiry_then_refreshed_once() {
    // Scenario: no file on disk, remote auth answers with a token that
    // lives ten seconds: the cache serves it without further remote
    // calls until the ten seconds are over, then one refresh.
    let plan = valeriyya::credentials::plan_startup(None, 1_700_000_000);
    assert!(matches!(plan, StartupPlan::Authenticate));

    // the one startup authentication returned tok1 / 10 s
    let mut tm = manager("tok1", 10, 100);

    for t in 0..10 {
        let got = tm.cached_token(100 + t);
        assert_eq!(got.expect("token should be valid"), b"tok1".to_vec());
    }
    // at expiry the cache refuses the stale token: one refresh happens
    assert!(tm.cached_token(110).is_none());
    tm.apply_refresh(b"tok2".to_vec(), 3600, 110);
    assert_eq!(tm.cached_token(110).expect("fresh again"), b"tok2".to_vec());
}

#[test]
fn persistence_round_trip_costs_no_remote_call() {
    // P2: write a record expiring an hour from now, reload it into a
    // fresh cache: same token, no authentication.
    let now_unix = 1_700_000_000u64;
    let tm = manager("roundtrip-token", 3600, 50);
    let record = tm.record_to_persist(50, now_unix);
    assert_eq!(record.expiry_time, now_unix + 3600);

    let bytes = try_encode_record(&record).expect("token bytes are plain");
    let reloaded = parse_record(&bytes).expect("own encoding parses");
    assert_eq!(reloaded.access_token, b"roundtrip-token".to_vec());
    assert_eq!(reloaded.expiry_time, now_unix + 3600);

    match valeriyya::credentials::plan_startup(Some(reloaded), now_unix) {
        StartupPlan::UseStored { token, seconds_left } => {
            assert_eq!(token, b"roundtrip-token".to_vec());
            assert_eq!(seconds_left, 3600);
        }
        StartupPlan::Authenticate => panic!("an unexpired record must be honored"),
    }
}

#[test]
fn expired_record_forces_authentication() {
    // P3: a record whose expiry is not in the future is treated as
    // absent at load.
    let record = StoredToken { access_token: b"old".to_vec(), expiry_time: 1_000 };
    let plan = valeriyya::credentials::plan_startup(Some(record), 1_000);
    assert!(matches!(plan, StartupPlan::Authenticate));

    let record = StoredToken { access_token: b"old".to_vec(), expiry_time: 999 };
    let plan = valeriyya::credentials::plan_startup(Some(record), 1_000);
    assert!(matches!(plan, StartupPlan::Authenticate));

    // strictly future expiry is honored
    let record = StoredToken { access_token: b"old".to_vec(), expiry_time: 1_001 };
    assert!(matches!(
        valeriyya::credentials::plan_startup(Some(record), 1_000),
        StartupPlan::UseStored { .. }
    ));
}

#[test]
fn record_encoding_is_the_documented_json() {
    let bytes = encode_record(&b"abc".to_vec(), 1234);
    assert_eq!(
        String::from_utf8(bytes).unwrap(),
        r#"{"access_token":"abc","expiry_time":1234}"#
    );
}

#[test]
fn parser_accepts_only_the_canonical_form() {
    let ok = |s: &str| parse_record(&s.as_bytes().to_vec());
    assert!(ok(r#"{"access_token":"abc","expiry_time":1234}"#).is_some());
    assert!(ok(r#"{"access_token":"","expiry_time":0}"#).is_some());
    // wrong key, reordered fields, whitespace, leading zeros: absent
    assert!(ok(r#"{"access_token":"abc","expiry_unix":1234}"#).is_none());
    assert!(ok(r#"{"expiry_time":1234,"access_token":"abc"}"#).is_none());
    assert!(ok(r#"{ "access_token": "abc", "expiry_time": 1234 }"#).is_none());
    assert!(ok(r#"{"access_token":"abc","expiry_time":01234}"#).is_none());
    assert!(ok(r#"{"access_token":"abc","expiry_time":}"#).is_none());
    assert!(ok(r#"{"access_token":"abc","expiry_time":1234"#).is_none());
    assert!(ok("").is_none());
    assert!(ok("garbage").is_none());
    // a value beyond 64 bits is refused, the maximum is kept
    assert!(ok(r#"{"access_token":"a","expiry_time":18446744073709551615}"#).is_some());
    assert!(ok(r#"{"access_token":"a","expiry_time":18446744073709551616}"#).is_none());
}

#[test]
fn tokens_with_quotes_and_backslashes_survive_the_disk() {
    assert!(token_is_wf(&b"plain-token_123".to_vec()));
    assert!(token_is_wf(&b"with\"quote".to_vec()));
    assert!(token_is_wf(&b"with\\backslash".to_vec()));

    let record = StoredToken { access_token: b"a\"b\\c".to_vec(), expiry_time: 7 };
    let bytes = try_encode_record(&record).expect("escapable bytes persist");
    assert_eq!(
        String::from_utf8(bytes.clone()).unwrap(),
        r#"{"access_token":"a\"b\\c","expiry_time":7}"#
    );
    let back = parse_record(&bytes).expect("own encoding parses");
    assert_eq!(back.access_token, b"a\"b\\c".to_vec());
    assert_eq!(back.expiry_time, 7);
}

#[test]
fn control_bytes_are_outside_the_record_grammar() {
    assert!(!token_is_wf(&b"with\ncontrol".to_vec()));
    let record = StoredToken { access_token: b"with\ncontrol".to_vec(), expiry_time: 1 };
    assert!(try_encode_record(&record).is_none());
    // and the parser refuses raw control bytes and unknown escapes
    let raw = |s: &str| parse_record(&s.as_bytes().to_vec());
    assert!(raw("{\"access_token\":\"a\nb\",\"expiry_time\":1}").is_none());
    assert!(raw(r#"{"access_token":"a\nb","expiry_time":1}"#).is_none());
    assert!(raw(r#"{"access_token":"a\","expiry_time":1}"#).is_none());
}

#[test]
fn persisted_expiry_never_goes_backwards() {
    // monotonic expiry already passed: zero seconds left, not negative
    let tm = manager("tok", 5, 100); // expires at monotonic 105
    let record = tm.record_to_persist(200, 9_000);
    assert_eq!(record.expiry_time, 9_000);
}

#[test]
fn get_token_skips_the_expiry_check() {
    let tm = manager("tok", 5, 100); // expires at monotonic 105
    // long past expiry the raw accessor still hands the bytes out
    assert_eq!(tm.get_token(), b"tok".to_vec());
    assert!(tm.cached_token(200).is_none());
}

#[test]
fn static_secrets_are_handed_out_unchanged() {
    let tm = manager("tok", 5, 0);
    assert_eq!(tm.get_discord_token(), "discord-secret");
    assert_eq!(tm.get_mongo_token(), "mongo-secret");
    assert_eq!(tm.get_youtube_token(), "youtube-secret");
}
