use jj_agentic_aspect::body;
use jj_agentic_aspect::codec;
use jj_agentic_aspect::json::{Json, JsonObject};
use jj_agentic_aspect::status;

fn parsed(s: &str) -> Json {
    codec::parse(s).expect("JSON")
}

fn object(entries: Vec<(String, Json)>) -> Json {
    let mut object = JsonObject::new();
    for (key, value) in entries {
        object.insert(key, value);
    }
    Json::Object(object)
}

fn text(s: &str) -> Json {
    Json::from_str(s)
}

#[test]
fn small_payloads_are_uploaded_verbatim() {
    let s = r#"{"cwd":"/repo","hook_event_name":"Stop","session_id":"s","tool":{"output":[1,2,{"x":null}]}}"#;
    assert_eq!(body::fit_body(&parsed(s)), s);
    assert_eq!(status::fit_body(&parsed(s)), s);
}

#[test]
fn a_payload_that_is_no_object_is_a_body_too() {
    assert_eq!(body::fit_body(&parsed("[1,\"x\"]")), "[1,\"x\"]");
    assert_eq!(body::fit_body(&parsed("null")), "null");
    assert_eq!(status::fit_body(&parsed("7")), "7");
}

#[test]
fn a_body_of_just_the_budget_is_left() {
    let s = "x".repeat(1_299_998);
    let v = object(vec![("a".to_string(), text(&s)), ("b".to_string(), text(&"y".repeat(99_987)))]);
    let fitted = body::fit_body(&v);
    assert_eq!(fitted.len(), 1_400_000);
    assert_eq!(fitted, codec::to_text(&v));
}

#[test]
fn one_byte_over_the_budget_is_clipped_by_the_next_limit() {
    let v = object(vec![
        ("a".to_string(), text(&"x".repeat(1_299_998))),
        ("b".to_string(), text(&"y".repeat(99_988))),
    ]);
    let fitted = parsed(&body::fit_body(&v));
    let a = fitted.str_at("a").unwrap();
    assert!(a.ends_with("…[truncated, 1299998 chars total]"));
    assert!(a.starts_with(&"x".repeat(400_000)) && !a.starts_with(&"x".repeat(400_001)));
    assert_eq!(fitted.str_at("b"), Some("y".repeat(99_988).as_str()));
}

#[test]
fn a_long_string_within_the_budget_is_left() {
    let v = object(vec![("a".to_string(), text(&"x".repeat(1_350_000)))]);
    assert_eq!(body::fit_body(&v), codec::to_text(&v));
}

#[test]
fn strings_over_the_budget_are_clipped_to_the_first_limit() {
    let v = object(vec![("a".to_string(), text(&"x".repeat(1_450_000)))]);
    let fitted = parsed(&body::fit_body(&v));
    let expected = format!("{}…[truncated, 1450000 chars total]", "x".repeat(1_300_000));
    assert_eq!(fitted.str_at("a"), Some(expected.as_str()));
}

#[test]
fn arrays_have_no_limit_on_their_items() {
    let items: Vec<Json> = (0..100_001).map(|_| Json::from_u64(0)).collect();
    let v = Json::Array(items);
    let fitted = body::fit_body(&v);
    assert_eq!(fitted.len(), 200_003);
    assert_eq!(fitted, codec::to_text(&v));
}

#[test]
fn long_arrays_over_the_budget_keep_their_items() {
    let mut items: Vec<Json> = (0..100_003).map(|_| text("y")).collect();
    items[0] = text(&LONG.repeat(150_000));
    match parsed(&body::fit_body(&Json::Array(items))) {
        Json::Array(items) => {
            assert_eq!(items.len(), 100_003);
            assert_eq!(items[100_002].as_str(), Some("y"));
            assert!(items[0].as_str().unwrap().ends_with("…[truncated, 1500000 chars total]"));
        }
        _ => panic!("no array"),
    }
}

const LONG: &str = "0123456789";

#[test]
fn a_payload_of_too_many_strings_becomes_a_skeleton() {
    let strings: Vec<Json> = (0..20_000).map(|_| text(&"z".repeat(300))).collect();
    let v = object(vec![
        ("hook_event_name".to_string(), text("Stop")),
        ("list".to_string(), Json::Array(strings)),
        ("long".to_string(), text(&"w".repeat(300))),
        ("map".to_string(), parsed(r#"{"p":1,"q":[2]}"#)),
        ("n".to_string(), Json::from_u64(3)),
        ("t".to_string(), Json::Bool(true)),
        ("z".to_string(), Json::Null),
    ]);
    let fitted = parsed(&body::fit_body(&v));
    assert_eq!(fitted.str_at("hook_event_name"), Some("Stop"));
    assert_eq!(fitted.str_at("list"), Some("…[dropped: array of 20000 items]"));
    assert_eq!(
        fitted.str_at("long"),
        Some(format!("{}…[truncated, 300 chars total]", "w".repeat(256)).as_str())
    );
    assert_eq!(fitted.str_at("map"), Some("…[dropped: object with keys p,q]"));
    assert_eq!(fitted.u64_at("n"), Some(3));
    assert!(matches!(fitted.get("t"), Some(Json::Bool(true))));
    assert!(matches!(fitted.get("z"), Some(Json::Null)));
    assert!(matches!(fitted.get("_truncated"), Some(Json::Bool(true))));
}

#[test]
fn the_names_of_all_keys_are_kept_where_they_fit() {
    let mut entries: Vec<(String, Json)> =
        (0..30_000).map(|i| (format!("some_key_name__{i:05}"), text(&"v".repeat(300)))).collect();
    entries.push(("session_id".to_string(), text("s-1")));
    let names: Vec<String> = {
        let mut names: Vec<String> = entries.iter().map(|(key, _)| key.clone()).collect();
        names.sort();
        names
    };
    let body = body::fit_body(&object(entries));
    assert!(body.len() <= body::BODY_BUDGET);
    let fitted = parsed(&body);
    assert_eq!(fitted.str_at("_dropped_key_names"), Some(names.join(",").as_str()));
    assert_eq!(fitted.u64_at("_dropped_keys"), Some(30_001));
    assert_eq!(fitted.str_at("session_id"), Some("s-1"));
    assert!(matches!(fitted.get("hook_event_name"), Some(Json::Null)));
    assert!(matches!(fitted.get("_truncated"), Some(Json::Bool(true))));
}

#[test]
fn a_payload_of_too_many_keys_becomes_its_identity() {
    let mut entries: Vec<(String, Json)> =
        (0..60_000).map(|i| (format!("a_rather_long_key_{i:05}"), Json::from_u64(i))).collect();
    entries.push(("hook_event_name".to_string(), text("Stop")));
    entries.push(("session_id".to_string(), text("s-1")));
    entries.push(("cwd".to_string(), text("/repo")));
    let body = body::fit_body(&object(entries));
    assert!(body.len() <= body::BODY_BUDGET);
    let fitted = parsed(&body);
    assert_eq!(fitted.str_at("hook_event_name"), Some("Stop"));
    assert_eq!(fitted.str_at("session_id"), Some("s-1"));
    assert_eq!(fitted.str_at("cwd"), Some("/repo"));
    assert!(matches!(fitted.get("_truncated"), Some(Json::Bool(true))));
    assert_eq!(fitted.u64_at("_dropped_keys"), Some(60_003));
    let names = fitted.str_at("_dropped_key_names").unwrap();
    assert!(names.starts_with("a_rather_long_key_00000,a_rather_long_key_00001,"));
    assert!(names.ends_with("chars total]"));
}

#[test]
fn a_huge_identity_is_outlined() {
    let mut entries: Vec<(String, Json)> =
        (0..60_000).map(|i| (format!("a_rather_long_key_{i:05}"), Json::from_u64(i))).collect();
    entries.push(("hook_event_name".to_string(), text(&"E".repeat(1_500_000))));
    entries.push(("cwd".to_string(), parsed("[1,2]")));
    let body = body::fit_body(&object(entries));
    assert!(body.len() <= body::BODY_BUDGET);
    let fitted = parsed(&body);
    assert_eq!(
        fitted.str_at("hook_event_name"),
        Some(format!("{}…[truncated, 1500000 chars total]", "E".repeat(256)).as_str())
    );
    assert_eq!(fitted.str_at("cwd"), Some("…[dropped: array of 2 items]"));
    assert!(matches!(fitted.get("session_id"), Some(Json::Null)));
}

#[test]
fn key_shares_are_between_16_and_256() {
    assert_eq!(body::key_share(0), 256);
    assert_eq!(body::key_share(1), 256);
    assert_eq!(body::key_share(7_000), 100);
    assert_eq!(body::key_share(1_000_000), 16);
}

#[test]
fn status_bodies_are_clipped_to_2048_and_100() {
    let items: Vec<Json> = (0..101).map(Json::from_u64).collect();
    let v = object(vec![
        ("a".to_string(), text(&"x".repeat(2_049))),
        ("b".to_string(), text(&"x".repeat(2_048))),
        ("l".to_string(), Json::Array(items)),
    ]);
    let fitted = parsed(&status::fit_body(&v));
    assert_eq!(
        fitted.str_at("a"),
        Some(format!("{}…[truncated, 2049 chars total]", "x".repeat(2_048)).as_str())
    );
    assert_eq!(fitted.str_at("b"), Some("x".repeat(2_048).as_str()));
    match fitted.get("l") {
        Some(Json::Array(items)) => {
            assert_eq!(items.len(), 101);
            assert_eq!(items[100].as_str(), Some("…[1 more items truncated]"));
        }
        _ => panic!("no array"),
    }
}

#[test]
fn status_bodies_fall_back_to_256() {
    let entries: Vec<(String, Json)> = (0..40).map(|i| (format!("k{i:02}"), text(&"x".repeat(2_000)))).collect();
    let fitted = parsed(&status::fit_body(&object(entries)));
    assert_eq!(
        fitted.str_at("k00"),
        Some(format!("{}…[truncated, 2000 chars total]", "x".repeat(256)).as_str())
    );
    assert!(fitted.get("_truncated").is_none());
}

#[test]
fn status_bodies_fall_back_to_scalars() {
    let list: Vec<Json> = (0..100).map(|_| text(&"x".repeat(300))).collect();
    let mut entries: Vec<(String, Json)> =
        (0..3).map(|i| (format!("l{i}"), Json::Array(list.iter().map(Json::duplicate).collect()))).collect();
    entries.push(("hook_event_name".to_string(), text("Stop")));
    entries.push(("n".to_string(), Json::from_u64(1)));
    let fitted = status::fit_body(&object(entries));
    assert_eq!(fitted, r#"{"_truncated":true,"hook_event_name":"Stop","n":1}"#);
}

#[test]
fn status_bodies_never_exceed_the_budget() {
    let mut entries: Vec<(String, Json)> = (0..9_000).map(|i| (format!("key{i:05}"), Json::from_u64(1))).collect();
    entries.push(("hook_event_name".to_string(), text(&"é".repeat(300))));
    entries.push(("session_id".to_string(), text("s")));
    entries.push(("cwd".to_string(), parsed("{}")));
    let fitted = status::fit_body(&object(entries));
    assert!(fitted.encode_utf16().count() <= status::STATUS_BODY_BUDGET);
    assert_eq!(
        fitted,
        format!(
            r#"{{"_truncated":true,"hook_event_name":"{}…[truncated, 300 chars total]","session_id":"s"}}"#,
            "é".repeat(256)
        )
    );
}
