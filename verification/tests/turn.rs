use jj_agentic_aspect::codec;
use jj_agentic_aspect::json::{Json, JsonObject};
use jj_agentic_aspect::turn::{
    codex_turn_summary, codex_turn_summary_from_reader, keep_str, token_usage, token_usage_diff, Target,
};

fn object(entries: Vec<(&str, Json)>) -> Json {
    let mut object = JsonObject::new();
    for (key, value) in entries {
        object.insert(key.to_string(), value);
    }
    Json::Object(object)
}

fn text(s: &str) -> Json {
    Json::from_str(s)
}

fn number(n: u64) -> Json {
    Json::from_u64(n)
}

fn parsed(s: &str) -> Json {
    codec::parse(s).expect("JSON")
}

fn usage(input: u64, cached: u64, output: u64, total: u64) -> Json {
    object(vec![
        ("input_tokens", number(input)),
        ("cached_input_tokens", number(cached)),
        ("output_tokens", number(output)),
        ("total_tokens", number(total)),
    ])
}

fn rows() -> Vec<Json> {
    vec![
        object(vec![
            ("type", text("session_meta")),
            (
                "payload",
                object(vec![
                    ("id", text("session-1")),
                    ("cli_version", text("0.146.0")),
                    ("originator", text("codex-tui")),
                ]),
            ),
        ]),
        object(vec![
            ("type", text("event_msg")),
            (
                "payload",
                object(vec![
                    ("type", text("token_count")),
                    ("info", object(vec![("total_token_usage", usage(80, 20, 20, 100))])),
                ]),
            ),
        ]),
        object(vec![
            ("type", text("turn_context")),
            (
                "payload",
                object(vec![
                    ("turn_id", text("turn-2")),
                    ("model", text("gpt-test")),
                    ("effort", text("xhigh")),
                    ("approval_policy", text("never")),
                    ("sandbox_policy", object(vec![("type", text("danger-full-access"))])),
                    ("collaboration_mode", object(vec![("mode", text("default"))])),
                ]),
            ),
        ]),
        object(vec![
            ("timestamp", text("2026-07-30T00:00:01Z")),
            ("type", text("event_msg")),
            (
                "payload",
                object(vec![
                    ("type", text("agent_message")),
                    ("phase", text("commentary")),
                    ("message", text("checking production")),
                ]),
            ),
        ]),
        object(vec![
            ("type", text("event_msg")),
            (
                "payload",
                object(vec![
                    ("type", text("token_count")),
                    (
                        "info",
                        object(vec![
                            ("total_token_usage", usage(200, 100, 50, 250)),
                            ("last_token_usage", usage(80, 60, 10, 90)),
                            ("model_context_window", number(1000)),
                        ]),
                    ),
                ]),
            ),
        ]),
        object(vec![
            ("type", text("event_msg")),
            (
                "payload",
                object(vec![
                    ("type", text("agent_message")),
                    ("phase", text("final_answer")),
                    ("message", text("done")),
                ]),
            ),
        ]),
        object(vec![
            ("type", text("turn_context")),
            ("payload", object(vec![("turn_id", text("turn-3"))])),
        ]),
        object(vec![
            ("type", text("event_msg")),
            (
                "payload",
                object(vec![
                    ("type", text("agent_message")),
                    ("phase", text("commentary")),
                    ("message", text("wrong turn")),
                ]),
            ),
        ]),
    ]
}

fn at<'a>(v: &'a Json, key: &str) -> &'a Json {
    v.get(key).expect(key)
}

fn items(v: &Json) -> &Vec<Json> {
    match v {
        Json::Array(items) => items,
        _ => panic!("no array"),
    }
}

fn target(turn_id: &str, final_message: Option<&str>) -> Target {
    Target {
        session_id: "session-1".to_string(),
        turn_id: turn_id.to_string(),
        final_message: final_message.map(str::to_string),
    }
}

#[test]
fn codex_turn_summary_keeps_only_target_turn_observability() {
    let input: String = rows().iter().map(codec::to_text).collect::<Vec<_>>().join("\n");
    let lines: Vec<String> = input.lines().map(str::to_string).collect();
    let summary = codex_turn_summary_from_reader(
        &lines,
        "session-1",
        "turn-2",
        &text("/repo"),
        Some("done"),
    )
    .expect("summary");

    assert_eq!(summary.str_at("codex_cli_version"), Some("0.146.0"));
    assert_eq!(summary.str_at("effort"), Some("xhigh"));
    assert_eq!(at(&summary, "turn_token_usage").u64_at("total_tokens"), Some(150));
    assert_eq!(at(&summary, "turn_token_usage").u64_at("input_tokens"), Some(120));
    assert_eq!(at(&summary, "session_token_usage").u64_at("total_tokens"), Some(250));
    assert_eq!(summary.u64_at("context_used_tokens"), Some(80));
    assert_eq!(summary.u64_at("model_context_window"), Some(1000));
    assert_eq!(items(at(&summary, "progress")).len(), 1);
    assert_eq!(items(at(&summary, "progress"))[0].str_at("message"), Some("checking production"));
}

#[test]
fn turn_summary_is_exact() {
    let summary = codex_turn_summary(&rows(), &target("turn-2", Some(" done ")), &text("/repo"));
    assert_eq!(
        codec::to_text(&summary.expect("summary")),
        concat_lines(&[
            r#"{"_derived_from":"Codex rollout transcript (best effort; internal format)","#,
            r#""approval_policy":"never","codex_cli_version":"0.146.0","#,
            r#""collaboration_mode":"default","context_used_tokens":80,"cwd":"/repo","#,
            r#""effort":"xhigh","hook_event_name":"CodexTurnSummary","#,
            r#""last_token_usage":{"cached_input_tokens":60,"input_tokens":80,"output_tokens":10,"total_tokens":90},"#,
            r#""model":"gpt-test","model_context_window":1000,"originator":"codex-tui","#,
            r#""progress":[{"message":"checking production","phase":"commentary","timestamp":"2026-07-30T00:00:01Z"}],"#,
            r#""sandbox_policy":"danger-full-access","session_id":"session-1","#,
            r#""session_token_usage":{"cached_input_tokens":100,"input_tokens":200,"output_tokens":50,"total_tokens":250},"#,
            r#""turn_id":"turn-2","#,
            r#""turn_token_usage":{"cache_write_input_tokens":0,"cached_input_tokens":80,"input_tokens":120,"#,
            r#""output_tokens":30,"reasoning_output_tokens":0,"total_tokens":150}}"#,
        ])
    );
}

fn concat_lines(parts: &[&str]) -> String {
    parts.concat()
}

#[test]
fn turn_summary_needs_the_turn() {
    assert!(codex_turn_summary(&rows(), &target("turn-9", None), &Json::Null).is_none());
    assert!(codex_turn_summary(&Vec::new(), &target("turn-2", None), &Json::Null).is_none());
}

#[test]
fn turn_summary_of_another_turn_sees_only_its_own_commentary() {
    let summary = codex_turn_summary(&rows(), &target("turn-3", None), &Json::Null).expect("summary");
    let progress = items(at(&summary, "progress"));
    assert_eq!(progress.len(), 1);
    assert_eq!(progress[0].str_at("message"), Some("wrong turn"));
    assert!(summary.get("turn_token_usage").is_none());
    assert!(summary.get("model").is_none());
}

#[test]
fn turn_summary_skips_lines_that_are_no_json() {
    let mut lines: Vec<String> = vec!["{broken".to_string(), String::new()];
    lines.extend(rows().iter().map(codec::to_text));
    lines.push("not json".to_string());
    let with = codex_turn_summary_from_reader(&lines, "session-1", "turn-2", &Json::Null, None);
    let without = codex_turn_summary(&rows(), &target("turn-2", None), &Json::Null);
    assert_eq!(codec::to_text(&with.expect("summary")), codec::to_text(&without.expect("summary")));
}

#[test]
fn turn_summary_leaves_out_the_final_message_and_blank_ones() {
    let rows = vec![
        parsed(r#"{"type":"turn_context","payload":{"turn_id":"turn-2"}}"#),
        parsed(r#"{"type":"event_msg","payload":{"type":"agent_message","message":"  all good\n"}}"#),
        parsed(r#"{"type":"event_msg","payload":{"type":"agent_message","message":" \t "}}"#),
        parsed(r#"{"type":"event_msg","payload":{"type":"agent_message","phase":"x","message":" y "}}"#),
        parsed(r#"{"type":"event_msg","payload":{"type":"agent_message"}}"#),
    ];
    let summary = codex_turn_summary(&rows, &target("turn-2", Some("all good")), &Json::Null).expect("summary");
    assert_eq!(codec::to_text(at(&summary, "progress")), r#"[{"message":"y","phase":"x"}]"#);
}

#[test]
fn session_meta_of_another_session_is_ignored() {
    let rows = vec![
        parsed(r#"{"type":"session_meta","payload":{"session_id":"other","id":"session-1","cli_version":"1"}}"#),
        parsed(r#"{"type":"session_meta","payload":{"session_id":7,"id":"session-1","originator":"o"}}"#),
        parsed(r#"{"type":"turn_context","payload":{"turn_id":"turn-2","model":""}}"#),
    ];
    let summary = codex_turn_summary(&rows, &target("turn-2", None), &Json::Null).expect("summary");
    assert!(summary.get("codex_cli_version").is_none());
    assert!(summary.get("originator").is_none());
    assert!(summary.get("model").is_none());
}

#[test]
fn baseline_is_the_usage_when_the_turn_first_began() {
    let count = |total: u64| {
        object(vec![
            ("type", text("event_msg")),
            (
                "payload",
                object(vec![
                    ("type", text("token_count")),
                    ("info", object(vec![("total_token_usage", object(vec![("total_tokens", number(total))]))])),
                ]),
            ),
        ])
    };
    let context = |turn: &str| {
        object(vec![
            ("type", text("turn_context")),
            ("payload", object(vec![("turn_id", text(turn))])),
        ])
    };
    let rows = vec![
        count(100),
        context("turn-2"),
        count(130),
        context("turn-3"),
        count(200),
        context("turn-2"),
        count(210),
    ];
    let summary = codex_turn_summary(&rows, &target("turn-2", None), &Json::Null).expect("summary");
    assert_eq!(at(&summary, "turn_token_usage").u64_at("total_tokens"), Some(110));
    assert_eq!(at(&summary, "session_token_usage").u64_at("total_tokens"), Some(210));
}

#[test]
fn token_usage_keeps_known_counters() {
    let kept = token_usage(&parsed(r#"{"input_tokens":3,"total_tokens":-1,"other":9,"output_tokens":"x"}"#));
    assert_eq!(codec::to_text(&kept.expect("usage")), r#"{"input_tokens":3}"#);
    assert!(token_usage(&parsed(r#"{"other":9}"#)).is_none());
    assert!(token_usage(&parsed("[1]")).is_none());
    assert!(token_usage(&parsed("3")).is_none());
}

#[test]
fn token_usage_diff_does_not_go_below_zero() {
    let end = parsed(r#"{"input_tokens":5,"total_tokens":7}"#);
    let start = parsed(r#"{"input_tokens":8,"total_tokens":4,"output_tokens":1}"#);
    assert_eq!(
        codec::to_text(&token_usage_diff(&end, Some(&start))),
        r#"{"cache_write_input_tokens":0,"cached_input_tokens":0,"input_tokens":0,"output_tokens":0,"reasoning_output_tokens":0,"total_tokens":3}"#
    );
    assert_eq!(token_usage_diff(&end, None).u64_at("input_tokens"), Some(5));
}

#[test]
fn keep_str_keeps_only_text() {
    let mut object = JsonObject::new();
    keep_str(&mut object, "a", Some(&text("x")));
    keep_str(&mut object, "b", Some(&text("")));
    keep_str(&mut object, "c", Some(&number(1)));
    keep_str(&mut object, "d", None);
    assert_eq!(codec::to_text(&Json::Object(object)), r#"{"a":"x"}"#);
}
