use jj_agentic_aspect::codec;
use jj_agentic_aspect::goal::{
    codex_goal_objective, goal_after, goal_body, goal_of_line, readable_for_goal, readable_for_turn,
    report_codex_goal, report_codex_turn_summary, target_of, turn_body, ROLLOUT_MAX_FILE_BYTES,
};
use jj_agentic_aspect::hook::{self, Ingest, Step};
use jj_agentic_aspect::json::Json;
use jj_agentic_aspect::rollout::{
    codex_rollout_path, transcript_path, DirEntry, RolloutPlace, RolloutSearch, ROLLOUT_MAX_DIRS_SCANNED,
};
use jj_agentic_aspect::status;
use jj_agentic_aspect::turn::TurnScan;
use jj_agentic_aspect::upload::Upload;

fn parsed(s: &str) -> Json {
    codec::parse(s).expect("JSON")
}

fn ingest(raw: &str, source: &str, project_dir: Option<&str>, current_dir: Option<&str>) -> Ingest {
    hook::run_ingest(raw.as_bytes(), source, project_dir, current_dir).expect("ingest")
}

#[test]
fn blank_input_is_ignored() {
    assert!(hook::run_ingest(" \n\t\u{3000}".as_bytes(), "codex", None, None).is_none());
    assert!(hook::run_ingest(b"", "codex", None, None).is_none());
    assert!(status::run_hook("  ", None, Some("/w/p")).is_none());
}

#[test]
fn an_event_is_uploaded() {
    let raw = r#"{"session_id":"s-1","hook_event_name":"Stop","cwd":"/w/sub"}"#;
    let ingest = ingest(raw, "codex", Some("/w/project"), Some("/elsewhere"));
    let upload = &ingest.upload;
    assert_eq!(upload.project, "project");
    assert_eq!(upload.session_id, "s-1");
    assert_eq!(upload.event, "Stop");
    assert_eq!(upload.source.as_deref(), Some("codex"));
    assert_eq!(upload.body, r#"{"cwd":"/w/sub","hook_event_name":"Stop","session_id":"s-1"}"#);
    assert_eq!(upload.path(), "/projects/project/statuses");
    assert_eq!(
        codec::to_text(&upload.to_json()),
        r#"{"body":"{\"cwd\":\"/w/sub\",\"hook_event_name\":\"Stop\",\"session_id\":\"s-1\"}","event":"Stop","session_id":"s-1","source":"codex"}"#
    );
    assert_eq!(ingest.steps, [Step::Upload, Step::ReportTurn, Step::ReportGoal]);
}

#[test]
fn follow_ups_depend_on_the_source_and_the_event() {
    let end = r#"{"hook_event_name":"SessionEnd"}"#;
    let stop = r#"{"hook_event_name":"Stop"}"#;
    let other = r#"{"hook_event_name":"PreToolUse"}"#;
    let steps = |raw, source| ingest(raw, source, None, None).steps;
    assert_eq!(steps(stop, "my-codex-x"), [Step::Upload, Step::ReportTurn, Step::ReportGoal]);
    assert_eq!(steps(end, "codex"), [Step::Upload, Step::ReportGoal]);
    assert_eq!(steps(other, "codex"), [Step::Upload]);
    assert_eq!(steps(stop, "code"), [Step::Upload]);
    assert_eq!(steps(stop, "Codex"), [Step::Upload]);
}

#[test]
fn projects_are_named_after_the_first_directory_that_has_a_name() {
    let with_cwd = r#"{"cwd":"/w/sub"}"#;
    fn project(raw: &str, dir: Option<&str>, current: Option<&str>) -> String {
        ingest(raw, "x", dir, current).upload.project
    }
    assert_eq!(project(with_cwd, Some("/a/b/"), Some("/c")), "b");
    assert_eq!(project(with_cwd, Some(""), Some("/c")), "sub");
    assert_eq!(project(with_cwd, Some("/"), Some("/c")), "sub");
    assert_eq!(project(with_cwd, None, Some("/c")), "sub");
    assert_eq!(project(r#"{"cwd":".."}"#, None, Some("/c")), "c");
    assert_eq!(project("{}", None, None), "unknown");
    assert_eq!(project("{}", Some(&format!("/{}", "p".repeat(128))), None), "p".repeat(128));
    assert_eq!(project("{}", Some(&format!("/{}", "p".repeat(129))), Some("/c")), "unknown");
}

#[test]
fn ids_and_names_of_events_are_clipped() {
    let raw = format!(r#"{{"session_id":"{}","hook_event_name":"{}"}}"#, "s".repeat(129), "e".repeat(65));
    let upload = ingest(&raw, "x", None, None).upload;
    assert_eq!(upload.session_id, format!("{}…[truncated, 129 chars total]", "s".repeat(128)));
    assert_eq!(upload.event, format!("{}…[truncated, 65 chars total]", "e".repeat(64)));
    let upload = ingest(r#"{"session_id":1}"#, "x", None, None).upload;
    assert_eq!(upload.session_id, "unknown");
    assert_eq!(upload.event, "Unknown");
}

#[test]
fn text_that_is_no_json_is_reported() {
    let ingest = ingest("oops {", "codex", None, Some("/w/p"));
    assert_eq!(ingest.upload.event, "UnparsedPayload");
    assert_eq!(ingest.upload.session_id, "unknown");
    assert_eq!(ingest.upload.project, "p");
    assert_eq!(
        ingest.upload.body,
        r#"{"_parse_error":"expected value at line 1 column 1","_unparsed":"oops {","hook_event_name":"UnparsedPayload"}"#
    );
}

#[test]
fn bytes_that_are_no_text_are_reported() {
    let ingest = hook::run_ingest(b"{\"a\":\"\xff\"}", "codex", None, Some("/w/p")).expect("ingest");
    assert_eq!(ingest.upload.event, "UnparsedPayload");
    assert_eq!(ingest.upload.session_id, "unknown");
    assert_eq!(
        codec::to_text(&ingest.payload),
        "{\"_parse_error\":\"stdin is not valid UTF-8\",\"_unparsed\":\"{\\\"a\\\":\\\"\u{FFFD}\\\"}\",\"hook_event_name\":\"UnparsedPayload\"}"
    );
    assert_eq!(ingest.upload.body, codec::to_text(&ingest.payload));
    let text = hook::ingest_text("{}", "codex", None, Some("/w/p")).expect("ingest");
    assert_eq!(text.upload.body, "{}");
    assert!(hook::ingest_text(" ", "codex", None, None).is_none());
}

#[test]
fn a_parsed_payload_is_taken_as_it_is() {
    assert_eq!(codec::to_text(&hook::payload_from("ignored", Ok(parsed("[1]")))), "[1]");
    assert_eq!(
        codec::to_text(&hook::payload_from("raw", Err("why".to_string()))),
        r#"{"_parse_error":"why","_unparsed":"raw","hook_event_name":"UnparsedPayload"}"#
    );
    let ingest = hook::ingest_payload(parsed(r#"{"hook_event_name":"Stop"}"#), "codex", None, Some("/w/p"));
    assert_eq!(ingest.upload.event, "Stop");
    assert_eq!(ingest.steps.len(), 3);
}

#[test]
fn an_upload_is_attempted_twice() {
    assert!(hook::upload_again(1, true));
    assert!(!hook::upload_again(1, false));
    assert!(!hook::upload_again(2, true));
}

#[test]
fn status_events_have_no_source() {
    let raw = r#"{"session_id":"s","hook_event_name":"Stop","cwd":"/w/sub"}"#;
    let upload = status::run_hook(raw, Some("/w/project"), None).expect("upload");
    assert_eq!(upload.project, "sub");
    assert_eq!(
        codec::to_text(&upload.to_json()),
        r#"{"body":"{\"cwd\":\"/w/sub\",\"hook_event_name\":\"Stop\",\"session_id\":\"s\"}","event":"Stop","session_id":"s"}"#
    );
    let upload = status::hook_payload(&parsed("{}"), Some("/w/project"), Some("/c")).expect("upload");
    assert_eq!(upload.project, "project");
    assert_eq!(upload.session_id, "unknown");
    assert!(status::run_hook("no json", Some("/w/project"), None).is_none());
    assert!(status::run_hook("{}", None, None).is_none());
    assert!(status::run_hook("{}", Some(&format!("/{}", "p".repeat(129))), Some("/c")).is_none());
}

#[test]
fn derived_events_belong_to_the_same_session() {
    let upload = Upload {
        project: "p".to_string(),
        session_id: "s".to_string(),
        event: "Stop".to_string(),
        source: Some("codex".to_string()),
        body: "{}".to_string(),
    };
    let summary = upload.turn_summary("7".to_string());
    assert_eq!(
        codec::to_text(&summary.to_json()),
        r#"{"body":"7","event":"CodexTurnSummary","session_id":"s","source":"codex"}"#
    );
    let derived = upload.thread_goal("[]".to_string());
    assert_eq!(
        codec::to_text(&derived.to_json()),
        r#"{"body":"[]","event":"ThreadGoal","session_id":"s","source":"codex"}"#
    );
    assert_eq!(derived.project, "p");
}

fn goal_line(goal: &str) -> String {
    format!(r#"{{"type":"event_msg","payload":{{"type":"thread_goal_updated","goal":{goal}}}}}"#)
}

#[test]
fn goals_in_lines() {
    assert_eq!(goal_of_line(&goal_line(r#"{"objective":" ship it "}"#)), Some("ship it".to_string()));
    assert_eq!(goal_of_line(&goal_line(r#""plain""#)), Some("plain".to_string()));
    assert_eq!(goal_of_line(&goal_line(r#"{"objective":" "}"#)), None);
    assert_eq!(goal_of_line(&goal_line("null")), None);
    assert_eq!(goal_of_line("thread_goal_updated"), None);
    assert_eq!(goal_of_line(r#"{"payload":{"type":"x","goal":"thread_goal_updated"}}"#), None);
    assert_eq!(goal_of_line(r#"{"payload":{"type":"x","goal":"y"}}"#), None);
}

#[test]
fn the_last_goal_counts() {
    let lines = vec![
        goal_line(r#"{"objective":"first"}"#),
        goal_line(r#"{"objective":"second"}"#),
        goal_line(r#"{"objective":""}"#),
        "x".to_string(),
    ];
    assert_eq!(codex_goal_objective(10, &lines), Some("second".to_string()));
    assert_eq!(codex_goal_objective(ROLLOUT_MAX_FILE_BYTES, &lines), Some("second".to_string()));
    assert_eq!(codex_goal_objective(ROLLOUT_MAX_FILE_BYTES + 1, &lines), None);
    assert_eq!(codex_goal_objective(10, &Vec::new()), None);
}

#[test]
fn goals_are_reported() {
    let lines = vec![goal_line(r#"{"objective":"ship"}"#)];
    let payload = parsed(r#"{"cwd":"/w","turn_id":"t"}"#);
    assert_eq!(
        report_codex_goal("s", &payload, "/t.jsonl", Some(9), &lines).expect("report"),
        r#"{"_derived_from":"thread_goal_updated in /t.jsonl","cwd":"/w","hook_event_name":"ThreadGoal","objective":"ship","session_id":"s"}"#
    );
    assert!(report_codex_goal("s", &payload, "/t.jsonl", None, &lines).is_none());
    assert!(report_codex_goal("s", &payload, "/t.jsonl", Some(9), &Vec::new()).is_none());
}

#[test]
fn turns_are_reported() {
    let lines = vec![r#"{"type":"turn_context","payload":{"turn_id":"t","model":"m"}}"#.to_string()];
    let payload = parsed(r#"{"cwd":"/w","turn_id":"t"}"#);
    let expected = r#"{"_derived_from":"Codex rollout transcript (best effort; internal format)","cwd":"/w","hook_event_name":"CodexTurnSummary","model":"m","session_id":"s","turn_id":"t"}"#;
    assert_eq!(report_codex_turn_summary("s", &payload, Some(9), &lines).expect("report"), expected);
    assert_eq!(report_codex_turn_summary("s", &payload, None, &lines).expect("report"), expected);
    assert!(report_codex_turn_summary("s", &payload, Some(ROLLOUT_MAX_FILE_BYTES + 1), &lines).is_none());
    assert!(report_codex_turn_summary("s", &parsed("{}"), Some(9), &lines).is_none());
    assert!(readable_for_goal(Some(ROLLOUT_MAX_FILE_BYTES)) && !readable_for_goal(None));
    assert!(readable_for_turn(None) && !readable_for_turn(Some(ROLLOUT_MAX_FILE_BYTES + 1)));
}

#[test]
fn transcripts_can_be_read_line_by_line() {
    let payload = parsed(r#"{"cwd":"/w","turn_id":"t"}"#);
    let lines = vec![
        r#"{"type":"turn_context","payload":{"turn_id":"t","model":"m"}}"#.to_string(),
        goal_line(r#"{"objective":"ship"}"#),
        "x".to_string(),
    ];
    let target = target_of("s", &payload).expect("target");
    let mut scan = TurnScan::new();
    let mut goal = None;
    for line in &lines {
        scan.see_line(line, &target);
        goal = goal_after(goal, line);
    }
    assert_eq!(goal.as_deref(), Some("ship"));
    assert_eq!(turn_body(scan, &target, &payload), report_codex_turn_summary("s", &payload, Some(9), &lines));
    assert_eq!(
        goal_body("s", &payload, "/t", goal.as_deref()),
        report_codex_goal("s", &payload, "/t", Some(9), &lines)
    );
    assert_eq!(goal_body("s", &payload, "/t", None), None);
    assert!(target_of("s", &parsed("{}")).is_none());
}

fn place(payload: &str, is_file: bool, codex_home: Option<&str>, home: Option<&str>) -> String {
    match codex_rollout_path(&parsed(payload), is_file, codex_home, home) {
        Some(RolloutPlace::File(path)) => format!("file {path}"),
        Some(RolloutPlace::Tree(path)) => format!("tree {path}"),
        None => "nowhere".to_string(),
    }
}

#[test]
fn transcripts_are_where_the_payload_or_codex_has_them() {
    let named = r#"{"transcript_path":"/t.jsonl"}"#;
    assert_eq!(place(named, true, Some("/c"), Some("/h")), "file /t.jsonl");
    assert_eq!(place(named, false, Some("/c"), Some("/h")), "tree /c/sessions");
    assert_eq!(place(r#"{"transcript_path":""}"#, true, None, Some("/h")), "tree /h/.codex/sessions");
    assert_eq!(place("{}", true, Some(""), Some("/h/")), "tree /h/.codex/sessions");
    assert_eq!(place("{}", false, None, None), "nowhere");
    assert_eq!(transcript_path(&parsed(named)), Some("/t.jsonl".to_string()));
    assert_eq!(transcript_path(&parsed("{}")), None);
}

fn entry(place: usize, name: &str, is_dir: bool) -> DirEntry {
    DirEntry { place, name: name.to_string(), is_dir }
}

#[test]
fn the_search_goes_to_the_newest_directories_first() {
    let mut search = RolloutSearch::new("s-1", 0);
    assert_eq!(search.next(), Some(0));
    let root = vec![entry(1, "2025", true), entry(2, "2026", true), entry(3, "2024", true), entry(4, "x.jsonl", false)];
    assert_eq!(search.listed(&root), None);
    assert_eq!(search.next(), Some(2));
    assert_eq!(search.listed(&vec![entry(5, "01", true), entry(6, "02", true)]), None);
    assert_eq!(search.next(), Some(6));
    assert_eq!(search.listed(&vec![entry(7, "s-1", true), entry(8, "rollout-s-1.json", false)]), None);
    assert_eq!(search.next(), Some(7));
    assert_eq!(search.next(), Some(5));
    assert_eq!(search.next(), Some(1));
    let hit = vec![
        entry(9, "rollout-s-2.jsonl", false),
        entry(10, "rollout-x-s-1.jsonl", false),
        entry(11, "rollout-y-s-1.jsonl", false),
    ];
    assert_eq!(search.listed(&hit), Some(10));
}

#[test]
fn the_search_ends_with_the_directories() {
    let mut search = RolloutSearch::new("s", 7);
    assert_eq!(search.next(), Some(7));
    assert_eq!(search.listed(&Vec::new()), None);
    assert_eq!(search.next(), None);
    assert_eq!(search.next(), None);
}

#[test]
fn the_search_lists_a_bounded_number_of_directories() {
    let mut search = RolloutSearch::new("s", 0);
    let mut listed: usize = 0;
    while let Some(place) = search.next() {
        listed += 1;
        assert_eq!(search.listed(&vec![entry(place + 1, "d", true)]), None);
    }
    assert_eq!(listed, ROLLOUT_MAX_DIRS_SCANNED);
}
