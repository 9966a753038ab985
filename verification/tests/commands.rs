use jj_agentic_aspect::checks::{require_id, require_no_args, validate_body, validate_project, validate_title};
use jj_agentic_aspect::codec;
use jj_agentic_aspect::complaint::{die, die_usage};
use jj_agentic_aspect::dispatch::{dispatch, Command, Global};
use jj_agentic_aspect::flags::{parse_set_flags, PatchFlags, SPEC_STATUSES, TASK_STATUSES};
use jj_agentic_aspect::help;
use jj_agentic_aspect::hook::{self, HookAction};
use jj_agentic_aspect::installer::{installer_outcome, run_installer, INSTALL_URL};
use jj_agentic_aspect::status::{self, StatusAction};

fn args(parts: &[&str]) -> Vec<String> {
    parts.iter().map(|s| s.to_string()).collect()
}

fn set(parts: &[&str]) -> Result<PatchFlags, String> {
    parse_set_flags("jj", &args(parts), &TASK_STATUSES, "jj set")
}

fn refused(parts: &[&str]) -> String {
    match set(parts) {
        Err(line) => line,
        Ok(_) => panic!("accepted"),
    }
}

#[test]
fn complaints_are_collapsed_to_one_line() {
    assert_eq!(die("jj", "  a \n\t b\u{3000}c "), "jj: a b c");
    assert_eq!(die("jj", ""), "jj: ");
    assert_eq!(die_usage("jj", "jj  --help", "no\nfields"), "jj: no fields; usage: jj --help");
}

#[test]
fn lengths_are_checked_in_code_units() {
    assert_eq!(validate_title("jj", &"x".repeat(200)), Ok(()));
    assert_eq!(validate_title("jj", &"😀".repeat(100)), Ok(()));
    assert_eq!(validate_title("jj", ""), Err("jj: title length must be 1..200".to_string()));
    assert_eq!(validate_title("jj", &"x".repeat(201)), Err("jj: title length must be 1..200".to_string()));
    assert_eq!(validate_title("jj", &"😀".repeat(101)), Err("jj: title length must be 1..200".to_string()));
    assert_eq!(validate_body("jj", &"x".repeat(65536)), Ok(()));
    assert_eq!(validate_body("jj", ""), Ok(()));
    assert_eq!(validate_body("jj", &"x".repeat(65537)), Err("jj: body too long (max 65536 chars)".to_string()));
    assert_eq!(validate_project("jj", &"x".repeat(128)), Ok(()));
    assert_eq!(validate_project("jj", ""), Err("jj: project name length must be 1..128".to_string()));
    assert_eq!(validate_project("jj", &"x".repeat(129)), Err("jj: project name length must be 1..128".to_string()));
}

#[test]
fn arguments_that_are_not_wanted_are_refused() {
    assert_eq!(require_no_args("jj", &[], "u"), Ok(()));
    assert_eq!(require_no_args("jj", &args(&["a", "b"]), "u"), Err("jj: unexpected argument a; usage: u".to_string()));
    let id = "01".to_string();
    assert_eq!(require_id("jj", Some(&id), &[], "u"), Ok("01".to_string()));
    assert_eq!(
        require_id("jj", Some(&id), &args(&["x"]), "u"),
        Err("jj: unexpected argument x; usage: u".to_string())
    );
    assert_eq!(require_id("jj", None, &[], "u"), Err("jj: missing <id>; usage: u".to_string()));
    let option = "--id".to_string();
    assert_eq!(require_id("jj", Some(&option), &args(&["x"]), "u"), Err("jj: missing <id>; usage: u".to_string()));
}

#[test]
fn fields_are_set_in_both_spellings() {
    let flags = set(&["--title", "a b", "--body=x=y", "--status", "doing"]).unwrap();
    assert_eq!(flags.title.as_deref(), Some("a b"));
    assert_eq!(flags.body.as_deref(), Some("x=y"));
    assert_eq!(flags.status.as_deref(), Some("doing"));
    assert_eq!(codec::to_text(&flags.to_json()), r#"{"body":"x=y","status":"doing","title":"a b"}"#);
    let again = set(&["--title=a b", "--body", "x=y", "--status=doing"]).unwrap();
    assert_eq!(codec::to_text(&again.to_json()), codec::to_text(&flags.to_json()));
}

#[test]
fn the_last_value_of_a_field_counts() {
    let flags = set(&["--title", "a", "--title", "--body", "--body="]).unwrap();
    assert_eq!(flags.title.as_deref(), Some("--body"));
    assert_eq!(flags.body.as_deref(), Some(""));
    assert_eq!(codec::to_text(&flags.to_json()), r#"{"body":"","title":"--body"}"#);
}

#[test]
fn fields_that_are_wrong_are_refused() {
    assert_eq!(refused(&[]), "jj: no fields provided; usage: jj set");
    assert_eq!(refused(&["--what", "x"]), "jj: unknown option --what; usage: jj set");
    assert_eq!(refused(&["--what=x"]), "jj: unknown option --what; usage: jj set");
    assert_eq!(refused(&["x=y"]), "jj: unexpected argument x=y; usage: jj set");
    assert_eq!(refused(&["--title"]), "jj: option --title requires an argument; usage: jj set");
    assert_eq!(
        refused(&["--status", "x"]),
        "jj: invalid status 'x'; allowed: todo|doing|done|blocked; usage: jj set"
    );
    assert_eq!(refused(&["--title="]), "jj: title length must be 1..200");
    assert_eq!(refused(&["--body", &"x".repeat(65537)]), "jj: body too long (max 65536 chars)");
    assert!(parse_set_flags("jj", &args(&["--status", "active"]), &SPEC_STATUSES, "u").is_ok());
    assert!(parse_set_flags("jj", &args(&["--status", "todo"]), &SPEC_STATUSES, "u").is_err());
}

#[test]
fn no_flags_by_default() {
    assert_eq!(codec::to_text(&PatchFlags::default().to_json()), "{}");
}

#[test]
fn installer_commands() {
    assert_eq!(
        run_installer("jj", &[], "jj"),
        Ok(format!("curl -fsSL {INSTALL_URL} | bash"))
    );
    assert_eq!(
        run_installer("jj", &["--uninstall"], "other"),
        Ok(format!("curl -fsSL {INSTALL_URL} | bash -s -- --uninstall"))
    );
    assert_eq!(
        run_installer("jj", &[], "other"),
        Err("jj: refusing update: current executable is \"other\", expected \"jj\"; update only works on the installed binary, not when running from source".to_string())
    );
    assert_eq!(installer_outcome("jj", &[], true), Ok(()));
    assert_eq!(installer_outcome("jj", &[], false), Err("jj: update failed".to_string()));
    assert_eq!(installer_outcome("jj", &["--uninstall"], false), Err("jj: uninstall failed".to_string()));
}

fn hook_action(parts: &[&str]) -> Result<HookAction, String> {
    hook::run(&args(parts), "some-agent")
}

fn hook_source(parts: &[&str]) -> String {
    match hook_action(parts) {
        Ok(HookAction::Ingest { source }) => source,
        _ => panic!("no ingest"),
    }
}

fn hook_line(parts: &[&str]) -> String {
    match hook_action(parts) {
        Err(line) => line,
        Ok(_) => panic!("accepted"),
    }
}

#[test]
fn hook_sources() {
    assert_eq!(hook_source(&[]), "some-agent");
    assert_eq!(hook_source(&["--source", "codex"]), "codex");
    assert_eq!(hook_source(&["--source=codex", "--source", "x"]), "x");
    assert_eq!(hook_source(&["--source", "--source", "y"]), "y");
    assert_eq!(hook_source(&["--source="]), "some-agent");
    assert_eq!(hook_source(&["--source", ""]), "some-agent");
    assert_eq!(hook_source(&["--source"]), "some-agent");
    assert_eq!(hook_source(&["-x", "sessions", "--what"]), "some-agent");
    let long = "s".repeat(65);
    assert_eq!(
        hook_source(&["--source", &long]),
        format!("{}…[truncated, 65 chars total]", "s".repeat(64))
    );
}

#[test]
fn hook_queries() {
    match hook_action(&["sessions", "my project", "--limit", "0"]) {
        Ok(HookAction::Show { path }) => assert_eq!(path, "/projects/my%20project/sessions?limit=0"),
        _ => panic!("no query"),
    }
    match hook_action(&["sessions", "p"]) {
        Ok(HookAction::Show { path }) => assert_eq!(path, "/projects/p/sessions"),
        _ => panic!("no query"),
    }
    match hook_action(&["ls", "p", "a/b"]) {
        Ok(HookAction::Show { path }) => assert_eq!(path, "/projects/p/sessions/a%2Fb/statuses"),
        _ => panic!("no query"),
    }
    match hook_action(&["rm", "p", "s"]) {
        Ok(HookAction::Remove { path }) => assert_eq!(path, "/projects/p/sessions/s"),
        _ => panic!("no removal"),
    }
    for word in ["help", "-h", "--help"] {
        assert!(matches!(hook_action(&[word]), Ok(HookAction::Help)));
    }
}

#[test]
fn hook_complaints() {
    let sessions = "usage: jj-agentic-aspect hook sessions <project> [--limit N] (default 50, 0 = 全部)";
    assert_eq!(
        hook_line(&["help", "x"]),
        "jj-agentic-aspect: unexpected argument x; usage: jj-agentic-aspect hook --help"
    );
    assert_eq!(
        hook_line(&["what"]),
        "jj-agentic-aspect: unknown command 'hook what'; usage: jj-agentic-aspect hook --help"
    );
    assert_eq!(hook_line(&["sessions"]), format!("jj-agentic-aspect: missing <project>; {sessions}"));
    assert_eq!(hook_line(&["sessions", "p", "q"]), format!("jj-agentic-aspect: unexpected argument q; {sessions}"));
    assert_eq!(hook_line(&["sessions", "--x"]), format!("jj-agentic-aspect: unknown option --x; {sessions}"));
    assert_eq!(
        hook_line(&["sessions", "p", "--limit"]),
        format!("jj-agentic-aspect: missing <N> after --limit; {sessions}")
    );
    assert_eq!(
        hook_line(&["sessions", "p", "--limit", "--x"]),
        format!("jj-agentic-aspect: missing <N> after --limit; {sessions}")
    );
    assert_eq!(
        hook_line(&["sessions", "p", "--limit", "-1"]),
        format!("jj-agentic-aspect: --limit must be a non-negative integer (0 = all); {sessions}")
    );
    assert_eq!(
        hook_line(&["sessions", "--limit", "1", "--limit", "2"]),
        format!("jj-agentic-aspect: duplicate --limit; {sessions}")
    );
    assert_eq!(hook_line(&["sessions", ""]), "jj-agentic-aspect: project name length must be 1..128");
    let ls = "usage: jj-agentic-aspect hook ls <project> <session_id>";
    assert_eq!(hook_line(&["ls"]), format!("jj-agentic-aspect: missing <project>; {ls}"));
    assert_eq!(hook_line(&["ls", "p"]), format!("jj-agentic-aspect: missing <session_id>; {ls}"));
    assert_eq!(hook_line(&["ls", "p", "s", "x"]), format!("jj-agentic-aspect: unexpected argument x; {ls}"));
    assert_eq!(hook_line(&["ls", "p", "s", "x", "--y"]), format!("jj-agentic-aspect: unknown option --y; {ls}"));
    assert_eq!(
        hook_line(&["rm", "p"]),
        "jj-agentic-aspect: missing <session_id>; usage: jj-agentic-aspect hook rm <project> <session_id>"
    );
    assert_eq!(
        hook::fail_usage("hook.ingest", "x"),
        "jj-agentic-aspect: x; usage: jj-agentic-aspect hook [--source <s>] (hook JSON on stdin)"
    );
    assert_eq!(hook::usage("other"), "jj-agentic-aspect hook --help");
}

fn main_line(parts: &[&str]) -> String {
    match dispatch(&args(parts), "some-agent") {
        Err(line) => line,
        Ok(_) => panic!("accepted"),
    }
}

#[test]
fn program_commands() {
    assert!(matches!(dispatch(&[], "d"), Ok(Command::Global(Global::Help))));
    for (word, global) in [
        ("help", Global::Help),
        ("-h", Global::Help),
        ("--help", Global::Help),
        ("-v", Global::Version),
        ("--version", Global::Version),
        ("update", Global::Update),
        ("upgrade", Global::Update),
        ("uninstall", Global::Uninstall),
    ] {
        match dispatch(&args(&[word]), "d") {
            Ok(Command::Global(g)) => assert_eq!(g, global),
            _ => panic!("{word}"),
        }
        assert_eq!(
            main_line(&[word, "x"]),
            "jj-agentic-aspect: unexpected argument x; usage: jj-agentic-aspect --help"
        );
    }
    match dispatch(&args(&["plan", "a", "b"]), "d") {
        Ok(Command::Plan { args }) => assert_eq!(args, ["a", "b"]),
        _ => panic!("no plan"),
    }
    match dispatch(&args(&["ask"]), "d") {
        Ok(Command::Ask { args }) => assert!(args.is_empty()),
        _ => panic!("no ask"),
    }
    match dispatch(&args(&["hook", "--source", "codex"]), "d") {
        Ok(Command::Hook(HookAction::Ingest { source })) => assert_eq!(source, "codex"),
        _ => panic!("no hook"),
    }
    match dispatch(&args(&["hook"]), "d") {
        Ok(Command::Hook(HookAction::Ingest { source })) => assert_eq!(source, "d"),
        _ => panic!("no hook"),
    }
}

#[test]
fn program_complaints() {
    assert_eq!(
        main_line(&["spec", "ls"]),
        "jj-agentic-aspect: 'spec' moved under the plan subcommand; run 'jj-agentic-aspect plan spec ...' instead"
    );
    assert_eq!(
        main_line(&["sessions"]),
        "jj-agentic-aspect: 'sessions' moved under the hook subcommand; run 'jj-agentic-aspect hook ...' instead"
    );
    assert_eq!(
        main_line(&["what"]),
        "jj-agentic-aspect: unknown subcommand 'what'; usage: jj-agentic-aspect --help"
    );
    assert_eq!(
        main_line(&["hook", "what"]),
        "jj-agentic-aspect: unknown command 'hook what'; usage: jj-agentic-aspect hook --help"
    );
}

fn status_line(parts: &[&str]) -> String {
    match status::dispatch(&args(parts)) {
        Err(line) => line,
        Ok(_) => panic!("accepted"),
    }
}

#[test]
fn status_commands() {
    assert!(matches!(status::dispatch(&[]), Ok(StatusAction::Global(Global::Help))));
    assert!(matches!(status::dispatch(&args(&["upgrade"])), Ok(StatusAction::Global(Global::Update))));
    assert!(matches!(status::dispatch(&args(&["hook", "--any", "x"])), Ok(StatusAction::Ingest)));
    match status::dispatch(&args(&["sessions", "p", "--limit", "200"])) {
        Ok(StatusAction::Show { path }) => assert_eq!(path, "/projects/p/sessions?limit=200"),
        _ => panic!("no query"),
    }
    match status::dispatch(&args(&["ls", "p", "s"])) {
        Ok(StatusAction::Show { path }) => assert_eq!(path, "/projects/p/sessions/s/statuses"),
        _ => panic!("no query"),
    }
    match status::dispatch(&args(&["rm", "p", "s"])) {
        Ok(StatusAction::Remove { path }) => assert_eq!(path, "/projects/p/sessions/s"),
        _ => panic!("no removal"),
    }
}

#[test]
fn status_complaints() {
    let sessions = "usage: jj-status sessions <project> [--limit N] (default 50, max 200)";
    for limit in ["0", "201", "x", "4294967296"] {
        assert_eq!(
            status_line(&["sessions", "p", "--limit", limit]),
            format!("jj-status: --limit must be integer in 1..200; {sessions}")
        );
    }
    assert_eq!(status_line(&["-v", "x"]), "jj-status: unexpected argument x; usage: jj-status --version");
    assert_eq!(status_line(&["update", "x"]), "jj-status: unexpected argument x; usage: jj-status update | upgrade");
    assert_eq!(status_line(&["uninstall", "x"]), "jj-status: unexpected argument x; usage: jj-status uninstall");
    assert_eq!(status_line(&["--help", "x"]), "jj-status: unexpected argument x; usage: jj-status --help");
    assert_eq!(status_line(&["what"]), "jj-status: unknown command 'what'; usage: jj-status --help");
    assert_eq!(status_line(&["ls", "p"]), "jj-status: missing <session_id>; usage: jj-status ls <project> <session_id>");
    assert_eq!(status_line(&["rm"]), "jj-status: missing <project>; usage: jj-status rm <project> <session_id>");
    assert_eq!(status::fail_usage("status.hook", "x"), "jj-status: x; usage: jj-status hook (hook JSON on stdin)");
}

#[test]
fn help_texts_are_filled_in() {
    assert_eq!(help::program_help("v {VERSION} {VERSION}", "1.2"), "v 1.2 1.2");
    let template = "{VERSION}|{SESSION_LIST_LIMIT_DEFAULT}|{SESSION_LIST_LIMIT_MAX}|{X}";
    assert_eq!(help::hook_help(template, "1"), "1|50|0 = 全部|{X}");
    assert_eq!(help::status_help(template, "1"), "1|50|200|{X}");
}
