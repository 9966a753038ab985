use jj_agentic_aspect::api::{self, Reply, Request};
use jj_agentic_aspect::codec;
use jj_agentic_aspect::config::{config_candidates, config_path, resolve_config_path, try_load_config, Config};
use jj_agentic_aspect::hook::{self, HookAction};
use jj_agentic_aspect::json::Json;
use jj_agentic_aspect::status::{self, StatusAction};
use jj_agentic_aspect::upload::Upload;

fn parsed(s: &str) -> Json {
    codec::parse(s).expect("JSON")
}

fn config() -> Config {
    Config {
        endpoint: "https://x.test//".to_string(),
        cf_access_client_id: "id".to_string(),
        cf_access_client_secret: "secret".to_string(),
    }
}

fn load(raw: &str) -> Result<Config, String> {
    try_load_config("/c.json", Ok(raw.to_string()))
}

fn why(raw: &str) -> String {
    match load(raw) {
        Err(why) => why,
        Ok(_) => panic!("loaded"),
    }
}

#[test]
fn configuration_paths() {
    assert_eq!(config_path(Some("/x"), Some("/h")), "/x/jj-agentic-aspect/config.json");
    assert_eq!(config_path(Some(""), Some("/h")), "/h/.config/jj-agentic-aspect/config.json");
    assert_eq!(config_path(None, None), ".config/jj-agentic-aspect/config.json");
    assert_eq!(
        config_candidates(None, Some("/h")),
        [
            "/h/.config/jj-agentic-aspect/config.json",
            "/h/.config/jj-plan/config.json",
            "/h/.config/jjplan/config.json",
            "/h/.jjplan/config.json",
        ]
    );
}

#[test]
fn the_preferred_configuration_wins() {
    let resolve = |exists| resolve_config_path(Some("/x"), Some("/h"), exists);
    assert_eq!(resolve([true, true, true, true]), "/x/jj-agentic-aspect/config.json");
    assert_eq!(resolve([false, true, true, true]), "/x/jj-plan/config.json");
    assert_eq!(resolve([false, false, true, true]), "/x/jjplan/config.json");
    assert_eq!(resolve([false, false, false, true]), "/h/.jjplan/config.json");
    assert_eq!(resolve([false, false, false, false]), "/x/jj-agentic-aspect/config.json");
}

#[test]
fn a_configuration_is_loaded() {
    let loaded = load(r#"{"endpoint":"e","cf_access_client_id":"i","cf_access_client_secret":"s","x":1}"#);
    match loaded {
        Ok(config) => {
            assert_eq!(config.endpoint, "e");
            assert_eq!(config.cf_access_client_id, "i");
            assert_eq!(config.cf_access_client_secret, "s");
        }
        Err(why) => panic!("{why}"),
    }
}

#[test]
fn a_configuration_that_lacks_something_is_refused() {
    match try_load_config("/c.json", Err("gone".to_string())) {
        Err(why) => assert_eq!(why, "unable to read /c.json: gone"),
        Ok(_) => panic!("loaded"),
    }
    assert_eq!(why("{"), "invalid JSON in /c.json: EOF while parsing an object at line 1 column 1");
    assert_eq!(why("[]"), "/c.json must contain \"endpoint\"");
    assert_eq!(why(r#"{"endpoint":""}"#), "/c.json must contain \"endpoint\"");
    let both = "/c.json must contain \"cf_access_client_id\" + \"cf_access_client_secret\"";
    assert_eq!(why(r#"{"endpoint":"e"}"#), both);
    assert_eq!(why(r#"{"endpoint":"e","cf_access_client_id":"i"}"#), both);
    assert_eq!(why(r#"{"endpoint":"e","cf_access_client_id":1,"cf_access_client_secret":"s"}"#), both);
}

fn headers(request: &Request) -> Vec<(&str, &str)> {
    request.headers.iter().map(|(k, v)| (k.as_str(), v.as_str())).collect()
}

#[test]
fn requests_carry_the_credentials() {
    let request = match api::try_api(Ok(config()), "GET", "/p", None, None) {
        Ok(request) => request,
        Err(why) => panic!("{why}"),
    };
    assert_eq!(request.method, "GET");
    assert_eq!(request.url, "https://x.test/p");
    assert_eq!(headers(&request), [("CF-Access-Client-Id", "id"), ("CF-Access-Client-Secret", "secret")]);
    assert_eq!(request.body, None);
    assert_eq!(request.timeout_secs, None);
}

#[test]
fn requests_with_a_body_say_that_it_is_json() {
    let request = api::request(&config(), "POST", "/p", Some(&parsed(r#"{"b": 1, "a": "é"}"#)), Some(3));
    assert_eq!(request.timeout_secs, Some(3));
    assert_eq!(request.body.as_deref(), Some(r#"{"a":"é","b":1}"#));
    assert_eq!(headers(&request)[2], ("content-type", "application/json"));
}

#[test]
fn a_request_needs_a_configuration() {
    match api::try_api(Err("no config".to_string()), "GET", "/p", None, None) {
        Err(why) => assert_eq!(why, "no config"),
        Ok(_) => panic!("requested"),
    }
}

fn answer(reply: Reply) -> Result<Option<String>, String> {
    api::read_reply(&reply).map(|v| v.map(|v| codec::to_text(&v)))
}

fn success(status: u16, text: &str) -> Reply {
    Reply::Success { status, text: text.to_string() }
}

#[test]
fn replies_hold_a_value_or_nothing() {
    assert_eq!(answer(success(200, r#"{"a": 1}"#)), Ok(Some(r#"{"a":1}"#.to_string())));
    assert_eq!(answer(success(204, "ignored")), Ok(None));
    assert_eq!(answer(success(200, "")), Ok(None));
    assert_eq!(answer(success(200, "null")), Ok(Some("null".to_string())));
}

#[test]
fn replies_that_went_wrong() {
    assert_eq!(answer(success(200, "<html>")), Err("non-JSON response: <html>".to_string()));
    assert_eq!(
        answer(success(200, &"é".repeat(300))),
        Err(format!("non-JSON response: {}", "é".repeat(200)))
    );
    let failure = |text: &str| Reply::Failure {
        status: 404,
        status_text: "Not Found".to_string(),
        text: text.to_string(),
    };
    assert_eq!(answer(failure("")), Err("HTTP 404: Not Found".to_string()));
    assert_eq!(answer(failure("gone")), Err("HTTP 404: gone".to_string()));
    assert_eq!(answer(Reply::Lost { why: "dns".to_string() }), Err("network error: dns".to_string()));
}

#[test]
fn commands_complain_about_replies() {
    match api::api("jj", Err("HTTP 404:\nnot found".to_string())) {
        Err(line) => assert_eq!(line, "jj: HTTP 404: not found"),
        Ok(_) => panic!("no complaint"),
    }
    assert!(matches!(api::api("jj", Ok(None)), Ok(None)));
    assert_eq!(api::print(Some(&parsed("[ 1 ]"))), Some("[1]".to_string()));
    assert_eq!(api::print(None), None);
}

#[test]
fn a_parsed_reply_is_taken_as_it_is() {
    match api::read_parsed("ignored", Ok(parsed("[]"))) {
        Ok(Some(v)) => assert_eq!(codec::to_text(&v), "[]"),
        _ => panic!("no value"),
    }
    match api::read_parsed("text", Err("ignored".to_string())) {
        Err(why) => assert_eq!(why, "non-JSON response: text"),
        Ok(_) => panic!("value"),
    }
}

#[test]
fn uploads_are_posted_within_ten_seconds() {
    let upload = Upload {
        project: "a b".to_string(),
        session_id: "s".to_string(),
        event: "Stop".to_string(),
        source: Some("codex".to_string()),
        body: "{}".to_string(),
    };
    let request = match upload.request(Ok(config())) {
        Ok(request) => request,
        Err(why) => panic!("{why}"),
    };
    assert_eq!(request.method, "POST");
    assert_eq!(request.url, "https://x.test/projects/a%20b/statuses");
    assert_eq!(request.timeout_secs, Some(10));
    assert_eq!(
        request.body.as_deref(),
        Some(r#"{"body":"{}","event":"Stop","session_id":"s","source":"codex"}"#)
    );
    assert!(upload.request(Err("no config".to_string())).is_err());
}

fn asked(argv: &[&str]) -> Option<Request> {
    let argv: Vec<String> = argv.iter().map(|s| s.to_string()).collect();
    let action = match hook::run(&argv, "d") {
        Ok(action) => action,
        Err(line) => panic!("{line}"),
    };
    hook::action_request(&action, Ok(config())).map(|request| match request {
        Ok(request) => request,
        Err(why) => panic!("{why}"),
    })
}

#[test]
fn queries_are_requests_without_a_body() {
    let request = asked(&["sessions", "a b", "--limit", "0"]).expect("request");
    assert_eq!(request.method, "GET");
    assert_eq!(request.url, "https://x.test/projects/a%20b/sessions?limit=0");
    assert_eq!(request.body, None);
    assert_eq!(request.timeout_secs, None);
    assert_eq!(headers(&request).len(), 2);
    let request = asked(&["rm", "p", "s"]).expect("request");
    assert_eq!(request.method, "DELETE");
    assert_eq!(request.url, "https://x.test/projects/p/sessions/s");
    assert_eq!(request.body, None);
    assert!(asked(&["--source", "x"]).is_none());
    assert!(asked(&["help"]).is_none());
    let show = StatusAction::Show { path: "/q".to_string() };
    match status::action_request(&show, Ok(config())) {
        Some(Ok(request)) => assert_eq!((request.method.as_str(), request.url.as_str()), ("GET", "https://x.test/q")),
        _ => panic!("no request"),
    }
    match status::action_request(&StatusAction::Remove { path: "/q".to_string() }, Err("why".to_string())) {
        Some(Err(why)) => assert_eq!(why, "why"),
        _ => panic!("no failure"),
    }
    assert!(status::action_request(&StatusAction::Ingest, Ok(config())).is_none());
}

#[test]
fn only_what_is_shown_is_printed() {
    let show = api::show("/p");
    let remove = api::remove("/p");
    assert_eq!(show.output("jj", Ok(Some(parsed("[ 1 ]")))), Ok(Some("[1]".to_string())));
    assert_eq!(show.output("jj", Ok(None)), Ok(None));
    assert_eq!(remove.output("jj", Ok(Some(parsed("[ 1 ]")))), Ok(None));
    assert_eq!(remove.output("jj", Err("HTTP 404: x".to_string())), Err("jj: HTTP 404: x".to_string()));
    let action = HookAction::Remove { path: "/p".to_string() };
    let query = hook::action_query(&action).expect("query");
    assert_eq!((query.method.as_str(), query.path.as_str(), query.shown), ("DELETE", "/p", false));
}
