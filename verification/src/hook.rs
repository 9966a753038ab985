//! The `hook` command: events of agent sessions, and the queries for them.
//!
//! Without a verb it takes the event of an agent hook from standard input and uploads it. It
//! must never disturb the session that it runs in: whatever it is given, it says nothing. The
//! verbs `sessions`, `ls` and `rm` ask for what was uploaded, and complain where they are not
//! used as they should be.

use vstd::prelude::*;
use vstd::string::StringExecFns;
use crate::api::{Query, QueryView, Request};
use crate::config::Config;
use crate::json::{Json, JsonObject, JsonView};
use crate::sessions::LimitRule;
use crate::upload::{Upload, UploadView};
use crate::{
    api, body, checks, codec, complaint, config, json, paths, payload, sessions, text, upload, uri,
};

verus! {

/// The name of the program, with which its complaints begin.
pub const ENTRY: &'static str = "jj-agentic-aspect";

/// The most code units of a session id that are uploaded.
pub const MAX_SESSION_ID_LEN: usize = 128;

/// The most code units of the name of an event that are uploaded.
pub const MAX_EVENT_LEN: usize = 64;

/// The most code units of the name of an agent that are uploaded.
pub const MAX_SOURCE_LEN: usize = 64;

/// How many sessions are listed where no limit is given.
pub const SESSION_LIST_LIMIT_DEFAULT: u32 = 50;

/// How often an upload is attempted.
pub const UPLOAD_ATTEMPTS: u32 = 2;

// ---- complaints ----

/// How a command is used.
pub open spec fn usage_of(key: Seq<char>) -> Seq<char> {
    if key == "hook.ingest"@ {
        "jj-agentic-aspect hook [--source <s>]   (hook JSON on stdin)"@
    } else if key == "hook.sessions"@ {
        "jj-agentic-aspect hook sessions <project> [--limit N]   (default 50, 0 = 全部)"@
    } else if key == "hook.ls"@ {
        "jj-agentic-aspect hook ls <project> <session_id>"@
    } else if key == "hook.rm"@ {
        "jj-agentic-aspect hook rm <project> <session_id>"@
    } else {
        "jj-agentic-aspect hook --help"@
    }
}

/// How a command is used.
pub fn usage(key: &str) -> (r: String)
    ensures
        r@ == usage_of(key@),
{
    if text::same(key, "hook.ingest") {
        "jj-agentic-aspect hook [--source <s>]   (hook JSON on stdin)".to_owned()
    } else if text::same(key, "hook.sessions") {
        "jj-agentic-aspect hook sessions <project> [--limit N]   (default 50, 0 = 全部)".to_owned()
    } else if text::same(key, "hook.ls") {
        "jj-agentic-aspect hook ls <project> <session_id>".to_owned()
    } else if text::same(key, "hook.rm") {
        "jj-agentic-aspect hook rm <project> <session_id>".to_owned()
    } else {
        "jj-agentic-aspect hook --help".to_owned()
    }
}

/// The line that the command gives up with.
pub fn fail(message: &str) -> (r: String)
    ensures
        r@ == complaint::complaint(ENTRY@, message@),
{
    complaint::die(ENTRY, message)
}

/// The line that the command gives up with when it is not used as it should be.
pub fn fail_usage(key: &str, reason: &str) -> (r: String)
    ensures
        r@ == complaint::usage_complaint(ENTRY@, usage_of(key@), reason@),
{
    complaint::die_usage(ENTRY, usage(key).as_str(), reason)
}

// ---- the source of the events ----

/// The agent that the arguments from the `i`th on name, after the one that was named before.
/// What is no `--source` is ignored, and so is one without a value.
pub open spec fn named_source(args: Seq<Seq<char>>, i: int, source: Option<Seq<char>>) -> Option<
    Seq<char>,
>
    decreases args.len() - i,
{
    if i >= args.len() {
        source
    } else if args[i] == "--source"@ {
        if i + 1 < args.len() && args[i + 1].len() > 0 && !"--"@.is_prefix_of(args[i + 1]) {
            named_source(args, i + 2, Some(args[i + 1]))
        } else {
            named_source(args, i + 1, source)
        }
    } else if "--source="@.is_prefix_of(args[i]) && args[i].len() > 9 {
        named_source(args, i + 1, Some(args[i].skip(9)))
    } else {
        named_source(args, i + 1, source)
    }
}

/// The agent that events come from: `default` where none is named.
pub open spec fn source_of(args: Seq<Seq<char>>, default: Seq<char>) -> Seq<char> {
    payload::clipped(
        match named_source(args, 0, None) {
            Some(source) => source,
            None => default,
        },
        MAX_SOURCE_LEN as nat,
    )
}

/// The agent that events come from: what `--source <s>` or `--source=<s>` names, and `default`
/// where nothing does. Any other argument is ignored.
pub fn parse_source(args: &[String], default: &str) -> (r: String)
    ensures
        r@ == source_of(checks::args_view(args@), default@),
{
    let ghost all = checks::args_view(args@);
    let mut source: Option<String> = None;
    let mut i: usize = 0;
    proof {
        reveal_strlit("--source=");
        assert("--source="@.len() == 9);
    }
    while i < args.len()
        invariant
            i <= args.len(),
            all == checks::args_view(args@),
            "--source="@.len() == 9,
            named_source(all, 0, None) == named_source(all, i as int, text::option_text(source)),
        decreases args.len() - i,
    {
        let arg = &args[i];
        assert(all[i as int] == arg@);
        if text::same(arg.as_str(), "--source") {
            if args.len() - i > 1 {
                let value = &args[i + 1];
                assert(all[i + 1] == value@);
                if !value.as_str().is_empty() && !text::starts_with(value.as_str(), "--") {
                    source = Some(value.clone());
                    i += 1;
                }
            }
        } else if text::starts_with(arg.as_str(), "--source=") {
            let chars = text::chars_of(arg.as_str());
            if chars.len() > 9 {
                let value = text::string_of(&chars, 9, chars.len());
                assert(value@ =~= arg@.skip(9));
                source = Some(value);
            }
        }
        i += 1;
    }
    match source {
        Some(source) => payload::clip(source.as_str(), MAX_SOURCE_LEN),
        None => payload::clip(default, MAX_SOURCE_LEN),
    }
}

// ---- taking an event in ----

/// The payload of the event that stands for text that is no JSON: the text, and why it could
/// not be parsed.
pub open spec fn unparsed(raw: Seq<char>, why: Seq<char>) -> JsonView {
    let s1 = json::with_entry(
        Seq::empty(),
        "hook_event_name"@,
        JsonView::Str("UnparsedPayload"@),
    );
    let s2 = json::with_entry(s1, "_parse_error"@, JsonView::Str(why));
    JsonView::Object(json::with_entry(s2, "_unparsed"@, JsonView::Str(raw)))
}

/// The payload of an event, from its text and what parsing that gave.
pub open spec fn payload_of(raw: Seq<char>, parsed: Result<JsonView, Seq<char>>) -> JsonView {
    match parsed {
        Ok(p) => p,
        Err(why) => unparsed(raw, why),
    }
}

/// The project that an event belongs to: the name of the directory that the session started
/// in, else of the directory that the payload names, else of the one that the hook runs in;
/// `unknown` where there is none, or where it is too long.
pub open spec fn project_of(
    p: JsonView,
    project_dir: Option<Seq<char>>,
    current_dir: Option<Seq<char>>,
) -> Seq<char> {
    match sessions::first_name(project_dir, p.str_at("cwd"@), current_dir) {
        Some(name) => if text::units(name) <= 128 {
            name
        } else {
            "unknown"@
        },
        None => "unknown"@,
    }
}

/// The event that is uploaded for a payload.
pub open spec fn event_for(
    p: JsonView,
    source: Seq<char>,
    project_dir: Option<Seq<char>>,
    current_dir: Option<Seq<char>>,
) -> UploadView {
    UploadView {
        project: project_of(p, project_dir, current_dir),
        session_id: upload::short_text(
            p,
            "session_id"@,
            "unknown"@,
            MAX_SESSION_ID_LEN as nat,
        ),
        event: upload::short_text(p, "hook_event_name"@, "Unknown"@, MAX_EVENT_LEN as nat),
        source: Some(source),
        body: codec::json_text(body::fitted(p)),
    }
}

/// Whether the summary of the turn is reported after an event: where Codex stops.
pub open spec fn wants_turn(source: Seq<char>, event: Seq<char>) -> bool {
    text::occurs("codex"@, source) && event == "Stop"@
}

/// Whether the goal is reported after an event: where Codex stops, or the session ends.
pub open spec fn wants_goal(source: Seq<char>, event: Seq<char>) -> bool {
    text::occurs("codex"@, source) && (event == "Stop"@ || event == "SessionEnd"@)
}

/// A step of what is done for an event: the event itself is uploaded, or the summary of its turn
/// or the goal of its session is reported.
#[derive(PartialEq, Eq, Structural, Clone, Copy, Debug)]
pub enum Step {
    Upload,
    ReportTurn,
    ReportGoal,
}

/// The steps after an event, in order: the event itself always comes first, so that what is
/// derived from a transcript never delays it.
pub open spec fn steps_for(source: Seq<char>, event: Seq<char>) -> Seq<Step> {
    let native = seq![Step::Upload];
    let with_turn = if wants_turn(source, event) {
        native.push(Step::ReportTurn)
    } else {
        native
    };
    if wants_goal(source, event) {
        with_turn.push(Step::ReportGoal)
    } else {
        with_turn
    }
}

/// What is done for an event: its payload, what is uploaded of it, and the steps in order.
pub struct Ingest {
    pub payload: Json,
    pub upload: Upload,
    pub steps: Vec<Step>,
}

/// What is done for an event.
pub struct IngestView {
    pub payload: JsonView,
    pub upload: UploadView,
    pub steps: Seq<Step>,
}

impl View for Ingest {
    type V = IngestView;

    open spec fn view(&self) -> IngestView {
        IngestView { payload: self.payload@, upload: self.upload@, steps: self.steps@ }
    }
}

/// What is done for a payload.
pub open spec fn ingest_of(
    p: JsonView,
    source: Seq<char>,
    project_dir: Option<Seq<char>>,
    current_dir: Option<Seq<char>>,
) -> IngestView {
    let upload = event_for(p, source, project_dir, current_dir);
    IngestView { payload: p, upload, steps: steps_for(source, upload.event) }
}

/// What is done for a text on standard input: nothing where it is blank.
pub open spec fn ingested_text(
    raw: Seq<char>,
    source: Seq<char>,
    project_dir: Option<Seq<char>>,
    current_dir: Option<Seq<char>>,
) -> Option<IngestView> {
    if text::trimmed(raw).len() == 0 {
        None
    } else {
        Some(
            ingest_of(
                payload_of(raw, codec::json_parsed(raw)),
                source,
                project_dir,
                current_dir,
            ),
        )
    }
}

/// What is done for the bytes on standard input. Bytes that are no text are no JSON either: they
/// are reported, with replacement characters for what is no text in them.
pub open spec fn ingested(
    raw: Seq<u8>,
    source: Seq<char>,
    project_dir: Option<Seq<char>>,
    current_dir: Option<Seq<char>>,
) -> Option<IngestView> {
    if vstd::utf8::valid_utf8(raw) {
        ingested_text(vstd::utf8::decode_utf8(raw), source, project_dir, current_dir)
    } else {
        Some(
            ingest_of(
                unparsed(text::lossy_text(raw), "stdin is not valid UTF-8"@),
                source,
                project_dir,
                current_dir,
            ),
        )
    }
}

/// The view of what is done, where anything is.
pub open spec fn ingest_view(ingest: Option<Ingest>) -> Option<IngestView> {
    match ingest {
        Some(ingest) => Some(ingest@),
        None => None,
    }
}

/// The steps after an event, in order.
fn steps_after(source: &str, event: &str) -> (r: Vec<Step>)
    ensures
        r@ == steps_for(source@, event@),
{
    let mut steps: Vec<Step> = Vec::new();
    steps.push(Step::Upload);
    if text::contains(source, "codex") {
        let stop = text::same(event, "Stop");
        if stop {
            steps.push(Step::ReportTurn);
        }
        if stop || text::same(event, "SessionEnd") {
            steps.push(Step::ReportGoal);
        }
    }
    assert(steps@ =~= steps_for(source@, event@));
    steps
}

/// The payload of an event, from its text and what parsing that gave.
pub fn payload_from(raw: &str, parsed: Result<Json, String>) -> (r: Json)
    ensures
        r@ == payload_of(raw@, api::parse_result(parsed)),
        parsed is Err ==> codec::plain(r@, 127, true) && codec::plain(r@, 127, false),
{
    match parsed {
        Ok(p) => p,
        Err(why) => {
            let mut object = JsonObject::new();
            let ghost o0 = object@;
            object.insert("hook_event_name".to_owned(), Json::from_str("UnparsedPayload"));
            let ghost o1 = object@;
            let ghost reason = JsonView::Str(why@);
            object.insert("_parse_error".to_owned(), Json::Str(why));
            let ghost o2 = object@;
            object.insert("_unparsed".to_owned(), Json::from_str(raw));
            proof {
                let name = JsonView::Str("UnparsedPayload"@);
                assert forall|exact: bool| #[trigger]
                    codec::plain(JsonView::Object(object@), 127, exact) by {
                    codec::lemma_plain_with_entry(o0, "hook_event_name"@, name, 126, exact);
                    codec::lemma_plain_with_entry(o1, "_parse_error"@, reason, 126, exact);
                    codec::lemma_plain_with_entry(
                        o2,
                        "_unparsed"@,
                        JsonView::Str(raw@),
                        126,
                        exact,
                    );
                }
            }
            Json::Object(object)
        },
    }
}

/// The name of the directory that an event belongs to. The directory that the session started
/// in comes first, so that a session stays in one project whatever directory it goes to.
pub fn project_name(payload: &Json, project_dir: Option<&str>, current_dir: Option<&str>) -> (r:
    Option<String>)
    ensures
        text::option_text(r) == sessions::first_name(
            text::ref_text(project_dir),
            payload@.str_at("cwd"@),
            text::ref_text(current_dir),
        ),
{
    sessions::first_named(project_dir, payload.str_at("cwd"), current_dir)
}

/// What is done for a payload.
pub fn ingest_payload(
    payload: Json,
    source: &str,
    project_dir: Option<&str>,
    current_dir: Option<&str>,
) -> (r: Ingest)
    ensures
        r@ == ingest_of(
            payload@,
            source@,
            text::ref_text(project_dir),
            text::ref_text(current_dir),
        ),
        text::bytes(r@.upload.body) <= body::BODY_BUDGET,
        codec::plain(body::fitted(payload@), 127, false) ==> codec::is_json(r@.upload.body),
        codec::plain(body::fitted(payload@), 127, true) ==> codec::reads_as(
            r@.upload.body,
            body::fitted(payload@),
        ),
        codec::plain(payload@, 127, false) ==> codec::is_json(r@.upload.body),
{
    let session_id = upload::short(&payload, "session_id", "unknown", MAX_SESSION_ID_LEN);
    let event = upload::short(&payload, "hook_event_name", "Unknown", MAX_EVENT_LEN);
    let project = match project_name(&payload, project_dir, current_dir) {
        Some(name) => if text::len16(name.as_str()) <= 128 {
            name
        } else {
            "unknown".to_owned()
        },
        None => "unknown".to_owned(),
    };
    let body = body::fit_body(&payload);
    let steps = steps_after(source, event.as_str());
    Ingest {
        payload,
        upload: Upload { project, session_id, event, source: Some(source.to_owned()), body },
        steps,
    }
}

/// What is done for a text on standard input. A text that is no JSON is reported too.
pub fn ingest_text(
    raw: &str,
    source: &str,
    project_dir: Option<&str>,
    current_dir: Option<&str>,
) -> (r: Option<Ingest>)
    ensures
        ingest_view(r) == ingested_text(
            raw@,
            source@,
            text::ref_text(project_dir),
            text::ref_text(current_dir),
        ),
        r is Some ==> text::bytes(r->0@.upload.body) <= body::BODY_BUDGET,
        r is Some ==> codec::is_json(r->0@.upload.body),
        r is Some && codec::plain(body::fitted(r->0@.payload), 127, true) ==> codec::reads_as(
            r->0@.upload.body,
            body::fitted(r->0@.payload),
        ),
{
    if text::trim(raw).as_str().is_empty() {
        return None;
    }
    let payload = payload_from(raw, codec::parse(raw));
    Some(ingest_payload(payload, source, project_dir, current_dir))
}

/// What is done for the bytes on standard input: whatever they are, an event is uploaded, unless
/// they are blank.
pub fn run_ingest(
    raw: &[u8],
    source: &str,
    project_dir: Option<&str>,
    current_dir: Option<&str>,
) -> (r: Option<Ingest>)
    ensures
        ingest_view(r) == ingested(
            raw@,
            source@,
            text::ref_text(project_dir),
            text::ref_text(current_dir),
        ),
        r is Some ==> text::bytes(r->0@.upload.body) <= body::BODY_BUDGET,
        r is Some ==> codec::is_json(r->0@.upload.body),
        r is Some && codec::plain(body::fitted(r->0@.payload), 127, true) ==> codec::reads_as(
            r->0@.upload.body,
            body::fitted(r->0@.payload),
        ),
{
    match text::from_utf8(raw) {
        Some(s) => {
            proof {
                vstd::utf8::encode_utf8_valid_utf8(s@);
                vstd::utf8::encode_utf8_decode_utf8(s@);
            }
            ingest_text(s, source, project_dir, current_dir)
        },
        None => {
            let lossy = text::from_utf8_lossy(raw);
            let payload = payload_from(
                lossy.as_str(),
                Err("stdin is not valid UTF-8".to_owned()),
            );
            Some(ingest_payload(payload, source, project_dir, current_dir))
        },
    }
}

/// Whether an upload is attempted once more, after it was attempted `attempts` times.
pub open spec fn tries_again(attempts: nat, failed: bool) -> bool {
    failed && attempts < UPLOAD_ATTEMPTS
}

/// Whether an upload is attempted once more, after it was attempted `attempts` times.
pub fn upload_again(attempts: u32, failed: bool) -> (r: bool)
    ensures
        r == (failed && attempts < UPLOAD_ATTEMPTS),
        r == tries_again(attempts as nat, failed),
{
    failed && attempts < UPLOAD_ATTEMPTS
}

/// Every event is uploaded under a proper project name.
pub proof fn uploads_have_a_project(
    p: JsonView,
    project_dir: Option<Seq<char>>,
    current_dir: Option<Seq<char>>,
)
    ensures
        checks::project_complaint(ENTRY@, project_of(p, project_dir, current_dir)) is None,
{
    reveal_strlit("unknown");
    text::units_within_bytes("unknown"@);
    text::lemma_bytes_by_chars("unknown"@);
    if project_dir is Some {
        paths::names_are_plain(project_dir->0);
    }
    if p.str_at("cwd"@) is Some {
        paths::names_are_plain(p.str_at("cwd"@)->0);
    }
    if current_dir is Some {
        paths::names_are_plain(current_dir->0);
    }
    let name = project_of(p, project_dir, current_dir);
    text::units_within_bytes(name);
}

/// A text that is no JSON is uploaded as an event of its own, whose payload holds the text.
pub proof fn unparsed_text_is_reported(
    raw: Seq<char>,
    why: Seq<char>,
    source: Seq<char>,
    project_dir: Option<Seq<char>>,
    current_dir: Option<Seq<char>>,
)
    ensures
        ({
            let p = payload_of(raw, Err(why));
            &&& p.str_at("_unparsed"@) == Some(raw)
            &&& p.str_at("_parse_error"@) == Some(why)
            &&& event_for(p, source, project_dir, current_dir).event == "UnparsedPayload"@
            &&& event_for(p, source, project_dir, current_dir).session_id == "unknown"@
        }),
{
    reveal_strlit("session_id");
    reveal_strlit("unknown");
    assert("session_id"@.len() == 10);
    text::units_within_bytes("unknown"@);
    text::lemma_bytes_by_chars("unknown"@);
    reveal_strlit("hook_event_name");
    reveal_strlit("_parse_error");
    reveal_strlit("_unparsed");
    reveal_strlit("UnparsedPayload");
    assert("hook_event_name"@.len() == 15);
    assert("_parse_error"@.len() == 12);
    assert("_unparsed"@.len() == 9);
    let s0 = Seq::<(Seq<char>, JsonView)>::empty();
    let name = JsonView::Str("UnparsedPayload"@);
    let s1 = json::with_entry(s0, "hook_event_name"@, name);
    let s2 = json::with_entry(s1, "_parse_error"@, JsonView::Str(why));
    json::lookup_after_with_entry(s0, "hook_event_name"@, name, "session_id"@);
    json::lookup_after_with_entry(s1, "_parse_error"@, JsonView::Str(why), "session_id"@);
    json::lookup_after_with_entry(s2, "_unparsed"@, JsonView::Str(raw), "session_id"@);
    json::lookup_after_with_entry(s1, "_parse_error"@, JsonView::Str(why), "hook_event_name"@);
    json::lookup_after_with_entry(s2, "_unparsed"@, JsonView::Str(raw), "hook_event_name"@);
    json::lookup_after_with_entry(s2, "_unparsed"@, JsonView::Str(raw), "_parse_error"@);
    text::units_within_bytes("UnparsedPayload"@);
    text::lemma_bytes_by_chars("UnparsedPayload"@);
}

/// Where no argument names an agent, the default one is taken.
pub proof fn source_has_a_default(args: Seq<Seq<char>>, default: Seq<char>)
    requires
        forall|k: int| 0 <= k < args.len() ==> !"--source"@.is_prefix_of(#[trigger] args[k]),
    ensures
        source_of(args, default) == payload::clipped(default, MAX_SOURCE_LEN as nat),
{
    lemma_no_source(args, 0);
}

proof fn lemma_no_source(args: Seq<Seq<char>>, i: int)
    requires
        forall|k: int| 0 <= k < args.len() ==> !"--source"@.is_prefix_of(#[trigger] args[k]),
        0 <= i,
    ensures
        named_source(args, i, None) is None,
    decreases args.len() - i,
{
    reveal_strlit("--source");
    reveal_strlit("--source=");
    if i < args.len() {
        assert(!"--source"@.is_prefix_of(args[i]));
        lemma_no_source(args, i + 1);
    }
}

// ---- the command ----

/// What the command does: show how it is used, take an event in, show what the worker has at a
/// path, or remove that.
pub enum HookAction {
    Help,
    Ingest { source: String },
    Show { path: String },
    Remove { path: String },
}

/// What the command does.
pub enum ActionView {
    Help,
    Ingest { source: Seq<char> },
    Show { path: Seq<char> },
    Remove { path: Seq<char> },
}

impl View for HookAction {
    type V = ActionView;

    open spec fn view(&self) -> ActionView {
        match self {
            HookAction::Help => ActionView::Help,
            HookAction::Ingest { source } => ActionView::Ingest { source: source@ },
            HookAction::Show { path } => ActionView::Show { path: path@ },
            HookAction::Remove { path } => ActionView::Remove { path: path@ },
        }
    }
}

/// The query that an action makes: what is shown is asked for with GET, what is removed with
/// DELETE, and nothing else asks the worker.
pub open spec fn query_of(action: ActionView) -> Option<QueryView> {
    match action {
        ActionView::Show { path } => Some(api::showing(path)),
        ActionView::Remove { path } => Some(api::removing(path)),
        _ => None,
    }
}

/// The query that an action makes.
pub fn action_query(action: &HookAction) -> (r: Option<Query>)
    ensures
        api::query_view(r) == query_of(action@),
{
    match action {
        HookAction::Show { path } => Some(api::show(path.as_str())),
        HookAction::Remove { path } => Some(api::remove(path.as_str())),
        _ => None,
    }
}

/// The request that an action makes, where it makes one: a GET or a DELETE of its path, without a
/// body and without a deadline.
pub fn action_request(action: &HookAction, config: Result<Config, String>) -> (r: Option<
    Result<Request, String>,
>)
    ensures
        (match r {
            Some(request) => Some(api::request_result(request)),
            None => None,
        }) == (match query_of(action@) {
            Some(query) => Some(api::query_request(query, config::config_result(config))),
            None => None,
        }),
{
    match action_query(action) {
        Some(query) => Some(query.request(config)),
        None => None,
    }
}

/// What the reading of a command gives.
pub open spec fn action_result(r: Result<HookAction, String>) -> Result<ActionView, Seq<char>> {
    match r {
        Ok(action) => Ok(action@),
        Err(line) => Err(line@),
    }
}

/// Any number that a `u32` holds is a limit; 0 means all.
pub open spec fn limit_rule() -> LimitRule<'static> {
    LimitRule {
        low: 0,
        high: u32::MAX,
        reason: "--limit must be a non-negative integer (0 = all)",
    }
}

/// The project and the session that the arguments name.
pub fn parse_project_session(key: &str, args: &[String]) -> (r: Result<(String, String), String>)
    ensures
        sessions::pair_result(r) == sessions::project_session(
            ENTRY@,
            usage_of(key@),
            checks::args_view(args@),
        ),
{
    sessions::read_project_session(ENTRY, usage(key).as_str(), args)
}

/// The project and the limit that the arguments name.
pub fn parse_sessions_args(args: &[String]) -> (r: Result<(String, Option<u32>), String>)
    ensures
        sessions::query_result(r) == sessions::sessions_query(
            ENTRY@,
            usage_of("hook.sessions"@),
            limit_rule(),
            checks::args_view(args@),
        ),
{
    let rule = LimitRule {
        low: 0,
        high: u32::MAX,
        reason: "--limit must be a non-negative integer (0 = all)",
    };
    sessions::read_sessions_query(ENTRY, usage("hook.sessions").as_str(), &rule, args)
}

/// Whether an argument asks how the command is used.
pub open spec fn asks_for_help(arg: Seq<char>) -> bool {
    arg == "help"@ || arg == "-h"@ || arg == "--help"@
}

/// What is done for the arguments after `hook`, or the line to give up with. Without arguments,
/// or where they begin with an option, an event is taken in, and that never gives up.
pub open spec fn hook_plan(argv: Seq<Seq<char>>, default: Seq<char>) -> Result<
    ActionView,
    Seq<char>,
> {
    if argv.len() == 0 {
        Ok(ActionView::Ingest { source: default })
    } else if asks_for_help(argv[0]) {
        if argv.len() > 1 {
            Err(
                complaint::usage_complaint(
                    ENTRY@,
                    usage_of("help"@),
                    checks::about("unexpected argument"@, argv[1]),
                ),
            )
        } else {
            Ok(ActionView::Help)
        }
    } else if argv[0] == "sessions"@ {
        match sessions::sessions_query(
            ENTRY@,
            usage_of("hook.sessions"@),
            limit_rule(),
            argv.drop_first(),
        ) {
            Ok((project, limit)) => Ok(
                ActionView::Show { path: sessions::sessions_path(project, limit) },
            ),
            Err(line) => Err(line),
        }
    } else if argv[0] == "ls"@ {
        match sessions::project_session(ENTRY@, usage_of("hook.ls"@), argv.drop_first()) {
            Ok((project, session_id)) => Ok(
                ActionView::Show { path: sessions::session_events_path(project, session_id) },
            ),
            Err(line) => Err(line),
        }
    } else if argv[0] == "rm"@ {
        match sessions::project_session(ENTRY@, usage_of("hook.rm"@), argv.drop_first()) {
            Ok((project, session_id)) => Ok(
                ActionView::Remove { path: sessions::session_path(project, session_id) },
            ),
            Err(line) => Err(line),
        }
    } else if "-"@.is_prefix_of(argv[0]) {
        Ok(ActionView::Ingest { source: source_of(argv, default) })
    } else {
        Err(complaint::complaint(ENTRY@, unknown_verb(argv[0])))
    }
}

/// What is said of a verb that there is not.
pub open spec fn unknown_verb(verb: Seq<char>) -> Seq<char> {
    "unknown command 'hook "@ + verb + "'; usage: "@ + usage_of("help"@)
}

fn is_help(arg: &str) -> (r: bool)
    ensures
        r == asks_for_help(arg@),
{
    text::same(arg, "help") || text::same(arg, "-h") || text::same(arg, "--help")
}

/// What is done for the arguments after `hook`. Events come from the agent `default` where the
/// arguments name no other.
pub fn run(argv: &[String], default: &str) -> (r: Result<HookAction, String>)
    ensures
        action_result(r) == hook_plan(checks::args_view(argv@), default@),
{
    if argv.len() == 0 {
        return Ok(HookAction::Ingest { source: default.to_owned() });
    }
    let ghost all = checks::args_view(argv@);
    let head = argv[0].as_str();
    assert(all[0] == head@);
    if is_help(head) {
        if argv.len() > 1 {
            let reason = checks::say_about("unexpected argument", argv[1].as_str());
            return Err(fail_usage("help", reason.as_str()));
        }
        return Ok(HookAction::Help);
    }
    let rest = vstd::slice::slice_subrange(argv, 1, argv.len());
    assert(checks::args_view(rest@) =~= all.drop_first());
    if text::same(head, "sessions") {
        match parse_sessions_args(rest) {
            Ok((project, limit)) => Ok(
                HookAction::Show { path: sessions::path_of_sessions(project.as_str(), limit) },
            ),
            Err(line) => Err(line),
        }
    } else if text::same(head, "ls") {
        match parse_project_session("hook.ls", rest) {
            Ok((project, session_id)) => Ok(
                HookAction::Show {
                    path: sessions::path_of_session_events(project.as_str(), session_id.as_str()),
                },
            ),
            Err(line) => Err(line),
        }
    } else if text::same(head, "rm") {
        match parse_project_session("hook.rm", rest) {
            Ok((project, session_id)) => Ok(
                HookAction::Remove {
                    path: sessions::path_of_session(project.as_str(), session_id.as_str()),
                },
            ),
            Err(line) => Err(line),
        }
    } else {
        if text::starts_with(head, "-") {
            Ok(HookAction::Ingest { source: parse_source(argv, default) })
        } else {
            let mut message = "unknown command 'hook ".to_owned();
            message.append(head);
            message.append("'; usage: ");
            message.append(usage("help").as_str());
            Err(fail(message.as_str()))
        }
    }
}

/// A hook line never makes the command give up: without arguments, and with arguments that
/// begin with an option other than those for help, an event is taken in.
pub proof fn hook_lines_never_fail(argv: Seq<Seq<char>>, default: Seq<char>)
    requires
        argv.len() == 0 || ("-"@.is_prefix_of(argv[0]) && !asks_for_help(argv[0])),
    ensures
        hook_plan(argv, default) is Ok,
        hook_plan(argv, default)->Ok_0 is Ingest,
{
    reveal_strlit("sessions");
    reveal_strlit("ls");
    reveal_strlit("rm");
    reveal_strlit("-");
    assert("sessions"@[0] == 's' && "ls"@[0] == 'l' && "rm"@[0] == 'r');
    if argv.len() > 0 {
        assert("-"@[0] == argv[0].subrange(0, 1)[0]);
    }
}

/// The event itself is uploaded first, and once; what is derived from a transcript follows.
pub proof fn native_event_goes_first(source: Seq<char>, event: Seq<char>)
    ensures
        ({
            let steps = steps_for(source, event);
            &&& steps.len() > 0
            &&& steps[0] == Step::Upload
            &&& forall|i: int| 0 < i < steps.len() ==> #[trigger] steps[i] != Step::Upload
        }),
{
}

/// Whatever bytes come in, an event is uploaded for them, unless they are blank text.
pub proof fn nothing_is_dropped(
    raw: Seq<u8>,
    source: Seq<char>,
    project_dir: Option<Seq<char>>,
    current_dir: Option<Seq<char>>,
)
    ensures
        ingested(raw, source, project_dir, current_dir) is None <==> vstd::utf8::valid_utf8(raw)
            && text::trimmed(vstd::utf8::decode_utf8(raw)).len() == 0,
        !vstd::utf8::valid_utf8(raw) ==> ingested(
            raw,
            source,
            project_dir,
            current_dir,
        )->0.upload.event == "UnparsedPayload"@,
{
    let why = "stdin is not valid UTF-8"@;
    unparsed_text_is_reported(text::lossy_text(raw), why, source, project_dir, current_dir);
}

/// Only `rm` removes anything, and only `sessions` and `ls` show anything.
pub proof fn only_rm_removes(argv: Seq<Seq<char>>, default: Seq<char>)
    ensures
        match hook_plan(argv, default) {
            Ok(ActionView::Remove { .. }) => argv.len() > 0 && argv[0] == "rm"@,
            Ok(ActionView::Show { .. }) => argv.len() > 0 && (argv[0] == "sessions"@ || argv[0]
                == "ls"@),
            _ => true,
        },
{
}

// ---- which agent is named ----

/// Whether arguments can be followed by others without changing what they mean: they do not end
/// in a `--source` that waits for its value.
pub open spec fn is_complete(args: Seq<Seq<char>>) -> bool {
    args.len() == 0 || args.last() != "--source"@
}

/// Whether no argument names an agent.
pub open spec fn names_none(args: Seq<Seq<char>>) -> bool {
    forall|k: int| 0 <= k < args.len() ==> !"--source"@.is_prefix_of(#[trigger] args[k])
}

proof fn lemma_source_after(
    head: Seq<Seq<char>>,
    rest: Seq<Seq<char>>,
    i: int,
    source: Option<Seq<char>>,
)
    requires
        is_complete(head),
        0 <= i <= head.len(),
    ensures
        named_source(head + rest, i, source) == named_source(
            rest,
            0,
            named_source(head, i, source),
        ),
    decreases head.len() - i,
{
    let all = head + rest;
    if i < head.len() {
        assert(all[i] == head[i]);
        if head[i] == "--source"@ {
            if i + 1 == head.len() {
                assert(head[i] == head.last());
            }
            assert(all[i + 1] == head[i + 1]);
            if head[i + 1].len() > 0 && !"--"@.is_prefix_of(head[i + 1]) {
                lemma_source_after(head, rest, i + 2, Some(head[i + 1]));
            } else {
                lemma_source_after(head, rest, i + 1, source);
            }
        } else if "--source="@.is_prefix_of(head[i]) && head[i].len() > 9 {
            lemma_source_after(head, rest, i + 1, Some(head[i].skip(9)));
        } else {
            lemma_source_after(head, rest, i + 1, source);
        }
    } else {
        lemma_source_shift(head, rest, 0, source);
    }
}

proof fn lemma_source_shift(
    head: Seq<Seq<char>>,
    rest: Seq<Seq<char>>,
    i: int,
    source: Option<Seq<char>>,
)
    requires
        0 <= i,
    ensures
        named_source(head + rest, head.len() + i, source) == named_source(rest, i, source),
    decreases rest.len() - i,
{
    let all = head + rest;
    let n = head.len() as int;
    if i < rest.len() {
        assert(all[n + i] == rest[i]);
        if i + 1 < rest.len() {
            assert(all[n + i + 1] == rest[i + 1]);
        }
        if rest[i] == "--source"@ && i + 1 < rest.len() && rest[i + 1].len() > 0
            && !"--"@.is_prefix_of(rest[i + 1]) {
            lemma_source_shift(head, rest, i + 2, Some(rest[i + 1]));
        } else if rest[i] != "--source"@ && "--source="@.is_prefix_of(rest[i]) && rest[i].len()
            > 9 {
            lemma_source_shift(head, rest, i + 1, Some(rest[i].skip(9)));
        } else {
            lemma_source_shift(head, rest, i + 1, source);
        }
    }
}

proof fn lemma_keeps_source(args: Seq<Seq<char>>, i: int, source: Option<Seq<char>>)
    requires
        names_none(args),
        0 <= i,
    ensures
        named_source(args, i, source) == source,
    decreases args.len() - i,
{
    reveal_strlit("--source");
    reveal_strlit("--source=");
    if i < args.len() {
        assert(!"--source"@.is_prefix_of(args[i]));
        if "--source="@.is_prefix_of(args[i]) {
            assert(args[i].subrange(0, 8) =~= "--source"@) by {
                assert(args[i].subrange(0, 9) =~= "--source="@);
                assert forall|k: int| 0 <= k < 8 implies args[i][k] == "--source"@[k] by {
                    assert(args[i].subrange(0, 9)[k] == "--source="@[k]);
                }
            }
        }
        lemma_keeps_source(args, i + 1, source);
    }
}

proof fn lemma_source_spellings(s: Seq<char>)
    ensures
        "--source="@ + s != "--source"@,
        "--source="@.is_prefix_of("--source="@ + s),
        ("--source="@ + s).len() == 9 + s.len(),
        ("--source="@ + s).skip(9) == s,
{
    reveal_strlit("--source");
    reveal_strlit("--source=");
    let whole = "--source="@ + s;
    assert("--source"@.len() == 8);
    assert(whole.len() == 9 + s.len());
    assert(whole.subrange(0, 9) =~= "--source="@);
    assert(whole.skip(9) =~= s);
}

/// `--source <s>` and `--source=<s>` name the same agent, after any complete arguments and
/// before any others.
pub proof fn both_ways_name_the_agent(
    head: Seq<Seq<char>>,
    s: Seq<char>,
    rest: Seq<Seq<char>>,
    default: Seq<char>,
)
    requires
        is_complete(head),
        s.len() > 0,
        !"--"@.is_prefix_of(s),
    ensures
        source_of(head + (seq!["--source"@, s] + rest), default) == source_of(
            head + (seq!["--source="@ + s] + rest),
            default,
        ),
{
    lemma_apart(head, s, rest);
    lemma_joined(head, s, rest);
}

proof fn lemma_joined(head: Seq<Seq<char>>, s: Seq<char>, rest: Seq<Seq<char>>)
    requires
        is_complete(head),
        s.len() > 0,
    ensures
        named_source(head + (seq!["--source="@ + s] + rest), 0, None) == named_source(
            rest,
            0,
            Some(s),
        ),
{
    let whole = "--source="@ + s;
    let one = seq![whole] + rest;
    lemma_source_after(head, one, 0, None);
    lemma_source_spellings(s);
    assert(one[0] == whole);
    lemma_source_shift(seq![whole], rest, 0, Some(s));
    assert(named_source(one, 1, Some(s)) == named_source(rest, 0, Some(s)));
}

proof fn lemma_apart(head: Seq<Seq<char>>, s: Seq<char>, rest: Seq<Seq<char>>)
    requires
        is_complete(head),
        s.len() > 0,
        !"--"@.is_prefix_of(s),
    ensures
        named_source(head + (seq!["--source"@, s] + rest), 0, None) == named_source(
            rest,
            0,
            Some(s),
        ),
{
    let two = seq!["--source"@, s] + rest;
    lemma_source_after(head, two, 0, None);
    assert(two[0] == "--source"@ && two[1] == s);
    lemma_source_shift(seq!["--source"@, s], rest, 0, Some(s));
    assert(named_source(two, 2, Some(s)) == named_source(rest, 0, Some(s)));
}

/// The agent that is named last counts, whatever was named before and whatever the default is:
/// its name is taken as it is, clipped only where it has more than 64 code units.
pub proof fn last_named_agent_counts(
    head: Seq<Seq<char>>,
    s: Seq<char>,
    rest: Seq<Seq<char>>,
    default: Seq<char>,
)
    requires
        is_complete(head),
        names_none(rest),
        s.len() > 0,
    ensures
        source_of(head + (seq!["--source="@ + s] + rest), default) == payload::clipped(s, 64),
        !"--"@.is_prefix_of(s) ==> source_of(head + (seq!["--source"@, s] + rest), default)
            == payload::clipped(s, 64),
        text::units(s) <= 64 ==> source_of(head + (seq!["--source="@ + s] + rest), default) == s,
        text::units(s) <= 64 && !"--"@.is_prefix_of(s) ==> source_of(
            head + (seq!["--source"@, s] + rest),
            default,
        ) == s,
{
    lemma_joined(head, s, rest);
    if !"--"@.is_prefix_of(s) {
        lemma_apart(head, s, rest);
    }
    lemma_keeps_source(rest, 0, Some(s));
    payload::clipping_leaves_the_beginning(s, 64);
}

/// An argument that is no `--source`, and a `--source=` without a name, change nothing.
pub proof fn other_arguments_are_ignored(
    head: Seq<Seq<char>>,
    x: Seq<char>,
    rest: Seq<Seq<char>>,
    default: Seq<char>,
)
    requires
        is_complete(head),
        x != "--source"@,
        !"--source="@.is_prefix_of(x) || x == "--source="@,
    ensures
        source_of(head + (seq![x] + rest), default) == source_of(head + rest, default),
{
    let one = seq![x] + rest;
    reveal_strlit("--source=");
    assert("--source="@.len() == 9);
    lemma_source_after(head, one, 0, None);
    lemma_source_after(head, rest, 0, None);
    assert(one[0] == x);
    lemma_source_shift(seq![x], rest, 0, named_source(head, 0, None));
}

/// A `--source` with nothing behind it, or with an empty argument or an option, changes nothing;
/// what stands behind it is read for itself.
pub proof fn source_needs_a_name(
    head: Seq<Seq<char>>,
    x: Seq<char>,
    rest: Seq<Seq<char>>,
    default: Seq<char>,
)
    requires
        is_complete(head),
        x.len() == 0 || "--"@.is_prefix_of(x),
    ensures
        source_of(head.push("--source"@), default) == source_of(head, default),
        source_of(head + (seq!["--source"@, x] + rest), default) == source_of(
            head + (seq![x] + rest),
            default,
        ),
{
    let named = named_source(head, 0, None);
    let last = seq!["--source"@];
    lemma_source_after(head, last, 0, None);
    assert(head.push("--source"@) =~= head + last);
    assert(last[0] == "--source"@);
    reveal_with_fuel(named_source, 3);
    assert(named_source(last, 0, named) == named);
    lemma_source_after(head, Seq::empty(), 0, None);
    let two = seq!["--source"@, x] + rest;
    let one = seq![x] + rest;
    lemma_source_after(head, two, 0, None);
    lemma_source_after(head, one, 0, None);
    assert(two[0] == "--source"@ && two[1] == x);
    assert(two =~= seq!["--source"@] + one);
    lemma_source_shift(seq!["--source"@], one, 0, named);
    assert(named_source(two, 1, named) == named_source(one, 0, named));
}

/// A hook line takes its agent from the arguments, and the default one where there are none.
pub proof fn hook_lines_take_the_named_agent(argv: Seq<Seq<char>>, default: Seq<char>)
    requires
        argv.len() > 0,
        "-"@.is_prefix_of(argv[0]),
        argv[0] != "-h"@,
        argv[0] != "--help"@,
    ensures
        hook_plan(argv, default) == Ok::<ActionView, Seq<char>>(
            ActionView::Ingest { source: source_of(argv, default) },
        ),
        hook_plan(Seq::empty(), default) == Ok::<ActionView, Seq<char>>(
            ActionView::Ingest { source: default },
        ),
        names_none(argv) && text::units(default) <= 64 ==> source_of(argv, default) == default,
{
    reveal_strlit("sessions");
    reveal_strlit("ls");
    reveal_strlit("rm");
    reveal_strlit("-");
    reveal_strlit("help");
    assert("sessions"@[0] == 's' && "ls"@[0] == 'l' && "rm"@[0] == 'r' && "help"@[0] == 'h');
    assert("-"@[0] == argv[0].subrange(0, 1)[0]);
    if names_none(argv) {
        lemma_keeps_source(argv, 0, None);
        payload::clipping_leaves_the_beginning(default, 64);
    }
}

// ---- what the verbs ask for ----

proof fn lemma_verbs()
    ensures
        "sessions"@.len() == 8,
        "ls"@.len() == 2,
        "rm"@.len() == 2,
        "help"@.len() == 4,
        "-h"@.len() == 2,
        "--help"@.len() == 6,
        "ls"@ != "rm"@,
        "ls"@ != "-h"@,
        "rm"@ != "-h"@,
{
    reveal_strlit("sessions");
    reveal_strlit("ls");
    reveal_strlit("rm");
    reveal_strlit("help");
    reveal_strlit("-h");
    reveal_strlit("--help");
    assert("ls"@[0] == 'l' && "rm"@[0] == 'r' && "-h"@[0] == '-');
}

proof fn lemma_usages()
    ensures
        usage_of("hook.ingest"@) == "jj-agentic-aspect hook [--source <s>]   (hook JSON on stdin)"@,
        usage_of("hook.sessions"@)
            == "jj-agentic-aspect hook sessions <project> [--limit N]   (default 50, 0 = 全部)"@,
        usage_of("hook.ls"@) == "jj-agentic-aspect hook ls <project> <session_id>"@,
        usage_of("hook.rm"@) == "jj-agentic-aspect hook rm <project> <session_id>"@,
        usage_of("help"@) == "jj-agentic-aspect hook --help"@,
{
    reveal_strlit("hook.ingest");
    reveal_strlit("hook.sessions");
    reveal_strlit("hook.ls");
    reveal_strlit("hook.rm");
    reveal_strlit("help");
    assert("hook.ingest"@.len() == 11);
    assert("hook.sessions"@.len() == 13);
    assert("hook.ls"@.len() == 7 && "hook.ls"@[5] == 'l');
    assert("hook.rm"@.len() == 7 && "hook.rm"@[5] == 'r');
    assert("help"@.len() == 4);
}

/// `sessions` shows the sessions of a project, as many as the limit says, whatever it is; a limit
/// of 0 is a limit like any other, before or behind the project.
pub proof fn sessions_of_a_project_are_shown(
    project: Seq<char>,
    arg: Seq<char>,
    n: u32,
    default: Seq<char>,
)
    requires
        !"--"@.is_prefix_of(project),
        1 <= text::units(project) <= 128,
        !"--"@.is_prefix_of(arg),
        text::parsed_u32(arg) == Some(n),
    ensures
        ({
            let all = "/projects/"@ + uri::uri_component(project) + "/sessions"@;
            let some = all + "?limit="@ + text::decimal(n as nat);
            &&& hook_plan(seq!["sessions"@, project], default) == Ok::<ActionView, Seq<char>>(
                ActionView::Show { path: all },
            )
            &&& hook_plan(seq!["sessions"@, project, "--limit"@, arg], default) == Ok::<
                ActionView,
                Seq<char>,
            >(ActionView::Show { path: some })
            &&& hook_plan(seq!["sessions"@, "--limit"@, arg, project], default) == Ok::<
                ActionView,
                Seq<char>,
            >(ActionView::Show { path: some })
        }),
{
    lemma_verbs();
    let entry = ENTRY@;
    let usage = usage_of("hook.sessions"@);
    let a0 = seq!["sessions"@, project];
    let a1 = seq!["sessions"@, project, "--limit"@, arg];
    let a2 = seq!["sessions"@, "--limit"@, arg, project];
    assert(a0.drop_first() =~= seq![project]);
    assert(a1.drop_first() =~= seq![project, "--limit"@, arg]);
    assert(a2.drop_first() =~= seq!["--limit"@, arg, project]);
    let rule = limit_rule();
    assert(sessions::is_limit(rule, arg, n));
    sessions::accepted_queries_name_a_project(entry, usage, rule, seq![project], project, None);
    sessions::accepted_queries_name_a_project(
        entry,
        usage,
        rule,
        seq![project, "--limit"@, arg],
        project,
        Some(n),
    );
    sessions::accepted_queries_name_a_project(
        entry,
        usage,
        rule,
        seq!["--limit"@, arg, project],
        project,
        Some(n),
    );
    sessions::paths_are_written_out(project, project, n);
}

/// `ls` shows the events of a session, and `rm` removes the session: that of the project and the
/// session that are named.
pub proof fn sessions_are_shown_and_removed(
    project: Seq<char>,
    session_id: Seq<char>,
    default: Seq<char>,
)
    requires
        !"--"@.is_prefix_of(project),
        1 <= text::units(project) <= 128,
        !"--"@.is_prefix_of(session_id),
    ensures
        ({
            let path = "/projects/"@ + uri::uri_component(project) + "/sessions/"@
                + uri::uri_component(session_id);
            &&& hook_plan(seq!["ls"@, project, session_id], default) == Ok::<
                ActionView,
                Seq<char>,
            >(ActionView::Show { path: path + "/statuses"@ })
            &&& hook_plan(seq!["rm"@, project, session_id], default) == Ok::<
                ActionView,
                Seq<char>,
            >(ActionView::Remove { path })
        }),
{
    lemma_verbs();
    let args = seq![project, session_id];
    assert(seq!["ls"@, project, session_id].drop_first() =~= args);
    assert(seq!["rm"@, project, session_id].drop_first() =~= args);
    let ls = usage_of("hook.ls"@);
    let rm = usage_of("hook.rm"@);
    sessions::two_arguments_name_a_session(ENTRY@, ls, args, project, session_id);
    sessions::two_arguments_name_a_session(ENTRY@, rm, args, project, session_id);
    sessions::paths_are_written_out(project, session_id, 0);
}

/// A verb that is not used as it should be gives up with the complaint about its arguments, which
/// says how that verb is used.
pub proof fn verbs_complain_about_their_arguments(args: Seq<Seq<char>>, default: Seq<char>)
    ensures
        ({
            let entry = "jj-agentic-aspect"@;
            let sessions = sessions::sessions_query(
                entry,
                "jj-agentic-aspect hook sessions <project> [--limit N]   (default 50, 0 = 全部)"@,
                LimitRule {
                    low: 0,
                    high: u32::MAX,
                    reason: "--limit must be a non-negative integer (0 = all)",
                },
                args,
            );
            let ls = sessions::project_session(
                entry,
                "jj-agentic-aspect hook ls <project> <session_id>"@,
                args,
            );
            let rm = sessions::project_session(
                entry,
                "jj-agentic-aspect hook rm <project> <session_id>"@,
                args,
            );
            &&& sessions is Err ==> hook_plan(seq!["sessions"@] + args, default) == Err::<
                ActionView,
                Seq<char>,
            >(sessions->Err_0)
            &&& ls is Err ==> hook_plan(seq!["ls"@] + args, default) == Err::<
                ActionView,
                Seq<char>,
            >(ls->Err_0)
            &&& rm is Err ==> hook_plan(seq!["rm"@] + args, default) == Err::<
                ActionView,
                Seq<char>,
            >(rm->Err_0)
        }),
{
    lemma_verbs();
    lemma_usages();
    assert((seq!["sessions"@] + args).drop_first() =~= args);
    assert((seq!["ls"@] + args).drop_first() =~= args);
    assert((seq!["rm"@] + args).drop_first() =~= args);
}

/// Help is shown where it is asked for alone; what follows is not wanted, and what is neither a
/// verb nor an option is unknown.
pub proof fn other_words_are_told_apart(
    word: Seq<char>,
    next: Seq<char>,
    more: Seq<Seq<char>>,
    default: Seq<char>,
)
    ensures
        word == "help"@ || word == "-h"@ || word == "--help"@ ==> {
            &&& hook_plan(seq![word], default) == Ok::<ActionView, Seq<char>>(ActionView::Help)
            &&& hook_plan(seq![word, next] + more, default) == Err::<ActionView, Seq<char>>(
                complaint::usage_complaint(
                    "jj-agentic-aspect"@,
                    "jj-agentic-aspect hook --help"@,
                    "unexpected argument "@ + next,
                ),
            )
        },
        !"-"@.is_prefix_of(word) && word != "help"@ && word != "sessions"@ && word != "ls"@ && word
            != "rm"@ ==> hook_plan(seq![word] + more, default) == Err::<ActionView, Seq<char>>(
            complaint::complaint(
                "jj-agentic-aspect"@,
                "unknown command 'hook "@ + word + "'; usage: jj-agentic-aspect hook --help"@,
            ),
        ),
{
    lemma_verbs();
    lemma_usages();
    reveal_strlit("unexpected argument");
    reveal_strlit("unexpected argument ");
    reveal_strlit(" ");
    assert("unexpected argument"@ + " "@ =~= "unexpected argument "@);
    assert((seq![word, next] + more)[0] == word);
    assert((seq![word, next] + more)[1] == next);
    assert((seq![word] + more)[0] == word);
    reveal_strlit("-");
    reveal_strlit("-h");
    reveal_strlit("--help");
    assert("-h"@.subrange(0, 1) =~= "-"@);
    assert("--help"@.subrange(0, 1) =~= "-"@);
    reveal_strlit("'; usage: ");
    reveal_strlit("jj-agentic-aspect hook --help");
    reveal_strlit("'; usage: jj-agentic-aspect hook --help");
    assert("'; usage: "@ + "jj-agentic-aspect hook --help"@
        =~= "'; usage: jj-agentic-aspect hook --help"@);
    assert(unknown_verb(word) =~= "unknown command 'hook "@ + word
        + "'; usage: jj-agentic-aspect hook --help"@);
}

// ---- what an event says ----

/// An event belongs to the project that is named after the directory in which the session
/// started, else after the directory that the payload names, else after the current one; a name
/// of more than 128 code units counts as unknown, and so does none.
pub proof fn events_belong_to_a_directory(
    p: JsonView,
    project_dir: Option<Seq<char>>,
    current_dir: Option<Seq<char>>,
    name: Seq<char>,
)
    requires
        ({
            let start = if project_dir is Some {
                paths::base_name(project_dir->0)
            } else {
                None
            };
            let told = if p.str_at("cwd"@) is Some {
                paths::base_name(p.str_at("cwd"@)->0)
            } else {
                None
            };
            let here = if current_dir is Some {
                paths::base_name(current_dir->0)
            } else {
                None
            };
            ||| start == Some(name)
            ||| start is None && told == Some(name)
            ||| start is None && told is None && here == Some(name)
            ||| start is None && told is None && here is None && name == "unknown"@
        }),
    ensures
        project_of(p, project_dir, current_dir) == (if text::units(name) <= 128 {
            name
        } else {
            "unknown"@
        }),
{
}

/// An event is uploaded under the names that its payload gives, `unknown` and `Unknown` where it
/// gives none, from the agent that is named, with the payload as its body; and what is kept of
/// the payload is the payload.
pub proof fn events_say_what_the_payload_says(
    p: JsonView,
    source: Seq<char>,
    project_dir: Option<Seq<char>>,
    current_dir: Option<Seq<char>>,
)
    ensures
        ({
            let done = ingest_of(p, source, project_dir, current_dir);
            &&& done.payload == p
            &&& done.upload.project == project_of(p, project_dir, current_dir)
            &&& done.upload.session_id == payload::clipped(
                if p.str_at("session_id"@) is Some {
                    p.str_at("session_id"@)->0
                } else {
                    "unknown"@
                },
                128,
            )
            &&& done.upload.event == payload::clipped(
                if p.str_at("hook_event_name"@) is Some {
                    p.str_at("hook_event_name"@)->0
                } else {
                    "Unknown"@
                },
                64,
            )
            &&& done.upload.source == Some(source)
            &&& done.upload.body == codec::json_text(body::fitted(p))
            &&& done.steps == steps_for(source, done.upload.event)
        }),
{
}

/// Where an agent whose name has `codex` in it stops, its turn and its goal are reported; where
/// its session ends, the goal alone; and after no other event anything.
pub proof fn codex_is_followed_up(source: Seq<char>, event: Seq<char>)
    ensures
        steps_for(source, event) == (if text::occurs("codex"@, source) && event == "Stop"@ {
            seq![Step::Upload, Step::ReportTurn, Step::ReportGoal]
        } else if text::occurs("codex"@, source) && event == "SessionEnd"@ {
            seq![Step::Upload, Step::ReportGoal]
        } else {
            seq![Step::Upload]
        }),
{
    reveal_strlit("Stop");
    reveal_strlit("SessionEnd");
    assert("Stop"@.len() == 4 && "SessionEnd"@.len() == 10);
    let steps = steps_for(source, event);
    if text::occurs("codex"@, source) && event == "Stop"@ {
        assert(steps =~= seq![Step::Upload, Step::ReportTurn, Step::ReportGoal]);
    } else if text::occurs("codex"@, source) && event == "SessionEnd"@ {
        assert(steps =~= seq![Step::Upload, Step::ReportGoal]);
    } else {
        assert(steps =~= seq![Step::Upload]);
    }
}

/// What is done for bytes that are text: for JSON, what is done for its value; for other text,
/// what is done for a report of it; and nothing where it is blank.
pub proof fn text_is_taken_in(
    s: Seq<char>,
    source: Seq<char>,
    project_dir: Option<Seq<char>>,
    current_dir: Option<Seq<char>>,
)
    ensures
        ({
            let done = ingested(vstd::utf8::encode_utf8(s), source, project_dir, current_dir);
            &&& text::trimmed(s).len() == 0 ==> done is None
            &&& text::trimmed(s).len() > 0 ==> match codec::json_parsed(s) {
                Ok(p) => done == Some(ingest_of(p, source, project_dir, current_dir)),
                Err(why) => done is Some && done->0.payload.str_at("_unparsed"@) == Some(s)
                    && done->0.payload.str_at("_parse_error"@) == Some(why)
                    && done->0.payload.str_at("hook_event_name"@) == Some("UnparsedPayload"@)
                    && done == Some(
                    ingest_of(done->0.payload, source, project_dir, current_dir),
                ),
            }
        }),
{
    vstd::utf8::encode_utf8_valid_utf8(s);
    vstd::utf8::encode_utf8_decode_utf8(s);
    if let Err(why) = codec::json_parsed(s) {
        unparsed_text_is_reported(s, why, source, project_dir, current_dir);
        lemma_unparsed_name(s, why);
    }
}

proof fn lemma_unparsed_name(raw: Seq<char>, why: Seq<char>)
    ensures
        unparsed(raw, why).str_at("hook_event_name"@) == Some("UnparsedPayload"@),
{
    reveal_strlit("hook_event_name");
    reveal_strlit("_parse_error");
    reveal_strlit("_unparsed");
    assert("hook_event_name"@.len() == 15);
    assert("_parse_error"@.len() == 12);
    assert("_unparsed"@.len() == 9);
    let s0 = Seq::<(Seq<char>, JsonView)>::empty();
    let name = JsonView::Str("UnparsedPayload"@);
    let s1 = json::with_entry(s0, "hook_event_name"@, name);
    let s2 = json::with_entry(s1, "_parse_error"@, JsonView::Str(why));
    json::lookup_after_with_entry(s0, "hook_event_name"@, name, "hook_event_name"@);
    json::lookup_after_with_entry(s1, "_parse_error"@, JsonView::Str(why), "hook_event_name"@);
    json::lookup_after_with_entry(s2, "_unparsed"@, JsonView::Str(raw), "hook_event_name"@);
}

/// What is shown is asked for with GET and what is removed with DELETE, each at its path; the
/// answer is shown for the first alone, and nothing else asks the worker.
pub proof fn actions_ask_for_their_path(path: Seq<char>, source: Seq<char>)
    ensures
        query_of(ActionView::Show { path }) is Some,
        query_of(ActionView::Show { path })->0.method == "GET"@,
        query_of(ActionView::Show { path })->0.path == path,
        query_of(ActionView::Show { path })->0.shown,
        query_of(ActionView::Remove { path }) is Some,
        query_of(ActionView::Remove { path })->0.method == "DELETE"@,
        query_of(ActionView::Remove { path })->0.path == path,
        !query_of(ActionView::Remove { path })->0.shown,
        query_of(ActionView::Help) is None,
        query_of(ActionView::Ingest { source }) is None,
{
}

/// The report of a text that is no JSON holds the text, why it is none and its name, and nothing
/// else; bytes that are no text are reported with replacement characters.
pub proof fn reports_hold_nothing_else(
    raw: Seq<char>,
    why: Seq<char>,
    bytes: Seq<u8>,
    source: Seq<char>,
    project_dir: Option<Seq<char>>,
    current_dir: Option<Seq<char>>,
    key: Seq<char>,
)
    ensures
        payload_of(raw, Err(why)).get(key) == (if key == "hook_event_name"@ {
            Some(JsonView::Str("UnparsedPayload"@))
        } else if key == "_parse_error"@ {
            Some(JsonView::Str(why))
        } else if key == "_unparsed"@ {
            Some(JsonView::Str(raw))
        } else {
            None
        }),
        !vstd::utf8::valid_utf8(bytes) ==> ingested(bytes, source, project_dir, current_dir)
            == Some(
            ingest_of(
                payload_of(text::lossy_text(bytes), Err("stdin is not valid UTF-8"@)),
                source,
                project_dir,
                current_dir,
            ),
        ),
{
    reveal_strlit("hook_event_name");
    reveal_strlit("_parse_error");
    reveal_strlit("_unparsed");
    assert("hook_event_name"@.len() == 15);
    assert("_parse_error"@.len() == 12);
    assert("_unparsed"@.len() == 9);
    let s0 = Seq::<(Seq<char>, JsonView)>::empty();
    let name = JsonView::Str("UnparsedPayload"@);
    let s1 = json::with_entry(s0, "hook_event_name"@, name);
    let s2 = json::with_entry(s1, "_parse_error"@, JsonView::Str(why));
    json::lookup_after_with_entry(s0, "hook_event_name"@, name, key);
    json::lookup_after_with_entry(s1, "_parse_error"@, JsonView::Str(why), key);
    json::lookup_after_with_entry(s2, "_unparsed"@, JsonView::Str(raw), key);
}

/// A payload that was read is taken as it is.
pub proof fn parsed_payloads_are_taken(raw: Seq<char>, p: JsonView)
    ensures
        payload_of(raw, Ok(p)) == p,
{
}

/// The limits, in numbers.
pub proof fn limits_are_these()
    ensures
        MAX_SESSION_ID_LEN == 128,
        MAX_EVENT_LEN == 64,
        MAX_SOURCE_LEN == 64,
        SESSION_LIST_LIMIT_DEFAULT == 50,
        UPLOAD_ATTEMPTS == 2,
{
}

/// What is done is seen as it is, and so is what the reading of a command gives.
pub proof fn actions_are_seen_as_they_are(
    ingest: Ingest,
    action: HookAction,
    source: String,
    path: String,
)
    ensures
        ingest@.payload == ingest.payload@,
        ingest@.upload == ingest.upload@,
        ingest@.steps == ingest.steps@,
        ingest_view(Some(ingest)) == Some(ingest@),
        ingest_view(None) is None,
        HookAction::Help@ == ActionView::Help,
        (HookAction::Ingest { source })@ == (ActionView::Ingest { source: source@ }),
        (HookAction::Show { path })@ == (ActionView::Show { path: path@ }),
        (HookAction::Remove { path })@ == (ActionView::Remove { path: path@ }),
        action_result(Ok(action)) == Ok::<ActionView, Seq<char>>(action@),
        action_result(Err(path)) == Err::<ActionView, Seq<char>>(path@),
{
}

/// An upload that succeeds is not repeated, and one that fails is repeated once.
pub proof fn uploads_are_tried_twice(attempts: nat)
    ensures
        !tries_again(attempts, false),
        tries_again(attempts, true) <==> attempts <= 1,
{
}

} // verus!
