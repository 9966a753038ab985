//! The `jj-status` program: events of agent sessions with small bodies.

use vstd::prelude::*;
use vstd::string::StringExecFns;
use crate::api::{Query, QueryView, Request};
use crate::config::Config;
use crate::dispatch::Global;
use crate::json::{Json, JsonObject, JsonView};
use crate::sessions::LimitRule;
use crate::upload::{Upload, UploadView};
use crate::{
    api, body, checks, codec, complaint, config, dispatch, hook, json, paths, payload, sessions, text,
    upload, uri,
};

verus! {

/// The name of the program, with which its complaints begin.
pub const STATUS_ENTRY: &'static str = "jj-status";

/// The most code units that a body may have.
pub const STATUS_BODY_BUDGET: usize = 60000;

/// Arrays keep at most this many items.
pub const STATUS_MAX_ARRAY_ITEMS: usize = 100;

/// How many sessions can be listed at most.
pub const SESSION_LIST_LIMIT_MAX: u32 = 200;

// ---- bodies ----

/// Whether a text can be a body.
pub open spec fn fits(s: Seq<char>) -> bool {
    0 < s.len() && text::units(s) <= STATUS_BODY_BUDGET
}

/// The payload with strings clipped to `max` code units and arrays to 100 items.
pub open spec fn reduced(p: JsonView, max: nat) -> JsonView {
    payload::shrunk(p, max, Some(STATUS_MAX_ARRAY_ITEMS as nat))
}

/// What is kept of a value at the top level: a string, clipped, or another scalar. Arrays and
/// objects are not kept.
pub open spec fn scalar(v: Option<JsonView>) -> Option<JsonView> {
    match v {
        Some(JsonView::Str(s)) => Some(JsonView::Str(payload::clipped(s, 256))),
        Some(JsonView::Array(_)) => None,
        Some(JsonView::Object(_)) => None,
        _ => v,
    }
}

/// The scalars among the entries.
pub open spec fn scalars(entries: Seq<(Seq<char>, JsonView)>) -> Seq<(Seq<char>, JsonView)>
    decreases entries.len(),
{
    if entries.len() == 0 {
        Seq::empty()
    } else {
        json::kept_value(
            scalars(entries.drop_last()),
            entries.last().0,
            scalar(Some(entries.last().1)),
        )
    }
}

/// An object with a mark that says that it was truncated.
pub open spec fn marked(entries: Seq<(Seq<char>, JsonView)>) -> JsonView {
    JsonView::Object(json::with_entry(entries, "_truncated"@, JsonView::Bool(true)))
}

/// The scalars at the top level of a payload.
pub open spec fn skeleton(p: JsonView) -> JsonView {
    marked(scalars(body::top_entries(p)))
}

/// The entries that identify an event: its name, its session and its directory.
pub open spec fn identity_entries(p: JsonView) -> Seq<(Seq<char>, JsonView)> {
    let s1 = json::kept_value(
        Seq::empty(),
        "hook_event_name"@,
        scalar(p.get("hook_event_name"@)),
    );
    let s2 = json::kept_value(s1, "session_id"@, scalar(p.get("session_id"@)));
    json::kept_value(s2, "cwd"@, scalar(p.get("cwd"@)))
}

/// The event that a payload is about, and no more.
pub open spec fn identity(p: JsonView) -> JsonView {
    marked(identity_entries(p))
}

/// What of a payload becomes the body: the first of the reductions whose text fits.
pub open spec fn fitted(p: JsonView) -> JsonView {
    if fits(codec::json_text(reduced(p, 2048))) {
        reduced(p, 2048)
    } else if fits(codec::json_text(reduced(p, 256))) {
        reduced(p, 256)
    } else if fits(codec::json_text(skeleton(p))) {
        skeleton(p)
    } else {
        identity(p)
    }
}

fn can_be_body(s: &str) -> (r: bool)
    ensures
        r == fits(s@),
{
    !s.is_empty() && text::len16(s) <= STATUS_BODY_BUDGET
}

/// What is kept of a value at the top level.
fn scalar_of(v: Option<&Json>) -> (r: Option<Json>)
    ensures
        json::option_view(r) == scalar(json::ref_view(v)),
        r is Some ==> codec::text_bound(r->0@) <= 6000,
{
    match v {
        Some(v) => match v {
            Json::Str(s) => Some(Json::Str(payload::clip(s.as_str(), 256))),
            Json::Array(_) => None,
            Json::Object(_) => None,
            _ => Some(v.duplicate()),
        },
        None => None,
    }
}

/// The scalars at the top level of a payload.
pub fn skeleton_of(p: &Json) -> (r: Json)
    ensures
        r@ == skeleton(p@),
{
    let mut kept = JsonObject::new();
    if let Json::Object(object) = p {
        let n = object.len();
        let mut i: usize = 0;
        assert(object@.take(0) =~= Seq::<(Seq<char>, JsonView)>::empty());
        while i < n
            invariant
                i <= n == object@.len(),
                kept@ == scalars(object@.take(i as int)),
            decreases n - i,
        {
            let value = scalar_of(Some(object.value(i)));
            if let Some(v) = value {
                kept.insert(object.key(i).clone(), v);
            }
            proof {
                let now = object@.take(i + 1);
                assert(now.drop_last() =~= object@.take(i as int));
                assert(now.last() == object@[i as int]);
            }
            i += 1;
        }
        assert(object@.take(i as int) =~= object@);
    }
    kept.insert("_truncated".to_owned(), Json::Bool(true));
    Json::Object(kept)
}

/// The event that a payload is about.
pub fn identity_from(p: &Json) -> (r: Json)
    ensures
        r@ == identity(p@),
        codec::text_bound(r@) <= 20_000,
{
    let mut kept = JsonObject::new();
    let ghost k0 = kept@;
    let event = scalar_of(p.get("hook_event_name"));
    if let Some(v) = event {
        kept.insert("hook_event_name".to_owned(), v);
    }
    let ghost k1 = kept@;
    let session = scalar_of(p.get("session_id"));
    if let Some(v) = session {
        kept.insert("session_id".to_owned(), v);
    }
    let ghost k2 = kept@;
    let cwd = scalar_of(p.get("cwd"));
    if let Some(v) = cwd {
        kept.insert("cwd".to_owned(), v);
    }
    let ghost k3 = kept@;
    kept.insert("_truncated".to_owned(), Json::Bool(true));
    proof {
        reveal_strlit("hook_event_name");
        reveal_strlit("session_id");
        reveal_strlit("cwd");
        reveal_strlit("_truncated");
        text::lemma_bytes_by_chars("hook_event_name"@);
        text::lemma_bytes_by_chars("session_id"@);
        text::lemma_bytes_by_chars("cwd"@);
        text::lemma_bytes_by_chars("_truncated"@);
        if let Some(v) = scalar(p@.get("hook_event_name"@)) {
            codec::lemma_bound_with_entry(k0, "hook_event_name"@, v);
        }
        if let Some(v) = scalar(p@.get("session_id"@)) {
            codec::lemma_bound_with_entry(k1, "session_id"@, v);
        }
        if let Some(v) = scalar(p@.get("cwd"@)) {
            codec::lemma_bound_with_entry(k2, "cwd"@, v);
        }
        codec::lemma_bound_with_entry(k3, "_truncated"@, JsonView::Bool(true));
    }
    Json::Object(kept)
}

proof fn lemma_plain_kept(
    entries: Seq<(Seq<char>, JsonView)>,
    key: Seq<char>,
    value: Option<JsonView>,
    exact: bool,
)
    requires
        codec::plain_entries(entries, 126, exact),
        value is Some ==> codec::plain(value->0, 126, exact),
    ensures
        codec::plain_entries(json::kept_value(entries, key, value), 126, exact),
{
    if let Some(v) = value {
        codec::lemma_plain_with_entry(entries, key, v, 126, exact);
    }
}

proof fn lemma_plain_scalars(entries: Seq<(Seq<char>, JsonView)>, exact: bool)
    requires
        codec::plain_entries(entries, 126, exact),
    ensures
        codec::plain_entries(scalars(entries), 126, exact),
    decreases entries.len(),
{
    if entries.len() > 0 {
        let rest = entries.drop_last();
        assert(entries[entries.len() - 1] == entries.last());
        assert forall|i: int| 0 <= i < rest.len() implies codec::plain(
            (#[trigger] rest[i]).1,
            126,
            exact,
        ) by {
            assert(rest[i] == entries[i]);
        }
        lemma_plain_scalars(rest, exact);
        lemma_plain_kept(scalars(rest), entries.last().0, scalar(Some(entries.last().1)), exact);
    }
}

/// What is made of a plain payload is plain.
proof fn lemma_plain_reductions(p: JsonView, exact: bool)
    requires
        codec::plain(p, 127, exact),
    ensures
        codec::plain(reduced(p, 2048), 127, exact),
        codec::plain(reduced(p, 256), 127, exact),
        codec::plain(skeleton(p), 127, exact),
        codec::plain(identity(p), 127, exact),
{
    let entries = body::top_entries(p);
    let mark = JsonView::Bool(true);
    payload::shrinking_keeps_plain(p, 2048, Some(STATUS_MAX_ARRAY_ITEMS as nat), 127, exact);
    payload::shrinking_keeps_plain(p, 256, Some(STATUS_MAX_ARRAY_ITEMS as nat), 127, exact);
    lemma_plain_scalars(entries, exact);
    codec::lemma_plain_with_entry(scalars(entries), "_truncated"@, mark, 126, exact);
    codec::lemma_plain_lookup(entries, "hook_event_name"@, 126, exact);
    codec::lemma_plain_lookup(entries, "session_id"@, 126, exact);
    codec::lemma_plain_lookup(entries, "cwd"@, 126, exact);
    let event = scalar(p.get("hook_event_name"@));
    let session = scalar(p.get("session_id"@));
    let cwd = scalar(p.get("cwd"@));
    let s1 = json::kept_value(Seq::empty(), "hook_event_name"@, event);
    let s2 = json::kept_value(s1, "session_id"@, session);
    lemma_plain_kept(Seq::empty(), "hook_event_name"@, event, exact);
    lemma_plain_kept(s1, "session_id"@, session, exact);
    lemma_plain_kept(s2, "cwd"@, cwd, exact);
    codec::lemma_plain_with_entry(identity_entries(p), "_truncated"@, mark, 126, exact);
}

/// The body of an event with the payload `p`: JSON text within the budget. It is the payload
/// with strings and arrays clipped, else the scalars at its top level, else the identity of the
/// event. Without floating point numbers it reads back as that.
pub fn fit_body(p: &Json) -> (r: String)
    ensures
        r@ == codec::json_text(fitted(p@)),
        text::units(r@) <= STATUS_BODY_BUDGET,
        codec::plain(fitted(p@), 127, false) ==> codec::is_json(r@),
        codec::plain(fitted(p@), 127, true) ==> codec::reads_as(r@, fitted(p@)),
        codec::plain(p@, 127, false) ==> codec::is_json(r@),
        codec::plain(p@, 127, true) ==> codec::reads_as(r@, fitted(p@)),
{
    proof {
        if codec::plain(p@, 127, false) {
            lemma_plain_reductions(p@, false);
        }
        if codec::plain(p@, 127, true) {
            lemma_plain_reductions(p@, true);
        }
    }
    let s = codec::to_text(&payload::shrink(p, 2048, Some(STATUS_MAX_ARRAY_ITEMS)));
    if can_be_body(s.as_str()) {
        return s;
    }
    let s = codec::to_text(&payload::shrink(p, 256, Some(STATUS_MAX_ARRAY_ITEMS)));
    if can_be_body(s.as_str()) {
        return s;
    }
    let s = codec::to_text(&skeleton_of(p));
    if can_be_body(s.as_str()) {
        return s;
    }
    let s = codec::to_text(&identity_from(p));
    proof {
        text::units_within_bytes(s@);
    }
    s
}

// ---- what every body keeps ----

/// A payload whose strings and arrays are within the limits and whose text fits is uploaded as
/// it is.
pub proof fn small_payloads_are_verbatim(p: JsonView)
    requires
        payload::within(p, 2048, Some(STATUS_MAX_ARRAY_ITEMS as nat)),
        fits(codec::json_text(p)),
    ensures
        fitted(p) == p,
{
    payload::shrinking_leaves_what_is_within(p, 2048, Some(STATUS_MAX_ARRAY_ITEMS as nat));
}

proof fn lemma_scalars(entries: Seq<(Seq<char>, JsonView)>, key: Seq<char>)
    ensures
        scalar(json::lookup(entries, key)) is Some ==> json::lookup(scalars(entries), key)
            == scalar(json::lookup(entries, key)),
    decreases entries.len(),
{
    if entries.len() > 0 {
        let rest = entries.drop_last();
        lemma_scalars(rest, key);
        json::lemma_kept_value(
            scalars(rest),
            entries.last().0,
            scalar(Some(entries.last().1)),
            key,
        );
    }
}

/// The skeleton and the identity have what is kept of the name of the event, of its session
/// and of its directory, and a mark.
pub proof fn reductions_keep_the_identity(p: JsonView, key: Seq<char>)
    requires
        key == "hook_event_name"@ || key == "session_id"@ || key == "cwd"@,
        scalar(p.get(key)) is Some,
    ensures
        skeleton(p).get(key) == scalar(p.get(key)),
        identity(p).get(key) == scalar(p.get(key)),
        skeleton(p).get("_truncated"@) == Some(JsonView::Bool(true)),
        identity(p).get("_truncated"@) == Some(JsonView::Bool(true)),
{
    reveal_strlit("hook_event_name");
    reveal_strlit("session_id");
    reveal_strlit("cwd");
    reveal_strlit("_truncated");
    assert("hook_event_name"@.len() == 15);
    assert("session_id"@.len() == 10);
    assert("cwd"@.len() == 3);
    assert("_truncated"@[0] != "session_id"@[0]);
    let mark = JsonView::Bool(true);
    lemma_scalars(body::top_entries(p), key);
    json::lookup_after_with_entry(scalars(body::top_entries(p)), "_truncated"@, mark, key);
    json::lookup_after_with_entry(identity_entries(p), "_truncated"@, mark, key);
    let event = scalar(p.get("hook_event_name"@));
    let session = scalar(p.get("session_id"@));
    let cwd = scalar(p.get("cwd"@));
    let s1 = json::kept_value(Seq::empty(), "hook_event_name"@, event);
    let s2 = json::kept_value(s1, "session_id"@, session);
    json::lemma_kept_value(Seq::empty(), "hook_event_name"@, event, key);
    json::lemma_kept_value(s1, "session_id"@, session, key);
    json::lemma_kept_value(s2, "cwd"@, cwd, key);
}

/// Whatever is uploaded of a payload names the event, its session and its directory where the
/// payload does so by scalars.
pub proof fn bodies_keep_the_identity(p: JsonView, key: Seq<char>)
    requires
        key == "hook_event_name"@ || key == "session_id"@ || key == "cwd"@,
        scalar(p.get(key)) is Some,
    ensures
        fitted(p).get(key) is Some,
{
    reductions_keep_the_identity(p, key);
    payload::shrinking_keeps_keys(p, 2048, Some(STATUS_MAX_ARRAY_ITEMS as nat), key);
    payload::shrinking_keeps_keys(p, 256, Some(STATUS_MAX_ARRAY_ITEMS as nat), key);
}

// ---- taking an event in ----

/// The event that is uploaded for a payload: none where its project has no proper name. The
/// project is named after the directory in the payload, else after the one that the session
/// started in, else after the one that the hook runs in.
pub open spec fn event_for(
    p: JsonView,
    project_dir: Option<Seq<char>>,
    current_dir: Option<Seq<char>>,
) -> Option<UploadView> {
    let name = sessions::first_name(p.str_at("cwd"@), project_dir, current_dir);
    if name is Some && text::units(name->0) <= 128 {
        Some(
            UploadView {
                project: name->0,
                session_id: upload::short_text(
                    p,
                    "session_id"@,
                    "unknown"@,
                    hook::MAX_SESSION_ID_LEN as nat,
                ),
                event: upload::short_text(
                    p,
                    "hook_event_name"@,
                    "Unknown"@,
                    hook::MAX_EVENT_LEN as nat,
                ),
                source: None,
                body: codec::json_text(fitted(p)),
            },
        )
    } else {
        None
    }
}

/// The event that is uploaded for a text on standard input: none where it is blank or no JSON.
pub open spec fn ingested(
    raw: Seq<char>,
    parsed: Result<JsonView, Seq<char>>,
    project_dir: Option<Seq<char>>,
    current_dir: Option<Seq<char>>,
) -> Option<UploadView> {
    if text::trimmed(raw).len() == 0 {
        None
    } else {
        match parsed {
            Ok(p) => event_for(p, project_dir, current_dir),
            Err(_) => None,
        }
    }
}

/// The view of an optional event.
pub open spec fn upload_view(u: Option<Upload>) -> Option<UploadView> {
    match u {
        Some(u) => Some(u@),
        None => None,
    }
}

/// The name of the directory that an event belongs to.
pub fn project_name(payload: &Json, project_dir: Option<&str>, current_dir: Option<&str>) -> (r:
    Option<String>)
    ensures
        text::option_text(r) == sessions::first_name(
            payload@.str_at("cwd"@),
            text::ref_text(project_dir),
            text::ref_text(current_dir),
        ),
{
    sessions::first_named(payload.str_at("cwd"), project_dir, current_dir)
}

/// The event that is uploaded for a payload.
pub fn hook_payload(payload: &Json, project_dir: Option<&str>, current_dir: Option<&str>) -> (r:
    Option<Upload>)
    ensures
        upload_view(r) == event_for(
            payload@,
            text::ref_text(project_dir),
            text::ref_text(current_dir),
        ),
        r is Some ==> text::units(r->0@.body) <= STATUS_BODY_BUDGET,
        r is Some && codec::plain(payload@, 127, false) ==> codec::is_json(r->0@.body),
        r is Some && codec::plain(fitted(payload@), 127, false) ==> codec::is_json(r->0@.body),
        r is Some && codec::plain(fitted(payload@), 127, true) ==> codec::reads_as(
            r->0@.body,
            fitted(payload@),
        ),
{
    let project = match project_name(payload, project_dir, current_dir) {
        Some(name) => name,
        None => {
            return None;
        },
    };
    if text::len16(project.as_str()) > 128 {
        return None;
    }
    let session_id = upload::short(payload, "session_id", "unknown", hook::MAX_SESSION_ID_LEN);
    let event = upload::short(payload, "hook_event_name", "Unknown", hook::MAX_EVENT_LEN);
    Some(Upload { project, session_id, event, source: None, body: fit_body(payload) })
}

/// The event that is uploaded for a text on standard input.
pub fn run_hook(raw: &str, project_dir: Option<&str>, current_dir: Option<&str>) -> (r: Option<
    Upload,
>)
    ensures
        upload_view(r) == ingested(
            raw@,
            codec::json_parsed(raw@),
            text::ref_text(project_dir),
            text::ref_text(current_dir),
        ),
        r is Some ==> text::units(r->0@.body) <= STATUS_BODY_BUDGET,
        r is Some ==> codec::is_json(r->0@.body),
{
    if text::trim(raw).as_str().is_empty() {
        return None;
    }
    match codec::parse(raw) {
        Ok(payload) => hook_payload(&payload, project_dir, current_dir),
        Err(_) => None,
    }
}

// ---- the command ----

/// How a command is used.
pub open spec fn usage_of(key: Seq<char>) -> Seq<char> {
    if key == "version"@ {
        "jj-status --version"@
    } else if key == "update"@ {
        "jj-status update | upgrade"@
    } else if key == "uninstall"@ {
        "jj-status uninstall"@
    } else if key == "status.hook"@ {
        "jj-status hook   (hook JSON on stdin)"@
    } else if key == "status.sessions"@ {
        "jj-status sessions <project> [--limit N]   (default 50, max 200)"@
    } else if key == "status.ls"@ {
        "jj-status ls <project> <session_id>"@
    } else if key == "status.rm"@ {
        "jj-status rm <project> <session_id>"@
    } else {
        "jj-status --help"@
    }
}

/// How a command is used.
pub fn usage(key: &str) -> (r: String)
    ensures
        r@ == usage_of(key@),
{
    if text::same(key, "version") {
        "jj-status --version".to_owned()
    } else if text::same(key, "update") {
        "jj-status update | upgrade".to_owned()
    } else if text::same(key, "uninstall") {
        "jj-status uninstall".to_owned()
    } else if text::same(key, "status.hook") {
        "jj-status hook   (hook JSON on stdin)".to_owned()
    } else if text::same(key, "status.sessions") {
        "jj-status sessions <project> [--limit N]   (default 50, max 200)".to_owned()
    } else if text::same(key, "status.ls") {
        "jj-status ls <project> <session_id>".to_owned()
    } else if text::same(key, "status.rm") {
        "jj-status rm <project> <session_id>".to_owned()
    } else {
        "jj-status --help".to_owned()
    }
}

/// The line that the program gives up with.
pub fn fail(message: &str) -> (r: String)
    ensures
        r@ == complaint::complaint(STATUS_ENTRY@, message@),
{
    complaint::die(STATUS_ENTRY, message)
}

/// The line that the program gives up with when it is not used as it should be.
pub fn fail_usage(key: &str, reason: &str) -> (r: String)
    ensures
        r@ == complaint::usage_complaint(STATUS_ENTRY@, usage_of(key@), reason@),
{
    complaint::die_usage(STATUS_ENTRY, usage(key).as_str(), reason)
}

/// A limit is at least 1 and at most 200.
pub open spec fn limit_rule() -> LimitRule<'static> {
    LimitRule {
        low: 1,
        high: SESSION_LIST_LIMIT_MAX,
        reason: "--limit must be integer in 1..200",
    }
}

/// The project and the session that the arguments name.
pub fn parse_project_session(key: &str, args: &[String]) -> (r: Result<(String, String), String>)
    ensures
        sessions::pair_result(r) == sessions::project_session(
            STATUS_ENTRY@,
            usage_of(key@),
            checks::args_view(args@),
        ),
{
    sessions::read_project_session(STATUS_ENTRY, usage(key).as_str(), args)
}

/// The project and the limit that the arguments name.
pub fn parse_sessions_args(args: &[String]) -> (r: Result<(String, Option<u32>), String>)
    ensures
        sessions::query_result(r) == sessions::sessions_query(
            STATUS_ENTRY@,
            usage_of("status.sessions"@),
            limit_rule(),
            checks::args_view(args@),
        ),
{
    let rule = LimitRule {
        low: 1,
        high: SESSION_LIST_LIMIT_MAX,
        reason: "--limit must be integer in 1..200",
    };
    sessions::read_sessions_query(STATUS_ENTRY, usage("status.sessions").as_str(), &rule, args)
}

/// What the program does: a global command, take an event in, show what the worker has at a
/// path, or remove that.
pub enum StatusAction {
    Global(Global),
    Ingest,
    Show { path: String },
    Remove { path: String },
}

/// What the program does.
pub enum StatusView {
    Global(Global),
    Ingest,
    Show { path: Seq<char> },
    Remove { path: Seq<char> },
}

impl View for StatusAction {
    type V = StatusView;

    open spec fn view(&self) -> StatusView {
        match self {
            StatusAction::Global(global) => StatusView::Global(*global),
            StatusAction::Ingest => StatusView::Ingest,
            StatusAction::Show { path } => StatusView::Show { path: path@ },
            StatusAction::Remove { path } => StatusView::Remove { path: path@ },
        }
    }
}

/// The query that an action makes: what is shown is asked for with GET, what is removed with
/// DELETE, and nothing else asks the worker.
pub open spec fn query_of(action: StatusView) -> Option<QueryView> {
    match action {
        StatusView::Show { path } => Some(api::showing(path)),
        StatusView::Remove { path } => Some(api::removing(path)),
        _ => None,
    }
}

/// The query that an action makes.
pub fn action_query(action: &StatusAction) -> (r: Option<Query>)
    ensures
        api::query_view(r) == query_of(action@),
{
    match action {
        StatusAction::Show { path } => Some(api::show(path.as_str())),
        StatusAction::Remove { path } => Some(api::remove(path.as_str())),
        _ => None,
    }
}

/// The request that an action makes, where it makes one: a GET or a DELETE of its path, without a
/// body and without a deadline.
pub fn action_request(action: &StatusAction, config: Result<Config, String>) -> (r: Option<
    Result<Request, String>,
>)
    ensures
        (match r {
            Some(request) => Some(api::request_result(request)),
            None => None,
        }) == (match query_of(action@) {
            Some(query) => Some(api::query_request(query, config::config_result(config))),
            None => None,
        }),
{
    match action_query(action) {
        Some(query) => Some(query.request(config)),
        None => None,
    }
}

/// What the reading of a command gives.
pub open spec fn action_result(r: Result<StatusAction, String>) -> Result<StatusView, Seq<char>> {
    match r {
        Ok(action) => Ok(action@),
        Err(line) => Err(line@),
    }
}

/// What is said of a verb that there is not.
pub open spec fn unknown_verb(verb: Seq<char>) -> Seq<char> {
    "unknown command '"@ + verb + "'; usage: "@ + usage_of("help"@)
}

/// What is done for a verb and its arguments, or the line to give up with. Arguments of `hook`
/// are ignored.
pub open spec fn verb_plan(verb: Seq<char>, rest: Seq<Seq<char>>) -> Result<StatusView, Seq<char>> {
    if verb == "hook"@ {
        Ok(StatusView::Ingest)
    } else if verb == "sessions"@ {
        match sessions::sessions_query(
            STATUS_ENTRY@,
            usage_of("status.sessions"@),
            limit_rule(),
            rest,
        ) {
            Ok((project, limit)) => Ok(
                StatusView::Show { path: sessions::sessions_path(project, limit) },
            ),
            Err(line) => Err(line),
        }
    } else if verb == "ls"@ {
        match sessions::project_session(STATUS_ENTRY@, usage_of("status.ls"@), rest) {
            Ok((project, session_id)) => Ok(
                StatusView::Show { path: sessions::session_events_path(project, session_id) },
            ),
            Err(line) => Err(line),
        }
    } else if verb == "rm"@ {
        match sessions::project_session(STATUS_ENTRY@, usage_of("status.rm"@), rest) {
            Ok((project, session_id)) => Ok(
                StatusView::Remove { path: sessions::session_path(project, session_id) },
            ),
            Err(line) => Err(line),
        }
    } else {
        Err(complaint::complaint(STATUS_ENTRY@, unknown_verb(verb)))
    }
}

/// What is done for a verb and its arguments.
pub fn run(verb: &str, rest: &[String]) -> (r: Result<StatusAction, String>)
    ensures
        action_result(r) == verb_plan(verb@, checks::args_view(rest@)),
{
    if text::same(verb, "hook") {
        Ok(StatusAction::Ingest)
    } else if text::same(verb, "sessions") {
        match parse_sessions_args(rest) {
            Ok((project, limit)) => Ok(
                StatusAction::Show { path: sessions::path_of_sessions(project.as_str(), limit) },
            ),
            Err(line) => Err(line),
        }
    } else if text::same(verb, "ls") {
        match parse_project_session("status.ls", rest) {
            Ok((project, session_id)) => Ok(
                StatusAction::Show {
                    path: sessions::path_of_session_events(project.as_str(), session_id.as_str()),
                },
            ),
            Err(line) => Err(line),
        }
    } else if text::same(verb, "rm") {
        match parse_project_session("status.rm", rest) {
            Ok((project, session_id)) => Ok(
                StatusAction::Remove {
                    path: sessions::path_of_session(project.as_str(), session_id.as_str()),
                },
            ),
            Err(line) => Err(line),
        }
    } else {
        let mut message = "unknown command '".to_owned();
        message.append(verb);
        message.append("'; usage: ");
        message.append(usage("help").as_str());
        Err(fail(message.as_str()))
    }
}

/// The key under which the usage of a global command is found.
pub open spec fn global_key(global: Global) -> Seq<char> {
    match global {
        Global::Help => "help"@,
        Global::Version => "version"@,
        Global::Update => "update"@,
        Global::Uninstall => "uninstall"@,
    }
}

fn key_of(global: Global) -> (r: &'static str)
    ensures
        r@ == global_key(global),
{
    match global {
        Global::Help => "help",
        Global::Version => "version",
        Global::Update => "update",
        Global::Uninstall => "uninstall",
    }
}

/// What the program does for its arguments, or the line that it gives up with.
pub open spec fn main_plan(argv: Seq<Seq<char>>) -> Result<StatusView, Seq<char>> {
    if argv.len() == 0 {
        Ok(StatusView::Global(Global::Help))
    } else {
        match dispatch::global_of(argv[0]) {
            Some(global) => if argv.len() > 1 {
                Err(
                    complaint::usage_complaint(
                        STATUS_ENTRY@,
                        usage_of(global_key(global)),
                        checks::about("unexpected argument"@, argv[1]),
                    ),
                )
            } else {
                Ok(StatusView::Global(global))
            },
            None => verb_plan(argv[0], argv.drop_first()),
        }
    }
}

/// What the program does for its arguments.
pub fn dispatch(argv: &[String]) -> (r: Result<StatusAction, String>)
    ensures
        action_result(r) == main_plan(checks::args_view(argv@)),
{
    if argv.len() == 0 {
        return Ok(StatusAction::Global(Global::Help));
    }
    let ghost all = checks::args_view(argv@);
    assert(all[0] == argv@[0]@);
    if let Some(global) = dispatch::read_global(argv[0].as_str()) {
        if argv.len() > 1 {
            let reason = checks::say_about("unexpected argument", argv[1].as_str());
            return Err(fail_usage(key_of(global), reason.as_str()));
        }
        return Ok(StatusAction::Global(global));
    }
    let rest = vstd::slice::slice_subrange(argv, 1, argv.len());
    assert(checks::args_view(rest@) =~= all.drop_first());
    run(argv[0].as_str(), rest)
}

// ---- how a payload is reduced ----

/// What is tried as a body of a payload, in this order.
pub open spec fn candidates(p: JsonView) -> Seq<JsonView> {
    seq![
        payload::shrunk(p, 2048, Some(100)),
        payload::shrunk(p, 256, Some(100)),
        skeleton(p),
        identity(p),
    ]
}

/// The first candidate whose text has at most 60000 code units, and is not empty, is uploaded, and
/// the last one where there is none.
pub proof fn first_candidate_that_fits_is_taken(p: JsonView, k: int)
    requires
        0 <= k < 4,
        forall|j: int|
            0 <= j < k ==> ({
                let s = codec::json_text(#[trigger] candidates(p)[j]);
                s.len() == 0 || text::units(s) > 60000
            }),
        k == 3 || ({
            let s = codec::json_text(candidates(p)[k]);
            s.len() > 0 && text::units(s) <= 60000
        }),
    ensures
        fitted(p) == candidates(p)[k],
{
    let c = candidates(p);
    if k > 0 {
        assert(!fits(codec::json_text(c[0])));
    }
    if k > 1 {
        assert(!fits(codec::json_text(c[1])));
    }
    if k > 2 {
        assert(!fits(codec::json_text(c[2])));
    }
}

/// What is left of a value: a string has at most 256 code units and its marker, arrays and objects
/// are left out, and everything else stays.
pub open spec fn left_of(v: Option<JsonView>) -> Option<JsonView> {
    match v {
        Some(JsonView::Null) => Some(JsonView::Null),
        Some(JsonView::Bool(b)) => Some(JsonView::Bool(b)),
        Some(JsonView::Number(n)) => Some(JsonView::Number(n)),
        Some(JsonView::Str(s)) => Some(JsonView::Str(payload::clipped(s, 256))),
        _ => None,
    }
}

proof fn lemma_no_scalar(entries: Seq<(Seq<char>, JsonView)>, key: Seq<char>)
    requires
        forall|i: int| 0 <= i < entries.len() ==> (#[trigger] entries[i]).0 != key,
    ensures
        json::lookup(scalars(entries), key) is None,
    decreases entries.len(),
{
    if entries.len() > 0 {
        let rest = entries.drop_last();
        assert(entries[entries.len() - 1] == entries.last());
        assert forall|i: int| 0 <= i < rest.len() implies (#[trigger] rest[i]).0 != key by {
            assert(rest[i] == entries[i]);
        }
        lemma_no_scalar(rest, key);
        json::lemma_kept_value(
            scalars(rest),
            entries.last().0,
            scalar(Some(entries.last().1)),
            key,
        );
    }
}

proof fn lemma_left(entries: Seq<(Seq<char>, JsonView)>, key: Seq<char>)
    requires
        json::in_order(entries),
    ensures
        json::lookup(scalars(entries), key) == left_of(json::lookup(entries, key)),
    decreases entries.len(),
{
    if entries.len() > 0 {
        let rest = entries.drop_last();
        let last = entries.last();
        let n = entries.len() - 1;
        assert(entries[n] == last);
        assert(json::in_order(rest)) by {
            assert forall|i: int, j: int| 0 <= i < j < rest.len() implies text::precedes(
                (#[trigger] rest[i]).0,
                (#[trigger] rest[j]).0,
            ) by {
                assert(rest[i] == entries[i] && rest[j] == entries[j]);
            }
        }
        lemma_left(rest, key);
        json::lemma_kept_value(scalars(rest), last.0, scalar(Some(last.1)), key);
        if last.0 == key && scalar(Some(last.1)) is None {
            assert forall|i: int| 0 <= i < rest.len() implies (#[trigger] rest[i]).0 != key by {
                assert(rest[i] == entries[i]);
                assert(text::precedes(entries[i].0, entries[n].0));
                text::precedes_is_irreflexive(key);
            }
            lemma_no_scalar(rest, key);
        }
    }
}

/// A skeleton has what is left of every value of the payload, and the mark; an identity what is
/// left of the name of the event, of its session and of its directory, and the mark; neither has
/// anything else.
pub proof fn reductions_hold_what_is_left(p: JsonView, key: Seq<char>)
    requires
        p is Object ==> json::in_order(p->Object_0),
    ensures
        skeleton(p).get(key) == (if key == "_truncated"@ {
            Some(JsonView::Bool(true))
        } else {
            left_of(p.get(key))
        }),
        identity(p).get(key) == (if key == "_truncated"@ {
            Some(JsonView::Bool(true))
        } else if key == "hook_event_name"@ || key == "session_id"@ || key == "cwd"@ {
            left_of(p.get(key))
        } else {
            None
        }),
{
    reveal_strlit("hook_event_name");
    reveal_strlit("session_id");
    reveal_strlit("cwd");
    reveal_strlit("_truncated");
    assert("hook_event_name"@.len() == 15);
    assert("session_id"@.len() == 10 && "session_id"@[0] == 's');
    assert("cwd"@.len() == 3);
    assert("_truncated"@.len() == 10 && "_truncated"@[0] == '_');
    let mark = JsonView::Bool(true);
    let entries = body::top_entries(p);
    lemma_left(entries, key);
    json::lookup_after_with_entry(scalars(entries), "_truncated"@, mark, key);
    json::lookup_after_with_entry(identity_entries(p), "_truncated"@, mark, key);
    let event = scalar(p.get("hook_event_name"@));
    let session = scalar(p.get("session_id"@));
    let cwd = scalar(p.get("cwd"@));
    let s0 = Seq::<(Seq<char>, JsonView)>::empty();
    let s1 = json::kept_value(s0, "hook_event_name"@, event);
    let s2 = json::kept_value(s1, "session_id"@, session);
    json::lemma_kept_value(s0, "hook_event_name"@, event, key);
    json::lemma_kept_value(s1, "session_id"@, session, key);
    json::lemma_kept_value(s2, "cwd"@, cwd, key);
}

// ---- what an event says ----

/// An event is uploaded where a directory names its project in at most 128 code units: the one in
/// the payload, else the one in which the session started, else the current one. It has the names
/// that its payload gives, `unknown` and `Unknown` where it gives none, no agent, and the payload
/// as its body.
pub proof fn events_say_what_the_payload_says(
    p: JsonView,
    project_dir: Option<Seq<char>>,
    current_dir: Option<Seq<char>>,
)
    ensures
        ({
            let told = if p.str_at("cwd"@) is Some {
                paths::base_name(p.str_at("cwd"@)->0)
            } else {
                None
            };
            let start = if project_dir is Some {
                paths::base_name(project_dir->0)
            } else {
                None
            };
            let here = if current_dir is Some {
                paths::base_name(current_dir->0)
            } else {
                None
            };
            let name = if told is Some {
                told
            } else if start is Some {
                start
            } else {
                here
            };
            let event = event_for(p, project_dir, current_dir);
            &&& event is Some <==> name is Some && text::units(name->0) <= 128
            &&& event is Some ==> event->0.project == name->0
            &&& event is Some ==> event->0.session_id == payload::clipped(
                if p.str_at("session_id"@) is Some {
                    p.str_at("session_id"@)->0
                } else {
                    "unknown"@
                },
                128,
            )
            &&& event is Some ==> event->0.event == payload::clipped(
                if p.str_at("hook_event_name"@) is Some {
                    p.str_at("hook_event_name"@)->0
                } else {
                    "Unknown"@
                },
                64,
            )
            &&& event is Some ==> event->0.source is None
            &&& event is Some ==> event->0.body == codec::json_text(fitted(p))
        }),
{
}

/// Only JSON is taken in, and what is taken in is its value.
pub proof fn only_json_is_taken_in(
    raw: Seq<char>,
    p: JsonView,
    why: Seq<char>,
    project_dir: Option<Seq<char>>,
    current_dir: Option<Seq<char>>,
)
    ensures
        text::trimmed(raw).len() == 0 ==> ingested(raw, Ok(p), project_dir, current_dir) is None,
        ingested(raw, Err(why), project_dir, current_dir) is None,
        text::trimmed(raw).len() > 0 ==> ingested(raw, Ok(p), project_dir, current_dir)
            == event_for(p, project_dir, current_dir),
{
}

// ---- what the verbs ask for ----

proof fn lemma_usages()
    ensures
        usage_of("version"@) == "jj-status --version"@,
        usage_of("update"@) == "jj-status update | upgrade"@,
        usage_of("uninstall"@) == "jj-status uninstall"@,
        usage_of("status.hook"@) == "jj-status hook   (hook JSON on stdin)"@,
        usage_of("status.sessions"@)
            == "jj-status sessions <project> [--limit N]   (default 50, max 200)"@,
        usage_of("status.ls"@) == "jj-status ls <project> <session_id>"@,
        usage_of("status.rm"@) == "jj-status rm <project> <session_id>"@,
        usage_of("help"@) == "jj-status --help"@,
{
    reveal_strlit("version");
    reveal_strlit("update");
    reveal_strlit("uninstall");
    reveal_strlit("status.hook");
    reveal_strlit("status.sessions");
    reveal_strlit("status.ls");
    reveal_strlit("status.rm");
    reveal_strlit("help");
    assert("version"@.len() == 7);
    assert("update"@.len() == 6);
    assert("uninstall"@.len() == 9 && "uninstall"@[0] == 'u');
    assert("status.hook"@.len() == 11);
    assert("status.sessions"@.len() == 15);
    assert("status.ls"@.len() == 9 && "status.ls"@[0] == 's' && "status.ls"@[7] == 'l');
    assert("status.rm"@.len() == 9 && "status.rm"@[0] == 's' && "status.rm"@[7] == 'r');
    assert("help"@.len() == 4);
}

proof fn lemma_verbs()
    ensures
        "hook"@.len() == 4,
        "sessions"@.len() == 8,
        "ls"@.len() == 2,
        "rm"@.len() == 2,
        "ls"@ != "rm"@,
        dispatch::global_of("hook"@) is None,
        dispatch::global_of("sessions"@) is None,
        dispatch::global_of("ls"@) is None,
        dispatch::global_of("rm"@) is None,
{
    reveal_strlit("hook");
    reveal_strlit("sessions");
    reveal_strlit("ls");
    reveal_strlit("rm");
    reveal_strlit("help");
    reveal_strlit("-h");
    reveal_strlit("--help");
    reveal_strlit("-v");
    reveal_strlit("--version");
    reveal_strlit("update");
    reveal_strlit("upgrade");
    reveal_strlit("uninstall");
    assert("ls"@[0] == 'l' && "rm"@[0] == 'r' && "-h"@[0] == '-' && "-v"@[0] == '-');
    assert("hook"@[1] == 'o' && "help"@[1] == 'e');
    assert("--help"@.len() == 6 && "--version"@.len() == 9 && "update"@.len() == 6);
    assert("upgrade"@.len() == 7 && "uninstall"@.len() == 9);
}

/// `sessions` shows the sessions of a project, at most as many as a limit from 1 to 200 says; `ls`
/// shows the events of a session, and `rm` removes it.
pub proof fn verbs_ask_for_what_they_name(
    project: Seq<char>,
    session_id: Seq<char>,
    arg: Seq<char>,
    n: u32,
)
    requires
        !"--"@.is_prefix_of(project),
        1 <= text::units(project) <= 128,
        !"--"@.is_prefix_of(session_id),
        !"--"@.is_prefix_of(arg),
        text::parsed_u32(arg) == Some(n),
        1 <= n <= 200,
    ensures
        ({
            let base = "/projects/"@ + uri::uri_component(project) + "/sessions"@;
            let some = base + "?limit="@ + text::decimal(n as nat);
            let one = "/projects/"@ + uri::uri_component(project) + "/sessions/"@
                + uri::uri_component(session_id);
            &&& main_plan(seq!["sessions"@, project]) == Ok::<StatusView, Seq<char>>(
                StatusView::Show { path: base },
            )
            &&& main_plan(seq!["sessions"@, project, "--limit"@, arg]) == Ok::<
                StatusView,
                Seq<char>,
            >(StatusView::Show { path: some })
            &&& main_plan(seq!["sessions"@, "--limit"@, arg, project]) == Ok::<
                StatusView,
                Seq<char>,
            >(StatusView::Show { path: some })
            &&& main_plan(seq!["ls"@, project, session_id]) == Ok::<StatusView, Seq<char>>(
                StatusView::Show { path: one + "/statuses"@ },
            )
            &&& main_plan(seq!["rm"@, project, session_id]) == Ok::<StatusView, Seq<char>>(
                StatusView::Remove { path: one },
            )
        }),
{
    lemma_verbs();
    let entry = STATUS_ENTRY@;
    let usage = usage_of("status.sessions"@);
    let rule = limit_rule();
    let a1 = seq![project, "--limit"@, arg];
    let a2 = seq!["--limit"@, arg, project];
    let args = seq![project, session_id];
    assert(seq!["sessions"@, project].drop_first() =~= seq![project]);
    assert(seq!["sessions"@, project, "--limit"@, arg].drop_first() =~= a1);
    assert(seq!["sessions"@, "--limit"@, arg, project].drop_first() =~= a2);
    assert(seq!["ls"@, project, session_id].drop_first() =~= args);
    assert(seq!["rm"@, project, session_id].drop_first() =~= args);
    assert(sessions::is_limit(rule, arg, n));
    sessions::accepted_queries_name_a_project(entry, usage, rule, seq![project], project, None);
    sessions::accepted_queries_name_a_project(entry, usage, rule, a1, project, Some(n));
    sessions::accepted_queries_name_a_project(entry, usage, rule, a2, project, Some(n));
    let ls = usage_of("status.ls"@);
    let rm = usage_of("status.rm"@);
    sessions::two_arguments_name_a_session(entry, ls, args, project, session_id);
    sessions::two_arguments_name_a_session(entry, rm, args, project, session_id);
    sessions::paths_are_written_out(project, session_id, n);
}

/// A verb that is not used as it should be gives up with the complaint about its arguments, which
/// says how that verb is used; `hook` takes an event in whatever its arguments are.
pub proof fn verbs_complain_about_their_arguments(args: Seq<Seq<char>>)
    ensures
        ({
            let entry = "jj-status"@;
            let sessions = sessions::sessions_query(
                entry,
                "jj-status sessions <project> [--limit N]   (default 50, max 200)"@,
                LimitRule { low: 1, high: 200, reason: "--limit must be integer in 1..200" },
                args,
            );
            let ls = sessions::project_session(
                entry,
                "jj-status ls <project> <session_id>"@,
                args,
            );
            let rm = sessions::project_session(
                entry,
                "jj-status rm <project> <session_id>"@,
                args,
            );
            &&& main_plan(seq!["hook"@] + args) == Ok::<StatusView, Seq<char>>(StatusView::Ingest)
            &&& sessions is Err ==> main_plan(seq!["sessions"@] + args) == Err::<
                StatusView,
                Seq<char>,
            >(sessions->Err_0)
            &&& ls is Err ==> main_plan(seq!["ls"@] + args) == Err::<StatusView, Seq<char>>(
                ls->Err_0,
            )
            &&& rm is Err ==> main_plan(seq!["rm"@] + args) == Err::<StatusView, Seq<char>>(
                rm->Err_0,
            )
        }),
{
    lemma_verbs();
    lemma_usages();
    assert((seq!["sessions"@] + args).drop_first() =~= args);
    assert((seq!["ls"@] + args).drop_first() =~= args);
    assert((seq!["rm"@] + args).drop_first() =~= args);
}

/// Without arguments help is shown; a global command stands alone, and what follows it is not
/// wanted; any other word is unknown.
pub proof fn other_words_are_told_apart(word: Seq<char>, next: Seq<char>, more: Seq<Seq<char>>)
    ensures
        main_plan(Seq::empty()) == Ok::<StatusView, Seq<char>>(StatusView::Global(Global::Help)),
        dispatch::global_of(word) is Some ==> {
            let usage = match dispatch::global_of(word)->0 {
                Global::Help => "jj-status --help"@,
                Global::Version => "jj-status --version"@,
                Global::Update => "jj-status update | upgrade"@,
                Global::Uninstall => "jj-status uninstall"@,
            };
            &&& main_plan(seq![word]) == Ok::<StatusView, Seq<char>>(
                StatusView::Global(dispatch::global_of(word)->0),
            )
            &&& main_plan(seq![word, next] + more) == Err::<StatusView, Seq<char>>(
                complaint::usage_complaint("jj-status"@, usage, "unexpected argument "@ + next),
            )
        },
        dispatch::global_of(word) is None && word != "hook"@ && word != "sessions"@ && word
            != "ls"@ && word != "rm"@ ==> main_plan(seq![word] + more) == Err::<
            StatusView,
            Seq<char>,
        >(
            complaint::complaint(
                "jj-status"@,
                "unknown command '"@ + word + "'; usage: jj-status --help"@,
            ),
        ),
{
    lemma_usages();
    reveal_strlit("unexpected argument");
    reveal_strlit("unexpected argument ");
    reveal_strlit(" ");
    assert("unexpected argument"@ + " "@ =~= "unexpected argument "@);
    assert((seq![word, next] + more)[0] == word);
    assert((seq![word, next] + more)[1] == next);
    assert((seq![word] + more)[0] == word);
    reveal_strlit("'; usage: ");
    reveal_strlit("jj-status --help");
    reveal_strlit("'; usage: jj-status --help");
    assert(unknown_verb(word) =~= "unknown command '"@ + word + "'; usage: jj-status --help"@);
}

/// What is shown is asked for with GET and what is removed with DELETE, each at its path; the
/// answer is shown for the first alone, and nothing else asks the worker.
pub proof fn actions_ask_for_their_path(path: Seq<char>, global: Global)
    ensures
        query_of(StatusView::Show { path }) == Some(
            QueryView { method: "GET"@, path, shown: true },
        ),
        query_of(StatusView::Remove { path }) == Some(
            QueryView { method: "DELETE"@, path, shown: false },
        ),
        query_of(StatusView::Ingest) is None,
        query_of(StatusView::Global(global)) is None,
{
}

/// What is done is seen as it is, and so is what the reading of a command gives.
pub proof fn actions_are_seen_as_they_are(
    action: StatusAction,
    event: Upload,
    global: Global,
    path: String,
)
    ensures
        upload_view(Some(event)) == Some(event@),
        upload_view(None) is None,
        StatusAction::Global(global)@ == StatusView::Global(global),
        StatusAction::Ingest@ == StatusView::Ingest,
        (StatusAction::Show { path })@ == (StatusView::Show { path: path@ }),
        (StatusAction::Remove { path })@ == (StatusView::Remove { path: path@ }),
        action_result(Ok(action)) == Ok::<StatusView, Seq<char>>(action@),
        action_result(Err(path)) == Err::<StatusView, Seq<char>>(path@),
{
}

} // verus!
