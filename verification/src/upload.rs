//! The events that are uploaded.

use vstd::prelude::*;
use crate::api::{Request, RequestView};
use crate::config::{Config, ConfigView};
use crate::json::{Json, JsonObject, JsonView};
use crate::{api, codec, config, json, payload, sessions, text, uri};

verus! {

/// An event of a session of a project. `source` is the agent that it comes from, where that is
/// told.
pub struct Upload {
    pub project: String,
    pub session_id: String,
    pub event: String,
    pub source: Option<String>,
    pub body: String,
}

/// An event of a session of a project.
pub struct UploadView {
    pub project: Seq<char>,
    pub session_id: Seq<char>,
    pub event: Seq<char>,
    pub source: Option<Seq<char>>,
    pub body: Seq<char>,
}

impl View for Upload {
    type V = UploadView;

    open spec fn view(&self) -> UploadView {
        UploadView {
            project: self.project@,
            session_id: self.session_id@,
            event: self.event@,
            source: text::option_text(self.source),
            body: self.body@,
        }
    }
}

/// The text under `key`, clipped, and `default` where there is none.
pub open spec fn short_text(p: JsonView, key: Seq<char>, default: Seq<char>, max: nat) -> Seq<char> {
    payload::clipped(
        match p.str_at(key) {
            Some(s) => s,
            None => default,
        },
        max,
    )
}

/// The text under `key`, clipped, and `default` where there is none.
pub fn short(p: &Json, key: &str, default: &str, max: usize) -> (r: String)
    ensures
        r@ == short_text(p@, key@, default@, max as nat),
{
    match p.str_at(key) {
        Some(s) => payload::clip(s, max),
        None => payload::clip(default, max),
    }
}

/// What is posted for an event.
pub open spec fn posted(u: UploadView) -> JsonView {
    let s1 = json::with_entry(Seq::empty(), "session_id"@, JsonView::Str(u.session_id));
    let s2 = json::with_entry(s1, "event"@, JsonView::Str(u.event));
    let s3 = json::kept_value(
        s2,
        "source"@,
        match u.source {
            Some(source) => Some(JsonView::Str(source)),
            None => None,
        },
    );
    JsonView::Object(json::with_entry(s3, "body"@, JsonView::Str(u.body)))
}

impl Upload {
    /// What is posted for the event.
    pub fn to_json(&self) -> (r: Json)
        ensures
            r@ == posted(self@),
    {
        let mut object = JsonObject::new();
        object.insert("session_id".to_owned(), Json::from_str(self.session_id.as_str()));
        object.insert("event".to_owned(), Json::from_str(self.event.as_str()));
        if let Some(source) = &self.source {
            object.insert("source".to_owned(), Json::from_str(source.as_str()));
        }
        object.insert("body".to_owned(), Json::from_str(self.body.as_str()));
        Json::Object(object)
    }

    /// Where the event is posted.
    pub fn path(&self) -> (r: String)
        ensures
            r@ == sessions::events_path(self@.project),
    {
        sessions::path_of_events(self.project.as_str())
    }

    /// Another event of the same session.
    fn derived(&self, event: &str, body: String) -> (r: Upload)
        ensures
            r@ == (UploadView { event: event@, body: body@, ..self@ }),
    {
        Upload {
            project: self.project.clone(),
            session_id: self.session_id.clone(),
            event: event.to_owned(),
            source: match &self.source {
                Some(source) => Some(source.clone()),
                None => None,
            },
            body,
        }
    }
}

/// Another event of the same session.
pub open spec fn follow_up(u: UploadView, event: Seq<char>, body: Seq<char>) -> UploadView {
    UploadView { event, body, ..u }
}

impl Upload {
    /// The event that reports the summary of a turn of the same session.
    pub fn turn_summary(&self, body: String) -> (r: Upload)
        ensures
            r@ == (UploadView { event: "CodexTurnSummary"@, body: body@, ..self@ }),
            r@ == follow_up(self@, "CodexTurnSummary"@, body@),
    {
        self.derived("CodexTurnSummary", body)
    }

    /// The event that reports the goal of the same session.
    pub fn thread_goal(&self, body: String) -> (r: Upload)
        ensures
            r@ == (UploadView { event: "ThreadGoal"@, body: body@, ..self@ }),
            r@ == follow_up(self@, "ThreadGoal"@, body@),
    {
        self.derived("ThreadGoal", body)
    }
}

/// How many seconds one attempt to upload may take.
pub const HOOK_TIMEOUT_SECS: u64 = 10;

/// The request that uploads an event: it posts the event to its project, within 10 seconds.
pub open spec fn upload_request(config: ConfigView, u: UploadView) -> RequestView {
    api::request_for(
        config,
        "POST"@,
        sessions::events_path(u.project),
        Some(posted(u)),
        Some(HOOK_TIMEOUT_SECS),
    )
}

impl Upload {
    /// The request that uploads the event, where the configuration could be loaded, and else why
    /// it could not.
    pub fn request(&self, config: Result<Config, String>) -> (r: Result<Request, String>)
        ensures
            api::request_result(r) == (match config::config_result(config) {
                Ok(c) => Ok(upload_request(c, self@)),
                Err(why) => Err(why),
            }),
    {
        let path = self.path();
        let body = self.to_json();
        api::try_api(config, "POST", path.as_str(), Some(&body), Some(HOOK_TIMEOUT_SECS))
    }
}

/// No attempt to upload an event takes longer than 10 seconds.
pub proof fn uploads_have_a_deadline(config: ConfigView, u: UploadView)
    ensures
        upload_request(config, u).timeout_secs == Some(10u64),
{
}

/// What is posted names the session and the event and holds the body as it is.
pub proof fn posted_event_is_whole(u: UploadView)
    ensures
        posted(u).str_at("session_id"@) == Some(u.session_id),
        posted(u).str_at("event"@) == Some(u.event),
        posted(u).str_at("source"@) == u.source,
        posted(u).str_at("body"@) == Some(u.body),
{
    reveal_strlit("session_id");
    reveal_strlit("event");
    reveal_strlit("source");
    reveal_strlit("body");
    assert("session_id"@.len() == 10);
    assert("event"@.len() == 5);
    assert("source"@.len() == 6);
    assert("body"@.len() == 4);
    let session = JsonView::Str(u.session_id);
    let event = JsonView::Str(u.event);
    let source = match u.source {
        Some(source) => Some(JsonView::Str(source)),
        None => None,
    };
    let body = JsonView::Str(u.body);
    let s0 = Seq::<(Seq<char>, JsonView)>::empty();
    let s1 = json::with_entry(s0, "session_id"@, session);
    let s2 = json::with_entry(s1, "event"@, event);
    let s3 = json::kept_value(s2, "source"@, source);
    json::lookup_after_with_entry(s0, "session_id"@, session, "source"@);
    json::lookup_after_with_entry(s1, "event"@, event, "session_id"@);
    json::lookup_after_with_entry(s1, "event"@, event, "source"@);
    json::lemma_kept_value(s2, "source"@, source, "session_id"@);
    json::lemma_kept_value(s2, "source"@, source, "event"@);
    json::lookup_after_with_entry(s3, "body"@, body, "session_id"@);
    json::lookup_after_with_entry(s3, "body"@, body, "event"@);
    json::lookup_after_with_entry(s3, "body"@, body, "source"@);
}

/// What is posted has the session, the event, the agent, where it is told, and the body, and
/// nothing else.
pub proof fn posted_events_hold_nothing_else(u: UploadView, key: Seq<char>)
    ensures
        posted(u).get(key) == (if key == "session_id"@ {
            Some(JsonView::Str(u.session_id))
        } else if key == "event"@ {
            Some(JsonView::Str(u.event))
        } else if key == "source"@ && u.source is Some {
            Some(JsonView::Str(u.source->0))
        } else if key == "body"@ {
            Some(JsonView::Str(u.body))
        } else {
            None
        }),
{
    reveal_strlit("session_id");
    reveal_strlit("event");
    reveal_strlit("source");
    reveal_strlit("body");
    assert("session_id"@.len() == 10);
    assert("event"@.len() == 5);
    assert("source"@.len() == 6);
    assert("body"@.len() == 4);
    let session = JsonView::Str(u.session_id);
    let event = JsonView::Str(u.event);
    let source = match u.source {
        Some(source) => Some(JsonView::Str(source)),
        None => None,
    };
    let body = JsonView::Str(u.body);
    let s0 = Seq::<(Seq<char>, JsonView)>::empty();
    let s1 = json::with_entry(s0, "session_id"@, session);
    let s2 = json::with_entry(s1, "event"@, event);
    let s3 = json::kept_value(s2, "source"@, source);
    json::lookup_after_with_entry(s0, "session_id"@, session, key);
    json::lookup_after_with_entry(s1, "event"@, event, key);
    json::lemma_kept_value(s2, "source"@, source, key);
    json::lookup_after_with_entry(s3, "body"@, body, key);
}

/// An event is posted as JSON to the events of its project, with the service token.
pub proof fn uploads_post_to_the_project(config: ConfigView, u: UploadView)
    ensures
        ({
            let request = upload_request(config, u);
            &&& request.method == "POST"@
            &&& request.url == api::without_slashes(config.endpoint) + "/projects/"@
                + uri::uri_component(u.project) + "/statuses"@
            &&& request.body == Some(codec::json_text(posted(u)))
            &&& request.headers == seq![
                ("CF-Access-Client-Id"@, config.cf_access_client_id),
                ("CF-Access-Client-Secret"@, config.cf_access_client_secret),
                ("content-type"@, "application/json"@),
            ]
            &&& request.timeout_secs == Some(10u64)
        }),
{
    api::requests_carry_the_token(
        config,
        "POST"@,
        sessions::events_path(u.project),
        posted(u),
        Some(10u64),
    );
    sessions::paths_are_written_out(u.project, u.session_id, 0);
    assert(upload_request(config, u).url =~= api::without_slashes(config.endpoint) + "/projects/"@
        + uri::uri_component(u.project) + "/statuses"@);
}

/// A text that a payload gives is taken, clipped, and the default only where it gives none.
pub proof fn given_texts_are_taken(
    p: JsonView,
    key: Seq<char>,
    default: Seq<char>,
    max: nat,
    s: Seq<char>,
)
    ensures
        p.str_at(key) == Some(s) ==> short_text(p, key, default, max) == payload::clipped(s, max),
        p.str_at(key) == Some(s) && text::units(s) <= max ==> short_text(p, key, default, max) == s,
        p.str_at(key) is None ==> short_text(p, key, default, max) == payload::clipped(
            default,
            max,
        ),
{
}

/// Events are seen as they are.
pub proof fn events_are_seen_as_they_are(u: Upload)
    ensures
        u@.project == u.project@,
        u@.session_id == u.session_id@,
        u@.event == u.event@,
        u@.source == text::option_text(u.source),
        u@.body == u.body@,
{
}

/// What follows an event is of the same project, the same session and the same agent; only its
/// name and its body are its own.
pub proof fn follow_ups_stay_in_the_session(u: UploadView, event: Seq<char>, body: Seq<char>)
    ensures
        follow_up(u, event, body).project == u.project,
        follow_up(u, event, body).session_id == u.session_id,
        follow_up(u, event, body).source == u.source,
        follow_up(u, event, body).event == event,
        follow_up(u, event, body).body == body,
{
}

} // verus!
