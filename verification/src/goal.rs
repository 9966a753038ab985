//! What is derived from the transcript of a Codex session: the goal of the session and the
//! summary of a turn, as events of their own.

use vstd::prelude::*;
use vstd::string::StringExecFns;
use crate::json::{Json, JsonObject, JsonView};
use crate::turn::{Target, TargetView, TurnScan};
use crate::{body, codec, json, text, turn};

verus! {

/// The most bytes that a transcript may have.
pub const ROLLOUT_MAX_FILE_BYTES: u64 = 268_435_456;

// ---- the goal of a session ----

/// The kind of the events that set a goal.
pub open spec fn goal_marker() -> Seq<char> {
    "thread_goal_updated"@
}

/// The goal that a row sets: the objective of the goal, or the goal itself where it is a
/// text.
pub open spec fn goal_of(row: JsonView) -> Option<Seq<char>> {
    let p = row.at("payload"@);
    let goal = p.at("goal"@);
    let written = match goal.str_at("objective"@) {
        Some(s) => s,
        None => match goal.as_str() {
            Some(s) => s,
            None => Seq::empty(),
        },
    };
    if p.str_at("type"@) == Some(goal_marker()) && text::trimmed(written).len() > 0 {
        Some(text::trimmed(written))
    } else {
        None
    }
}

/// The goal that a line of a transcript sets.
pub open spec fn goal_in(line: Seq<char>) -> Option<Seq<char>> {
    if text::occurs(goal_marker(), line) {
        match codec::json_parsed(line) {
            Ok(row) => goal_of(row),
            Err(_) => None,
        }
    } else {
        None
    }
}

/// The last goal that the lines set.
pub open spec fn last_goal(lines: Seq<Seq<char>>) -> Option<Seq<char>>
    decreases lines.len(),
{
    if lines.len() == 0 {
        None
    } else if goal_in(lines.last()) is Some {
        goal_in(lines.last())
    } else {
        last_goal(lines.drop_last())
    }
}

/// The goal that a row sets.
pub fn goal_of_row(row: &Json) -> (r: Option<String>)
    ensures
        text::option_text(r) == goal_of(row@),
{
    let p = row.at("payload");
    match p.str_at("type") {
        Some(kind) => {
            if !text::same(kind, "thread_goal_updated") {
                return None;
            }
        },
        None => {
            return None;
        },
    }
    let goal = p.at("goal");
    let written = match goal.str_at("objective") {
        Some(s) => text::trim(s),
        None => match goal.as_str() {
            Some(s) => text::trim(s),
            None => {
                assert(text::trimmed(Seq::<char>::empty()).len() == 0);
                return None;
            },
        },
    };
    if written.as_str().is_empty() {
        None
    } else {
        Some(written)
    }
}

/// The goal that a line of a transcript sets.
pub fn goal_of_line(line: &str) -> (r: Option<String>)
    ensures
        text::option_text(r) == goal_in(line@),
{
    if !text::contains(line, "thread_goal_updated") {
        return None;
    }
    match codec::parse(line) {
        Ok(row) => goal_of_row(&row),
        Err(_) => None,
    }
}

/// The last goal after one more line.
pub fn goal_after(last: Option<String>, line: &str) -> (r: Option<String>)
    ensures
        text::option_text(r) == (if goal_in(line@) is Some {
            goal_in(line@)
        } else {
            text::option_text(last)
        }),
{
    let goal = goal_of_line(line);
    if goal.is_some() {
        goal
    } else {
        last
    }
}

/// The last goal that a transcript of `size` bytes with these lines sets. Too large a transcript
/// is not looked into.
pub fn codex_goal_objective(size: u64, lines: &Vec<String>) -> (r: Option<String>)
    ensures
        text::option_text(r) == (if size <= ROLLOUT_MAX_FILE_BYTES {
            last_goal(turn::lines_view(lines@))
        } else {
            None
        }),
{
    if size > ROLLOUT_MAX_FILE_BYTES {
        return None;
    }
    let ghost all = turn::lines_view(lines@);
    let mut last: Option<String> = None;
    let mut i: usize = 0;
    assert(all.take(0) =~= Seq::<Seq<char>>::empty());
    while i < lines.len()
        invariant
            i <= lines.len(),
            all == turn::lines_view(lines@),
            text::option_text(last) == last_goal(all.take(i as int)),
        decreases lines.len() - i,
    {
        last = goal_after(last, lines[i].as_str());
        proof {
            let now = all.take(i + 1);
            assert(now.last() == lines@[i as int]@);
            assert(now.drop_last() =~= all.take(i as int));
        }
        i += 1;
    }
    assert(all.take(i as int) =~= all);
    last
}

/// The goal is the last one that is set and not empty.
pub proof fn goal_is_the_last_one(lines: Seq<Seq<char>>)
    ensures
        match last_goal(lines) {
            Some(goal) => {
                &&& goal.len() > 0
                &&& exists|i: int|
                    #![trigger lines[i]]
                    {
                        &&& 0 <= i < lines.len()
                        &&& goal_in(lines[i]) == Some(goal)
                        &&& forall|j: int| i < j < lines.len() ==> goal_in(#[trigger] lines[j]) is None
                    }
            },
            None => forall|j: int| 0 <= j < lines.len() ==> goal_in(#[trigger] lines[j]) is None,
        },
    decreases lines.len(),
{
    if lines.len() > 0 {
        let rest = lines.drop_last();
        if goal_in(lines.last()) is Some {
            assert(lines[lines.len() - 1] == lines.last());
        } else {
            goal_is_the_last_one(rest);
            assert forall|j: int| 0 <= j < rest.len() implies rest[j] == #[trigger] lines[j] by {}
            if let Some(goal) = last_goal(lines) {
                let i = choose|i: int|
                    #![trigger rest[i]]
                    {
                        &&& 0 <= i < rest.len()
                        &&& goal_in(rest[i]) == Some(goal)
                        &&& forall|j: int| i < j < rest.len() ==> goal_in(#[trigger] rest[j]) is None
                    };
                assert(lines[i] == rest[i]);
                assert forall|j: int| i < j < lines.len() implies goal_in(
                    #[trigger] lines[j],
                ) is None by {
                    if j < rest.len() {
                        assert(lines[j] == rest[j]);
                    }
                }
            } else {
                assert forall|j: int| 0 <= j < lines.len() implies goal_in(
                    #[trigger] lines[j],
                ) is None by {
                    if j < rest.len() {
                        assert(lines[j] == rest[j]);
                    }
                }
            }
        }
    }
}

// ---- the events ----

/// The payload of the event that reports a goal. It says where the goal comes from.
pub open spec fn goal_event(
    session_id: Seq<char>,
    cwd: JsonView,
    objective: Seq<char>,
    path: Seq<char>,
) -> JsonView {
    let s1 = json::with_entry(
        Seq::empty(),
        "hook_event_name"@,
        JsonView::Str("ThreadGoal"@),
    );
    let s2 = json::with_entry(s1, "session_id"@, JsonView::Str(session_id));
    let s3 = json::with_entry(s2, "cwd"@, cwd);
    let s4 = json::with_entry(s3, "objective"@, JsonView::Str(objective));
    JsonView::Object(
        json::with_entry(
            s4,
            "_derived_from"@,
            JsonView::Str("thread_goal_updated in "@ + path),
        ),
    )
}

/// The payload of the event that reports a goal.
pub fn thread_goal(session_id: &str, cwd: Json, objective: &str, path: &str) -> (r: Json)
    ensures
        r@ == goal_event(session_id@, cwd@, objective@, path@),
{
    let mut event = JsonObject::new();
    event.insert("hook_event_name".to_owned(), Json::from_str("ThreadGoal"));
    event.insert("session_id".to_owned(), Json::from_str(session_id));
    event.insert("cwd".to_owned(), cwd);
    event.insert("objective".to_owned(), Json::from_str(objective));
    let mut origin = "thread_goal_updated in ".to_owned();
    origin.append(path);
    event.insert("_derived_from".to_owned(), Json::Str(origin));
    Json::Object(event)
}

/// The body of the event that reports the goal of a session, where there is one. `path` is that
/// of the transcript.
pub open spec fn goal_text(
    session_id: Seq<char>,
    p: JsonView,
    path: Seq<char>,
    objective: Option<Seq<char>>,
) -> Option<Seq<char>> {
    match objective {
        Some(objective) => Some(
            codec::json_text(body::fitted(goal_event(session_id, p.at("cwd"@), objective, path))),
        ),
        None => None,
    }
}

/// The body of the event that reports the goal of a session, where its transcript sets one. The
/// size of the transcript is unknown where it cannot be told.
pub open spec fn goal_report(
    session_id: Seq<char>,
    p: JsonView,
    path: Seq<char>,
    size: Option<u64>,
    lines: Seq<Seq<char>>,
) -> Option<Seq<char>> {
    if size is Some && size->0 <= ROLLOUT_MAX_FILE_BYTES {
        goal_text(session_id, p, path, last_goal(lines))
    } else {
        None
    }
}

proof fn lemma_plain_goal_event(
    session_id: Seq<char>,
    p: JsonView,
    objective: Seq<char>,
    path: Seq<char>,
)
    requires
        codec::plain(p, 127, false),
    ensures
        codec::plain(goal_event(session_id, p.at("cwd"@), objective, path), 127, false),
{
    let cwd = p.at("cwd"@);
    codec::lemma_plain_lookup(body::top_entries(p), "cwd"@, 126, false);
    let name = JsonView::Str("ThreadGoal"@);
    let session = JsonView::Str(session_id);
    let goal = JsonView::Str(objective);
    let origin = JsonView::Str("thread_goal_updated in "@ + path);
    let s0 = Seq::<(Seq<char>, JsonView)>::empty();
    let s1 = json::with_entry(s0, "hook_event_name"@, name);
    let s2 = json::with_entry(s1, "session_id"@, session);
    let s3 = json::with_entry(s2, "cwd"@, cwd);
    let s4 = json::with_entry(s3, "objective"@, goal);
    codec::lemma_plain_with_entry(s0, "hook_event_name"@, name, 126, false);
    codec::lemma_plain_with_entry(s1, "session_id"@, session, 126, false);
    codec::lemma_plain_with_entry(s2, "cwd"@, cwd, 126, false);
    codec::lemma_plain_with_entry(s3, "objective"@, goal, 126, false);
    codec::lemma_plain_with_entry(s4, "_derived_from"@, origin, 126, false);
}

/// The body of the event that reports the given goal of a session.
pub fn goal_body(session_id: &str, payload: &Json, path: &str, objective: Option<&str>) -> (r: Option<
    String,
>)
    ensures
        text::option_text(r) == goal_text(
            session_id@,
            payload@,
            path@,
            text::ref_text(objective),
        ),
        r is Some ==> text::bytes(r->0@) <= body::BODY_BUDGET,
        r is Some && codec::plain(payload@, 127, false) ==> codec::is_json(r->0@),
        r is Some ==> ({
            let event = goal_event(session_id@, payload@.at("cwd"@), objective->0@, path@);
            &&& codec::plain(body::fitted(event), 127, false) ==> codec::is_json(r->0@)
            &&& codec::plain(body::fitted(event), 127, true) ==> codec::reads_as(
                r->0@,
                body::fitted(event),
            )
        }),
{
    match objective {
        Some(objective) => {
            proof {
                if codec::plain(payload@, 127, false) {
                    lemma_plain_goal_event(session_id@, payload@, objective@, path@);
                }
            }
            let event = thread_goal(session_id, payload.at("cwd"), objective, path);
            Some(body::fit_body(&event))
        },
        None => None,
    }
}

/// The body of the event that reports the goal of a session.
pub fn report_codex_goal(
    session_id: &str,
    payload: &Json,
    path: &str,
    size: Option<u64>,
    lines: &Vec<String>,
) -> (r: Option<String>)
    ensures
        text::option_text(r) == goal_report(
            session_id@,
            payload@,
            path@,
            size,
            turn::lines_view(lines@),
        ),
        r is Some ==> text::bytes(r->0@) <= body::BODY_BUDGET,
        r is Some && codec::plain(payload@, 127, false) ==> codec::is_json(r->0@),
{
    match size {
        Some(size) => match codex_goal_objective(size, lines) {
            Some(objective) => goal_body(session_id, payload, path, Some(objective.as_str())),
            None => None,
        },
        None => None,
    }
}

/// The turn that a payload is about, in a session.
pub open spec fn turn_target(session_id: Seq<char>, p: JsonView) -> Option<TargetView> {
    match p.str_at("turn_id"@) {
        Some(turn_id) => Some(
            TargetView {
                session_id,
                turn_id,
                final_message: p.str_at("last_assistant_message"@),
            },
        ),
        None => None,
    }
}

/// The body of the event that reports the summary of the turn that a payload is about, where
/// the transcript of the session has the turn.
pub open spec fn turn_report(
    session_id: Seq<char>,
    p: JsonView,
    size: Option<u64>,
    lines: Seq<Seq<char>>,
) -> Option<Seq<char>> {
    if size is Some && size->0 > ROLLOUT_MAX_FILE_BYTES {
        None
    } else {
        match turn_target(session_id, p) {
            Some(target) => match turn::turn_summary(turn::rows_of(lines), target, p.at("cwd"@)) {
                Some(summary) => Some(codec::json_text(body::fitted(summary))),
                None => None,
            },
            None => None,
        }
    }
}

/// The turn that a payload is about, in a session.
pub fn target_of(session_id: &str, payload: &Json) -> (r: Option<Target>)
    ensures
        (match r {
            Some(target) => Some(target@),
            None => None,
        }) == turn_target(session_id@, payload@),
{
    match payload.str_at("turn_id") {
        Some(turn_id) => Some(
            Target {
                session_id: session_id.to_owned(),
                turn_id: turn_id.to_owned(),
                final_message: match payload.str_at("last_assistant_message") {
                    Some(message) => Some(message.to_owned()),
                    None => None,
                },
            },
        ),
        None => None,
    }
}

/// The body of the event that reports the summary of a turn, from what the rows of the transcript
/// said of it.
pub fn turn_body(scan: TurnScan, target: &Target, payload: &Json) -> (r: Option<String>)
    ensures
        text::option_text(r) == (match turn::concluded(scan@, target@, payload@.at("cwd"@)) {
            Some(summary) => Some(codec::json_text(body::fitted(summary))),
            None => None,
        }),
        r is Some ==> text::bytes(r->0@) <= body::BODY_BUDGET,
        r is Some ==> ({
            let summary = turn::concluded(scan@, target@, payload@.at("cwd"@))->0;
            &&& codec::plain(summary, 127, false) ==> codec::is_json(r->0@)
            &&& codec::plain(body::fitted(summary), 127, false) ==> codec::is_json(r->0@)
            &&& codec::plain(body::fitted(summary), 127, true) ==> codec::reads_as(
                r->0@,
                body::fitted(summary),
            )
        }),
{
    let cwd = payload.at("cwd");
    match scan.conclude(target, &cwd) {
        Some(summary) => Some(body::fit_body(&summary)),
        None => None,
    }
}

/// The body of the event that reports the summary of a turn.
pub fn report_codex_turn_summary(
    session_id: &str,
    payload: &Json,
    size: Option<u64>,
    lines: &Vec<String>,
) -> (r: Option<String>)
    ensures
        text::option_text(r) == turn_report(session_id@, payload@, size, turn::lines_view(lines@)),
        r is Some ==> text::bytes(r->0@) <= body::BODY_BUDGET,
        r is Some && codec::plain(payload@, 127, false) ==> codec::is_json(r->0@),
{
    if !readable_for_turn(size) {
        return None;
    }
    match target_of(session_id, payload) {
        Some(target) => {
            let scan = turn::scan_lines(lines, &target);
            proof {
                if codec::plain(payload@, 127, false) {
                    let rows = turn::rows_of(turn::lines_view(lines@));
                    codec::lemma_plain_lookup(body::top_entries(payload@), "cwd"@, 126, false);
                    turn::summaries_are_plain(rows, target@, payload@.at("cwd"@));
                }
            }
            turn_body(scan, &target, payload)
        },
        None => None,
    }
}

/// Whether a transcript of this size is looked into; `unknown` says whether one of unknown size
/// is.
pub open spec fn has_readable_size(size: Option<u64>, unknown: bool) -> bool {
    match size {
        Some(n) => n <= ROLLOUT_MAX_FILE_BYTES,
        None => unknown,
    }
}

/// Whether a transcript of this size is looked into for a goal.
pub fn readable_for_goal(size: Option<u64>) -> (r: bool)
    ensures
        r == (size is Some && size->0 <= ROLLOUT_MAX_FILE_BYTES),
        r == has_readable_size(size, false),
{
    match size {
        Some(n) => n <= ROLLOUT_MAX_FILE_BYTES,
        None => false,
    }
}

/// Whether a transcript of this size is looked into for a turn.
pub fn readable_for_turn(size: Option<u64>) -> (r: bool)
    ensures
        r == !(size is Some && size->0 > ROLLOUT_MAX_FILE_BYTES),
        r == has_readable_size(size, true),
{
    match size {
        Some(n) => n <= ROLLOUT_MAX_FILE_BYTES,
        None => true,
    }
}

/// The event that reports a goal names the session and its directory, and holds the goal.
pub proof fn goal_event_is_whole(
    session_id: Seq<char>,
    cwd: JsonView,
    objective: Seq<char>,
    path: Seq<char>,
)
    ensures
        ({
            let event = goal_event(session_id, cwd, objective, path);
            &&& event.str_at("hook_event_name"@) == Some("ThreadGoal"@)
            &&& event.str_at("session_id"@) == Some(session_id)
            &&& event.get("cwd"@) == Some(cwd)
            &&& event.str_at("objective"@) == Some(objective)
        }),
{
    reveal_strlit("hook_event_name");
    reveal_strlit("session_id");
    reveal_strlit("cwd");
    reveal_strlit("objective");
    reveal_strlit("_derived_from");
    assert("hook_event_name"@.len() == 15);
    assert("session_id"@.len() == 10);
    assert("cwd"@.len() == 3);
    assert("objective"@.len() == 9);
    assert("_derived_from"@.len() == 13);
    let name = JsonView::Str("ThreadGoal"@);
    let session = JsonView::Str(session_id);
    let goal = JsonView::Str(objective);
    let origin = JsonView::Str("thread_goal_updated in "@ + path);
    let s0 = Seq::<(Seq<char>, JsonView)>::empty();
    let s1 = json::with_entry(s0, "hook_event_name"@, name);
    let s2 = json::with_entry(s1, "session_id"@, session);
    let s3 = json::with_entry(s2, "cwd"@, cwd);
    let s4 = json::with_entry(s3, "objective"@, goal);
    json::lookup_after_with_entry(s0, "hook_event_name"@, name, "cwd"@);
    json::lookup_after_with_entry(s1, "session_id"@, session, "hook_event_name"@);
    json::lookup_after_with_entry(s2, "cwd"@, cwd, "hook_event_name"@);
    json::lookup_after_with_entry(s2, "cwd"@, cwd, "session_id"@);
    json::lookup_after_with_entry(s3, "objective"@, goal, "hook_event_name"@);
    json::lookup_after_with_entry(s3, "objective"@, goal, "session_id"@);
    json::lookup_after_with_entry(s3, "objective"@, goal, "cwd"@);
    json::lookup_after_with_entry(s4, "_derived_from"@, origin, "hook_event_name"@);
    json::lookup_after_with_entry(s4, "_derived_from"@, origin, "session_id"@);
    json::lookup_after_with_entry(s4, "_derived_from"@, origin, "cwd"@);
    json::lookup_after_with_entry(s4, "_derived_from"@, origin, "objective"@);
}

// ---- what sets a goal, and what is reported ----

/// A row sets a goal exactly where its payload is an update of the goal whose objective, or which
/// itself where it has none, is a text that is not blank; the goal is that text without the blanks
/// around it.
pub proof fn updates_set_the_goal(row: JsonView, goal: Seq<char>)
    ensures
        goal_of(row) == Some(goal) <==> {
            let p = row.at("payload"@);
            let told = p.at("goal"@);
            let objective = told.str_at("objective"@);
            &&& p.str_at("type"@) == Some("thread_goal_updated"@)
            &&& goal.len() > 0
            &&& objective is Some ==> goal == text::trimmed(objective->0)
            &&& objective is None ==> told is Str && goal == text::trimmed(told->Str_0)
        },
{
    assert(text::trimmed(Seq::<char>::empty()) =~= Seq::<char>::empty());
}

/// A line sets the goal that its row sets, where it names the kind of the update.
pub proof fn lines_set_the_goal_of_their_row(line: Seq<char>)
    ensures
        goal_in(line) == (if text::occurs("thread_goal_updated"@, line) && codec::json_parsed(
            line,
        ) is Ok {
            goal_of(codec::json_parsed(line)->Ok_0)
        } else {
            None
        }),
{
}

/// Only transcripts of at most 268435456 bytes are looked into. For a goal the size must be
/// known; for a turn it need not be.
pub proof fn large_transcripts_are_left_alone(
    session_id: Seq<char>,
    p: JsonView,
    path: Seq<char>,
    size: u64,
    lines: Seq<Seq<char>>,
)
    ensures
        size > 268_435_456 ==> goal_report(session_id, p, path, Some(size), lines) is None,
        size > 268_435_456 ==> turn_report(session_id, p, Some(size), lines) is None,
        goal_report(session_id, p, path, None, lines) is None,
        size <= 268_435_456 ==> turn_report(session_id, p, Some(size), lines) == turn_report(
            session_id,
            p,
            None,
            lines,
        ),
        size <= 268_435_456 ==> goal_report(session_id, p, path, Some(size), lines) == (
        match last_goal(lines) {
            Some(goal) => Some(
                codec::json_text(body::fitted(goal_event(session_id, p.at("cwd"@), goal, path))),
            ),
            None => None,
        }),
{
}

/// A turn is reported where the payload names it and the transcript has it: by the summary of that
/// turn, in the directory of the payload, with the last message of the payload as its answer.
pub proof fn named_turns_are_reported(
    session_id: Seq<char>,
    p: JsonView,
    lines: Seq<Seq<char>>,
    turn_id: Seq<char>,
)
    ensures
        p.str_at("turn_id"@) is None ==> turn_report(session_id, p, None, lines) is None,
        p.str_at("turn_id"@) == Some(turn_id) ==> turn_report(session_id, p, None, lines) == (
        match turn::turn_summary(
            turn::rows_of(lines),
            (TargetView {
                session_id,
                turn_id,
                final_message: p.str_at("last_assistant_message"@),
            }),
            p.at("cwd"@),
        ) {
            Some(summary) => Some(codec::json_text(body::fitted(summary))),
            None => None,
        }),
{
}

/// The event that reports a goal says where the goal comes from, and has nothing else.
pub proof fn goal_events_hold_nothing_else(
    session_id: Seq<char>,
    cwd: JsonView,
    objective: Seq<char>,
    path: Seq<char>,
    key: Seq<char>,
)
    ensures
        goal_event(session_id, cwd, objective, path).get(key) == (if key == "hook_event_name"@ {
            Some(JsonView::Str("ThreadGoal"@))
        } else if key == "session_id"@ {
            Some(JsonView::Str(session_id))
        } else if key == "cwd"@ {
            Some(cwd)
        } else if key == "objective"@ {
            Some(JsonView::Str(objective))
        } else if key == "_derived_from"@ {
            Some(JsonView::Str("thread_goal_updated in "@ + path))
        } else {
            None
        }),
{
    goal_event_is_whole(session_id, cwd, objective, path);
    let name = JsonView::Str("ThreadGoal"@);
    let session = JsonView::Str(session_id);
    let goal = JsonView::Str(objective);
    let origin = JsonView::Str("thread_goal_updated in "@ + path);
    let s0 = Seq::<(Seq<char>, JsonView)>::empty();
    let s1 = json::with_entry(s0, "hook_event_name"@, name);
    let s2 = json::with_entry(s1, "session_id"@, session);
    let s3 = json::with_entry(s2, "cwd"@, cwd);
    let s4 = json::with_entry(s3, "objective"@, goal);
    json::lookup_after_with_entry(s0, "hook_event_name"@, name, key);
    json::lookup_after_with_entry(s1, "session_id"@, session, key);
    json::lookup_after_with_entry(s2, "cwd"@, cwd, key);
    json::lookup_after_with_entry(s3, "objective"@, goal, key);
    json::lookup_after_with_entry(s4, "_derived_from"@, origin, key);
}

/// A report is made exactly of the transcripts that are looked into: for a goal those of a known
/// size of at most 268435456 bytes that set one, and for a turn also those of unknown size.
pub proof fn readable_transcripts_are_reported(
    session_id: Seq<char>,
    p: JsonView,
    path: Seq<char>,
    size: Option<u64>,
    lines: Seq<Seq<char>>,
)
    ensures
        has_readable_size(size, false) <==> size is Some && size->0 <= 268_435_456,
        has_readable_size(size, true) <==> size is None || size->0 <= 268_435_456,
        goal_report(session_id, p, path, size, lines) is Some <==> has_readable_size(size, false)
            && last_goal(lines) is Some,
        turn_report(session_id, p, size, lines) == (if has_readable_size(size, true) {
            turn_report(session_id, p, None, lines)
        } else {
            None
        }),
{
}

} // verus!
