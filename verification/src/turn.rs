//! What a Codex rollout transcript says of one turn: commentary, model and token usage.

use vstd::prelude::*;
use crate::json::{Json, JsonObject, JsonView};
use crate::{codec, json, number, text};

verus! {

// ---- token usage ----

/// The counters of a token usage.
pub open spec fn usage_keys() -> Seq<Seq<char>> {
    seq![
        "input_tokens"@,
        "cached_input_tokens"@,
        "cache_write_input_tokens"@,
        "output_tokens"@,
        "reasoning_output_tokens"@,
        "total_tokens"@,
    ]
}

/// The first `n` counters that `v` has, as entries.
pub open spec fn usage_entries(v: JsonView, n: int) -> Seq<(Seq<char>, JsonView)>
    decreases n,
{
    if n <= 0 {
        Seq::empty()
    } else {
        let rest = usage_entries(v, n - 1);
        let key = usage_keys()[n - 1];
        match v.u64_at(key) {
            Some(x) => json::with_entry(rest, key, JsonView::Number(number::number_of(x))),
            None => rest,
        }
    }
}

/// The counters of `v`, where it is an object that has any.
pub open spec fn usage(v: JsonView) -> Option<JsonView> {
    let entries = usage_entries(v, 6);
    if v is Object && entries.len() > 0 {
        Some(JsonView::Object(entries))
    } else {
        None
    }
}

/// The counter `key` of a usage, 0 where it has none.
pub open spec fn count(v: Option<JsonView>, key: Seq<char>) -> int {
    match v {
        Some(v) => match v.u64_at(key) {
            Some(x) => x as int,
            None => 0,
        },
        None => 0,
    }
}

/// By how much the counter `key` grew, and 0 where it did not.
pub open spec fn growth(end: JsonView, start: Option<JsonView>, key: Seq<char>) -> int {
    let grown = count(Some(end), key) - count(start, key);
    if grown < 0 {
        0
    } else {
        grown
    }
}

/// By how much the first `n` counters grew, as entries.
pub open spec fn growth_entries(end: JsonView, start: Option<JsonView>, n: int) -> Seq<
    (Seq<char>, JsonView),
>
    decreases n,
{
    if n <= 0 {
        Seq::empty()
    } else {
        let key = usage_keys()[n - 1];
        json::with_entry(
            growth_entries(end, start, n - 1),
            key,
            JsonView::Number(number::number_of(growth(end, start, key) as u64)),
        )
    }
}

/// By how much every counter grew.
pub open spec fn usage_growth(end: JsonView, start: Option<JsonView>) -> JsonView {
    JsonView::Object(growth_entries(end, start, 6))
}

fn usage_key(i: usize) -> (r: &'static str)
    requires
        i < 6,
    ensures
        r@ == usage_keys()[i as int],
{
    if i == 0 {
        "input_tokens"
    } else if i == 1 {
        "cached_input_tokens"
    } else if i == 2 {
        "cache_write_input_tokens"
    } else if i == 3 {
        "output_tokens"
    } else if i == 4 {
        "reasoning_output_tokens"
    } else {
        "total_tokens"
    }
}

/// The counters of `v`, where it is an object that has any.
pub fn token_usage(v: &Json) -> (r: Option<Json>)
    ensures
        json::option_view(r) == usage(v@),
{
    match v {
        Json::Object(_) => {},
        _ => {
            return None;
        },
    }
    let mut kept = JsonObject::new();
    let mut i: usize = 0;
    while i < 6
        invariant
            i <= 6,
            kept@ == usage_entries(v@, i as int),
        decreases 6 - i,
    {
        if let Some(n) = v.u64_at(usage_key(i)) {
            kept.insert(usage_key(i).to_owned(), Json::from_u64(n));
        }
        i += 1;
    }
    if kept.len() > 0 {
        Some(Json::Object(kept))
    } else {
        None
    }
}

/// By how much every counter grew from `start` to `end`.
pub fn token_usage_diff(end: &Json, start: Option<&Json>) -> (r: Json)
    ensures
        r@ == usage_growth(end@, json::ref_view(start)),
{
    let mut diff = JsonObject::new();
    let mut i: usize = 0;
    while i < 6
        invariant
            i <= 6,
            diff@ == growth_entries(end@, json::ref_view(start), i as int),
        decreases 6 - i,
    {
        let key = usage_key(i);
        let end_n: u64 = match end.u64_at(key) {
            Some(n) => n,
            None => 0,
        };
        let start_n: u64 = match start {
            Some(v) => match v.u64_at(key) {
                Some(n) => n,
                None => 0,
            },
            None => 0,
        };
        let grown: u64 = if end_n > start_n {
            end_n - start_n
        } else {
            0
        };
        diff.insert(key.to_owned(), Json::from_u64(grown));
        i += 1;
    }
    Json::Object(diff)
}

// ---- keeping strings ----

/// The entries with the string `src` under `key`, where it is one and not empty.
pub open spec fn kept_str(
    entries: Seq<(Seq<char>, JsonView)>,
    key: Seq<char>,
    src: Option<JsonView>,
) -> Seq<(Seq<char>, JsonView)> {
    match src {
        Some(JsonView::Str(s)) => if s.len() > 0 {
            json::with_entry(entries, key, JsonView::Str(s))
        } else {
            entries
        },
        _ => entries,
    }
}

/// Puts `src` under `key`, where it is a string and not empty.
pub fn keep_str(dst: &mut JsonObject, key: &str, src: Option<&Json>)
    ensures
        final(dst)@ == kept_str(old(dst)@, key@, json::ref_view(src)),
{
    if let Some(v) = src {
        if let Some(s) = v.as_str() {
            if !s.is_empty() {
                dst.insert(key.to_owned(), Json::from_str(s));
            }
        }
    }
}

// ---- the rows of a transcript ----

/// What the rows so far said of the turn.
pub struct TurnView {
    /// Whether the turn has begun.
    pub matched: bool,
    /// Whether the rows belong to the turn.
    pub in_turn: bool,
    /// The last usage of the session.
    pub last_total: Option<JsonView>,
    /// The usage of the session when the turn began.
    pub baseline: Option<JsonView>,
    /// The last usage of the session within the turn.
    pub turn_total: Option<JsonView>,
    /// The usage of the last request within the turn.
    pub last_usage: Option<JsonView>,
    /// The context window of the model.
    pub window: Option<u64>,
    /// The commentary within the turn.
    pub progress: Seq<JsonView>,
    /// The metadata of the session and the turn.
    pub summary: Seq<(Seq<char>, JsonView)>,
}

/// Which turn is summarised: the session and the turn by their names, and the final answer,
/// which is no commentary.
pub struct TargetView {
    pub session_id: Seq<char>,
    pub turn_id: Seq<char>,
    pub final_message: Option<Seq<char>>,
}

/// The state before the first row.
pub open spec fn turn_start() -> TurnView {
    TurnView {
        matched: false,
        in_turn: false,
        last_total: None,
        baseline: None,
        turn_total: None,
        last_usage: None,
        window: None,
        progress: Seq::empty(),
        summary: Seq::empty(),
    }
}

/// The usage under `key`.
pub open spec fn usage_at(v: JsonView, key: Seq<char>) -> Option<JsonView> {
    match v.get(key) {
        Some(u) => usage(u),
        None => None,
    }
}

/// The value under `inner` of the value under `outer`.
pub open spec fn nested(v: JsonView, outer: Seq<char>, inner: Seq<char>) -> Option<JsonView> {
    match v.get(outer) {
        Some(w) => w.get(inner),
        None => None,
    }
}

/// The name of the session that a `session_meta` row is about.
pub open spec fn meta_session(p: JsonView) -> Option<Seq<char>> {
    match p.get("session_id"@) {
        Some(v) => v.as_str(),
        None => p.str_at("id"@),
    }
}

/// After a `session_meta` row: its metadata, where it is about the session.
pub open spec fn after_meta(st: TurnView, p: JsonView, target: TargetView) -> TurnView {
    if meta_session(p) == Some(target.session_id) {
        TurnView {
            summary: kept_str(
                kept_str(st.summary, "codex_cli_version"@, p.get("cli_version"@)),
                "originator"@,
                p.get("originator"@),
            ),
            ..st
        }
    } else {
        st
    }
}

/// After a `turn_context` row: the turn begins or is left. The usage when it begins first is
/// the baseline.
pub open spec fn after_context(st: TurnView, p: JsonView, target: TargetView) -> TurnView {
    if p.str_at("turn_id"@) == Some(target.turn_id) {
        let s1 = kept_str(st.summary, "model"@, p.get("model"@));
        let s2 = kept_str(s1, "effort"@, p.get("effort"@));
        let s3 = kept_str(s2, "approval_policy"@, p.get("approval_policy"@));
        let s4 = kept_str(s3, "collaboration_mode"@, nested(p, "collaboration_mode"@, "mode"@));
        TurnView {
            in_turn: true,
            baseline: if st.matched {
                st.baseline
            } else {
                st.last_total
            },
            matched: true,
            summary: kept_str(s4, "sandbox_policy"@, nested(p, "sandbox_policy"@, "type"@)),
            ..st
        }
    } else {
        TurnView { in_turn: false, ..st }
    }
}

/// After a `token_count` event: the usage of the session, and within the turn also of the
/// turn.
pub open spec fn after_tokens(st: TurnView, p: JsonView) -> TurnView {
    let info = p.at("info"@);
    let total = usage_at(info, "total_token_usage"@);
    TurnView {
        last_total: if total is Some {
            total
        } else {
            st.last_total
        },
        turn_total: if total is Some && st.in_turn {
            total
        } else {
            st.turn_total
        },
        last_usage: if st.in_turn {
            usage_at(info, "last_token_usage"@)
        } else {
            st.last_usage
        },
        window: if st.in_turn {
            info.u64_at("model_context_window"@)
        } else {
            st.window
        },
        ..st
    }
}

/// The string under `key`, empty where there is none.
pub open spec fn str_or_empty(v: JsonView, key: Seq<char>) -> Seq<char> {
    match v.str_at(key) {
        Some(s) => s,
        None => Seq::empty(),
    }
}

/// Whether an `agent_message` event is commentary: it says something, and that is not the final
/// answer.
pub open spec fn is_commentary(p: JsonView, target: TargetView) -> bool {
    let message = text::trimmed(str_or_empty(p, "message"@));
    &&& message.len() > 0
    &&& str_or_empty(p, "phase"@) != "final_answer"@
    &&& (match target.final_message {
        Some(f) => text::trimmed(f) != message,
        None => true,
    })
}

/// What is kept of a commentary.
pub open spec fn commentary(row: JsonView, p: JsonView) -> JsonView {
    let message = json::with_entry(
        Seq::empty(),
        "message"@,
        JsonView::Str(text::trimmed(str_or_empty(p, "message"@))),
    );
    JsonView::Object(
        kept_str(kept_str(message, "phase"@, p.get("phase"@)), "timestamp"@, row.get("timestamp"@)),
    )
}

/// After one row of the transcript.
pub open spec fn after_row(st: TurnView, row: JsonView, target: TargetView) -> TurnView {
    let kind = row.str_at("type"@);
    let p = row.at("payload"@);
    if kind == Some("session_meta"@) {
        after_meta(st, p, target)
    } else if kind == Some("turn_context"@) {
        after_context(st, p, target)
    } else if kind == Some("event_msg"@) {
        if p.str_at("type"@) == Some("token_count"@) {
            after_tokens(st, p)
        } else if p.str_at("type"@) == Some("agent_message"@) && st.in_turn && is_commentary(
            p,
            target,
        ) {
            TurnView { progress: st.progress.push(commentary(row, p)), ..st }
        } else {
            st
        }
    } else {
        st
    }
}

/// After the given rows of the transcript.
pub open spec fn after_rows(rows: Seq<JsonView>, target: TargetView) -> TurnView
    decreases rows.len(),
{
    if rows.len() == 0 {
        turn_start()
    } else {
        after_row(after_rows(rows.drop_last(), target), rows.last(), target)
    }
}

/// A number, where there is one.
pub open spec fn number_value(n: Option<u64>) -> Option<JsonView> {
    match n {
        Some(n) => Some(JsonView::Number(number::number_of(n))),
        None => None,
    }
}

/// By how much the usage grew within the turn.
pub open spec fn turn_growth(st: TurnView) -> Option<JsonView> {
    match st.turn_total {
        Some(total) => Some(usage_growth(total, st.baseline)),
        None => None,
    }
}

/// How much of the context the last request within the turn used.
pub open spec fn context_used(st: TurnView) -> Option<JsonView> {
    match st.last_usage {
        Some(u) => number_value(u.u64_at("input_tokens"@)),
        None => None,
    }
}

/// Where a summary says that it comes from.
pub open spec fn derived_from() -> JsonView {
    JsonView::Str("Codex rollout transcript (best effort; internal format)"@)
}

/// The metadata with what names the turn.
pub open spec fn named(st: TurnView, target: TargetView, cwd: JsonView) -> Seq<
    (Seq<char>, JsonView),
> {
    let s1 = json::with_entry(
        st.summary,
        "hook_event_name"@,
        JsonView::Str("CodexTurnSummary"@),
    );
    let s2 = json::with_entry(s1, "session_id"@, JsonView::Str(target.session_id));
    let s3 = json::with_entry(s2, "turn_id"@, JsonView::Str(target.turn_id));
    json::with_entry(s3, "cwd"@, cwd)
}

/// With the commentary and the usage of the turn.
pub open spec fn counted(st: TurnView, s0: Seq<(Seq<char>, JsonView)>) -> Seq<
    (Seq<char>, JsonView),
> {
    let progress = if st.progress.len() > 0 {
        Some(JsonView::Array(st.progress))
    } else {
        None
    };
    let s1 = json::kept_value(s0, "progress"@, progress);
    let s2 = json::kept_value(s1, "turn_token_usage"@, turn_growth(st));
    json::kept_value(s2, "session_token_usage"@, st.turn_total)
}

/// With the use of the context.
pub open spec fn measured(st: TurnView, s0: Seq<(Seq<char>, JsonView)>) -> Seq<
    (Seq<char>, JsonView),
> {
    let s1 = json::kept_value(s0, "context_used_tokens"@, context_used(st));
    let s2 = json::kept_value(s1, "last_token_usage"@, st.last_usage);
    let s3 = json::kept_value(s2, "model_context_window"@, number_value(st.window));
    json::with_entry(s3, "_derived_from"@, derived_from())
}

/// The summary that the rows give, where the turn began in them.
pub open spec fn concluded(st: TurnView, target: TargetView, cwd: JsonView) -> Option<JsonView> {
    if st.matched {
        Some(JsonView::Object(measured(st, counted(st, named(st, target, cwd)))))
    } else {
        None
    }
}

/// The rows that the lines of a transcript write; a line that is no JSON is skipped.
pub open spec fn rows_of(lines: Seq<Seq<char>>) -> Seq<JsonView>
    decreases lines.len(),
{
    if lines.len() == 0 {
        Seq::empty()
    } else {
        let rest = rows_of(lines.drop_last());
        match codec::json_parsed(lines.last()) {
            Ok(row) => rest.push(row),
            Err(_) => rest,
        }
    }
}

// ---- the scan ----

/// Which turn is summarised.
pub struct Target {
    pub session_id: String,
    pub turn_id: String,
    pub final_message: Option<String>,
}

impl View for Target {
    type V = TargetView;

    open spec fn view(&self) -> TargetView {
        TargetView {
            session_id: self.session_id@,
            turn_id: self.turn_id@,
            final_message: match self.final_message {
                Some(m) => Some(m@),
                None => None,
            },
        }
    }
}

/// What the rows so far said of the turn.
pub struct TurnScan {
    pub matched: bool,
    pub in_turn: bool,
    pub last_total: Option<Json>,
    pub baseline: Option<Json>,
    pub turn_total: Option<Json>,
    pub last_usage: Option<Json>,
    pub window: Option<u64>,
    pub progress: Vec<Json>,
    pub summary: JsonObject,
}

impl View for TurnScan {
    type V = TurnView;

    open spec fn view(&self) -> TurnView {
        TurnView {
            matched: self.matched,
            in_turn: self.in_turn,
            last_total: json::option_view(self.last_total),
            baseline: json::option_view(self.baseline),
            turn_total: json::option_view(self.turn_total),
            last_usage: json::option_view(self.last_usage),
            window: self.window,
            progress: json::items_view(self.progress@),
            summary: self.summary@,
        }
    }
}

fn usage_under(v: &Json, key: &str) -> (r: Option<Json>)
    ensures
        json::option_view(r) == usage_at(v@, key@),
{
    match v.get(key) {
        Some(u) => token_usage(u),
        None => None,
    }
}

fn value_under<'a>(v: &'a Json, outer: &str, inner: &str) -> (r: Option<&'a Json>)
    ensures
        json::ref_view(r) == nested(v@, outer@, inner@),
{
    match v.get(outer) {
        Some(w) => w.get(inner),
        None => None,
    }
}

fn copy_option(v: &Option<Json>) -> (r: Option<Json>)
    ensures
        json::option_view(r) == json::option_view(*v),
{
    match v {
        Some(v) => Some(v.duplicate()),
        None => None,
    }
}

fn is_str(v: &Json, key: &str, s: &str) -> (r: bool)
    ensures
        r == (v@.str_at(key@) == Some(s@)),
{
    match v.str_at(key) {
        Some(t) => text::same(t, s),
        None => false,
    }
}

/// What an `agent_message` event says.
fn message_of(p: &Json) -> (r: String)
    ensures
        r@ == text::trimmed(str_or_empty(p@, "message"@)),
{
    match p.str_at("message") {
        Some(s) => text::trim(s),
        None => {
            proof {
                reveal_strlit("");
                assert(""@ =~= Seq::<char>::empty());
            }
            text::trim("")
        },
    }
}

/// Whether an `agent_message` event is commentary on the turn.
fn says_something_new(p: &Json, target: &Target) -> (r: bool)
    ensures
        r == is_commentary(p@, target@),
{
    let message = message_of(p);
    if message.as_str().is_empty() {
        return false;
    }
    proof {
        reveal_strlit("final_answer");
        assert("final_answer"@.len() == 12);
    }
    if let Some(phase) = p.str_at("phase") {
        if text::same(phase, "final_answer") {
            return false;
        }
    }
    match &target.final_message {
        Some(f) => !text::same(text::trim(f.as_str()).as_str(), message.as_str()),
        None => true,
    }
}

/// What is kept of a commentary.
fn commentary_of(row: &Json, p: &Json) -> (r: Json)
    ensures
        r@ == commentary(row@, p@),
{
    let message = message_of(p);
    let mut item = JsonObject::new();
    item.insert("message".to_owned(), Json::Str(message));
    keep_str(&mut item, "phase", p.get("phase"));
    keep_str(&mut item, "timestamp", row.get("timestamp"));
    Json::Object(item)
}

impl TurnScan {
    /// The state before the first row.
    pub fn new() -> (r: TurnScan)
        ensures
            r@ == turn_start(),
    {
        let scan = TurnScan {
            matched: false,
            in_turn: false,
            last_total: None,
            baseline: None,
            turn_total: None,
            last_usage: None,
            window: None,
            progress: Vec::new(),
            summary: JsonObject::new(),
        };
        assert(scan@.progress =~= Seq::<JsonView>::empty());
        scan
    }

    fn see_meta(&mut self, p: &Json, target: &Target)
        ensures
            final(self)@ == after_meta(old(self)@, p@, target@),
    {
        let about = match p.get("session_id") {
            Some(v) => v.as_str(),
            None => p.str_at("id"),
        };
        if let Some(s) = about {
            if text::same(s, target.session_id.as_str()) {
                keep_str(&mut self.summary, "codex_cli_version", p.get("cli_version"));
                keep_str(&mut self.summary, "originator", p.get("originator"));
            }
        }
    }

    fn see_context(&mut self, p: &Json, target: &Target)
        ensures
            final(self)@ == after_context(old(self)@, p@, target@),
    {
        self.in_turn = is_str(p, "turn_id", target.turn_id.as_str());
        if self.in_turn {
            if !self.matched {
                self.baseline = copy_option(&self.last_total);
            }
            self.matched = true;
            keep_str(&mut self.summary, "model", p.get("model"));
            keep_str(&mut self.summary, "effort", p.get("effort"));
            keep_str(&mut self.summary, "approval_policy", p.get("approval_policy"));
            keep_str(
                &mut self.summary,
                "collaboration_mode",
                value_under(p, "collaboration_mode", "mode"),
            );
            keep_str(
                &mut self.summary,
                "sandbox_policy",
                value_under(p, "sandbox_policy", "type"),
            );
        }
    }

    fn see_tokens(&mut self, p: &Json)
        ensures
            final(self)@ == after_tokens(old(self)@, p@),
    {
        let null = Json::Null;
        let info = match p.get("info") {
            Some(v) => v,
            None => &null,
        };
        let total = usage_under(info, "total_token_usage");
        if total.is_some() {
            self.last_total = copy_option(&total);
            if self.in_turn {
                self.turn_total = total;
            }
        }
        if self.in_turn {
            self.last_usage = usage_under(info, "last_token_usage");
            self.window = info.u64_at("model_context_window");
        }
    }

    /// Takes one row of the transcript into account.
    pub fn see_row(&mut self, row: &Json, target: &Target)
        ensures
            final(self)@ == after_row(old(self)@, row@, target@),
    {
        let null = Json::Null;
        let p = match row.get("payload") {
            Some(v) => v,
            None => &null,
        };
        if is_str(row, "type", "session_meta") {
            self.see_meta(p, target);
        } else if is_str(row, "type", "turn_context") {
            self.see_context(p, target);
        } else if is_str(row, "type", "event_msg") {
            if is_str(p, "type", "token_count") {
                self.see_tokens(p);
            } else if is_str(p, "type", "agent_message") && self.in_turn && says_something_new(
                p,
                target,
            ) {
                let ghost before = self@.progress;
                let item = commentary_of(row, p);
                let ghost kept = item@;
                self.progress.push(item);
                assert(self@.progress =~= before.push(kept));
            }
        }
    }

    /// Takes one line of the transcript into account, where it is JSON.
    pub fn see_line(&mut self, line: &str, target: &Target)
        ensures
            final(self)@ == (match codec::json_parsed(line@) {
                Ok(row) => after_row(old(self)@, row, target@),
                Err(_) => old(self)@,
            }),
    {
        if let Ok(row) = codec::parse(line) {
            self.see_row(&row, target);
        }
    }

    /// The summary of the turn, where it began in the rows.
    pub fn conclude(self, target: &Target, cwd: &Json) -> (r: Option<Json>)
        ensures
            json::option_view(r) == concluded(self@, target@, cwd@),
    {
        if !self.matched {
            return None;
        }
        let mut summary = self.summary;
        summary.insert("hook_event_name".to_owned(), Json::from_str("CodexTurnSummary"));
        summary.insert("session_id".to_owned(), Json::from_str(target.session_id.as_str()));
        summary.insert("turn_id".to_owned(), Json::from_str(target.turn_id.as_str()));
        summary.insert("cwd".to_owned(), cwd.duplicate());
        if self.progress.len() > 0 {
            proof {
                json::lemma_array_view(self.progress);
            }
            summary.insert("progress".to_owned(), Json::Array(self.progress));
        }
        if let Some(total) = self.turn_total {
            let growth = token_usage_diff(&total, self.baseline.as_ref());
            summary.insert("turn_token_usage".to_owned(), growth);
            summary.insert("session_token_usage".to_owned(), total);
        }
        if let Some(last) = self.last_usage {
            if let Some(n) = last.u64_at("input_tokens") {
                summary.insert("context_used_tokens".to_owned(), Json::from_u64(n));
            }
            summary.insert("last_token_usage".to_owned(), last);
        }
        if let Some(n) = self.window {
            summary.insert("model_context_window".to_owned(), Json::from_u64(n));
        }
        summary.insert(
            "_derived_from".to_owned(),
            Json::from_str("Codex rollout transcript (best effort; internal format)"),
        );
        Some(Json::Object(summary))
    }
}

// ---- the summary of a turn ----

/// The summary that the rows of a transcript give of a turn.
pub open spec fn turn_summary(
    rows: Seq<JsonView>,
    target: TargetView,
    cwd: JsonView,
) -> Option<JsonView> {
    concluded(after_rows(rows, target), target, cwd)
}

/// The views of a row of lines.
pub open spec fn lines_view(lines: Seq<String>) -> Seq<Seq<char>> {
    Seq::new(lines.len(), |i: int| lines[i]@)
}

/// The summary of a turn from the rows of a transcript.
pub fn codex_turn_summary(rows: &Vec<Json>, target: &Target, cwd: &Json) -> (r: Option<Json>)
    ensures
        json::option_view(r) == turn_summary(json::items_view(rows@), target@, cwd@),
{
    let ghost all = json::items_view(rows@);
    let mut scan = TurnScan::new();
    let mut i: usize = 0;
    assert(all.take(0) =~= Seq::<JsonView>::empty());
    while i < rows.len()
        invariant
            i <= rows.len(),
            all == json::items_view(rows@),
            scan@ == after_rows(all.take(i as int), target@),
        decreases rows.len() - i,
    {
        scan.see_row(&rows[i], target);
        proof {
            let now = all.take(i + 1);
            assert(now.drop_last() =~= all.take(i as int));
            assert(now.last() == rows@[i as int]@);
        }
        i += 1;
    }
    assert(all.take(i as int) =~= all);
    scan.conclude(target, cwd)
}

/// What the lines of a transcript say of a turn.
pub fn scan_lines(lines: &Vec<String>, target: &Target) -> (r: TurnScan)
    ensures
        r@ == after_rows(rows_of(lines_view(lines@)), target@),
{
    let ghost all = lines_view(lines@);
    let mut scan = TurnScan::new();
    let mut i: usize = 0;
    assert(all.take(0) =~= Seq::<Seq<char>>::empty());
    while i < lines.len()
        invariant
            i <= lines.len(),
            all == lines_view(lines@),
            scan@ == after_rows(rows_of(all.take(i as int)), target@),
        decreases lines.len() - i,
    {
        scan.see_line(lines[i].as_str(), target);
        proof {
            let now = all.take(i + 1);
            assert(now.drop_last() =~= all.take(i as int));
            assert(now.last() == lines@[i as int]@);
            if let Ok(row) = codec::json_parsed(now.last()) {
                assert(rows_of(now).drop_last() =~= rows_of(all.take(i as int)));
            }
        }
        i += 1;
    }
    assert(all.take(i as int) =~= all);
    scan
}

/// The summary of a turn from the lines of a transcript: commentary and usage that no hook
/// reports. It is `None` where the turn does not begin in the transcript.
pub fn codex_turn_summary_from_reader(
    lines: &Vec<String>,
    session_id: &str,
    turn_id: &str,
    cwd: &Json,
    final_message: Option<&str>,
) -> (r: Option<Json>)
    ensures
        json::option_view(r) == turn_summary(
            rows_of(lines_view(lines@)),
            (TargetView {
                session_id: session_id@,
                turn_id: turn_id@,
                final_message: match final_message {
                    Some(m) => Some(m@),
                    None => None,
                },
            }),
            cwd@,
        ),
{
    let target = Target {
        session_id: session_id.to_owned(),
        turn_id: turn_id.to_owned(),
        final_message: match final_message {
            Some(m) => Some(m.to_owned()),
            None => None,
        },
    };
    let scan = scan_lines(lines, &target);
    scan.conclude(&target, cwd)
}

// ---- what holds of the summaries ----

/// Whether a row says in which turn the next rows are.
pub open spec fn is_turn_context(row: JsonView) -> bool {
    row.str_at("type"@) == Some("turn_context"@)
}

/// Whether a row is about the session as a whole.
pub open spec fn is_session_meta(row: JsonView) -> bool {
    row.str_at("type"@) == Some("session_meta"@)
}

/// The turn in which the rows end.
pub open spec fn current_turn(rows: Seq<JsonView>) -> Option<Seq<char>>
    decreases rows.len(),
{
    if rows.len() == 0 {
        None
    } else if is_turn_context(rows.last()) {
        rows.last().at("payload"@).str_at("turn_id"@)
    } else {
        current_turn(rows.drop_last())
    }
}

/// The scan is within the turn exactly while the transcript is.
pub proof fn scan_follows_the_turn(rows: Seq<JsonView>, target: TargetView)
    ensures
        after_rows(rows, target).in_turn <==> current_turn(rows) == Some(target.turn_id),
    decreases rows.len(),
{
    if rows.len() > 0 {
        scan_follows_the_turn(rows.drop_last(), target);
        reveal_strlit("session_meta");
        reveal_strlit("turn_context");
        assert("session_meta"@[0] != "turn_context"@[0]);
    }
}

/// There is a summary exactly where some row begins the turn.
pub proof fn summary_needs_the_turn(rows: Seq<JsonView>, target: TargetView, cwd: JsonView)
    ensures
        turn_summary(rows, target, cwd) is Some <==> exists|i: int|
            0 <= i < rows.len() && is_turn_context(#[trigger] rows[i]) && rows[i].at(
                "payload"@,
            ).str_at("turn_id"@) == Some(target.turn_id),
    decreases rows.len(),
{
    if rows.len() > 0 {
        let rest = rows.drop_last();
        summary_needs_the_turn(rest, target, cwd);
        reveal_strlit("session_meta");
        reveal_strlit("turn_context");
        assert("session_meta"@[0] != "turn_context"@[0]);
        assert forall|i: int| 0 <= i < rest.len() implies rest[i] == #[trigger] rows[i] by {}
        if turn_summary(rest, target, cwd) is Some {
            let i = choose|i: int|
                0 <= i < rest.len() && is_turn_context(#[trigger] rest[i]) && rest[i].at(
                    "payload"@,
                ).str_at("turn_id"@) == Some(target.turn_id);
            assert(rows[i] == rest[i]);
        }
        assert(rows[rows.len() - 1] == rows.last());
    }
}

/// A row of another turn leaves no trace in what is kept of the turn: neither in the
/// commentary nor in the usage.
pub proof fn other_turns_leave_no_trace(rows: Seq<JsonView>, row: JsonView, target: TargetView)
    requires
        current_turn(rows.push(row)) != Some(target.turn_id),
    ensures
        ({
            let before = after_rows(rows, target);
            let after = after_rows(rows.push(row), target);
            &&& after.progress == before.progress
            &&& after.turn_total == before.turn_total
            &&& after.last_usage == before.last_usage
            &&& after.window == before.window
            &&& after.baseline == before.baseline
            &&& after.matched == before.matched
            &&& !is_session_meta(row) ==> after.summary == before.summary
        }),
{
    scan_follows_the_turn(rows, target);
    scan_follows_the_turn(rows.push(row), target);
    assert(rows.push(row).drop_last() =~= rows);
}

/// A line that is no JSON does not count, wherever it stands.
pub proof fn unreadable_lines_are_skipped(
    before: Seq<Seq<char>>,
    line: Seq<char>,
    after: Seq<Seq<char>>,
)
    requires
        codec::json_parsed(line) is Err,
    ensures
        rows_of(before.push(line) + after) == rows_of(before + after),
    decreases after.len(),
{
    let with = before.push(line) + after;
    let without = before + after;
    if after.len() == 0 {
        assert(with.drop_last() =~= before);
        assert(with.last() == line);
        assert(without =~= before);
    } else {
        unreadable_lines_are_skipped(before, line, after.drop_last());
        assert(with.drop_last() =~= before.push(line) + after.drop_last());
        assert(without.drop_last() =~= before + after.drop_last());
        assert(with.last() == after.last() && without.last() == after.last());
    }
}

/// Whether a row is of a kind that the scan takes into account.
pub open spec fn is_known(row: JsonView) -> bool {
    let kind = row.str_at("type"@);
    let event = row.at("payload"@).str_at("type"@);
    ||| kind == Some("session_meta"@)
    ||| kind == Some("turn_context"@)
    ||| kind == Some("event_msg"@) && (event == Some("token_count"@) || event == Some(
        "agent_message"@,
    ))
}

/// A row of an unknown kind does not count, wherever it stands.
pub proof fn unknown_rows_are_skipped(
    before: Seq<JsonView>,
    row: JsonView,
    after: Seq<JsonView>,
    target: TargetView,
)
    requires
        !is_known(row),
    ensures
        after_rows(before.push(row) + after, target) == after_rows(before + after, target),
    decreases after.len(),
{
    let with = before.push(row) + after;
    let without = before + after;
    if after.len() == 0 {
        assert(with.drop_last() =~= before);
        assert(with.last() == row);
        assert(without =~= before);
    } else {
        unknown_rows_are_skipped(before, row, after.drop_last(), target);
        assert(with.drop_last() =~= before.push(row) + after.drop_last());
        assert(without.drop_last() =~= before + after.drop_last());
        assert(with.last() == after.last() && without.last() == after.last());
    }
}

proof fn lemma_usage_keys_differ(i: int, j: int)
    requires
        0 <= i < j < 6,
    ensures
        usage_keys()[i] != usage_keys()[j],
{
    reveal_strlit("input_tokens");
    reveal_strlit("cached_input_tokens");
    reveal_strlit("cache_write_input_tokens");
    reveal_strlit("output_tokens");
    reveal_strlit("reasoning_output_tokens");
    reveal_strlit("total_tokens");
    assert("input_tokens"@.len() == 12);
    assert("cached_input_tokens"@.len() == 19);
    assert("cache_write_input_tokens"@.len() == 24);
    assert("output_tokens"@.len() == 13);
    assert("reasoning_output_tokens"@.len() == 23);
    assert("total_tokens"@.len() == 12);
    assert("input_tokens"@[0] != "total_tokens"@[0]);
}

proof fn lemma_growth_entry(end: JsonView, start: Option<JsonView>, n: int, i: int)
    requires
        0 <= i < n <= 6,
    ensures
        json::lookup(growth_entries(end, start, n), usage_keys()[i]) == Some(
            JsonView::Number(number::number_of(growth(end, start, usage_keys()[i]) as u64)),
        ),
    decreases n,
{
    let key = usage_keys()[n - 1];
    let value = JsonView::Number(number::number_of(growth(end, start, key) as u64));
    json::lookup_after_with_entry(growth_entries(end, start, n - 1), key, value, usage_keys()[i]);
    if i < n - 1 {
        lemma_usage_keys_differ(i, n - 1);
        lemma_growth_entry(end, start, n - 1, i);
    }
}

/// Every counter of a growth is what was added to it; where no counter shrank, it and the
/// counter at the start make the counter at the end.
pub proof fn growth_counts_what_was_added(end: JsonView, start: Option<JsonView>, i: int)
    requires
        0 <= i < usage_keys().len(),
    ensures
        ({
            let key = usage_keys()[i];
            let grown = growth(end, start, key);
            &&& usage_growth(end, start).get(key) == Some(
                JsonView::Number(number::number_of(grown as u64)),
            )
            &&& 0 <= grown <= u64::MAX
            &&& count(start, key) <= count(Some(end), key) ==> count(start, key) + grown == count(
                Some(end),
                key,
            )
        }),
{
    lemma_growth_entry(end, start, 6, i);
}

proof fn lemma_summary_keys()
    ensures
        "hook_event_name"@.len() == 15,
        "session_id"@.len() == 10,
        "turn_id"@.len() == 7,
        "cwd"@.len() == 3,
        "progress"@.len() == 8,
        "turn_token_usage"@.len() == 16,
        "session_token_usage"@.len() == 19,
        "context_used_tokens"@.len() == 19,
        "last_token_usage"@.len() == 16,
        "model_context_window"@.len() == 20,
        "_derived_from"@.len() == 13,
        "turn_token_usage"@ != "last_token_usage"@,
        "session_token_usage"@ != "context_used_tokens"@,
{
    reveal_strlit("hook_event_name");
    reveal_strlit("session_id");
    reveal_strlit("turn_id");
    reveal_strlit("cwd");
    reveal_strlit("progress");
    reveal_strlit("turn_token_usage");
    reveal_strlit("session_token_usage");
    reveal_strlit("context_used_tokens");
    reveal_strlit("last_token_usage");
    reveal_strlit("model_context_window");
    reveal_strlit("_derived_from");
    assert("turn_token_usage"@[0] != "last_token_usage"@[0]);
    assert("session_token_usage"@[0] != "context_used_tokens"@[0]);
}

proof fn lemma_named(st: TurnView, target: TargetView, cwd: JsonView)
    ensures
        ({
            let s = named(st, target, cwd);
            &&& json::lookup(s, "hook_event_name"@) == Some(JsonView::Str("CodexTurnSummary"@))
            &&& json::lookup(s, "session_id"@) == Some(JsonView::Str(target.session_id))
            &&& json::lookup(s, "turn_id"@) == Some(JsonView::Str(target.turn_id))
            &&& json::lookup(s, "cwd"@) == Some(cwd)
        }),
{
    lemma_summary_keys();
    let event = JsonView::Str("CodexTurnSummary"@);
    let session = JsonView::Str(target.session_id);
    let turn = JsonView::Str(target.turn_id);
    let s1 = json::with_entry(st.summary, "hook_event_name"@, event);
    let s2 = json::with_entry(s1, "session_id"@, session);
    let s3 = json::with_entry(s2, "turn_id"@, turn);
    json::lookup_after_with_entry(st.summary, "hook_event_name"@, event, "cwd"@);
    json::lookup_after_with_entry(s1, "session_id"@, session, "hook_event_name"@);
    json::lookup_after_with_entry(s2, "turn_id"@, turn, "hook_event_name"@);
    json::lookup_after_with_entry(s2, "turn_id"@, turn, "session_id"@);
    json::lookup_after_with_entry(s3, "cwd"@, cwd, "hook_event_name"@);
    json::lookup_after_with_entry(s3, "cwd"@, cwd, "session_id"@);
    json::lookup_after_with_entry(s3, "cwd"@, cwd, "turn_id"@);
}

proof fn lemma_counted(st: TurnView, s0: Seq<(Seq<char>, JsonView)>, key: Seq<char>)
    requires
        key != "progress"@,
        key != "turn_token_usage"@,
        key != "session_token_usage"@,
    ensures
        json::lookup(counted(st, s0), key) == json::lookup(s0, key),
{
    let progress = if st.progress.len() > 0 {
        Some(JsonView::Array(st.progress))
    } else {
        None
    };
    let s1 = json::kept_value(s0, "progress"@, progress);
    let s2 = json::kept_value(s1, "turn_token_usage"@, turn_growth(st));
    json::lemma_kept_value(s0, "progress"@, progress, key);
    json::lemma_kept_value(s1, "turn_token_usage"@, turn_growth(st), key);
    json::lemma_kept_value(s2, "session_token_usage"@, st.turn_total, key);
}

proof fn lemma_measured(st: TurnView, s0: Seq<(Seq<char>, JsonView)>, key: Seq<char>)
    requires
        key != "context_used_tokens"@,
        key != "last_token_usage"@,
        key != "model_context_window"@,
        key != "_derived_from"@,
    ensures
        json::lookup(measured(st, s0), key) == json::lookup(s0, key),
{
    let s1 = json::kept_value(s0, "context_used_tokens"@, context_used(st));
    let s2 = json::kept_value(s1, "last_token_usage"@, st.last_usage);
    let s3 = json::kept_value(s2, "model_context_window"@, number_value(st.window));
    json::lemma_kept_value(s0, "context_used_tokens"@, context_used(st), key);
    json::lemma_kept_value(s1, "last_token_usage"@, st.last_usage, key);
    json::lemma_kept_value(s2, "model_context_window"@, number_value(st.window), key);
    json::lookup_after_with_entry(s3, "_derived_from"@, derived_from(), key);
}

proof fn lemma_named_key(st: TurnView, target: TargetView, cwd: JsonView, key: Seq<char>)
    requires
        st.matched,
        key.len() == 15 || key.len() == 10 || key.len() == 7 || key.len() == 3,
    ensures
        concluded(st, target, cwd)->0.get(key) == json::lookup(named(st, target, cwd), key),
{
    lemma_summary_keys();
    let s = named(st, target, cwd);
    lemma_counted(st, s, key);
    lemma_measured(st, counted(st, s), key);
}

/// A summary names the event, the session, the turn and the directory, and says where it comes
/// from.
pub proof fn summary_names_its_turn(
    rows: Seq<JsonView>,
    target: TargetView,
    cwd: JsonView,
    summary: JsonView,
)
    requires
        turn_summary(rows, target, cwd) == Some(summary),
    ensures
        summary.get("hook_event_name"@) == Some(JsonView::Str("CodexTurnSummary"@)),
        summary.get("session_id"@) == Some(JsonView::Str(target.session_id)),
        summary.get("turn_id"@) == Some(JsonView::Str(target.turn_id)),
        summary.get("cwd"@) == Some(cwd),
        summary.get("_derived_from"@) == Some(
            JsonView::Str("Codex rollout transcript (best effort; internal format)"@),
        ),
{
    let st = after_rows(rows, target);
    let s0 = counted(st, named(st, target, cwd));
    let s1 = json::kept_value(s0, "context_used_tokens"@, context_used(st));
    let s2 = json::kept_value(s1, "last_token_usage"@, st.last_usage);
    let s3 = json::kept_value(s2, "model_context_window"@, number_value(st.window));
    json::lookup_after_with_entry(s3, "_derived_from"@, derived_from(), "cwd"@);
    lemma_summary_keys();
    lemma_named(st, target, cwd);
    lemma_named_key(st, target, cwd, "hook_event_name"@);
    lemma_named_key(st, target, cwd, "session_id"@);
    lemma_named_key(st, target, cwd, "turn_id"@);
    lemma_named_key(st, target, cwd, "cwd"@);
}

/// The keys of the metadata that the rows may add to a summary.
pub open spec fn is_metadata_key(key: Seq<char>) -> bool {
    ||| key == "codex_cli_version"@
    ||| key == "originator"@
    ||| key == "model"@
    ||| key == "effort"@
    ||| key == "approval_policy"@
    ||| key == "collaboration_mode"@
    ||| key == "sandbox_policy"@
}

/// The keys that a summary may have.
pub open spec fn is_summary_key(key: Seq<char>) -> bool {
    ||| is_metadata_key(key)
    ||| key == "hook_event_name"@
    ||| key == "session_id"@
    ||| key == "turn_id"@
    ||| key == "cwd"@
    ||| key == "progress"@
    ||| key == "turn_token_usage"@
    ||| key == "session_token_usage"@
    ||| key == "context_used_tokens"@
    ||| key == "last_token_usage"@
    ||| key == "model_context_window"@
    ||| key == "_derived_from"@
}

proof fn lemma_metadata_keys(rows: Seq<JsonView>, target: TargetView, key: Seq<char>)
    requires
        !is_metadata_key(key),
    ensures
        json::lookup(after_rows(rows, target).summary, key) is None,
    decreases rows.len(),
{
    if rows.len() > 0 {
        lemma_metadata_keys(rows.drop_last(), target, key);
        let st = after_rows(rows.drop_last(), target);
        let p = rows.last().at("payload"@);
        let m1 = kept_str(st.summary, "codex_cli_version"@, p.get("cli_version"@));
        lemma_kept_str(st.summary, "codex_cli_version"@, p.get("cli_version"@), key);
        lemma_kept_str(m1, "originator"@, p.get("originator"@), key);
        let s1 = kept_str(st.summary, "model"@, p.get("model"@));
        let s2 = kept_str(s1, "effort"@, p.get("effort"@));
        let s3 = kept_str(s2, "approval_policy"@, p.get("approval_policy"@));
        let mode = nested(p, "collaboration_mode"@, "mode"@);
        let s4 = kept_str(s3, "collaboration_mode"@, mode);
        lemma_kept_str(st.summary, "model"@, p.get("model"@), key);
        lemma_kept_str(s1, "effort"@, p.get("effort"@), key);
        lemma_kept_str(s2, "approval_policy"@, p.get("approval_policy"@), key);
        lemma_kept_str(s3, "collaboration_mode"@, mode, key);
        lemma_kept_str(s4, "sandbox_policy"@, nested(p, "sandbox_policy"@, "type"@), key);
    }
}

/// A summary has no other keys than those that are foreseen, whatever the rows hold.
pub proof fn summary_has_only_known_keys(
    rows: Seq<JsonView>,
    target: TargetView,
    cwd: JsonView,
    summary: JsonView,
    key: Seq<char>,
)
    requires
        turn_summary(rows, target, cwd) == Some(summary),
        summary.get(key) is Some,
    ensures
        is_summary_key(key),
{
    if !is_summary_key(key) {
        let st = after_rows(rows, target);
        lemma_metadata_keys(rows, target, key);
        let event = JsonView::Str("CodexTurnSummary"@);
        let session = JsonView::Str(target.session_id);
        let turn = JsonView::Str(target.turn_id);
        let n1 = json::with_entry(st.summary, "hook_event_name"@, event);
        let n2 = json::with_entry(n1, "session_id"@, session);
        let n3 = json::with_entry(n2, "turn_id"@, turn);
        json::lookup_after_with_entry(st.summary, "hook_event_name"@, event, key);
        json::lookup_after_with_entry(n1, "session_id"@, session, key);
        json::lookup_after_with_entry(n2, "turn_id"@, turn, key);
        json::lookup_after_with_entry(n3, "cwd"@, cwd, key);
        let s = named(st, target, cwd);
        lemma_counted(st, s, key);
        lemma_measured(st, counted(st, s), key);
    }
}

/// The usage in a summary: that of the turn is by how much the usage of the session grew
/// since the turn began, and that of the session is the last one within the turn.
pub proof fn summary_counts_the_turn(
    rows: Seq<JsonView>,
    target: TargetView,
    cwd: JsonView,
    summary: JsonView,
)
    requires
        turn_summary(rows, target, cwd) == Some(summary),
        after_rows(rows, target).turn_total is Some,
    ensures
        ({
            let st = after_rows(rows, target);
            &&& summary.get("turn_token_usage"@) == Some(
                usage_growth(st.turn_total->0, st.baseline),
            )
            &&& summary.get("session_token_usage"@) == st.turn_total
        }),
{
    let st = after_rows(rows, target);
    let turn = "turn_token_usage"@;
    let session = "session_token_usage"@;
    lemma_summary_keys();
    let s0 = named(st, target, cwd);
    let progress = if st.progress.len() > 0 {
        Some(JsonView::Array(st.progress))
    } else {
        None
    };
    let s1 = json::kept_value(s0, "progress"@, progress);
    let s2 = json::kept_value(s1, turn, turn_growth(st));
    json::lemma_kept_value(s1, turn, turn_growth(st), turn);
    json::lemma_kept_value(s2, session, st.turn_total, turn);
    lemma_measured(st, counted(st, s0), turn);
    lemma_measured(st, counted(st, s0), session);
}

proof fn lemma_kept_str(
    entries: Seq<(Seq<char>, JsonView)>,
    key: Seq<char>,
    src: Option<JsonView>,
    other: Seq<char>,
)
    requires
        other != key,
    ensures
        json::lookup(kept_str(entries, key, src), other) == json::lookup(entries, other),
{
    if let Some(JsonView::Str(s)) = src {
        json::lookup_after_with_entry(entries, key, JsonView::Str(s), other);
    }
}

proof fn lemma_commentary_says(row: JsonView, p: JsonView)
    ensures
        commentary(row, p).str_at("message"@) == Some(text::trimmed(str_or_empty(p, "message"@))),
{
    reveal_strlit("message");
    reveal_strlit("phase");
    reveal_strlit("timestamp");
    assert("message"@.len() == 7);
    assert("phase"@.len() == 5);
    assert("timestamp"@.len() == 9);
    let said = JsonView::Str(text::trimmed(str_or_empty(p, "message"@)));
    let s0 = Seq::<(Seq<char>, JsonView)>::empty();
    let s1 = json::with_entry(s0, "message"@, said);
    let s2 = kept_str(s1, "phase"@, p.get("phase"@));
    json::lookup_after_with_entry(s0, "message"@, said, "phase"@);
    lemma_kept_str(s1, "phase"@, p.get("phase"@), "message"@);
    lemma_kept_str(s2, "timestamp"@, row.get("timestamp"@), "message"@);
}

/// Whether an item of the commentary says something, and that is not the final answer.
pub open spec fn says_more(item: JsonView, target: TargetView) -> bool {
    match item.str_at("message"@) {
        Some(message) => message.len() > 0 && (match target.final_message {
            Some(answer) => text::trimmed(answer) != message,
            None => true,
        }),
        None => false,
    }
}

/// The commentary never holds the final answer, nor an empty message.
pub proof fn commentary_is_never_the_answer(rows: Seq<JsonView>, target: TargetView)
    ensures
        forall|i: int|
            0 <= i < after_rows(rows, target).progress.len() ==> says_more(
                #[trigger] after_rows(rows, target).progress[i],
                target,
            ),
    decreases rows.len(),
{
    if rows.len() > 0 {
        let row = rows.last();
        commentary_is_never_the_answer(rows.drop_last(), target);
        lemma_commentary_says(row, row.at("payload"@));
        let before = after_rows(rows.drop_last(), target).progress;
        let now = after_rows(rows, target).progress;
        assert forall|i: int| 0 <= i < now.len() implies says_more(#[trigger] now[i], target) by {
            if i < before.len() {
                assert(now[i] == before[i]);
            }
        }
    }
}

// ---- summaries as JSON text ----

/// Whether what was kept of the rows can be written as JSON that reads again.
pub open spec fn is_plain_scan(st: TurnView) -> bool {
    &&& codec::plain_entries(st.summary, 126, false)
    &&& forall|i: int|
        0 <= i < st.progress.len() ==> codec::plain(#[trigger] st.progress[i], 125, false)
    &&& is_plain_option(st.last_total)
    &&& is_plain_option(st.baseline)
    &&& is_plain_option(st.turn_total)
    &&& is_plain_option(st.last_usage)
}

/// Whether a value, where there is one, is nested no deeper than allowed in a summary.
pub open spec fn is_plain_option(v: Option<JsonView>) -> bool {
    match v {
        Some(v) => codec::plain(v, 126, false),
        None => true,
    }
}

proof fn lemma_plain_kept_str(
    entries: Seq<(Seq<char>, JsonView)>,
    key: Seq<char>,
    src: Option<JsonView>,
    depth: nat,
)
    requires
        codec::plain_entries(entries, depth, false),
    ensures
        codec::plain_entries(kept_str(entries, key, src), depth, false),
{
    if let Some(JsonView::Str(s)) = src {
        codec::lemma_plain_with_entry(entries, key, JsonView::Str(s), depth, false);
    }
}

proof fn lemma_plain_usage(v: JsonView, n: int)
    ensures
        codec::plain_entries(usage_entries(v, n), 125, false),
    decreases n,
{
    if n > 0 {
        lemma_plain_usage(v, n - 1);
        let key = usage_keys()[n - 1];
        if let Some(x) = v.u64_at(key) {
            let value = JsonView::Number(number::number_of(x));
            codec::lemma_plain_with_entry(usage_entries(v, n - 1), key, value, 125, false);
        }
    }
}

proof fn lemma_plain_growth(end: JsonView, start: Option<JsonView>, n: int)
    ensures
        codec::plain_entries(growth_entries(end, start, n), 125, false),
    decreases n,
{
    if n > 0 {
        lemma_plain_growth(end, start, n - 1);
        let key = usage_keys()[n - 1];
        let value = JsonView::Number(number::number_of(growth(end, start, key) as u64));
        codec::lemma_plain_with_entry(growth_entries(end, start, n - 1), key, value, 125, false);
    }
}

proof fn lemma_plain_usage_at(v: JsonView, key: Seq<char>)
    ensures
        is_plain_option(usage_at(v, key)),
{
    if let Some(u) = v.get(key) {
        lemma_plain_usage(u, 6);
    }
}

proof fn lemma_plain_commentary(row: JsonView, p: JsonView)
    ensures
        codec::plain(commentary(row, p), 125, false),
{
    let said = JsonView::Str(text::trimmed(str_or_empty(p, "message"@)));
    let s0 = Seq::<(Seq<char>, JsonView)>::empty();
    let s1 = json::with_entry(s0, "message"@, said);
    let s2 = kept_str(s1, "phase"@, p.get("phase"@));
    codec::lemma_plain_with_entry(s0, "message"@, said, 124, false);
    lemma_plain_kept_str(s1, "phase"@, p.get("phase"@), 124);
    lemma_plain_kept_str(s2, "timestamp"@, row.get("timestamp"@), 124);
}

proof fn lemma_plain_row(st: TurnView, row: JsonView, target: TargetView)
    requires
        is_plain_scan(st),
    ensures
        is_plain_scan(after_row(st, row, target)),
{
    let p = row.at("payload"@);
    let m1 = kept_str(st.summary, "codex_cli_version"@, p.get("cli_version"@));
    lemma_plain_kept_str(st.summary, "codex_cli_version"@, p.get("cli_version"@), 126);
    lemma_plain_kept_str(m1, "originator"@, p.get("originator"@), 126);
    let s1 = kept_str(st.summary, "model"@, p.get("model"@));
    let s2 = kept_str(s1, "effort"@, p.get("effort"@));
    let s3 = kept_str(s2, "approval_policy"@, p.get("approval_policy"@));
    let mode = nested(p, "collaboration_mode"@, "mode"@);
    let s4 = kept_str(s3, "collaboration_mode"@, mode);
    lemma_plain_kept_str(st.summary, "model"@, p.get("model"@), 126);
    lemma_plain_kept_str(s1, "effort"@, p.get("effort"@), 126);
    lemma_plain_kept_str(s2, "approval_policy"@, p.get("approval_policy"@), 126);
    lemma_plain_kept_str(s3, "collaboration_mode"@, mode, 126);
    lemma_plain_kept_str(s4, "sandbox_policy"@, nested(p, "sandbox_policy"@, "type"@), 126);
    lemma_plain_usage_at(p.at("info"@), "total_token_usage"@);
    lemma_plain_usage_at(p.at("info"@), "last_token_usage"@);
    lemma_plain_commentary(row, p);
    let now = after_row(st, row, target);
    assert forall|i: int| 0 <= i < now.progress.len() implies codec::plain(
        #[trigger] now.progress[i],
        125,
        false,
    ) by {
        if i < st.progress.len() {
            assert(now.progress[i] == st.progress[i]);
        }
    }
}

proof fn lemma_plain_rows(rows: Seq<JsonView>, target: TargetView)
    ensures
        is_plain_scan(after_rows(rows, target)),
    decreases rows.len(),
{
    if rows.len() > 0 {
        lemma_plain_rows(rows.drop_last(), target);
        lemma_plain_row(after_rows(rows.drop_last(), target), rows.last(), target);
    }
}

proof fn lemma_plain_kept_value(
    entries: Seq<(Seq<char>, JsonView)>,
    key: Seq<char>,
    value: Option<JsonView>,
)
    requires
        codec::plain_entries(entries, 126, false),
        is_plain_option(value),
    ensures
        codec::plain_entries(json::kept_value(entries, key, value), 126, false),
{
    if let Some(v) = value {
        codec::lemma_plain_with_entry(entries, key, v, 126, false);
    }
}

/// A summary is nested no deeper than a reader of JSON goes, where the directory is not.
pub proof fn summaries_are_plain(rows: Seq<JsonView>, target: TargetView, cwd: JsonView)
    requires
        codec::plain(cwd, 126, false),
    ensures
        match turn_summary(rows, target, cwd) {
            Some(summary) => codec::plain(summary, 127, false),
            None => true,
        },
{
    let st = after_rows(rows, target);
    lemma_plain_rows(rows, target);
    let event = JsonView::Str("CodexTurnSummary"@);
    let session = JsonView::Str(target.session_id);
    let turn = JsonView::Str(target.turn_id);
    let n1 = json::with_entry(st.summary, "hook_event_name"@, event);
    let n2 = json::with_entry(n1, "session_id"@, session);
    let n3 = json::with_entry(n2, "turn_id"@, turn);
    codec::lemma_plain_with_entry(st.summary, "hook_event_name"@, event, 126, false);
    codec::lemma_plain_with_entry(n1, "session_id"@, session, 126, false);
    codec::lemma_plain_with_entry(n2, "turn_id"@, turn, 126, false);
    codec::lemma_plain_with_entry(n3, "cwd"@, cwd, 126, false);
    let c0 = named(st, target, cwd);
    let progress = if st.progress.len() > 0 {
        Some(JsonView::Array(st.progress))
    } else {
        None
    };
    let c1 = json::kept_value(c0, "progress"@, progress);
    let c2 = json::kept_value(c1, "turn_token_usage"@, turn_growth(st));
    if let Some(total) = st.turn_total {
        lemma_plain_growth(total, st.baseline, 6);
    }
    lemma_plain_kept_value(c0, "progress"@, progress);
    lemma_plain_kept_value(c1, "turn_token_usage"@, turn_growth(st));
    lemma_plain_kept_value(c2, "session_token_usage"@, st.turn_total);
    let m0 = counted(st, c0);
    let m1 = json::kept_value(m0, "context_used_tokens"@, context_used(st));
    let m2 = json::kept_value(m1, "last_token_usage"@, st.last_usage);
    let m3 = json::kept_value(m2, "model_context_window"@, number_value(st.window));
    lemma_plain_kept_value(m0, "context_used_tokens"@, context_used(st));
    lemma_plain_kept_value(m1, "last_token_usage"@, st.last_usage);
    lemma_plain_kept_value(m2, "model_context_window"@, number_value(st.window));
    codec::lemma_plain_with_entry(m3, "_derived_from"@, derived_from(), 126, false);
}

// ---- what a summary takes from the rows ----

/// What the message of an `agent_message` event says, without the blanks around it.
pub open spec fn said(p: JsonView) -> Seq<char> {
    match p.str_at("message"@) {
        Some(message) => text::trimmed(message),
        None => Seq::empty(),
    }
}

/// Whether a row comments on the turn: it is a message of the agent that stands within the turn,
/// says something, is not marked as the final answer, and is not the final answer.
pub open spec fn comments_on(rows: Seq<JsonView>, i: int, target: TargetView) -> bool {
    let p = rows[i].at("payload"@);
    &&& rows[i].str_at("type"@) == Some("event_msg"@)
    &&& p.str_at("type"@) == Some("agent_message"@)
    &&& current_turn(rows.take(i + 1)) == Some(target.turn_id)
    &&& said(p).len() > 0
    &&& p.str_at("phase"@) != Some("final_answer"@)
    &&& target.final_message is Some ==> said(p) != text::trimmed(target.final_message->0)
}

/// The places of the rows, among the first `n`, that comment on the turn.
pub open spec fn comments(rows: Seq<JsonView>, n: int, target: TargetView) -> Seq<int>
    decreases n,
{
    if n <= 0 {
        Seq::empty()
    } else if comments_on(rows, n - 1, target) {
        comments(rows, n - 1, target).push(n - 1)
    } else {
        comments(rows, n - 1, target)
    }
}

/// These places are in order, none is there twice, and a row is there exactly where it comments
/// on the turn.
pub proof fn comments_are_in_order(rows: Seq<JsonView>, n: int, target: TargetView)
    requires
        0 <= n,
    ensures
        forall|i: int, j: int|
            0 <= i < j < comments(rows, n, target).len() ==> #[trigger] comments(
                rows,
                n,
                target,
            )[i] < #[trigger] comments(rows, n, target)[j],
        forall|k: int| #[trigger]
            comments(rows, n, target).contains(k) <==> 0 <= k < n && comments_on(rows, k, target),
    decreases n,
{
    let all = comments(rows, n, target);
    if n > 0 {
        comments_are_in_order(rows, n - 1, target);
        let less = comments(rows, n - 1, target);
        assert forall|i: int| 0 <= i < less.len() implies 0 <= #[trigger] less[i] < n - 1 by {
            assert(less.contains(less[i]));
        }
        assert forall|k: int| #[trigger] all.contains(k) <==> 0 <= k < n && comments_on(
            rows,
            k,
            target,
        ) by {
            assert(less.contains(k) <==> 0 <= k < n - 1 && comments_on(rows, k, target));
            if all.contains(k) {
                let j = choose|j: int| 0 <= j < all.len() && all[j] == k;
                if j < less.len() {
                    assert(less[j] == k);
                }
            }
            if less.contains(k) {
                let j = choose|j: int| 0 <= j < less.len() && less[j] == k;
                assert(all[j] == k);
            }
            if k == n - 1 && comments_on(rows, k, target) {
                assert(all[all.len() - 1] == k);
            }
        }
    }
}

/// A string that is not empty, as a value, where there is one.
pub open spec fn proper_string(v: Option<JsonView>) -> Option<JsonView> {
    match v {
        Some(JsonView::Str(s)) => if s.len() > 0 {
            Some(JsonView::Str(s))
        } else {
            None
        },
        _ => None,
    }
}

/// Whether an item is what is kept of a row that comments on the turn: what the row says, its
/// phase and its time, where it has them, and nothing else.
pub open spec fn tells_of(item: JsonView, row: JsonView) -> bool {
    &&& item.get("message"@) == Some(JsonView::Str(said(row.at("payload"@))))
    &&& item.get("phase"@) == proper_string(row.at("payload"@).get("phase"@))
    &&& item.get("timestamp"@) == proper_string(row.get("timestamp"@))
    &&& forall|key: Seq<char>|
        key != "message"@ && key != "phase"@ && key != "timestamp"@ ==> (#[trigger] item.get(
            key,
        )) is None
}

proof fn lemma_kept_str_at(
    entries: Seq<(Seq<char>, JsonView)>,
    key: Seq<char>,
    src: Option<JsonView>,
    other: Seq<char>,
)
    ensures
        json::lookup(kept_str(entries, key, src), other) == (if other == key && proper_string(
            src,
        ) is Some {
            proper_string(src)
        } else {
            json::lookup(entries, other)
        }),
{
    if let Some(JsonView::Str(s)) = src {
        json::lookup_after_with_entry(entries, key, JsonView::Str(s), other);
    }
}

proof fn lemma_comment_tells(row: JsonView)
    ensures
        tells_of(commentary(row, row.at("payload"@)), row),
{
    reveal_strlit("message");
    reveal_strlit("phase");
    reveal_strlit("timestamp");
    assert("message"@.len() == 7);
    assert("phase"@.len() == 5);
    assert("timestamp"@.len() == 9);
    let p = row.at("payload"@);
    let item = commentary(row, p);
    lemma_trimmed_nothing();
    let what = JsonView::Str(text::trimmed(str_or_empty(p, "message"@)));
    assert(what == JsonView::Str(said(p)));
    let s0 = Seq::<(Seq<char>, JsonView)>::empty();
    let s1 = json::with_entry(s0, "message"@, what);
    let s2 = kept_str(s1, "phase"@, p.get("phase"@));
    assert forall|key: Seq<char>| #[trigger] item.get(key) == (if key == "message"@ {
        Some(what)
    } else if key == "phase"@ {
        proper_string(p.get("phase"@))
    } else if key == "timestamp"@ {
        proper_string(row.get("timestamp"@))
    } else {
        None
    }) by {
        json::lookup_after_with_entry(s0, "message"@, what, key);
        lemma_kept_str_at(s1, "phase"@, p.get("phase"@), key);
        lemma_kept_str_at(s2, "timestamp"@, row.get("timestamp"@), key);
    }
}

proof fn lemma_trimmed_nothing()
    ensures
        text::trimmed(Seq::<char>::empty()) == Seq::<char>::empty(),
{
    assert(text::trimmed(Seq::<char>::empty()) =~= Seq::<char>::empty());
}

proof fn lemma_progress(rows: Seq<JsonView>, n: int, target: TargetView)
    requires
        0 <= n <= rows.len(),
    ensures
        ({
            let progress = after_rows(rows.take(n), target).progress;
            let places = comments(rows, n, target);
            &&& progress.len() == places.len()
            &&& forall|k: int|
                0 <= k < places.len() ==> tells_of(#[trigger] progress[k], rows[places[k]])
        }),
    decreases n,
{
    let now = rows.take(n);
    if n > 0 {
        lemma_progress(rows, n - 1, target);
        let row = rows[n - 1];
        let p = row.at("payload"@);
        let before = rows.take(n - 1);
        assert(now.drop_last() =~= before);
        assert(now.last() == row);
        scan_follows_the_turn(before, target);
        lemma_comment_tells(row);
        lemma_trimmed_nothing();
        lemma_row_kinds();
        let places = comments(rows, n - 1, target);
        let progress = after_rows(before, target).progress;
        assert(said(p) == text::trimmed(str_or_empty(p, "message"@)));
        let st = after_rows(before, target);
        let was = row.str_at("type"@) == Some("event_msg"@) && p.str_at("type"@) == Some(
            "agent_message"@,
        );
        if was {
            assert(current_turn(now) == current_turn(before));
            assert((str_or_empty(p, "phase"@) == "final_answer"@) <==> p.str_at("phase"@) == Some(
                "final_answer"@,
            ));
            assert(comments_on(rows, n - 1, target) <==> st.in_turn && is_commentary(p, target));
        }
        if comments_on(rows, n - 1, target) {
            let all = after_rows(now, target).progress;
            assert(all == progress.push(commentary(row, p)));
            let more = comments(rows, n, target);
            assert forall|k: int| 0 <= k < more.len() implies tells_of(
                #[trigger] all[k],
                rows[more[k]],
            ) by {
                if k < places.len() {
                    assert(all[k] == progress[k] && more[k] == places[k]);
                } else {
                    assert(more[k] == n - 1);
                }
            }
        } else {
            assert(after_rows(now, target).progress == progress);
        }
    } else {
        assert(now =~= Seq::<JsonView>::empty());
    }
}

proof fn lemma_row_kinds()
    ensures
        "session_meta"@ != "turn_context"@,
        "session_meta"@ != "event_msg"@,
        "turn_context"@ != "event_msg"@,
        "token_count"@ != "agent_message"@,
        "final_answer"@.len() == 12,
{
    reveal_strlit("session_meta");
    reveal_strlit("turn_context");
    reveal_strlit("event_msg");
    reveal_strlit("token_count");
    reveal_strlit("agent_message");
    reveal_strlit("final_answer");
    assert("session_meta"@[0] == 's' && "turn_context"@[0] == 't' && "event_msg"@[0] == 'e');
    assert("token_count"@.len() == 11 && "agent_message"@.len() == 13);
    assert("final_answer"@.len() == 12);
}

/// The progress in a summary has one item for each row that comments on the turn, in the order of
/// the rows, and each item tells what its row says; without such a row there is no progress.
pub proof fn progress_tells_every_comment(
    rows: Seq<JsonView>,
    target: TargetView,
    cwd: JsonView,
    summary: JsonView,
)
    requires
        turn_summary(rows, target, cwd) == Some(summary),
    ensures
        ({
            let places = comments(rows, rows.len() as int, target);
            match summary.get("progress"@) {
                Some(JsonView::Array(items)) => {
                    &&& items.len() == places.len() > 0
                    &&& forall|k: int|
                        0 <= k < items.len() ==> tells_of(#[trigger] items[k], rows[places[k]])
                },
                Some(_) => false,
                None => places.len() == 0,
            }
        }),
{
    lemma_progress(rows, rows.len() as int, target);
    assert(rows.take(rows.len() as int) =~= rows);
    let st = after_rows(rows, target);
    lemma_counted_at(st, target, cwd, "progress"@);
    lemma_metadata_keys_differ();
    lemma_metadata_keys(rows, target, "progress"@);
}

// ---- where the entries of a summary come from ----

proof fn lemma_metadata_keys_differ()
    ensures
        "codex_cli_version"@.len() == 17,
        "originator"@.len() == 10,
        "model"@.len() == 5,
        "effort"@.len() == 6,
        "approval_policy"@.len() == 15,
        "collaboration_mode"@.len() == 18,
        "sandbox_policy"@.len() == 14,
        "originator"@ != "session_id"@,
        "approval_policy"@ != "hook_event_name"@,
        forall|key: Seq<char>|
            #![trigger is_metadata_key(key)]
            is_metadata_key(key) ==> key != "hook_event_name"@ && key != "session_id"@ && key
                != "turn_id"@ && key != "cwd"@ && key != "progress"@ && key != "turn_token_usage"@
                && key != "session_token_usage"@ && key != "context_used_tokens"@ && key
                != "last_token_usage"@ && key != "model_context_window"@ && key != "_derived_from"@,
{
    reveal_strlit("codex_cli_version");
    reveal_strlit("originator");
    reveal_strlit("model");
    reveal_strlit("effort");
    reveal_strlit("approval_policy");
    reveal_strlit("collaboration_mode");
    reveal_strlit("sandbox_policy");
    reveal_strlit("session_id");
    reveal_strlit("hook_event_name");
    assert("codex_cli_version"@.len() == 17);
    assert("originator"@.len() == 10);
    assert("model"@.len() == 5);
    assert("effort"@.len() == 6);
    assert("approval_policy"@.len() == 15);
    assert("collaboration_mode"@.len() == 18);
    assert("sandbox_policy"@.len() == 14);
    assert("originator"@[0] == 'o' && "session_id"@[0] == 's');
    assert("approval_policy"@[0] == 'a' && "hook_event_name"@[0] == 'h');
    lemma_summary_keys();
}

/// What stands under a key of a summary.
proof fn lemma_counted_at(st: TurnView, target: TargetView, cwd: JsonView, key: Seq<char>)
    requires
        st.matched,
    ensures
        ({
            let value = concluded(st, target, cwd)->0.get(key);
            let kept = json::lookup(st.summary, key);
            &&& key == "progress"@ ==> value == (if st.progress.len() > 0 {
                Some(JsonView::Array(st.progress))
            } else {
                kept
            })
            &&& key == "turn_token_usage"@ ==> value == (if st.turn_total is Some {
                Some(usage_growth(st.turn_total->0, st.baseline))
            } else {
                kept
            })
            &&& key == "session_token_usage"@ ==> value == (if st.turn_total is Some {
                st.turn_total
            } else {
                kept
            })
            &&& key == "context_used_tokens"@ ==> value == (if context_used(st) is Some {
                context_used(st)
            } else {
                kept
            })
            &&& key == "last_token_usage"@ ==> value == (if st.last_usage is Some {
                st.last_usage
            } else {
                kept
            })
            &&& key == "model_context_window"@ ==> value == (if st.window is Some {
                Some(JsonView::Number(number::number_of(st.window->0)))
            } else {
                kept
            })
            &&& is_metadata_key(key) ==> value == kept
        }),
{
    lemma_summary_keys();
    lemma_metadata_keys_differ();
    let event = JsonView::Str("CodexTurnSummary"@);
    let session = JsonView::Str(target.session_id);
    let turn = JsonView::Str(target.turn_id);
    let n1 = json::with_entry(st.summary, "hook_event_name"@, event);
    let n2 = json::with_entry(n1, "session_id"@, session);
    let n3 = json::with_entry(n2, "turn_id"@, turn);
    let c0 = named(st, target, cwd);
    let progress = if st.progress.len() > 0 {
        Some(JsonView::Array(st.progress))
    } else {
        None
    };
    let c1 = json::kept_value(c0, "progress"@, progress);
    let c2 = json::kept_value(c1, "turn_token_usage"@, turn_growth(st));
    let m0 = counted(st, c0);
    let m1 = json::kept_value(m0, "context_used_tokens"@, context_used(st));
    let m2 = json::kept_value(m1, "last_token_usage"@, st.last_usage);
    let m3 = json::kept_value(m2, "model_context_window"@, number_value(st.window));
    json::lookup_after_with_entry(st.summary, "hook_event_name"@, event, key);
    json::lookup_after_with_entry(n1, "session_id"@, session, key);
    json::lookup_after_with_entry(n2, "turn_id"@, turn, key);
    json::lookup_after_with_entry(n3, "cwd"@, cwd, key);
    json::lemma_kept_value(c0, "progress"@, progress, key);
    json::lemma_kept_value(c1, "turn_token_usage"@, turn_growth(st), key);
    json::lemma_kept_value(c2, "session_token_usage"@, st.turn_total, key);
    json::lemma_kept_value(m0, "context_used_tokens"@, context_used(st), key);
    json::lemma_kept_value(m1, "last_token_usage"@, st.last_usage, key);
    json::lemma_kept_value(m2, "model_context_window"@, number_value(st.window), key);
    json::lookup_after_with_entry(m3, "_derived_from"@, derived_from(), key);
}

/// What a row tells of the session or the turn under a key of a summary: the head of the
/// transcript tells of its session, and the context of a turn of that turn.
pub open spec fn told(row: JsonView, target: TargetView, key: Seq<char>) -> Option<JsonView> {
    let p = row.at("payload"@);
    let about = match p.get("session_id"@) {
        Some(v) => v.as_str(),
        None => p.str_at("id"@),
    };
    if row.str_at("type"@) == Some("session_meta"@) && about == Some(target.session_id) {
        if key == "codex_cli_version"@ {
            proper_string(p.get("cli_version"@))
        } else if key == "originator"@ {
            proper_string(p.get("originator"@))
        } else {
            None
        }
    } else if row.str_at("type"@) == Some("turn_context"@) && p.str_at("turn_id"@) == Some(
        target.turn_id,
    ) {
        if key == "model"@ {
            proper_string(p.get("model"@))
        } else if key == "effort"@ {
            proper_string(p.get("effort"@))
        } else if key == "approval_policy"@ {
            proper_string(p.get("approval_policy"@))
        } else if key == "collaboration_mode"@ {
            proper_string(p.at("collaboration_mode"@).get("mode"@))
        } else if key == "sandbox_policy"@ {
            proper_string(p.at("sandbox_policy"@).get("type"@))
        } else {
            None
        }
    } else {
        None
    }
}

/// What the last row that tells something under a key tells.
pub open spec fn last_told(rows: Seq<JsonView>, target: TargetView, key: Seq<char>) -> Option<
    JsonView,
>
    decreases rows.len(),
{
    if rows.len() == 0 {
        None
    } else if told(rows.last(), target, key) is Some {
        told(rows.last(), target, key)
    } else {
        last_told(rows.drop_last(), target, key)
    }
}

proof fn lemma_last_told(rows: Seq<JsonView>, target: TargetView, key: Seq<char>)
    requires
        is_metadata_key(key),
    ensures
        json::lookup(after_rows(rows, target).summary, key) == last_told(rows, target, key),
    decreases rows.len(),
{
    if rows.len() > 0 {
        lemma_last_told(rows.drop_last(), target, key);
        lemma_metadata_keys_differ();
        lemma_row_kinds();
        let st = after_rows(rows.drop_last(), target);
        let p = rows.last().at("payload"@);
        let m1 = kept_str(st.summary, "codex_cli_version"@, p.get("cli_version"@));
        lemma_kept_str_at(st.summary, "codex_cli_version"@, p.get("cli_version"@), key);
        lemma_kept_str_at(m1, "originator"@, p.get("originator"@), key);
        let s1 = kept_str(st.summary, "model"@, p.get("model"@));
        let s2 = kept_str(s1, "effort"@, p.get("effort"@));
        let s3 = kept_str(s2, "approval_policy"@, p.get("approval_policy"@));
        let mode = nested(p, "collaboration_mode"@, "mode"@);
        let s4 = kept_str(s3, "collaboration_mode"@, mode);
        lemma_kept_str_at(st.summary, "model"@, p.get("model"@), key);
        lemma_kept_str_at(s1, "effort"@, p.get("effort"@), key);
        lemma_kept_str_at(s2, "approval_policy"@, p.get("approval_policy"@), key);
        lemma_kept_str_at(s3, "collaboration_mode"@, mode, key);
        lemma_kept_str_at(s4, "sandbox_policy"@, nested(p, "sandbox_policy"@, "type"@), key);
    }
}

/// The version, the originator, the model, the effort, the policies and the mode in a summary are
/// those that the rows told last.
pub proof fn summary_holds_what_was_told_last(
    rows: Seq<JsonView>,
    target: TargetView,
    cwd: JsonView,
    summary: JsonView,
    key: Seq<char>,
)
    requires
        turn_summary(rows, target, cwd) == Some(summary),
        is_metadata_key(key),
    ensures
        summary.get(key) == last_told(rows, target, key),
{
    lemma_last_told(rows, target, key);
    lemma_counted_at(after_rows(rows, target), target, cwd, key);
}

// ---- where the usage in a summary comes from ----

/// Whether a key is that of a counter.
pub open spec fn is_counter(key: Seq<char>) -> bool {
    ||| key == "input_tokens"@
    ||| key == "cached_input_tokens"@
    ||| key == "cache_write_input_tokens"@
    ||| key == "output_tokens"@
    ||| key == "reasoning_output_tokens"@
    ||| key == "total_tokens"@
}

proof fn lemma_counters(key: Seq<char>)
    ensures
        usage_keys().len() == 6,
        is_counter(key) <==> exists|i: int| 0 <= i < 6 && #[trigger] usage_keys()[i] == key,
{
    let keys = usage_keys();
    assert(keys[0] == "input_tokens"@);
    assert(keys[1] == "cached_input_tokens"@);
    assert(keys[2] == "cache_write_input_tokens"@);
    assert(keys[3] == "output_tokens"@);
    assert(keys[4] == "reasoning_output_tokens"@);
    assert(keys[5] == "total_tokens"@);
}

proof fn lemma_usage_entry(v: JsonView, n: int, key: Seq<char>)
    requires
        0 <= n <= 6,
    ensures
        json::lookup(usage_entries(v, n), key) == (if v.u64_at(key) is Some && exists|i: int|
            0 <= i < n && #[trigger] usage_keys()[i] == key {
            Some(JsonView::Number(number::number_of(v.u64_at(key)->0)))
        } else {
            None
        }),
    decreases n,
{
    if n > 0 {
        lemma_usage_entry(v, n - 1, key);
        let rest = usage_entries(v, n - 1);
        let k = usage_keys()[n - 1];
        if let Some(x) = v.u64_at(k) {
            json::lookup_after_with_entry(rest, k, JsonView::Number(number::number_of(x)), key);
        }
        if exists|i: int| 0 <= i < n - 1 && #[trigger] usage_keys()[i] == key {
            let i = choose|i: int| 0 <= i < n - 1 && #[trigger] usage_keys()[i] == key;
            assert(usage_keys()[i] == key);
        }
        if exists|i: int| 0 <= i < n && #[trigger] usage_keys()[i] == key {
            let i = choose|i: int| 0 <= i < n && #[trigger] usage_keys()[i] == key;
            if i < n - 1 {
                assert(usage_keys()[i] == key);
            }
        }
    }
}

/// A usage holds the counters that are unsigned integers, as they are, and nothing else; where
/// there is none of them there is no usage.
pub proof fn usage_holds_the_counters(v: JsonView, key: Seq<char>)
    ensures
        usage(v) is Some ==> usage(v)->0.get(key) == (if is_counter(key) && v.u64_at(
            key,
        ) is Some {
            Some(JsonView::Number(number::number_of(v.u64_at(key)->0)))
        } else {
            None
        }),
        is_counter(key) && v.u64_at(key) is Some ==> usage(v) is Some,
        usage(v) is Some ==> exists|k: Seq<char>|
            is_counter(k) && (#[trigger] v.u64_at(k)) is Some,
{
    lemma_counters(key);
    lemma_usage_entry(v, 6, key);
    let entries = usage_entries(v, 6);
    if entries.len() > 0 {
        let k = entries[0].0;
        json::looking_up_finds_the_entry(entries, k);
        lemma_usage_entry(v, 6, k);
        lemma_counters(k);
        assert(entries[0].0 == k);
    }
}

/// The growth of a usage has every counter, as much as it grew, and 0 where it did not; a counter
/// that is missing counts as 0; and there is nothing else in it.
pub proof fn growth_is_the_difference(end: JsonView, start: Option<JsonView>, key: Seq<char>)
    ensures
        ({
            let last: int = match end.u64_at(key) {
                Some(n) => n as int,
                None => 0,
            };
            let first: int = match start {
                Some(v) => match v.u64_at(key) {
                    Some(n) => n as int,
                    None => 0,
                },
                None => 0,
            };
            let grown = if last > first {
                last - first
            } else {
                0
            };
            usage_growth(end, start).get(key) == (if is_counter(key) {
                Some(JsonView::Number(number::number_of(grown as u64)))
            } else {
                None
            })
        }),
{
    lemma_counters(key);
    if is_counter(key) {
        let i = choose|i: int| 0 <= i < 6 && #[trigger] usage_keys()[i] == key;
        growth_counts_what_was_added(end, start, i);
    } else {
        lemma_no_growth_entry(end, start, 6, key);
    }
}

proof fn lemma_no_growth_entry(end: JsonView, start: Option<JsonView>, n: int, key: Seq<char>)
    requires
        0 <= n <= 6,
        !is_counter(key),
    ensures
        json::lookup(growth_entries(end, start, n), key) is None,
    decreases n,
{
    if n > 0 {
        lemma_no_growth_entry(end, start, n - 1, key);
        lemma_counters(key);
        let k = usage_keys()[n - 1];
        let value = JsonView::Number(number::number_of(growth(end, start, k) as u64));
        json::lookup_after_with_entry(growth_entries(end, start, n - 1), k, value, key);
    }
}

/// Whether a row counts tokens.
pub open spec fn counts_tokens(row: JsonView) -> bool {
    row.str_at("type"@) == Some("event_msg"@) && row.at("payload"@).str_at("type"@) == Some(
        "token_count"@,
    )
}

/// The usage of the session that a row gives.
pub open spec fn total_of(row: JsonView) -> Option<JsonView> {
    if counts_tokens(row) {
        usage(row.at("payload"@).at("info"@).at("total_token_usage"@))
    } else {
        None
    }
}

/// The last usage of the session that the rows give.
pub open spec fn last_total(rows: Seq<JsonView>) -> Option<JsonView>
    decreases rows.len(),
{
    if rows.len() == 0 {
        None
    } else if total_of(rows.last()) is Some {
        total_of(rows.last())
    } else {
        last_total(rows.drop_last())
    }
}

/// The last usage of the session that the rows within a turn give.
pub open spec fn last_total_within(rows: Seq<JsonView>, turn_id: Seq<char>) -> Option<JsonView>
    decreases rows.len(),
{
    if rows.len() == 0 {
        None
    } else if total_of(rows.last()) is Some && current_turn(rows) == Some(turn_id) {
        total_of(rows.last())
    } else {
        last_total_within(rows.drop_last(), turn_id)
    }
}

/// What the last row within a turn that counts tokens says of them.
pub open spec fn last_count_within(rows: Seq<JsonView>, turn_id: Seq<char>) -> JsonView
    decreases rows.len(),
{
    if rows.len() == 0 {
        JsonView::Null
    } else if counts_tokens(rows.last()) && current_turn(rows) == Some(turn_id) {
        rows.last().at("payload"@).at("info"@)
    } else {
        last_count_within(rows.drop_last(), turn_id)
    }
}

/// The usage of the session before the turn began: the last one before the first row that begins
/// the turn.
pub open spec fn total_before(rows: Seq<JsonView>, turn_id: Seq<char>) -> Option<JsonView>
    decreases rows.len(),
{
    if rows.len() == 0 {
        None
    } else if total_before_is_known(rows.drop_last(), turn_id) {
        total_before(rows.drop_last(), turn_id)
    } else if total_before_is_known(rows, turn_id) {
        last_total(rows.drop_last())
    } else {
        None
    }
}

/// Whether some row begins the turn.
pub open spec fn total_before_is_known(rows: Seq<JsonView>, turn_id: Seq<char>) -> bool {
    exists|i: int|
        0 <= i < rows.len() && is_turn_context(#[trigger] rows[i]) && rows[i].at("payload"@).str_at(
            "turn_id"@,
        ) == Some(turn_id)
}

/// Where the turn begins at a row and at none before it, the usage before the turn is the last one
/// before that row.
pub proof fn turn_begins_at_its_first_row(rows: Seq<JsonView>, i: int, turn_id: Seq<char>)
    requires
        0 <= i < rows.len(),
        is_turn_context(rows[i]),
        rows[i].at("payload"@).str_at("turn_id"@) == Some(turn_id),
        !total_before_is_known(rows.take(i), turn_id),
    ensures
        total_before(rows, turn_id) == last_total(rows.take(i)),
    decreases rows.len(),
{
    let less = rows.drop_last();
    if i == rows.len() - 1 {
        assert(less =~= rows.take(i));
        assert(is_turn_context(rows[i]));
        assert(total_before_is_known(rows, turn_id));
    } else {
        assert(less[i] == rows[i]);
        assert(less.take(i) =~= rows.take(i));
        assert(total_before_is_known(less, turn_id)) by {
            assert(is_turn_context(less[i]));
        }
        turn_begins_at_its_first_row(less, i, turn_id);
    }
}

proof fn lemma_totals(rows: Seq<JsonView>, target: TargetView)
    ensures
        ({
            let st = after_rows(rows, target);
            let info = last_count_within(rows, target.turn_id);
            &&& st.matched <==> total_before_is_known(rows, target.turn_id)
            &&& st.last_total == last_total(rows)
            &&& st.turn_total == last_total_within(rows, target.turn_id)
            &&& st.baseline == total_before(rows, target.turn_id)
            &&& st.last_usage == usage(info.at("last_token_usage"@))
            &&& st.window == info.u64_at("model_context_window"@)
        }),
    decreases rows.len(),
{
    if rows.len() > 0 {
        let less = rows.drop_last();
        let row = rows.last();
        lemma_totals(less, target);
        lemma_row_kinds();
        scan_follows_the_turn(less, target);
        assert forall|i: int| 0 <= i < less.len() implies less[i] == #[trigger] rows[i] by {}
        assert(rows[rows.len() - 1] == row);
        let turn = target.turn_id;
        if total_before_is_known(less, turn) {
            let i = choose|i: int|
                0 <= i < less.len() && is_turn_context(#[trigger] less[i]) && less[i].at(
                    "payload"@,
                ).str_at("turn_id"@) == Some(turn);
            assert(rows[i] == less[i]);
            assert(total_before_is_known(rows, turn));
        } else if total_before_is_known(rows, turn) {
            let i = choose|i: int|
                0 <= i < rows.len() && is_turn_context(#[trigger] rows[i]) && rows[i].at(
                    "payload"@,
                ).str_at("turn_id"@) == Some(turn);
            if i < less.len() {
                assert(less[i] == rows[i]);
            }
            assert(is_turn_context(row));
        }
        if is_turn_context(row) && row.at("payload"@).str_at("turn_id"@) == Some(turn) {
            assert(is_turn_context(rows[rows.len() - 1]));
            assert(total_before_is_known(rows, turn));
        }
    }
}

/// The usage in a summary: that of the session is the last one within the turn, and that of the
/// turn is by how much it grew since the last one before the turn; both are there exactly where
/// there is one within the turn.
pub proof fn summary_counts_what_the_rows_count(
    rows: Seq<JsonView>,
    target: TargetView,
    cwd: JsonView,
    summary: JsonView,
)
    requires
        turn_summary(rows, target, cwd) == Some(summary),
    ensures
        summary.get("session_token_usage"@) == last_total_within(rows, target.turn_id),
        summary.get("turn_token_usage"@) == (match last_total_within(rows, target.turn_id) {
            Some(total) => Some(usage_growth(total, total_before(rows, target.turn_id))),
            None => None,
        }),
{
    let st = after_rows(rows, target);
    lemma_totals(rows, target);
    lemma_metadata_keys_differ();
    lemma_summary_keys();
    lemma_metadata_keys(rows, target, "session_token_usage"@);
    lemma_metadata_keys(rows, target, "turn_token_usage"@);
    lemma_counted_at(st, target, cwd, "session_token_usage"@);
    lemma_counted_at(st, target, cwd, "turn_token_usage"@);
}

/// The use of the context in a summary: the usage and the window that the last row within the turn
/// that counts tokens gives, and the input tokens of that usage; what it does not give is not
/// there.
pub proof fn summary_measures_the_last_request(
    rows: Seq<JsonView>,
    target: TargetView,
    cwd: JsonView,
    summary: JsonView,
)
    requires
        turn_summary(rows, target, cwd) == Some(summary),
    ensures
        ({
            let info = last_count_within(rows, target.turn_id);
            let last = usage(info.at("last_token_usage"@));
            &&& summary.get("last_token_usage"@) == last
            &&& summary.get("model_context_window"@) == (match info.u64_at(
                "model_context_window"@,
            ) {
                Some(n) => Some(JsonView::Number(number::number_of(n))),
                None => None,
            })
            &&& summary.get("context_used_tokens"@) == (match last {
                Some(u) => match u.u64_at("input_tokens"@) {
                    Some(n) => Some(JsonView::Number(number::number_of(n))),
                    None => None,
                },
                None => None,
            })
        }),
{
    let st = after_rows(rows, target);
    lemma_totals(rows, target);
    lemma_metadata_keys_differ();
    lemma_summary_keys();
    lemma_metadata_keys(rows, target, "last_token_usage"@);
    lemma_metadata_keys(rows, target, "model_context_window"@);
    lemma_metadata_keys(rows, target, "context_used_tokens"@);
    lemma_counted_at(st, target, cwd, "last_token_usage"@);
    lemma_counted_at(st, target, cwd, "model_context_window"@);
    lemma_counted_at(st, target, cwd, "context_used_tokens"@);
}

/// The rows are those of the lines, one for each line that is JSON, in the order of the lines.
pub proof fn rows_come_line_by_line(lines: Seq<Seq<char>>, line: Seq<char>, more: Seq<Seq<char>>)
    ensures
        rows_of(Seq::empty()) == Seq::<JsonView>::empty(),
        rows_of(seq![line]) == (match codec::json_parsed(line) {
            Ok(row) => seq![row],
            Err(_) => Seq::empty(),
        }),
        rows_of(lines + more) == rows_of(lines) + rows_of(more),
    decreases more.len(),
{
    let one = seq![line];
    reveal_with_fuel(rows_of, 2);
    assert(one.drop_last() =~= Seq::<Seq<char>>::empty());
    assert(one.last() == line);
    assert(rows_of(one) =~= (match codec::json_parsed(line) {
        Ok(row) => seq![row],
        Err(_) => Seq::empty(),
    }));
    if more.len() == 0 {
        assert(lines + more =~= lines);
        assert(rows_of(lines) + rows_of(more) =~= rows_of(lines));
    } else {
        rows_come_line_by_line(lines, line, more.drop_last());
        assert((lines + more).drop_last() =~= lines + more.drop_last());
        assert((lines + more).last() == more.last());
        assert(rows_of(lines + more) =~= rows_of(lines) + rows_of(more));
    }
}

/// Turns, scans and lines are seen as they are.
pub proof fn scans_are_seen_as_they_are(
    target: Target,
    scan: TurnScan,
    lines: Seq<String>,
    i: int,
)
    requires
        0 <= i < lines.len(),
    ensures
        target@.session_id == target.session_id@,
        target@.turn_id == target.turn_id@,
        target@.final_message == text::option_text(target.final_message),
        scan@.matched == scan.matched,
        scan@.in_turn == scan.in_turn,
        scan@.last_total == json::option_view(scan.last_total),
        scan@.baseline == json::option_view(scan.baseline),
        scan@.turn_total == json::option_view(scan.turn_total),
        scan@.last_usage == json::option_view(scan.last_usage),
        scan@.window == scan.window,
        scan@.progress == json::items_view(scan.progress@),
        scan@.summary == scan.summary@,
        lines_view(lines).len() == lines.len(),
        lines_view(lines)[i] == lines[i]@,
{
}

} // verus!
