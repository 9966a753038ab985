//! Requests to the worker and what its replies mean.

use vstd::prelude::*;
use vstd::string::StringExecFns;
use crate::config::{Config, ConfigView};
use crate::json::{Json, JsonView};
use crate::{codec, complaint, config, json, text};

verus! {

// ---- requests ----

/// A request: what is sent, with which headers, and within how many seconds it must be done, where
/// that is limited.
pub struct Request {
    pub method: String,
    pub url: String,
    pub headers: Vec<(String, String)>,
    pub body: Option<String>,
    pub timeout_secs: Option<u64>,
}

/// A request: what is sent, with which headers, and within how many seconds it must be done.
#[verifier::ext_equal]
pub struct RequestView {
    pub method: Seq<char>,
    pub url: Seq<char>,
    pub headers: Seq<(Seq<char>, Seq<char>)>,
    pub body: Option<Seq<char>>,
    pub timeout_secs: Option<u64>,
}

/// The views of a row of headers.
pub open spec fn headers_view(headers: Seq<(String, String)>) -> Seq<(Seq<char>, Seq<char>)> {
    Seq::new(headers.len(), |i: int| (headers[i].0@, headers[i].1@))
}

impl View for Request {
    type V = RequestView;

    open spec fn view(&self) -> RequestView {
        RequestView {
            method: self.method@,
            url: self.url@,
            headers: headers_view(self.headers@),
            body: text::option_text(self.body),
            timeout_secs: self.timeout_secs,
        }
    }
}

/// The endpoint without the slashes that it ends in.
pub open spec fn without_slashes(s: Seq<char>) -> Seq<char>
    decreases s.len(),
{
    if s.len() > 0 && s.last() == '/' {
        without_slashes(s.drop_last())
    } else {
        s
    }
}

/// The headers of a request: the credentials and, with a body, what the body is.
pub open spec fn headers_for(config: ConfigView, with_body: bool) -> Seq<(Seq<char>, Seq<char>)> {
    let credentials = seq![
        ("CF-Access-Client-Id"@, config.cf_access_client_id),
        ("CF-Access-Client-Secret"@, config.cf_access_client_secret),
    ];
    if with_body {
        credentials.push(("content-type"@, "application/json"@))
    } else {
        credentials
    }
}

/// The request for `path`, with `body` as JSON where there is one, within `timeout_secs` seconds
/// where that is limited.
pub open spec fn request_for(
    config: ConfigView,
    method: Seq<char>,
    path: Seq<char>,
    body: Option<JsonView>,
    timeout_secs: Option<u64>,
) -> RequestView {
    RequestView {
        method,
        url: without_slashes(config.endpoint) + path,
        headers: headers_for(config, body is Some),
        body: match body {
            Some(v) => Some(codec::json_text(v)),
            None => None,
        },
        timeout_secs,
    }
}

/// What the building of a request gives.
pub open spec fn request_result(r: Result<Request, String>) -> Result<RequestView, Seq<char>> {
    match r {
        Ok(request) => Ok(request@),
        Err(why) => Err(why@),
    }
}

fn strip_slashes(s: &str) -> (r: String)
    ensures
        r@ == without_slashes(s@),
{
    let x = text::chars_of(s);
    let mut end: usize = x.len();
    assert(s@.take(end as int) =~= s@);
    while end > 0 && x[end - 1] == '/'
        invariant
            end <= x.len(),
            x@ == s@,
            without_slashes(s@) == without_slashes(s@.take(end as int)),
        decreases end,
    {
        assert(s@.take(end as int).drop_last() =~= s@.take(end - 1));
        end -= 1;
    }
    let r = text::string_of(&x, 0, end);
    assert(r@ =~= s@.take(end as int));
    r
}

/// The request for `path`.
pub fn request(
    config: &Config,
    method: &str,
    path: &str,
    body: Option<&Json>,
    timeout_secs: Option<u64>,
) -> (r: Request)
    ensures
        r@ == request_for(config@, method@, path@, json::ref_view(body), timeout_secs),
{
    let mut url = strip_slashes(config.endpoint.as_str());
    url.append(path);
    let mut headers: Vec<(String, String)> = Vec::new();
    headers.push(("CF-Access-Client-Id".to_owned(), config.cf_access_client_id.clone()));
    headers.push(("CF-Access-Client-Secret".to_owned(), config.cf_access_client_secret.clone()));
    let text = match body {
        Some(v) => {
            headers.push(("content-type".to_owned(), "application/json".to_owned()));
            Some(codec::to_text(v))
        },
        None => None,
    };
    let r = Request { method: method.to_owned(), url, headers, body: text, timeout_secs };
    assert(r@.headers =~= headers_for(config@, body is Some));
    r
}

/// The request for `path`, where the configuration could be loaded, and else why it could not.
pub fn try_api(
    config: Result<Config, String>,
    method: &str,
    path: &str,
    body: Option<&Json>,
    timeout_secs: Option<u64>,
) -> (r: Result<Request, String>)
    ensures
        request_result(r) == (match config::config_result(config) {
            Ok(c) => Ok(request_for(c, method@, path@, json::ref_view(body), timeout_secs)),
            Err(why) => Err(why),
        }),
{
    match config {
        Ok(config) => Ok(request(&config, method, path, body, timeout_secs)),
        Err(why) => Err(why),
    }
}

// ---- replies ----

/// What came of a request: a reply, a reply that says that it failed, or none.
pub enum Reply {
    Success { status: u16, text: String },
    Failure { status: u16, status_text: String, text: String },
    Lost { why: String },
}

/// What came of a request.
pub enum ReplyView {
    Success { status: u16, text: Seq<char> },
    Failure { status: u16, status_text: Seq<char>, text: Seq<char> },
    Lost { why: Seq<char> },
}

impl View for Reply {
    type V = ReplyView;

    open spec fn view(&self) -> ReplyView {
        match self {
            Reply::Success { status, text } => ReplyView::Success { status: *status, text: text@ },
            Reply::Failure { status, status_text, text } => ReplyView::Failure {
                status: *status,
                status_text: status_text@,
                text: text@,
            },
            Reply::Lost { why } => ReplyView::Lost { why: why@ },
        }
    }
}

/// The first 200 characters.
pub open spec fn snippet(s: Seq<char>) -> Seq<char> {
    if s.len() <= 200 {
        s
    } else {
        s.take(200)
    }
}

/// The value that a reply with this text holds, from what parsing the text gave.
pub open spec fn value_of_text(text: Seq<char>, parsed: Result<JsonView, Seq<char>>) -> Result<
    Option<JsonView>,
    Seq<char>,
> {
    match parsed {
        Ok(v) => Ok(Some(v)),
        Err(_) => Err("non-JSON response: "@ + snippet(text)),
    }
}

/// What a reply means: a value, nothing, or what went wrong. A reply of status 204 and an empty
/// one hold nothing.
pub open spec fn answer(reply: ReplyView) -> Result<Option<JsonView>, Seq<char>> {
    match reply {
        ReplyView::Success { status, text } => if status == 204 || text.len() == 0 {
            Ok(None)
        } else {
            value_of_text(text, codec::json_parsed(text))
        },
        ReplyView::Failure { status, status_text, text } => Err(
            "HTTP "@ + text::decimal(status as nat) + ": "@ + (if text.len() == 0 {
                status_text
            } else {
                text
            }),
        ),
        ReplyView::Lost { why } => Err("network error: "@ + why),
    }
}

/// What the reading of a reply gives.
pub open spec fn answer_result(r: Result<Option<Json>, String>) -> Result<
    Option<JsonView>,
    Seq<char>,
> {
    match r {
        Ok(v) => Ok(json::option_view(v)),
        Err(why) => Err(why@),
    }
}

/// What the parsing of a text gave.
pub open spec fn parse_result(r: Result<Json, String>) -> Result<JsonView, Seq<char>> {
    match r {
        Ok(v) => Ok(v@),
        Err(why) => Err(why@),
    }
}

fn first_chars(s: &str) -> (r: String)
    ensures
        r@ == snippet(s@),
{
    let x = text::chars_of(s);
    let end: usize = if x.len() <= 200 {
        x.len()
    } else {
        200
    };
    let r = text::string_of(&x, 0, end);
    assert(r@ =~= snippet(s@));
    r
}

/// The value that a reply with this text holds, from what parsing the text gave.
pub fn read_parsed(text: &str, parsed: Result<Json, String>) -> (r: Result<Option<Json>, String>)
    ensures
        answer_result(r) == value_of_text(text@, parse_result(parsed)),
        parsed is Ok ==> r == Ok::<Option<Json>, String>(Some(parsed->Ok_0)),
{
    match parsed {
        Ok(v) => Ok(Some(v)),
        Err(_) => {
            let mut why = "non-JSON response: ".to_owned();
            why.append(first_chars(text).as_str());
            Err(why)
        },
    }
}

/// What a reply means. The value that it holds can be shown as JSON again.
pub fn read_reply(reply: &Reply) -> (r: Result<Option<Json>, String>)
    ensures
        answer_result(r) == answer(reply@),
        r matches Ok(Some(v)) ==> codec::plain(v@, 127, false),
{
    match reply {
        Reply::Success { status, text } => {
            if *status == 204 || text.as_str().is_empty() {
                return Ok(None);
            }
            read_parsed(text.as_str(), codec::parse(text.as_str()))
        },
        Reply::Failure { status, status_text, text } => {
            let mut why = "HTTP ".to_owned();
            why.append(text::render(*status as u64).as_str());
            why.append(": ");
            if text.as_str().is_empty() {
                why.append(status_text.as_str());
            } else {
                why.append(text.as_str());
            }
            Err(why)
        },
        Reply::Lost { why } => {
            let mut line = "network error: ".to_owned();
            line.append(why.as_str());
            Err(line)
        },
    }
}

/// What a command makes of a reply: the value, or the line that it gives up with.
pub fn api(entry: &str, answered: Result<Option<Json>, String>) -> (r: Result<Option<Json>, String>)
    ensures
        answer_result(r) == (match answer_result(answered) {
            Ok(v) => Ok(v),
            Err(why) => Err(complaint::complaint(entry@, why)),
        }),
{
    match answered {
        Ok(v) => Ok(v),
        Err(why) => Err(complaint::die(entry, why.as_str())),
    }
}

/// The line that shows a value: its JSON text, which is one line, and nothing where there is no
/// value.
pub fn print(value: Option<&Json>) -> (r: Option<String>)
    ensures
        text::option_text(r) == (match json::ref_view(value) {
            Some(v) => Some(codec::json_text(v)),
            None => None,
        }),
        r is Some ==> !r->0@.contains('\n'),
        r is Some && codec::plain(value->0@, 127, false) ==> codec::is_json(r->0@),
        r is Some && codec::plain(value->0@, 127, true) ==> codec::reads_as(r->0@, value->0@),
{
    match value {
        Some(v) => Some(codec::to_text(v)),
        None => None,
    }
}

// ---- queries ----

/// A query: a request without a body, whose answer may be shown.
pub struct Query {
    pub method: String,
    pub path: String,
    pub shown: bool,
}

/// A query: a request without a body, whose answer may be shown.
pub struct QueryView {
    pub method: Seq<char>,
    pub path: Seq<char>,
    pub shown: bool,
}

impl View for Query {
    type V = QueryView;

    open spec fn view(&self) -> QueryView {
        QueryView { method: self.method@, path: self.path@, shown: self.shown }
    }
}

/// The query that shows what the worker has at a path.
pub open spec fn showing(path: Seq<char>) -> QueryView {
    QueryView { method: "GET"@, path, shown: true }
}

/// The query that removes what the worker has at a path. Its answer is not shown.
pub open spec fn removing(path: Seq<char>) -> QueryView {
    QueryView { method: "DELETE"@, path, shown: false }
}

/// The view of an optional query.
pub open spec fn query_view(query: Option<Query>) -> Option<QueryView> {
    match query {
        Some(query) => Some(query@),
        None => None,
    }
}

/// The request of a query: it has no body and no deadline. Where the configuration could not be
/// loaded, there is none, and why is told.
pub open spec fn query_request(query: QueryView, config: Result<ConfigView, Seq<char>>) -> Result<
    RequestView,
    Seq<char>,
> {
    match config {
        Ok(config) => Ok(request_for(config, query.method, query.path, None, None)),
        Err(why) => Err(why),
    }
}

/// What a command says after a query was answered: the line on standard output, where the answer
/// is shown and holds a value, or the line that it gives up with.
pub open spec fn query_output(
    entry: Seq<char>,
    query: QueryView,
    answered: Result<Option<JsonView>, Seq<char>>,
) -> Result<Option<Seq<char>>, Seq<char>> {
    match answered {
        Err(why) => Err(complaint::complaint(entry, why)),
        Ok(Some(v)) => if query.shown {
            Ok(Some(codec::json_text(v)))
        } else {
            Ok(None)
        },
        Ok(None) => Ok(None),
    }
}

/// What a command says.
pub open spec fn output_result(r: Result<Option<String>, String>) -> Result<
    Option<Seq<char>>,
    Seq<char>,
> {
    match r {
        Ok(line) => Ok(text::option_text(line)),
        Err(line) => Err(line@),
    }
}

/// The query that shows what the worker has at a path.
pub fn show(path: &str) -> (r: Query)
    ensures
        r@ == showing(path@),
{
    Query { method: "GET".to_owned(), path: path.to_owned(), shown: true }
}

/// The query that removes what the worker has at a path.
pub fn remove(path: &str) -> (r: Query)
    ensures
        r@ == removing(path@),
{
    Query { method: "DELETE".to_owned(), path: path.to_owned(), shown: false }
}

impl Query {
    /// The request of the query.
    pub fn request(&self, config: Result<Config, String>) -> (r: Result<Request, String>)
        ensures
            request_result(r) == query_request(self@, config::config_result(config)),
    {
        try_api(config, self.method.as_str(), self.path.as_str(), None, None)
    }

    /// What the command `entry` says after the query was answered.
    pub fn output(&self, entry: &str, answered: Result<Option<Json>, String>) -> (r: Result<
        Option<String>,
        String,
    >)
        ensures
            output_result(r) == query_output(entry@, self@, answer_result(answered)),
            r matches Ok(Some(line)) ==> !line@.contains('\n'),
    {
        match api(entry, answered) {
            Ok(value) => if self.shown {
                Ok(print(value.as_ref()))
            } else {
                Ok(None)
            },
            Err(line) => Err(line),
        }
    }
}

/// It does not matter with how many slashes the endpoint is written.
pub proof fn slashes_do_not_matter(
    config: ConfigView,
    method: Seq<char>,
    path: Seq<char>,
    body: Option<JsonView>,
    timeout_secs: Option<u64>,
)
    ensures
        request_for(
            ConfigView { endpoint: config.endpoint.push('/'), ..config },
            method,
            path,
            body,
            timeout_secs,
        ) == request_for(config, method, path, body, timeout_secs),
{
    assert(config.endpoint.push('/').drop_last() =~= config.endpoint);
}

// ---- what is asked, and what replies mean ----

/// All slashes at the end of an endpoint are left out, and nothing else is.
pub proof fn only_slashes_are_left_out(base: Seq<char>, slashes: nat)
    requires
        base.len() == 0 || base.last() != '/',
    ensures
        without_slashes(base + Seq::new(slashes, |i: int| '/')) == base,
    decreases slashes,
{
    let s = base + Seq::new(slashes, |i: int| '/');
    if slashes == 0 {
        assert(s =~= base);
    } else {
        let fewer = (slashes - 1) as nat;
        only_slashes_are_left_out(base, fewer);
        assert(s.last() == '/');
        assert(s.drop_last() =~= base + Seq::new(fewer, |i: int| '/'));
    }
}

/// A request goes to its path under the endpoint, with the two parts of the service token as
/// headers; where it has a body, that is the text of the value, and a third header says that it
/// is JSON.
pub proof fn requests_carry_the_token(
    config: ConfigView,
    method: Seq<char>,
    path: Seq<char>,
    v: JsonView,
    timeout_secs: Option<u64>,
)
    ensures
        ({
            let id = ("CF-Access-Client-Id"@, config.cf_access_client_id);
            let secret = ("CF-Access-Client-Secret"@, config.cf_access_client_secret);
            let kind = ("content-type"@, "application/json"@);
            let bare = request_for(config, method, path, None, timeout_secs);
            let full = request_for(config, method, path, Some(v), timeout_secs);
            &&& bare.method == method && full.method == method
            &&& bare.url == without_slashes(config.endpoint) + path && full.url == bare.url
            &&& bare.headers == seq![id, secret]
            &&& full.headers == seq![id, secret, kind]
            &&& bare.body is None
            &&& full.body == Some(codec::json_text(v))
            &&& bare.timeout_secs == timeout_secs && full.timeout_secs == timeout_secs
        }),
{
    let id = ("CF-Access-Client-Id"@, config.cf_access_client_id);
    let secret = ("CF-Access-Client-Secret"@, config.cf_access_client_secret);
    let kind = ("content-type"@, "application/json"@);
    assert(headers_for(config, true) =~= seq![id, secret, kind]);
    assert(headers_for(config, false) =~= seq![id, secret]);
}

/// A reply of status 204 or without text holds nothing; another one holds the value of its text,
/// and where that is no JSON, its first 200 characters are told; of a failure the status is told,
/// and the text, or what the status means where there is none; and why a reply was lost is told.
pub proof fn replies_mean_what_they_hold(
    status: u16,
    status_text: Seq<char>,
    s: Seq<char>,
    why: Seq<char>,
)
    ensures
        ({
            let read = answer(ReplyView::Success { status, text: s });
            let failed = answer(ReplyView::Failure { status, status_text, text: s });
            let code = "HTTP "@ + text::decimal(status as nat) + ": "@;
            &&& status == 204 || s.len() == 0 ==> read == Ok::<Option<JsonView>, Seq<char>>(None)
            &&& status != 204 && s.len() > 0 ==> match codec::json_parsed(s) {
                Ok(v) => read == Ok::<Option<JsonView>, Seq<char>>(Some(v)),
                Err(_) => read == Err::<Option<JsonView>, Seq<char>>(
                    "non-JSON response: "@ + s.take(if s.len() < 200 {
                        s.len() as int
                    } else {
                        200
                    }),
                ),
            }
            &&& s.len() > 0 ==> failed == Err::<Option<JsonView>, Seq<char>>(code + s)
            &&& s.len() == 0 ==> failed == Err::<Option<JsonView>, Seq<char>>(code + status_text)
            &&& answer(ReplyView::Lost { why }) == Err::<Option<JsonView>, Seq<char>>(
                "network error: "@ + why,
            )
        }),
{
    if s.len() <= 200 {
        assert(s.take(s.len() as int) =~= s);
    }
}

/// A query asks without a body and without a deadline; a value that is answered is shown as JSON
/// where the query shows it, nothing is shown where it does not or where nothing is answered, and
/// what went wrong is complained about.
pub proof fn queries_show_their_answers(
    entry: Seq<char>,
    query: QueryView,
    config: ConfigView,
    v: JsonView,
    why: Seq<char>,
)
    ensures
        query_request(query, Ok(config)) == Ok::<RequestView, Seq<char>>(
            request_for(config, query.method, query.path, None, None),
        ),
        query_request(query, Err(why)) == Err::<RequestView, Seq<char>>(why),
        query.shown ==> query_output(entry, query, Ok(Some(v))) == Ok::<
            Option<Seq<char>>,
            Seq<char>,
        >(Some(codec::json_text(v))),
        !query.shown ==> query_output(entry, query, Ok(Some(v))) == Ok::<
            Option<Seq<char>>,
            Seq<char>,
        >(None),
        query_output(entry, query, Ok(None)) == Ok::<Option<Seq<char>>, Seq<char>>(None),
        query_output(entry, query, Err(why)) == Err::<Option<Seq<char>>, Seq<char>>(
            complaint::complaint(entry, why),
        ),
{
}

/// Why a text is no reply is told with its first 200 characters, and a value that was read is the
/// value.
pub proof fn parsed_texts_are_taken(s: Seq<char>, v: JsonView, why: Seq<char>)
    ensures
        value_of_text(s, Ok(v)) == Ok::<Option<JsonView>, Seq<char>>(Some(v)),
        s.len() <= 200 ==> value_of_text(s, Err(why)) == Err::<Option<JsonView>, Seq<char>>(
            "non-JSON response: "@ + s,
        ),
        s.len() > 200 ==> value_of_text(s, Err(why)) == Err::<Option<JsonView>, Seq<char>>(
            "non-JSON response: "@ + s.take(200),
        ),
{
}

/// Requests, replies and queries are seen as they are, and so is what is returned of them.
pub proof fn requests_are_seen_as_they_are(
    request: Request,
    query: Query,
    value: Json,
    s: String,
    t: String,
    status: u16,
    i: int,
)
    requires
        0 <= i < request.headers@.len(),
    ensures
        request@.method == request.method@,
        request@.url == request.url@,
        request@.headers.len() == request.headers@.len(),
        request@.headers[i] == (request.headers@[i].0@, request.headers@[i].1@),
        request@.body == text::option_text(request.body),
        request@.timeout_secs == request.timeout_secs,
        query@ == (QueryView { method: query.method@, path: query.path@, shown: query.shown }),
        query_view(Some(query)) == Some(query@),
        query_view(None) is None,
        (Reply::Success { status, text: s })@ == (ReplyView::Success { status, text: s@ }),
        (Reply::Failure { status, status_text: t, text: s })@ == (ReplyView::Failure {
            status,
            status_text: t@,
            text: s@,
        }),
        (Reply::Lost { why: s })@ == (ReplyView::Lost { why: s@ }),
        request_result(Ok(request)) == Ok::<RequestView, Seq<char>>(request@),
        request_result(Err(s)) == Err::<RequestView, Seq<char>>(s@),
        answer_result(Ok(Some(value))) == Ok::<Option<JsonView>, Seq<char>>(Some(value@)),
        answer_result(Ok(None)) == Ok::<Option<JsonView>, Seq<char>>(None),
        answer_result(Err(s)) == Err::<Option<JsonView>, Seq<char>>(s@),
        parse_result(Ok(value)) == Ok::<JsonView, Seq<char>>(value@),
        parse_result(Err(s)) == Err::<JsonView, Seq<char>>(s@),
        output_result(Ok(Some(s))) == Ok::<Option<Seq<char>>, Seq<char>>(Some(s@)),
        output_result(Ok(None)) == Ok::<Option<Seq<char>>, Seq<char>>(None),
        output_result(Err(s)) == Err::<Option<Seq<char>>, Seq<char>>(s@),
{
}

} // verus!
