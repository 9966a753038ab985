//! The arguments of the commands that ask for sessions: a project, a session, a limit.

use vstd::prelude::*;
use vstd::string::StringExecFns;
use crate::{checks, complaint, paths, text, uri};

verus! {

// ---- the name of a project ----

/// The name of a directory, where there is one.
pub open spec fn dir_name(dir: Option<Seq<char>>) -> Option<Seq<char>> {
    match dir {
        Some(dir) => paths::base_name(dir),
        None => None,
    }
}

/// The name of the first of three directories that has one.
pub open spec fn first_name(
    a: Option<Seq<char>>,
    b: Option<Seq<char>>,
    c: Option<Seq<char>>,
) -> Option<Seq<char>> {
    if dir_name(a) is Some {
        dir_name(a)
    } else if dir_name(b) is Some {
        dir_name(b)
    } else {
        dir_name(c)
    }
}

fn name_of(dir: Option<&str>) -> (r: Option<String>)
    ensures
        text::option_text(r) == dir_name(text::ref_text(dir)),
{
    match dir {
        Some(dir) => paths::file_name(dir),
        None => None,
    }
}

/// The name of the first of three directories that has one.
pub fn first_named(a: Option<&str>, b: Option<&str>, c: Option<&str>) -> (r: Option<String>)
    ensures
        text::option_text(r) == first_name(
            text::ref_text(a),
            text::ref_text(b),
            text::ref_text(c),
        ),
{
    let name = name_of(a);
    if name.is_some() {
        return name;
    }
    let name = name_of(b);
    if name.is_some() {
        return name;
    }
    name_of(c)
}

// ---- a project and a session ----

/// The first argument that looks like an option.
pub open spec fn first_option(args: Seq<Seq<char>>) -> Option<Seq<char>>
    decreases args.len(),
{
    if args.len() == 0 {
        None
    } else if "--"@.is_prefix_of(args[0]) {
        Some(args[0])
    } else {
        first_option(args.drop_first())
    }
}

/// The project and the session that the arguments name, or the line to give up with.
pub open spec fn project_session(entry: Seq<char>, usage: Seq<char>, args: Seq<Seq<char>>) -> Result<
    (Seq<char>, Seq<char>),
    Seq<char>,
> {
    if first_option(args) is Some {
        Err(
            complaint::usage_complaint(
                entry,
                usage,
                checks::about("unknown option"@, first_option(args)->0),
            ),
        )
    } else if args.len() == 0 {
        Err(complaint::usage_complaint(entry, usage, "missing <project>"@))
    } else if args.len() == 1 {
        Err(complaint::usage_complaint(entry, usage, "missing <session_id>"@))
    } else if args.len() > 2 {
        Err(
            complaint::usage_complaint(
                entry,
                usage,
                checks::about("unexpected argument"@, args[2]),
            ),
        )
    } else if checks::project_complaint(entry, args[0]) is Some {
        Err(checks::project_complaint(entry, args[0])->0)
    } else {
        Ok((args[0], args[1]))
    }
}

/// What the reading of a project and a session gives.
pub open spec fn pair_result(r: Result<(String, String), String>) -> Result<
    (Seq<char>, Seq<char>),
    Seq<char>,
> {
    match r {
        Ok((a, b)) => Ok((a@, b@)),
        Err(line) => Err(line@),
    }
}

/// The project and the session that the arguments name.
pub fn read_project_session(entry: &str, usage: &str, args: &[String]) -> (r: Result<
    (String, String),
    String,
>)
    ensures
        pair_result(r) == project_session(entry@, usage@, checks::args_view(args@)),
{
    let ghost all = checks::args_view(args@);
    let mut i: usize = 0;
    assert(all.skip(0) =~= all);
    while i < args.len()
        invariant
            i <= args.len(),
            all == checks::args_view(args@),
            first_option(all) == first_option(all.skip(i as int)),
        decreases args.len() - i,
    {
        assert(all.skip(i as int)[0] == args@[i as int]@);
        assert(all.skip(i as int).drop_first() =~= all.skip(i + 1));
        if text::starts_with(args[i].as_str(), "--") {
            let reason = checks::say_about("unknown option", args[i].as_str());
            return Err(complaint::die_usage(entry, usage, reason.as_str()));
        }
        i += 1;
    }
    if args.len() == 0 {
        return Err(complaint::die_usage(entry, usage, "missing <project>"));
    }
    if args.len() == 1 {
        return Err(complaint::die_usage(entry, usage, "missing <session_id>"));
    }
    if args.len() > 2 {
        let reason = checks::say_about("unexpected argument", args[2].as_str());
        return Err(complaint::die_usage(entry, usage, reason.as_str()));
    }
    if let Err(line) = checks::validate_project(entry, args[0].as_str()) {
        return Err(line);
    }
    Ok((args[0].clone(), args[1].clone()))
}

// ---- a project and a limit ----

/// Which limits are accepted, and what is said of another.
pub struct LimitRule<'a> {
    pub low: u32,
    pub high: u32,
    pub reason: &'a str,
}

/// The limit that an argument writes, where it is accepted.
pub open spec fn accepted_limit(rule: LimitRule, arg: Seq<char>) -> Option<u32> {
    match text::parsed_u32(arg) {
        Some(n) => if rule.low <= n <= rule.high {
            Some(n)
        } else {
            None
        },
        None => None,
    }
}

/// The project and the limit that the arguments from the `i`th on name, after those that were
/// named before; or what is wrong with the first argument that something is wrong with.
pub open spec fn project_and_limit(
    rule: LimitRule,
    args: Seq<Seq<char>>,
    i: int,
    project: Option<Seq<char>>,
    limit: Option<u32>,
) -> Result<(Option<Seq<char>>, Option<u32>), Seq<char>>
    decreases args.len() - i,
{
    if i >= args.len() {
        Ok((project, limit))
    } else if args[i] == "--limit"@ {
        if limit is Some {
            Err("duplicate --limit"@)
        } else if i + 1 >= args.len() || "--"@.is_prefix_of(args[i + 1]) {
            Err("missing <N> after --limit"@)
        } else if accepted_limit(rule, args[i + 1]) is None {
            Err(rule.reason@)
        } else {
            project_and_limit(rule, args, i + 2, project, accepted_limit(rule, args[i + 1]))
        }
    } else if "--"@.is_prefix_of(args[i]) {
        Err(checks::about("unknown option"@, args[i]))
    } else if project is None {
        project_and_limit(rule, args, i + 1, Some(args[i]), limit)
    } else {
        Err(checks::about("unexpected argument"@, args[i]))
    }
}

/// The project and the limit that the arguments name, or the line to give up with.
pub open spec fn sessions_query(
    entry: Seq<char>,
    usage: Seq<char>,
    rule: LimitRule,
    args: Seq<Seq<char>>,
) -> Result<(Seq<char>, Option<u32>), Seq<char>> {
    match project_and_limit(rule, args, 0, None, None) {
        Err(reason) => Err(complaint::usage_complaint(entry, usage, reason)),
        Ok((project, limit)) => if project is None {
            Err(complaint::usage_complaint(entry, usage, "missing <project>"@))
        } else if checks::project_complaint(entry, project->0) is Some {
            Err(checks::project_complaint(entry, project->0)->0)
        } else {
            Ok((project->0, limit))
        },
    }
}

/// What the reading of a project and a limit gives.
pub open spec fn query_result(r: Result<(String, Option<u32>), String>) -> Result<
    (Seq<char>, Option<u32>),
    Seq<char>,
> {
    match r {
        Ok((project, limit)) => Ok((project@, limit)),
        Err(line) => Err(line@),
    }
}

fn limit_of(rule: &LimitRule, arg: &str) -> (r: Option<u32>)
    ensures
        r == accepted_limit(*rule, arg@),
{
    match text::parse_u32(arg) {
        Some(n) => if rule.low <= n && n <= rule.high {
            Some(n)
        } else {
            None
        },
        None => None,
    }
}

/// The project and the limit that the arguments name, or what is wrong with them.
fn read_project_and_limit(rule: &LimitRule, args: &[String]) -> (r: Result<
    (Option<String>, Option<u32>),
    String,
>)
    ensures
        (match r {
            Ok((project, limit)) => Ok((text::option_text(project), limit)),
            Err(reason) => Err(reason@),
        }) == project_and_limit(*rule, checks::args_view(args@), 0, None, None),
{
    let ghost all = checks::args_view(args@);
    let mut project: Option<String> = None;
    let mut limit: Option<u32> = None;
    let mut i: usize = 0;
    while i < args.len()
        invariant
            i <= args.len(),
            all == checks::args_view(args@),
            project_and_limit(*rule, all, 0, None, None) == project_and_limit(
                *rule,
                all,
                i as int,
                text::option_text(project),
                limit,
            ),
        decreases args.len() - i,
    {
        let arg = &args[i];
        assert(all[i as int] == arg@);
        if text::same(arg.as_str(), "--limit") {
            if limit.is_some() {
                return Err("duplicate --limit".to_owned());
            }
            if args.len() - i <= 1 {
                return Err("missing <N> after --limit".to_owned());
            }
            let value = &args[i + 1];
            assert(all[i + 1] == value@);
            if text::starts_with(value.as_str(), "--") {
                return Err("missing <N> after --limit".to_owned());
            }
            limit = limit_of(rule, value.as_str());
            if limit.is_none() {
                return Err(rule.reason.to_owned());
            }
            i += 2;
        } else if text::starts_with(arg.as_str(), "--") {
            return Err(checks::say_about("unknown option", arg.as_str()));
        } else if project.is_none() {
            project = Some(arg.clone());
            i += 1;
        } else {
            return Err(checks::say_about("unexpected argument", arg.as_str()));
        }
    }
    Ok((project, limit))
}

/// The project and the limit that the arguments name.
pub fn read_sessions_query(entry: &str, usage: &str, rule: &LimitRule, args: &[String]) -> (r: Result<
    (String, Option<u32>),
    String,
>)
    ensures
        query_result(r) == sessions_query(entry@, usage@, *rule, checks::args_view(args@)),
{
    match read_project_and_limit(rule, args) {
        Ok((project, limit)) => match project {
            Some(project) => {
                if let Err(line) = checks::validate_project(entry, project.as_str()) {
                    return Err(line);
                }
                Ok((project, limit))
            },
            None => Err(complaint::die_usage(entry, usage, "missing <project>")),
        },
        Err(reason) => Err(complaint::die_usage(entry, usage, reason.as_str())),
    }
}

// ---- paths of the API ----

/// The path of a project.
pub open spec fn project_path(project: Seq<char>) -> Seq<char> {
    "/projects/"@ + uri::uri_component(project)
}

/// The path of the events of a project.
pub open spec fn events_path(project: Seq<char>) -> Seq<char> {
    project_path(project) + "/statuses"@
}

/// The path of the sessions of a project, with the limit where there is one.
pub open spec fn sessions_path(project: Seq<char>, limit: Option<u32>) -> Seq<char> {
    project_path(project) + "/sessions"@ + (match limit {
        Some(n) => "?limit="@ + text::decimal(n as nat),
        None => Seq::empty(),
    })
}

/// The path of a session.
pub open spec fn session_path(project: Seq<char>, session_id: Seq<char>) -> Seq<char> {
    project_path(project) + "/sessions/"@ + uri::uri_component(session_id)
}

/// The path of the events of a session.
pub open spec fn session_events_path(project: Seq<char>, session_id: Seq<char>) -> Seq<char> {
    session_path(project, session_id) + "/statuses"@
}

fn path_of_project(project: &str) -> (r: String)
    ensures
        r@ == project_path(project@),
{
    let mut path = "/projects/".to_owned();
    path.append(uri::encode_uri_component(project).as_str());
    path
}

/// The path of the events of a project.
pub fn path_of_events(project: &str) -> (r: String)
    ensures
        r@ == events_path(project@),
{
    let mut path = path_of_project(project);
    path.append("/statuses");
    path
}

/// The path of the sessions of a project.
pub fn path_of_sessions(project: &str, limit: Option<u32>) -> (r: String)
    ensures
        r@ == sessions_path(project@, limit),
{
    let mut path = path_of_project(project);
    path.append("/sessions");
    if let Some(n) = limit {
        path.append("?limit=");
        path.append(text::render(n as u64).as_str());
    }
    assert(path@ =~= sessions_path(project@, limit));
    path
}

/// The path of a session.
pub fn path_of_session(project: &str, session_id: &str) -> (r: String)
    ensures
        r@ == session_path(project@, session_id@),
{
    let mut path = path_of_project(project);
    path.append("/sessions/");
    path.append(uri::encode_uri_component(session_id).as_str());
    path
}

/// The path of the events of a session.
pub fn path_of_session_events(project: &str, session_id: &str) -> (r: String)
    ensures
        r@ == session_events_path(project@, session_id@),
{
    let mut path = path_of_session(project, session_id);
    path.append("/statuses");
    path
}

// ---- what the arguments and paths are for ----

/// The name of a project is that of the first of the directories that has one.
pub proof fn first_directory_with_a_name_counts(
    a: Option<Seq<char>>,
    b: Option<Seq<char>>,
    c: Option<Seq<char>>,
)
    ensures
        a is Some && paths::base_name(a->0) is Some ==> first_name(a, b, c) == paths::base_name(
            a->0,
        ),
        a is None || paths::base_name(a->0) is None ==> first_name(a, b, c) == first_name(
            b,
            c,
            None,
        ),
        first_name(None, None, None) is None,
{
}

proof fn lemma_first_option(args: Seq<Seq<char>>)
    ensures
        first_option(args) is None <==> forall|i: int|
            0 <= i < args.len() ==> !"--"@.is_prefix_of(#[trigger] args[i]),
    decreases args.len(),
{
    if args.len() > 0 {
        let rest = args.drop_first();
        lemma_first_option(rest);
        if "--"@.is_prefix_of(args[0]) {
        } else if first_option(rest) is None {
            assert forall|i: int| 0 <= i < args.len() implies !"--"@.is_prefix_of(
                #[trigger] args[i],
            ) by {
                if i > 0 {
                    assert(rest[i - 1] == args[i]);
                }
            }
        } else {
            let k = choose|k: int| 0 <= k < rest.len() && "--"@.is_prefix_of(#[trigger] rest[k]);
            assert(args[k + 1] == rest[k]);
        }
    }
}

/// The first option among the arguments is refused, whatever follows it.
pub proof fn first_option_is_refused(
    entry: Seq<char>,
    usage: Seq<char>,
    head: Seq<Seq<char>>,
    option: Seq<char>,
    rest: Seq<Seq<char>>,
)
    requires
        forall|i: int| 0 <= i < head.len() ==> !"--"@.is_prefix_of(#[trigger] head[i]),
        "--"@.is_prefix_of(option),
    ensures
        project_session(entry, usage, head.push(option) + rest) == Err::<
            (Seq<char>, Seq<char>),
            Seq<char>,
        >(complaint::usage_complaint(entry, usage, "unknown option "@ + option)),
    decreases head.len(),
{
    reveal_strlit("unknown option");
    reveal_strlit("unknown option ");
    reveal_strlit(" ");
    assert("unknown option"@ + " "@ =~= "unknown option "@);
    lemma_finds_option(head, option, rest);
}

proof fn lemma_finds_option(head: Seq<Seq<char>>, option: Seq<char>, rest: Seq<Seq<char>>)
    requires
        forall|i: int| 0 <= i < head.len() ==> !"--"@.is_prefix_of(#[trigger] head[i]),
        "--"@.is_prefix_of(option),
    ensures
        first_option(head.push(option) + rest) == Some(option),
    decreases head.len(),
{
    let all = head.push(option) + rest;
    if head.len() == 0 {
        assert(all[0] == option);
    } else {
        assert(all[0] == head[0]);
        let less = head.drop_first();
        assert forall|i: int| 0 <= i < less.len() implies !"--"@.is_prefix_of(
            #[trigger] less[i],
        ) by {
            assert(less[i] == head[i + 1]);
        }
        lemma_finds_option(less, option, rest);
        assert(all.drop_first() =~= less.push(option) + rest);
    }
}

/// A project and a session are accepted exactly where there are these two arguments, neither of
/// them looks like an option, and the project has 1 to 128 code units; they are taken as they
/// are.
pub proof fn two_arguments_name_a_session(
    entry: Seq<char>,
    usage: Seq<char>,
    args: Seq<Seq<char>>,
    project: Seq<char>,
    session_id: Seq<char>,
)
    ensures
        project_session(entry, usage, args) == Ok::<(Seq<char>, Seq<char>), Seq<char>>(
            (project, session_id),
        ) <==> {
            &&& args == seq![project, session_id]
            &&& !"--"@.is_prefix_of(project)
            &&& !"--"@.is_prefix_of(session_id)
            &&& 1 <= text::units(project) <= 128
        },
{
    lemma_first_option(args);
    if args.len() == 2 {
        assert(args =~= seq![args[0], args[1]]);
        assert(seq![project, session_id][0] == project);
        assert(seq![project, session_id][1] == session_id);
    }
}

/// Without options, what is missing or too much is told.
pub proof fn missing_arguments_are_told(
    entry: Seq<char>,
    usage: Seq<char>,
    a: Seq<char>,
    b: Seq<char>,
    c: Seq<char>,
)
    requires
        !"--"@.is_prefix_of(a),
        !"--"@.is_prefix_of(b),
        !"--"@.is_prefix_of(c),
    ensures
        project_session(entry, usage, Seq::empty()) == Err::<(Seq<char>, Seq<char>), Seq<char>>(
            complaint::usage_complaint(entry, usage, "missing <project>"@),
        ),
        project_session(entry, usage, seq![a]) == Err::<(Seq<char>, Seq<char>), Seq<char>>(
            complaint::usage_complaint(entry, usage, "missing <session_id>"@),
        ),
        project_session(entry, usage, seq![a, b, c]) == Err::<(Seq<char>, Seq<char>), Seq<char>>(
            complaint::usage_complaint(entry, usage, "unexpected argument "@ + c),
        ),
{
    reveal_strlit("unexpected argument");
    reveal_strlit("unexpected argument ");
    reveal_strlit(" ");
    assert("unexpected argument"@ + " "@ =~= "unexpected argument "@);
    lemma_first_option(Seq::empty());
    lemma_first_option(seq![a]);
    lemma_first_option(seq![a, b, c]);
}

/// Whether an argument is accepted as the limit `n`: it is a number within the bounds and does
/// not look like an option.
pub open spec fn is_limit(rule: LimitRule, arg: Seq<char>, n: u32) -> bool {
    !"--"@.is_prefix_of(arg) && text::parsed_u32(arg) == Some(n) && rule.low <= n <= rule.high
}

/// A query for sessions is accepted exactly where the arguments are a project, or a project and,
/// before or after it, `--limit` and a number within the bounds; the project and the limit are
/// taken as they are.
pub proof fn accepted_queries_name_a_project(
    entry: Seq<char>,
    usage: Seq<char>,
    rule: LimitRule,
    args: Seq<Seq<char>>,
    project: Seq<char>,
    limit: Option<u32>,
)
    ensures
        sessions_query(entry, usage, rule, args) == Ok::<(Seq<char>, Option<u32>), Seq<char>>(
            (project, limit),
        ) <==> {
            &&& !"--"@.is_prefix_of(project)
            &&& 1 <= text::units(project) <= 128
            &&& match limit {
                None => args == seq![project],
                Some(n) => args.len() == 3 && (args == seq![project, "--limit"@, args[2]]
                    && is_limit(rule, args[2], n) || args == seq!["--limit"@, args[1], project]
                    && is_limit(rule, args[1], n)),
            }
        },
{
    reveal_strlit("--limit");
    reveal_strlit("--");
    assert("--limit"@.subrange(0, 2) =~= "--"@);
    assert("--"@.is_prefix_of("--limit"@));
    reveal_with_fuel(project_and_limit, 4);
    if args.len() == 1 {
        assert(args =~= seq![args[0]]);
    }
    if args.len() == 3 {
        assert(args =~= seq![args[0], args[1], args[2]]);
        assert(seq![project, "--limit"@, args[2]][0] == project);
        assert(seq![project, "--limit"@, args[2]][1] == "--limit"@);
        assert(seq!["--limit"@, args[1], project][0] == "--limit"@);
        assert(seq!["--limit"@, args[1], project][2] == project);
    }
    if args.len() > 0 {
        assert(seq![project][0] == project);
    }
}

/// Which arguments are refused, and why: a second limit, a limit without a number or with one that
/// is not accepted, an unknown option, a second project, and no project at all.
pub proof fn refused_queries_are_told_why(
    entry: Seq<char>,
    usage: Seq<char>,
    rule: LimitRule,
    project: Seq<char>,
    n: Seq<char>,
    x: Seq<char>,
    rest: Seq<Seq<char>>,
)
    requires
        !"--"@.is_prefix_of(project),
        accepted_limit(rule, n) is Some,
        !"--"@.is_prefix_of(n),
    ensures
        ({
            let why = |reason: Seq<char>| Err::<(Seq<char>, Option<u32>), Seq<char>>(
                complaint::usage_complaint(entry, usage, reason),
            );
            let ask = |args: Seq<Seq<char>>| sessions_query(entry, usage, rule, args);
            &&& ask(Seq::empty()) == why("missing <project>"@)
            &&& ask(seq!["--limit"@, n]) == why("missing <project>"@)
            &&& ask(seq!["--limit"@]) == why("missing <N> after --limit"@)
            &&& ask(seq![project, "--limit"@]) == why("missing <N> after --limit"@)
            &&& ask(seq!["--limit"@, n, "--limit"@] + rest) == why("duplicate --limit"@)
            &&& ask(seq![project, "--limit"@, n, "--limit"@] + rest) == why("duplicate --limit"@)
            &&& "--"@.is_prefix_of(x) ==> ask(seq![project, "--limit"@, x] + rest) == why(
                "missing <N> after --limit"@,
            )
            &&& !"--"@.is_prefix_of(x) && !(exists|k: u32| is_limit(rule, x, k)) ==> ask(
                seq![project, "--limit"@, x] + rest,
            ) == why(rule.reason@)
            &&& "--"@.is_prefix_of(x) && x != "--limit"@ ==> ask(seq![project, x] + rest) == why(
                "unknown option "@ + x,
            ) && ask(seq![x] + rest) == why("unknown option "@ + x)
            &&& !"--"@.is_prefix_of(x) ==> ask(seq![project, x] + rest) == why(
                "unexpected argument "@ + x,
            ) && ask(seq![project, "--limit"@, n, x] + rest) == why("unexpected argument "@ + x)
        }),
{
    reveal_strlit("--limit");
    reveal_strlit("--");
    assert("--limit"@.subrange(0, 2) =~= "--"@);
    assert("--"@.is_prefix_of("--limit"@));
    reveal_strlit("unexpected argument");
    reveal_strlit("unexpected argument ");
    reveal_strlit("unknown option");
    reveal_strlit("unknown option ");
    reveal_strlit(" ");
    assert("unexpected argument"@ + " "@ =~= "unexpected argument "@);
    assert("unknown option"@ + " "@ =~= "unknown option "@);
    reveal_with_fuel(project_and_limit, 5);
    let a1 = seq![project, "--limit"@, x] + rest;
    assert(a1[0] == project && a1[1] == "--limit"@ && a1[2] == x);
    if !(exists|k: u32| is_limit(rule, x, k)) && !"--"@.is_prefix_of(x) {
        if let Some(k) = text::parsed_u32(x) {
            assert(!is_limit(rule, x, k));
        }
    }
    let a2 = seq![project, x] + rest;
    assert(a2[0] == project && a2[1] == x);
    let a3 = seq![x] + rest;
    assert(a3[0] == x);
    let a4 = seq![project, "--limit"@, n, x] + rest;
    assert(a4[0] == project && a4[1] == "--limit"@ && a4[2] == n && a4[3] == x);
    let a5 = seq!["--limit"@, n, "--limit"@] + rest;
    assert(a5[0] == "--limit"@ && a5[1] == n && a5[2] == "--limit"@);
    let a6 = seq![project, "--limit"@, n, "--limit"@] + rest;
    assert(a6[0] == project && a6[1] == "--limit"@ && a6[2] == n && a6[3] == "--limit"@);
}

/// The paths, written out: events are under their project, sessions under theirs, and a limit is
/// written behind the list of sessions in decimal, whatever it is.
pub proof fn paths_are_written_out(project: Seq<char>, session_id: Seq<char>, n: u32)
    ensures
        events_path(project) == "/projects/"@ + uri::uri_component(project) + "/statuses"@,
        sessions_path(project, None) == "/projects/"@ + uri::uri_component(project) + "/sessions"@,
        sessions_path(project, Some(n)) == sessions_path(project, None) + "?limit="@
            + text::decimal(n as nat),
        session_path(project, session_id) == "/projects/"@ + uri::uri_component(project)
            + "/sessions/"@ + uri::uri_component(session_id),
        session_events_path(project, session_id) == session_path(project, session_id)
            + "/statuses"@,
{
    assert(sessions_path(project, None) =~= "/projects/"@ + uri::uri_component(project)
        + "/sessions"@);
    assert(sessions_path(project, Some(n)) =~= sessions_path(project, None) + "?limit="@
        + text::decimal(n as nat));
}

/// Two different limits, or a limit and none, give different paths.
pub proof fn limits_tell_paths_apart(project: Seq<char>, a: Option<u32>, b: Option<u32>)
    requires
        sessions_path(project, a) == sessions_path(project, b),
    ensures
        a == b,
{
    reveal_strlit("?limit=");
    let base = sessions_path(project, None);
    let n = base.len() as int;
    let k = n + 7;
    if let Some(x) = a {
        paths_are_written_out(project, project, x);
        text::decimals_read_back(x as nat);
        assert(sessions_path(project, a).skip(k) =~= text::decimal(x as nat));
    }
    if let Some(y) = b {
        paths_are_written_out(project, project, y);
        text::decimals_read_back(y as nat);
        assert(sessions_path(project, b).skip(k) =~= text::decimal(y as nat));
    }
    if a is Some && b is Some {
        text::decimals_tell_numbers_apart(a->0 as nat, b->0 as nat);
    }
}

proof fn lemma_slash_parts(a: Seq<char>, x: Seq<char>, b: Seq<char>, y: Seq<char>)
    requires
        forall|i: int| 0 <= i < a.len() ==> a[i] != '/',
        forall|i: int| 0 <= i < b.len() ==> b[i] != '/',
        a.push('/') + x == b.push('/') + y,
    ensures
        a == b,
        x == y,
{
    let s = a.push('/') + x;
    let t = b.push('/') + y;
    if a.len() < b.len() {
        assert(s[a.len() as int] == '/');
        assert(t[a.len() as int] == b[a.len() as int]);
    } else if b.len() < a.len() {
        assert(t[b.len() as int] == '/');
        assert(s[b.len() as int] == a[b.len() as int]);
    }
    assert(s.take(a.len() as int) =~= a);
    assert(t.take(b.len() as int) =~= b);
    assert(s.skip(a.len() as int + 1) =~= x);
    assert(t.skip(b.len() as int + 1) =~= y);
}

proof fn lemma_no_slash(s: Seq<char>)
    ensures
        forall|i: int| 0 <= i < uri::uri_component(s).len() ==> uri::uri_component(s)[i] != '/',
{
    let e = uri::uri_component(s);
    uri::encoded_text_is_safe(vstd::utf8::encode_utf8(s));
    assert forall|i: int| 0 <= i < e.len() implies e[i] != '/' by {
        assert(uri::is_safe(uri::encoded(vstd::utf8::encode_utf8(s))[i]));
    }
}

/// Different projects or sessions have different paths, whatever characters their names hold.
pub proof fn sessions_have_paths_of_their_own(
    p: Seq<char>,
    s: Seq<char>,
    q: Seq<char>,
    t: Seq<char>,
)
    requires
        session_path(p, s) == session_path(q, t),
    ensures
        p == q,
        s == t,
{
    reveal_strlit("/projects/");
    reveal_strlit("/sessions/");
    let a = uri::uri_component(p);
    let b = uri::uri_component(q);
    let x = "sessions/"@ + uri::uri_component(s);
    let y = "sessions/"@ + uri::uri_component(t);
    reveal_strlit("sessions/");
    lemma_no_slash(p);
    lemma_no_slash(q);
    paths_are_written_out(p, s, 0);
    paths_are_written_out(q, t, 0);
    assert(session_path(p, s).skip(10) =~= a.push('/') + x);
    assert(session_path(q, t).skip(10) =~= b.push('/') + y);
    lemma_slash_parts(a, x, b, y);
    assert(x.skip(9) =~= uri::uri_component(s));
    assert(y.skip(9) =~= uri::uri_component(t));
    uri::encoding_tells_texts_apart(p, q);
    uri::encoding_tells_texts_apart(s, t);
}

/// Without options, the third argument is not wanted, however many follow it.
pub proof fn third_argument_is_not_wanted(
    entry: Seq<char>,
    usage: Seq<char>,
    args: Seq<Seq<char>>,
)
    requires
        args.len() > 2,
        forall|i: int| 0 <= i < args.len() ==> !"--"@.is_prefix_of(#[trigger] args[i]),
    ensures
        project_session(entry, usage, args) == Err::<(Seq<char>, Seq<char>), Seq<char>>(
            complaint::usage_complaint(entry, usage, "unexpected argument "@ + args[2]),
        ),
{
    lemma_first_option(args);
    reveal_strlit("unexpected argument");
    reveal_strlit("unexpected argument ");
    reveal_strlit(" ");
    assert("unexpected argument"@ + " "@ =~= "unexpected argument "@);
}

/// A project whose name has no proper length is refused, in a query for sessions and in one for a
/// session.
pub proof fn long_names_are_refused(
    entry: Seq<char>,
    usage: Seq<char>,
    rule: LimitRule,
    project: Seq<char>,
    session_id: Seq<char>,
)
    requires
        !"--"@.is_prefix_of(project),
        !"--"@.is_prefix_of(session_id),
        project.len() == 0 || text::units(project) > 128,
    ensures
        sessions_query(entry, usage, rule, seq![project]) == Err::<
            (Seq<char>, Option<u32>),
            Seq<char>,
        >(complaint::complaint(entry, "project name length must be 1..128"@)),
        project_session(entry, usage, seq![project, session_id]) == Err::<
            (Seq<char>, Seq<char>),
            Seq<char>,
        >(complaint::complaint(entry, "project name length must be 1..128"@)),
{
    reveal_strlit("--limit");
    reveal_strlit("--");
    assert("--limit"@.subrange(0, 2) =~= "--"@);
    assert("--"@.is_prefix_of("--limit"@));
    reveal_with_fuel(project_and_limit, 3);
    lemma_first_option(seq![project, session_id]);
    checks::lengths_are_bounded(entry, project);
    assert(seq![project][0] == project);
    assert(seq![project, session_id][0] == project && seq![project, session_id][1] == session_id);
}

/// Behind a limit, and behind a limit and a project, arguments are refused as they are elsewhere.
pub proof fn arguments_behind_a_limit_are_refused(
    entry: Seq<char>,
    usage: Seq<char>,
    rule: LimitRule,
    project: Seq<char>,
    n: Seq<char>,
    x: Seq<char>,
    rest: Seq<Seq<char>>,
)
    requires
        !"--"@.is_prefix_of(project),
        accepted_limit(rule, n) is Some,
        !"--"@.is_prefix_of(n),
    ensures
        ({
            let why = |reason: Seq<char>| Err::<(Seq<char>, Option<u32>), Seq<char>>(
                complaint::usage_complaint(entry, usage, reason),
            );
            let ask = |args: Seq<Seq<char>>| sessions_query(entry, usage, rule, args);
            let both = seq!["--limit"@, n, project];
            let back = seq![project, "--limit"@, n];
            &&& "--"@.is_prefix_of(x) && x != "--limit"@ ==> {
                &&& ask(seq!["--limit"@, n, x] + rest) == why("unknown option "@ + x)
                &&& ask(both + (seq![x] + rest)) == why("unknown option "@ + x)
                &&& ask(back + (seq![x] + rest)) == why("unknown option "@ + x)
            }
            &&& !"--"@.is_prefix_of(x) ==> ask(both + (seq![x] + rest)) == why(
                "unexpected argument "@ + x,
            )
            &&& ask(both + (seq!["--limit"@] + rest)) == why("duplicate --limit"@)
            &&& "--"@.is_prefix_of(x) ==> ask(seq!["--limit"@, x] + rest) == why(
                "missing <N> after --limit"@,
            )
            &&& !"--"@.is_prefix_of(x) && !(exists|k: u32| is_limit(rule, x, k)) ==> ask(
                seq!["--limit"@, x] + rest,
            ) == why(rule.reason@)
        }),
{
    reveal_strlit("--limit");
    reveal_strlit("--");
    assert("--limit"@.subrange(0, 2) =~= "--"@);
    assert("--"@.is_prefix_of("--limit"@));
    reveal_strlit("unexpected argument");
    reveal_strlit("unexpected argument ");
    reveal_strlit("unknown option");
    reveal_strlit("unknown option ");
    reveal_strlit(" ");
    assert("unexpected argument"@ + " "@ =~= "unexpected argument "@);
    assert("unknown option"@ + " "@ =~= "unknown option "@);
    reveal_with_fuel(project_and_limit, 4);
    let both = seq!["--limit"@, n, project];
    let back = seq![project, "--limit"@, n];
    let a1 = seq!["--limit"@, n, x] + rest;
    assert(a1[0] == "--limit"@ && a1[1] == n && a1[2] == x);
    let a2 = both + (seq![x] + rest);
    assert(a2[0] == "--limit"@ && a2[1] == n && a2[2] == project && a2[3] == x);
    let a3 = back + (seq![x] + rest);
    assert(a3[0] == project && a3[1] == "--limit"@ && a3[2] == n && a3[3] == x);
    let a4 = both + (seq!["--limit"@] + rest);
    assert(a4[0] == "--limit"@ && a4[1] == n && a4[2] == project && a4[3] == "--limit"@);
    let a5 = seq!["--limit"@, x] + rest;
    assert(a5[0] == "--limit"@ && a5[1] == x);
    if !(exists|k: u32| is_limit(rule, x, k)) && !"--"@.is_prefix_of(x) {
        if let Some(k) = text::parsed_u32(x) {
            assert(!is_limit(rule, x, k));
        }
    }
}

/// What the readings give is seen as it is.
pub proof fn readings_are_seen_as_they_are(a: String, b: String, limit: Option<u32>)
    ensures
        pair_result(Ok((a, b))) == Ok::<(Seq<char>, Seq<char>), Seq<char>>((a@, b@)),
        pair_result(Err(a)) == Err::<(Seq<char>, Seq<char>), Seq<char>>(a@),
        query_result(Ok((a, limit))) == Ok::<(Seq<char>, Option<u32>), Seq<char>>((a@, limit)),
        query_result(Err(a)) == Err::<(Seq<char>, Option<u32>), Seq<char>>(a@),
{
}

} // verus!
