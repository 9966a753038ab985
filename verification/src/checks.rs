//! Checks on what a command is given. Lengths are counted in UTF-16 code units.

use vstd::prelude::*;
use vstd::string::StringExecFns;
use crate::{complaint, text};

verus! {

/// The most code units that a title may have.
pub const MAX_TITLE_LEN: usize = 200;

/// The most code units that the body of a record may have.
pub const MAX_BODY_LEN: usize = 65536;

/// The most code units that the name of a project may have.
pub const MAX_PROJECT_NAME_LEN: usize = 128;

/// How many asks are listed where no limit is given.
pub const ASK_LIMIT_DEFAULT: u32 = 3;

/// How many asks can be listed at most.
pub const ASK_LIMIT_MAX: u32 = 100;

/// What a check gives: nothing to say, or the line to give up with.
pub open spec fn outcome<T>(r: Result<T, String>) -> Option<Seq<char>> {
    match r {
        Ok(_) => None,
        Err(line) => Some(line@),
    }
}

/// What is said of a title: it must have between 1 and 200 code units.
pub open spec fn title_complaint(entry: Seq<char>, title: Seq<char>) -> Option<Seq<char>> {
    if 1 <= text::units(title) <= MAX_TITLE_LEN {
        None
    } else {
        Some(complaint::complaint(entry, "title length must be 1..200"@))
    }
}

/// What is said of a body: it must have at most 65536 code units.
pub open spec fn body_complaint(entry: Seq<char>, body: Seq<char>) -> Option<Seq<char>> {
    if text::units(body) <= MAX_BODY_LEN {
        None
    } else {
        Some(complaint::complaint(entry, "body too long (max 65536 chars)"@))
    }
}

/// What is said of the name of a project: it must have between 1 and 128 code units.
pub open spec fn project_complaint(entry: Seq<char>, name: Seq<char>) -> Option<Seq<char>> {
    if 1 <= text::units(name) <= MAX_PROJECT_NAME_LEN {
        None
    } else {
        Some(complaint::complaint(entry, "project name length must be 1..128"@))
    }
}

/// Checks the length of a title.
pub fn validate_title(entry: &str, title: &str) -> (r: Result<(), String>)
    ensures
        outcome(r) == title_complaint(entry@, title@),
{
    let n = text::len16(title);
    if n == 0 || n > MAX_TITLE_LEN {
        Err(complaint::die(entry, "title length must be 1..200"))
    } else {
        Ok(())
    }
}

/// Checks the length of a body.
pub fn validate_body(entry: &str, body: &str) -> (r: Result<(), String>)
    ensures
        outcome(r) == body_complaint(entry@, body@),
{
    if text::len16(body) > MAX_BODY_LEN {
        Err(complaint::die(entry, "body too long (max 65536 chars)"))
    } else {
        Ok(())
    }
}

/// Checks the length of the name of a project.
pub fn validate_project(entry: &str, name: &str) -> (r: Result<(), String>)
    ensures
        outcome(r) == project_complaint(entry@, name@),
{
    let n = text::len16(name);
    if n == 0 || n > MAX_PROJECT_NAME_LEN {
        Err(complaint::die(entry, "project name length must be 1..128"))
    } else {
        Ok(())
    }
}

/// The views of a row of arguments.
pub open spec fn args_view(args: Seq<String>) -> Seq<Seq<char>> {
    Seq::new(args.len(), |i: int| args[i]@)
}

/// `what`, a blank and `arg`.
pub open spec fn about(what: Seq<char>, arg: Seq<char>) -> Seq<char> {
    what + " "@ + arg
}

/// `what`, a blank and `arg`.
pub fn say_about(what: &str, arg: &str) -> (r: String)
    ensures
        r@ == about(what@, arg@),
{
    let mut s = what.to_owned();
    s.append(" ");
    s.append(arg);
    s
}

/// What is said of arguments where none are wanted.
pub open spec fn args_complaint(entry: Seq<char>, args: Seq<Seq<char>>, usage: Seq<char>) -> Option<
    Seq<char>,
> {
    if args.len() == 0 {
        None
    } else {
        Some(complaint::usage_complaint(entry, usage, about("unexpected argument"@, args[0])))
    }
}

/// Checks that there are no arguments.
pub fn require_no_args(entry: &str, args: &[String], usage: &str) -> (r: Result<(), String>)
    ensures
        outcome(r) == (if args@.len() == 0 {
            None
        } else {
            Some(
                complaint::usage_complaint(
                    entry@,
                    usage@,
                    about("unexpected argument"@, args@[0]@),
                ),
            )
        }),
        outcome(r) == args_complaint(entry@, args_view(args@), usage@),
{
    if args.len() == 0 {
        Ok(())
    } else {
        let reason = say_about("unexpected argument", args[0].as_str());
        Err(complaint::die_usage(entry, usage, reason.as_str()))
    }
}

/// What is said of an id and what follows it: the id must be there and must not look like an
/// option, and nothing may follow it.
pub open spec fn id_complaint(
    entry: Seq<char>,
    id: Option<Seq<char>>,
    rest: Seq<Seq<char>>,
    usage: Seq<char>,
) -> Option<Seq<char>> {
    if id is None || "--"@.is_prefix_of(id->0) {
        Some(complaint::usage_complaint(entry, usage, "missing <id>"@))
    } else if rest.len() > 0 {
        Some(complaint::usage_complaint(entry, usage, about("unexpected argument"@, rest[0])))
    } else {
        None
    }
}

/// The id that a command is given.
pub fn require_id(entry: &str, id: Option<&String>, rest: &[String], usage: &str) -> (r: Result<
    String,
    String,
>)
    ensures
        outcome(r) == id_complaint(
            entry@,
            match id {
                Some(s) => Some(s@),
                None => None,
            },
            args_view(rest@),
            usage@,
        ),
        r is Ok ==> id is Some && r->Ok_0@ == id->0@,
{
    match id {
        Some(s) => {
            if text::starts_with(s.as_str(), "--") {
                return Err(complaint::die_usage(entry, usage, "missing <id>"));
            }
            if rest.len() > 0 {
                let reason = say_about("unexpected argument", rest[0].as_str());
                return Err(complaint::die_usage(entry, usage, reason.as_str()));
            }
            Ok(s.clone())
        },
        None => Err(complaint::die_usage(entry, usage, "missing <id>")),
    }
}

// ---- what the checks are for ----

/// A title has 1 to 200 code units, a body at most 65536, and the name of a project 1 to 128;
/// what has not is refused with the bounds.
pub proof fn lengths_are_bounded(entry: Seq<char>, s: Seq<char>)
    ensures
        title_complaint(entry, s) == (if s.len() == 0 || text::units(s) > 200 {
            Some(complaint::complaint(entry, "title length must be 1..200"@))
        } else {
            None
        }),
        body_complaint(entry, s) == (if text::units(s) > 65536 {
            Some(complaint::complaint(entry, "body too long (max 65536 chars)"@))
        } else {
            None
        }),
        project_complaint(entry, s) == (if s.len() == 0 || text::units(s) > 128 {
            Some(complaint::complaint(entry, "project name length must be 1..128"@))
        } else {
            None
        }),
{
    text::units_within_bytes(s);
    if s.len() == 0 {
        assert(text::units(s) == 0);
    }
}

/// An id that is given alone and looks like no option is accepted; without one, it is missing,
/// and what follows one is not wanted.
pub proof fn ids_stand_alone(
    entry: Seq<char>,
    id: Seq<char>,
    next: Seq<char>,
    more: Seq<Seq<char>>,
    usage: Seq<char>,
)
    ensures
        id_complaint(entry, None, more, usage) == Some(
            complaint::usage_complaint(entry, usage, "missing <id>"@),
        ),
        "--"@.is_prefix_of(id) ==> id_complaint(entry, Some(id), more, usage) == Some(
            complaint::usage_complaint(entry, usage, "missing <id>"@),
        ),
        !"--"@.is_prefix_of(id) ==> {
            &&& id_complaint(entry, Some(id), Seq::empty(), usage) is None
            &&& id_complaint(entry, Some(id), seq![next] + more, usage) == Some(
                complaint::usage_complaint(entry, usage, "unexpected argument "@ + next),
            )
        },
{
    reveal_strlit("unexpected argument");
    reveal_strlit("unexpected argument ");
    reveal_strlit(" ");
    assert("unexpected argument"@ + " "@ =~= "unexpected argument "@);
}

/// The limits, in numbers.
pub proof fn limits_are_these()
    ensures
        MAX_TITLE_LEN == 200,
        MAX_BODY_LEN == 65536,
        MAX_PROJECT_NAME_LEN == 128,
        ASK_LIMIT_DEFAULT == 3,
        ASK_LIMIT_MAX == 100,
{
}

/// A check has nothing to say where it passes, and else the line that it returns; the views of the
/// arguments are those of each.
pub proof fn outcomes_are_what_is_returned(line: String, args: Seq<String>, i: int)
    requires
        0 <= i < args.len(),
    ensures
        outcome(Ok::<(), String>(())) is None,
        outcome(Err::<(), String>(line)) == Some(line@),
        args_view(args).len() == args.len(),
        args_view(args)[i] == args[i]@,
{
}

/// Where no arguments are wanted, none pass, and the first of any is told.
pub proof fn only_no_arguments_pass(
    entry: Seq<char>,
    arg: Seq<char>,
    more: Seq<Seq<char>>,
    usage: Seq<char>,
)
    ensures
        args_complaint(entry, Seq::empty(), usage) is None,
        args_complaint(entry, seq![arg] + more, usage) == Some(
            complaint::usage_complaint(entry, usage, "unexpected argument "@ + arg),
        ),
{
    reveal_strlit("unexpected argument");
    reveal_strlit("unexpected argument ");
    reveal_strlit(" ");
    assert("unexpected argument"@ + " "@ =~= "unexpected argument "@);
}

} // verus!
