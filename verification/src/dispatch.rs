//! The arguments of the program: the global commands and the subcommands.

use vstd::prelude::*;
use vstd::string::StringExecFns;
use crate::hook::{ActionView, HookAction};
use crate::{checks, complaint, hook, text};

verus! {

/// The commands that concern the program as a whole.
#[derive(PartialEq, Eq, Structural, Clone, Copy, Debug)]
pub enum Global {
    Help,
    Version,
    Update,
    Uninstall,
}

/// The global command that an argument names.
pub open spec fn global_of(arg: Seq<char>) -> Option<Global> {
    if arg == "help"@ || arg == "-h"@ || arg == "--help"@ {
        Some(Global::Help)
    } else if arg == "-v"@ || arg == "--version"@ {
        Some(Global::Version)
    } else if arg == "update"@ || arg == "upgrade"@ {
        Some(Global::Update)
    } else if arg == "uninstall"@ {
        Some(Global::Uninstall)
    } else {
        None
    }
}

/// The global command that an argument names.
pub fn read_global(arg: &str) -> (r: Option<Global>)
    ensures
        r == global_of(arg@),
{
    if text::same(arg, "help") || text::same(arg, "-h") || text::same(arg, "--help") {
        Some(Global::Help)
    } else if text::same(arg, "-v") || text::same(arg, "--version") {
        Some(Global::Version)
    } else if text::same(arg, "update") || text::same(arg, "upgrade") {
        Some(Global::Update)
    } else if text::same(arg, "uninstall") {
        Some(Global::Uninstall)
    } else {
        None
    }
}

/// What the program does.
pub enum Command {
    Global(Global),
    Plan { args: Vec<String> },
    Ask { args: Vec<String> },
    Hook(HookAction),
}

/// What the program does.
pub enum CommandView {
    Global(Global),
    Plan { args: Seq<Seq<char>> },
    Ask { args: Seq<Seq<char>> },
    Hook(ActionView),
}

impl View for Command {
    type V = CommandView;

    open spec fn view(&self) -> CommandView {
        match self {
            Command::Global(global) => CommandView::Global(*global),
            Command::Plan { args } => CommandView::Plan { args: checks::args_view(args@) },
            Command::Ask { args } => CommandView::Ask { args: checks::args_view(args@) },
            Command::Hook(action) => CommandView::Hook(action@),
        }
    }
}

/// How the program is used.
pub open spec fn usage_text() -> Seq<char> {
    "jj-agentic-aspect --help"@
}

/// The line to give up with when the program is not used as it should be.
pub open spec fn misuse(reason: Seq<char>) -> Seq<char> {
    complaint::usage_complaint(hook::ENTRY@, usage_text(), reason)
}

/// What is said of a command that is now one of `plan`.
pub open spec fn moved_to_plan(name: Seq<char>) -> Seq<char> {
    "'"@ + name + "' moved under the plan subcommand; run 'jj-agentic-aspect plan "@ + name
        + " ...' instead"@
}

/// What is said of a command that is now one of `hook`.
pub open spec fn moved_to_hook(name: Seq<char>) -> Seq<char> {
    "'"@ + name
        + "' moved under the hook subcommand; run 'jj-agentic-aspect hook ...' instead"@
}

/// What the program does for its arguments, or the line that it gives up with.
pub open spec fn main_plan(argv: Seq<Seq<char>>, default: Seq<char>) -> Result<
    CommandView,
    Seq<char>,
> {
    if argv.len() == 0 {
        Ok(CommandView::Global(Global::Help))
    } else if global_of(argv[0]) is Some {
        if argv.len() > 1 {
            Err(misuse(checks::about("unexpected argument"@, argv[1])))
        } else {
            Ok(CommandView::Global(global_of(argv[0])->0))
        }
    } else if argv[0] == "plan"@ {
        Ok(CommandView::Plan { args: argv.drop_first() })
    } else if argv[0] == "ask"@ {
        Ok(CommandView::Ask { args: argv.drop_first() })
    } else if argv[0] == "hook"@ {
        match hook::hook_plan(argv.drop_first(), default) {
            Ok(action) => Ok(CommandView::Hook(action)),
            Err(line) => Err(line),
        }
    } else if argv[0] == "project"@ || argv[0] == "spec"@ || argv[0] == "task"@ {
        Err(complaint::complaint(hook::ENTRY@, moved_to_plan(argv[0])))
    } else if argv[0] == "status"@ || argv[0] == "sessions"@ {
        Err(complaint::complaint(hook::ENTRY@, moved_to_hook(argv[0])))
    } else {
        Err(misuse("unknown subcommand '"@ + argv[0] + "'"@))
    }
}

fn fail_usage(reason: &str) -> (r: String)
    ensures
        r@ == misuse(reason@),
{
    complaint::die_usage(hook::ENTRY, "jj-agentic-aspect --help", reason)
}

/// The arguments after the first.
fn rest_of(argv: &[String]) -> (r: Vec<String>)
    requires
        argv@.len() > 0,
    ensures
        checks::args_view(r@) == checks::args_view(argv@).drop_first(),
{
    let mut rest: Vec<String> = Vec::new();
    let mut i: usize = 1;
    while i < argv.len()
        invariant
            1 <= i <= argv.len(),
            rest@.len() == i - 1,
            forall|k: int| 0 <= k < i - 1 ==> (#[trigger] rest@[k])@ == argv@[k + 1]@,
        decreases argv.len() - i,
    {
        rest.push(argv[i].clone());
        i += 1;
    }
    assert(checks::args_view(rest@) =~= checks::args_view(argv@).drop_first());
    rest
}

/// What the program does for its arguments. Events come from the agent `default` where the
/// arguments name no other.
pub fn dispatch(argv: &[String], default: &str) -> (r: Result<Command, String>)
    ensures
        (match r {
            Ok(command) => Ok(command@),
            Err(line) => Err(line@),
        }) == main_plan(checks::args_view(argv@), default@),
{
    if argv.len() == 0 {
        return Ok(Command::Global(Global::Help));
    }
    let ghost all = checks::args_view(argv@);
    let head = argv[0].as_str();
    assert(all[0] == head@);
    if let Some(global) = read_global(head) {
        if argv.len() > 1 {
            let reason = checks::say_about("unexpected argument", argv[1].as_str());
            return Err(fail_usage(reason.as_str()));
        }
        return Ok(Command::Global(global));
    }
    if text::same(head, "plan") {
        return Ok(Command::Plan { args: rest_of(argv) });
    }
    if text::same(head, "ask") {
        return Ok(Command::Ask { args: rest_of(argv) });
    }
    if text::same(head, "hook") {
        let rest = vstd::slice::slice_subrange(argv, 1, argv.len());
        assert(checks::args_view(rest@) =~= all.drop_first());
        return match hook::run(rest, default) {
            Ok(action) => Ok(Command::Hook(action)),
            Err(line) => Err(line),
        };
    }
    if text::same(head, "project") || text::same(head, "spec") || text::same(head, "task") {
        let mut message = "'".to_owned();
        message.append(head);
        message.append("' moved under the plan subcommand; run 'jj-agentic-aspect plan ");
        message.append(head);
        message.append(" ...' instead");
        return Err(complaint::die(hook::ENTRY, message.as_str()));
    }
    if text::same(head, "status") || text::same(head, "sessions") {
        let mut message = "'".to_owned();
        message.append(head);
        message.append(
            "' moved under the hook subcommand; run 'jj-agentic-aspect hook ...' instead",
        );
        return Err(complaint::die(hook::ENTRY, message.as_str()));
    }
    let mut reason = "unknown subcommand '".to_owned();
    reason.append(head);
    reason.append("'");
    Err(fail_usage(reason.as_str()))
}

// ---- what the words mean ----

proof fn lemma_words()
    ensures
        "help"@.len() == 4,
        "-h"@.len() == 2,
        "--help"@.len() == 6,
        "-v"@.len() == 2,
        "--version"@.len() == 9,
        "update"@.len() == 6,
        "upgrade"@.len() == 7,
        "uninstall"@.len() == 9,
        "plan"@.len() == 4,
        "ask"@.len() == 3,
        "hook"@.len() == 4,
        "project"@.len() == 7,
        "spec"@.len() == 4,
        "task"@.len() == 4,
        "status"@.len() == 6,
        "sessions"@.len() == 8,
        "-h"@ != "-v"@,
        "--help"@[0] == '-',
        "--version"@[0] == '-',
        "update"@[0] == 'u',
        "upgrade"@[0] == 'u',
        "uninstall"@[0] == 'u',
        "project"@[0] == 'p',
        "status"@[0] == 's',
        "help"@[1] == 'e',
        "plan"@[1] == 'l',
        "hook"@[1] == 'o',
        "spec"@[1] == 'p',
        "task"@[1] == 'a',
{
    reveal_strlit("help");
    reveal_strlit("-h");
    reveal_strlit("--help");
    reveal_strlit("-v");
    reveal_strlit("--version");
    reveal_strlit("update");
    reveal_strlit("upgrade");
    reveal_strlit("uninstall");
    reveal_strlit("plan");
    reveal_strlit("ask");
    reveal_strlit("hook");
    reveal_strlit("project");
    reveal_strlit("spec");
    reveal_strlit("task");
    reveal_strlit("status");
    reveal_strlit("sessions");
    assert("-h"@[1] == 'h' && "-v"@[1] == 'v');
}

/// These words are global commands, and no others are.
pub proof fn global_commands_have_these_names(word: Seq<char>)
    ensures
        global_of(word) == Some(Global::Help) <==> word == "help"@ || word == "-h"@ || word
            == "--help"@,
        global_of(word) == Some(Global::Version) <==> word == "-v"@ || word == "--version"@,
        global_of(word) == Some(Global::Update) <==> word == "update"@ || word == "upgrade"@,
        global_of(word) == Some(Global::Uninstall) <==> word == "uninstall"@,
{
    lemma_words();
}

/// Help is shown without arguments; a global command stands alone, and what follows it is not
/// wanted.
pub proof fn global_commands_stand_alone(
    word: Seq<char>,
    next: Seq<char>,
    more: Seq<Seq<char>>,
    default: Seq<char>,
)
    ensures
        main_plan(Seq::empty(), default) == Ok::<CommandView, Seq<char>>(
            CommandView::Global(Global::Help),
        ),
        global_of(word) is Some ==> main_plan(seq![word], default) == Ok::<CommandView, Seq<char>>(
            CommandView::Global(global_of(word)->0),
        ),
        global_of(word) is Some ==> main_plan(seq![word, next] + more, default) == Err::<
            CommandView,
            Seq<char>,
        >(
            complaint::usage_complaint(
                "jj-agentic-aspect"@,
                "jj-agentic-aspect --help"@,
                "unexpected argument "@ + next,
            ),
        ),
{
    reveal_strlit("unexpected argument");
    reveal_strlit("unexpected argument ");
    reveal_strlit(" ");
    assert("unexpected argument"@ + " "@ =~= "unexpected argument "@);
    assert((seq![word, next] + more)[0] == word);
    assert((seq![word, next] + more)[1] == next);
}

/// The subcommands get the arguments that follow them, all and in order.
pub proof fn subcommands_get_their_arguments(args: Seq<Seq<char>>, default: Seq<char>)
    ensures
        main_plan(seq!["plan"@] + args, default) == Ok::<CommandView, Seq<char>>(
            CommandView::Plan { args },
        ),
        main_plan(seq!["ask"@] + args, default) == Ok::<CommandView, Seq<char>>(
            CommandView::Ask { args },
        ),
        main_plan(seq!["hook"@] + args, default) == (match hook::hook_plan(args, default) {
            Ok(action) => Ok::<CommandView, Seq<char>>(CommandView::Hook(action)),
            Err(line) => Err::<CommandView, Seq<char>>(line),
        }),
{
    lemma_words();
    assert((seq!["plan"@] + args).drop_first() =~= args);
    assert((seq!["ask"@] + args).drop_first() =~= args);
    assert((seq!["hook"@] + args).drop_first() =~= args);
}

/// Of words that moved it is told where to, and of any other that it is unknown.
pub proof fn other_words_are_refused(word: Seq<char>, args: Seq<Seq<char>>, default: Seq<char>)
    ensures
        ({
            let entry = "jj-agentic-aspect"@;
            let done = main_plan(seq![word] + args, default);
            &&& word == "project"@ || word == "spec"@ || word == "task"@ ==> done == Err::<
                CommandView,
                Seq<char>,
            >(
                complaint::complaint(
                    entry,
                    "'"@ + word
                        + "' moved under the plan subcommand; run 'jj-agentic-aspect plan "@ + word
                        + " ...' instead"@,
                ),
            )
            &&& word == "status"@ || word == "sessions"@ ==> done == Err::<CommandView, Seq<char>>(
                complaint::complaint(
                    entry,
                    "'"@ + word
                        + "' moved under the hook subcommand; run 'jj-agentic-aspect hook ...' instead"@,
                ),
            )
            &&& global_of(word) is None && word != "plan"@ && word != "ask"@ && word != "hook"@
                && word != "project"@ && word != "spec"@ && word != "task"@ && word != "status"@
                && word != "sessions"@ ==> done == Err::<CommandView, Seq<char>>(
                complaint::usage_complaint(
                    entry,
                    "jj-agentic-aspect --help"@,
                    "unknown subcommand '"@ + word + "'"@,
                ),
            )
        }),
{
    lemma_words();
    assert((seq![word] + args)[0] == word);
}

/// Commands are seen as they are.
pub proof fn commands_are_seen_as_they_are(global: Global, args: Vec<String>, action: HookAction)
    ensures
        Command::Global(global)@ == CommandView::Global(global),
        (Command::Plan { args })@ == (CommandView::Plan { args: checks::args_view(args@) }),
        (Command::Ask { args })@ == (CommandView::Ask { args: checks::args_view(args@) }),
        Command::Hook(action)@ == CommandView::Hook(action@),
{
}

} // verus!
