//! The commands that update and remove the installed program.

use vstd::prelude::*;
use vstd::string::StringExecFns;
use crate::{complaint, text};

verus! {

/// Where the installer is.
pub const INSTALL_URL: &'static str = "https://raw.githubusercontent.com/yigegongjiang/jj-agentic-aspect/main/scripts/install.sh";

/// Whether the arguments ask for the removal.
pub open spec fn is_removal(args: Seq<Seq<char>>) -> bool {
    args.contains("--uninstall"@)
}

/// Why an update is refused: it only works on the installed program.
pub open spec fn refusal(entry: Seq<char>, exe_name: Seq<char>) -> Seq<char> {
    "refusing update: current executable is \""@ + exe_name + "\", expected \""@ + entry
        + "\"; update only works on the installed binary, not when running from source"@
}

/// The shell command that runs the installer with the arguments.
pub open spec fn install_command(args: Seq<Seq<char>>) -> Seq<char> {
    let command = "curl -fsSL "@ + INSTALL_URL@ + " | bash"@;
    if args.len() == 0 {
        command
    } else {
        command + " -s -- "@ + text::joined(args, " "@)
    }
}

/// What is run, or the line to give up with.
pub open spec fn install_plan(entry: Seq<char>, args: Seq<Seq<char>>, exe_name: Seq<char>) -> Result<
    Seq<char>,
    Seq<char>,
> {
    if !is_removal(args) && exe_name != entry {
        Err(complaint::complaint(entry, refusal(entry, exe_name)))
    } else {
        Ok(install_command(args))
    }
}

fn removes(args: &[&str]) -> (r: bool)
    ensures
        r == is_removal(text::strs_view(args@)),
{
    let mut i: usize = 0;
    while i < args.len()
        invariant
            i <= args.len(),
            forall|k: int| 0 <= k < i ==> #[trigger] text::strs_view(args@)[k] != "--uninstall"@,
        decreases args.len() - i,
    {
        assert(text::strs_view(args@)[i as int] == args@[i as int]@);
        if text::same(args[i], "--uninstall") {
            return true;
        }
        i += 1;
    }
    false
}

/// The shell command that updates the program, or removes it where the arguments ask for that.
/// `exe_name` is the name of the program that is running: where it is not the installed one,
/// the update is refused.
pub fn run_installer(entry: &str, args: &[&str], exe_name: &str) -> (r: Result<String, String>)
    ensures
        (match r {
            Ok(command) => Ok(command@),
            Err(line) => Err(line@),
        }) == install_plan(entry@, text::strs_view(args@), exe_name@),
{
    if !removes(args) && !text::same(exe_name, entry) {
        let mut why = "refusing update: current executable is \"".to_owned();
        why.append(exe_name);
        why.append("\", expected \"");
        why.append(entry);
        why.append("\"; update only works on the installed binary, not when running from source");
        return Err(complaint::die(entry, why.as_str()));
    }
    let mut command = "curl -fsSL ".to_owned();
    command.append(INSTALL_URL);
    command.append(" | bash");
    if args.len() > 0 {
        command.append(" -s -- ");
        command.append(text::join_strs(args, " ").as_str());
    }
    Ok(command)
}

/// What is said after the installer ran.
pub open spec fn installer_complaint(
    entry: Seq<char>,
    args: Seq<Seq<char>>,
    succeeded: bool,
) -> Option<Seq<char>> {
    if succeeded {
        None
    } else if is_removal(args) {
        Some(complaint::complaint(entry, "uninstall failed"@))
    } else {
        Some(complaint::complaint(entry, "update failed"@))
    }
}

/// What is said after the installer ran: nothing where it succeeded.
pub fn installer_outcome(entry: &str, args: &[&str], succeeded: bool) -> (r: Result<(), String>)
    ensures
        r is Ok <==> succeeded,
        r is Err ==> r->Err_0@ == complaint::complaint(
            entry@,
            if is_removal(text::strs_view(args@)) {
                "uninstall failed"@
            } else {
                "update failed"@
            },
        ),
        (match r {
            Ok(_) => None,
            Err(line) => Some(line@),
        }) == installer_complaint(entry@, text::strs_view(args@), succeeded),
{
    if succeeded {
        Ok(())
    } else if removes(args) {
        Err(complaint::die(entry, "uninstall failed"))
    } else {
        Err(complaint::die(entry, "update failed"))
    }
}

/// The removal is never refused, and an update only where another program is running.
pub proof fn removal_is_never_refused(entry: Seq<char>, args: Seq<Seq<char>>, exe_name: Seq<char>)
    ensures
        is_removal(args) || exe_name == entry <==> install_plan(entry, args, exe_name) is Ok,
{
}

/// The installer is fetched and run by the shell; arguments are handed to it behind a double dash,
/// with a blank between any two.
pub proof fn installer_is_fetched_and_run(
    entry: Seq<char>,
    args: Seq<Seq<char>>,
    arg: Seq<char>,
    exe_name: Seq<char>,
)
    ensures
        ({
            let fetch = "curl -fsSL https://raw.githubusercontent.com/yigegongjiang/jj-agentic-aspect/main/scripts/install.sh | bash"@;
            &&& install_plan(entry, Seq::empty(), entry) == Ok::<Seq<char>, Seq<char>>(fetch)
            &&& install_plan(entry, seq!["--uninstall"@], exe_name) == Ok::<Seq<char>, Seq<char>>(
                fetch + " -s -- --uninstall"@,
            )
            &&& install_plan(entry, args.push(arg), entry) == Ok::<Seq<char>, Seq<char>>(
                fetch + " -s -- "@ + text::joined(args.push(arg), " "@),
            )
        }),
{
    reveal_strlit("curl -fsSL ");
    reveal_strlit("https://raw.githubusercontent.com/yigegongjiang/jj-agentic-aspect/main/scripts/install.sh");
    reveal_strlit(" | bash");
    reveal_strlit("curl -fsSL https://raw.githubusercontent.com/yigegongjiang/jj-agentic-aspect/main/scripts/install.sh | bash");
    reveal_strlit(" -s -- ");
    reveal_strlit("--uninstall");
    reveal_strlit(" -s -- --uninstall");
    let fetch = "curl -fsSL https://raw.githubusercontent.com/yigegongjiang/jj-agentic-aspect/main/scripts/install.sh | bash"@;
    assert("curl -fsSL "@ + INSTALL_URL@ + " | bash"@ =~= fetch);
    let removal = seq!["--uninstall"@];
    assert(removal[0] == "--uninstall"@);
    assert(removal.contains("--uninstall"@));
    reveal_with_fuel(text::joined, 2);
    assert(text::joined(removal, " "@) == "--uninstall"@);
    assert(fetch + " -s -- "@ + "--uninstall"@ =~= fetch + " -s -- --uninstall"@);
}

/// An update from another program is refused, and which one it is and which was expected is told.
pub proof fn updates_from_elsewhere_are_refused(
    entry: Seq<char>,
    args: Seq<Seq<char>>,
    exe_name: Seq<char>,
)
    requires
        exe_name != entry,
        !args.contains("--uninstall"@),
    ensures
        install_plan(entry, args, exe_name) == Err::<Seq<char>, Seq<char>>(
            complaint::complaint(
                entry,
                "refusing update: current executable is \""@ + exe_name + "\", expected \""@ + entry
                    + "\"; update only works on the installed binary, not when running from source"@,
            ),
        ),
{
}

/// Only a failure is told, and whether it was one to update or to remove.
pub proof fn only_failures_are_told(entry: Seq<char>, args: Seq<Seq<char>>)
    ensures
        installer_complaint(entry, args, true) is None,
        args.contains("--uninstall"@) ==> installer_complaint(entry, args, false) == Some(
            complaint::complaint(entry, "uninstall failed"@),
        ),
        !args.contains("--uninstall"@) ==> installer_complaint(entry, args, false) == Some(
            complaint::complaint(entry, "update failed"@),
        ),
{
}

} // verus!
