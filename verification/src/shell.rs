//! How a command is handed to a shell.

use crate::records::views;
use crate::text::{contains_text, has_subtext, lowercase_text};
use vstd::prelude::*;

verus! {

/// A program and the arguments it is started with.
#[derive(Debug, PartialEq, Eq)]
pub struct Invocation {
    pub program: String,
    pub args: Vec<String>,
}

pub struct InvocationView {
    pub program: Seq<char>,
    pub args: Seq<Seq<char>>,
}

impl View for Invocation {
    type V = InvocationView;

    open spec fn view(&self) -> InvocationView {
        InvocationView { program: self.program@, args: views(self.args@) }
    }
}

/// Whether a shell selector asks for the command interpreter: its
/// lower-case form holds `cmd`.
pub open spec fn selects_cmd(shell: Seq<char>) -> bool {
    has_subtext(lowercase_text(shell), "cmd"@)
}

/// The invocation for a task. On Windows the command interpreter runs the
/// command where the selector asks for it, and PowerShell otherwise; on
/// every other system a login shell does.
pub open spec fn task_invocation(shell: Seq<char>, command: Seq<char>, windows: bool)
    -> InvocationView {
    if !windows {
        InvocationView { program: "sh"@, args: seq!["-lc"@, command] }
    } else if selects_cmd(shell) {
        InvocationView { program: "cmd"@, args: seq!["/C"@, command] }
    } else {
        InvocationView {
            program: "powershell"@,
            args: seq!["-NoProfile"@, "-Command"@, command],
        }
    }
}

/// The invocation for a command typed into the terminal: the command
/// interpreter on Windows, a login shell elsewhere.
pub open spec fn terminal_invocation(command: Seq<char>, windows: bool) -> InvocationView {
    if windows {
        InvocationView { program: "cmd"@, args: seq!["/C"@, command] }
    } else {
        InvocationView { program: "sh"@, args: seq!["-lc"@, command] }
    }
}

fn invocation(program: &str, flags: Vec<String>, command: &str) -> (r: Invocation)
    ensures
        r@ == (InvocationView { program: program@, args: views(flags@).push(command@) }),
{
    let mut args = flags;
    args.push(command.to_owned());
    let r = Invocation { program: program.to_owned(), args };
    assert(r@.args =~= views(flags@).push(command@));
    r
}

fn one_flag(flag: &str) -> (r: Vec<String>)
    ensures
        views(r@) == seq![flag@],
        r@.len() == 1,
        r@[0]@ == flag@,
{
    let mut flags: Vec<String> = Vec::new();
    flags.push(flag.to_owned());
    assert(views(flags@) =~= seq![flag@]);
    flags
}

/// Decides how a task's command is started.
pub fn shell_invocation(shell: &str, command: &str, windows: bool) -> (r: Invocation)
    ensures
        r@ == task_invocation(shell@, command@, windows),
{
    if !windows {
        let r = invocation("sh", one_flag("-lc"), command);
        assert(r@.args =~= seq!["-lc"@, command@]);
        r
    } else {
        let lowered = shell.to_lowercase();
        if contains_text(lowered.as_str(), "cmd") {
            let r = invocation("cmd", one_flag("/C"), command);
            assert(r@.args =~= seq!["/C"@, command@]);
            r
        } else {
            let mut flags = one_flag("-NoProfile");
            let ghost first = flags@;
            flags.push("-Command".to_owned());
            assert(views(flags@) =~= seq!["-NoProfile"@, "-Command"@]);
            let r = invocation("powershell", flags, command);
            assert(r@.args =~= seq!["-NoProfile"@, "-Command"@, command@]);
            r
        }
    }
}

/// Decides how a command typed into the terminal is started.
pub fn terminal_command(command: &str, windows: bool) -> (r: Invocation)
    ensures
        r@ == terminal_invocation(command@, windows),
{
    if windows {
        let r = invocation("cmd", one_flag("/C"), command);
        assert(r@.args =~= seq!["/C"@, command@]);
        r
    } else {
        let r = invocation("sh", one_flag("-lc"), command);
        assert(r@.args =~= seq!["-lc"@, command@]);
        r
    }
}

} // verus!
