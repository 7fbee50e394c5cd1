//! What the launcher does next: after the manifests are read, after the user
//! has answered the menu, and after the chosen script has run.
//!
//! The caller shows the menu, spawns the process and prints; each function
//! here says which of these is due, and with what.

use crate::command::{CommandView, NpmCommand};
use crate::registry::{labels_of, Registry};
use vstd::prelude::*;
use vstd::string::StringExecFns;

verus! {

/// Where a message is printed.
#[derive(Debug, Clone, Copy, PartialEq, Eq, Structural)]
pub enum Stream {
    Stdout,
    Stderr,
}

/// One line for the user.
#[derive(Debug)]
pub struct Notice {
    pub stream: Stream,
    pub text: String,
}

/// A process to start and wait for. It inherits the launcher's standard
/// streams.
#[derive(Debug)]
pub struct Invocation {
    pub program: String,
    pub args: Vec<String>,
    pub dir: String,
}

/// An invocation as texts.
pub struct InvocationView {
    pub program: Seq<char>,
    pub args: Seq<Seq<char>>,
    pub dir: Seq<char>,
}

impl View for Invocation {
    type V = InvocationView;

    open spec fn view(&self) -> InvocationView {
        InvocationView {
            program: self.program@,
            args: Seq::new(self.args@.len(), |i: int| self.args@[i]@),
            dir: self.dir@,
        }
    }
}

/// How the launcher ends: what it prints last, if anything, and its exit
/// status.
#[derive(Debug)]
pub struct Ending {
    pub notice: Option<Notice>,
    pub exit_code: i32,
}

/// The next thing to do.
#[derive(Debug)]
pub enum Next {
    /// Show the menu under `prompt` and wait for the user's answer.
    Ask { prompt: String, labels: Vec<String> },
    /// Start the process and wait for it to end.
    Spawn(Invocation),
    /// Print the notice, if there is one, and leave.
    Leave(Ending),
}

/// The line that the script runner is given for the script `name`.
pub open spec fn run_line(name: Seq<char>) -> Seq<char> {
    "npm run "@ + name
}

/// How `command` is run: a shell that is handed the script runner's line for
/// the command's name, in the command's directory. The shell text that the
/// manifest gives for the name has no part in it.
pub open spec fn invocation_of(command: CommandView) -> InvocationView {
    InvocationView { program: "sh"@, args: seq!["-c"@, run_line(command.name)], dir: command.path }
}

impl Next {
    /// Whether this is to show the menu of `commands`: the launcher's prompt,
    /// and one label for each command.
    pub open spec fn asks(self, commands: Seq<CommandView>) -> bool {
        &&& self matches Next::Ask { prompt, labels }
        &&& prompt@ == "Choose a command to execute:"@
        &&& labels_of(labels@, commands)
    }

    /// Whether this is to start exactly `process`.
    pub open spec fn spawns(self, process: InvocationView) -> bool {
        &&& self matches Next::Spawn(invocation)
        &&& invocation@ == process
    }

    /// Whether this is to print exactly `text` on `stream` and to leave with
    /// the exit status 0.
    pub open spec fn leaves_saying(self, stream: Stream, text: Seq<char>) -> bool {
        &&& self matches Next::Leave(ending)
        &&& ending.exit_code == 0
        &&& ending.notice matches Some(notice)
        &&& notice.stream == stream
        &&& notice.text@ == text
    }

    /// Whether this is to leave with the exit status 0 and without a word.
    pub open spec fn leaves_silently(self) -> bool {
        &&& self matches Next::Leave(ending)
        &&& ending.exit_code == 0
        &&& ending.notice is None
    }
}

/// The process that runs `command`.
pub fn invocation(command: &NpmCommand) -> (out: Invocation)
    ensures
        out@ == invocation_of(command@),
{
    let mut line = String::from_str("npm run ");
    line.append(command.name.as_str());
    let mut args: Vec<String> = Vec::new();
    args.push(String::from_str("-c"));
    args.push(line);
    let out = Invocation { program: String::from_str("sh"), args, dir: command.path.clone() };
    assert(out@.args =~= invocation_of(command@).args);
    out
}

/// What is due once all manifests are read. With no command at all the
/// launcher says so and leaves with success, and the menu is never shown;
/// otherwise the menu is shown, one line for each command.
pub fn after_discovery(registry: &Registry) -> (out: Next)
    ensures
        if registry@.len() == 0 {
            out.leaves_saying(Stream::Stdout, "No commands found."@)
        } else {
            out.asks(registry@)
        },
{
    if registry.is_empty() {
        Next::Leave(
            Ending {
                notice: Some(
                    Notice { stream: Stream::Stdout, text: String::from_str("No commands found.") },
                ),
                exit_code: 0,
            },
        )
    } else {
        Next::Ask {
            prompt: String::from_str("Choose a command to execute:"),
            labels: registry.labels(),
        }
    }
}

/// What is due once the user has answered the menu. A cancelled menu ends
/// the launcher with success, without a word and without a process; a chosen
/// line has its command run.
pub fn after_choice(registry: &Registry, choice: Option<usize>) -> (out: Next)
    requires
        choice matches Some(index) ==> index < registry@.len(),
    ensures
        match choice {
            Some(index) => out.spawns(invocation_of(registry@[index as int])),
            None => out.leaves_silently(),
        },
{
    match choice {
        Some(index) => Next::Spawn(invocation(&registry.commands[index])),
        None => Next::Leave(Ending { notice: None, exit_code: 0 }),
    }
}

/// What is due once the script has run. Its success or failure is told, on
/// standard output or on standard error; the launcher itself leaves with
/// success either way.
pub fn after_run(success: bool) -> (out: Next)
    ensures
        if success {
            out.leaves_saying(Stream::Stdout, "Command executed successfully."@)
        } else {
            out.leaves_saying(Stream::Stderr, "Error executing command."@)
        },
{
    let notice = if success {
        Notice { stream: Stream::Stdout, text: String::from_str("Command executed successfully.") }
    } else {
        Notice { stream: Stream::Stderr, text: String::from_str("Error executing command.") }
    };
    Next::Leave(Ending { notice: Some(notice), exit_code: 0 })
}

} // verus!
