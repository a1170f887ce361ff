//! How applications are started.

use vstd::prelude::*;
use crate::text::{
    append, append_text, chars_of, concat, string_of, texts, trim, trim_chars, trim_end_matches,
    without_endings,
};

verus! {

/// What starts an application.
#[derive(Debug, Clone, Copy, PartialEq, Eq, Structural)]
pub enum LaunchBackend {
    /// Each application in a unit of its own.
    Uwsm,
    /// As a child of this process.
    Direct,
}

impl LaunchBackend {
    /// The command whose presence decides.
    pub fn probe() -> (command: &'static str)
        ensures
            command@ == "uwsm-app"@,
    {
        "uwsm-app"
    }

    pub fn detect(uwsm_available: bool) -> (backend: Self)
        ensures
            backend == (if uwsm_available {
                LaunchBackend::Uwsm
            } else {
                LaunchBackend::Direct
            }),
    {
        if uwsm_available {
            LaunchBackend::Uwsm
        } else {
            LaunchBackend::Direct
        }
    }

    pub open spec fn name_text(self) -> Seq<char> {
        match self {
            LaunchBackend::Uwsm => "uwsm-app"@,
            LaunchBackend::Direct => "direct"@,
        }
    }

    pub open spec fn scope_text(self) -> Seq<char> {
        match self {
            LaunchBackend::Uwsm => "app-graphical.slice"@,
            LaunchBackend::Direct => "inherited"@,
        }
    }

    pub fn name(self) -> (name: &'static str)
        ensures
            name@ == self.name_text(),
    {
        match self {
            LaunchBackend::Uwsm => "uwsm-app",
            LaunchBackend::Direct => "direct",
        }
    }

    pub fn scope(self) -> (scope: &'static str)
        ensures
            scope@ == self.scope_text(),
    {
        match self {
            LaunchBackend::Uwsm => "app-graphical.slice",
            LaunchBackend::Direct => "inherited",
        }
    }

    pub fn receipt(self) -> (receipt: LaunchReceipt)
        ensures
            receipt.backend@ == self.name_text(),
            receipt.scope@ == self.scope_text(),
    {
        LaunchReceipt { backend: self.name().to_owned(), scope: self.scope().to_owned() }
    }
}

/// How an application was started.
#[derive(Debug)]
pub struct LaunchReceipt {
    pub backend: String,
    pub scope: String,
}

/// A program and its arguments.
#[derive(Debug)]
pub struct CommandLine {
    pub program: String,
    pub arguments: Vec<String>,
}

/// What a [`CommandLine`] stands for.
#[verifier::ext_equal]
pub struct Invocation {
    pub program: Seq<char>,
    pub arguments: Seq<Seq<char>>,
}

impl View for CommandLine {
    type V = Invocation;

    open spec fn view(&self) -> Invocation {
        Invocation { program: self.program@, arguments: texts(self.arguments@) }
    }
}

/// A program as the backend starts it. In service mode `uwsm-app` returns once
/// the program runs.
pub open spec fn invocation(
    backend: LaunchBackend,
    program: Seq<char>,
    arguments: Seq<Seq<char>>,
) -> Invocation {
    match backend {
        LaunchBackend::Uwsm => Invocation {
            program: "uwsm-app"@,
            arguments: seq!["-t"@, "service"@, "--"@, program] + arguments,
        },
        LaunchBackend::Direct => Invocation { program, arguments },
    }
}

/// A desktop entry as the backend starts it: `uwsm-app` reads the entry itself,
/// else `gtk-launch` does.
pub open spec fn desktop_invocation(backend: LaunchBackend, id: Seq<char>) -> Invocation {
    match backend {
        LaunchBackend::Uwsm => invocation(backend, id, Seq::empty()),
        LaunchBackend::Direct => invocation(
            backend,
            "gtk-launch"@,
            seq![trim_end_matches(id, ".desktop"@)],
        ),
    }
}

fn push_copies(list: &mut Vec<String>, more: &[String])
    ensures
        texts(final(list)@) == texts(old(list)@) + texts(more@),
{
    let ghost before = texts(list@);
    for i in 0..more.len()
        invariant
            texts(list@) == before + texts(more@).take(i as int),
    {
        let ghost earlier = texts(list@);
        list.push(more[i].clone());
        assert(texts(list@) =~= earlier.push(more@[i as int]@));
        assert(texts(more@).take(i + 1) =~= texts(more@).take(i as int).push(more@[i as int]@));
        assert(texts(list@) =~= before + texts(more@).take(i + 1));
    }
    assert(texts(more@).take(more@.len() as int) =~= texts(more@));
}

pub fn command(backend: LaunchBackend, program: &str, arguments: &[String]) -> (command: CommandLine)
    ensures
        command@ == invocation(backend, program@, texts(arguments@)),
{
    let mut list: Vec<String> = Vec::new();
    match backend {
        LaunchBackend::Uwsm => {
            list.push("-t".to_owned());
            list.push("service".to_owned());
            list.push("--".to_owned());
            list.push(program.to_owned());
            assert(texts(list@) =~= seq!["-t"@, "service"@, "--"@, program@]);
            push_copies(&mut list, arguments);
            CommandLine { program: "uwsm-app".to_owned(), arguments: list }
        },
        LaunchBackend::Direct => {
            push_copies(&mut list, arguments);
            assert(texts(list@) =~= texts(arguments@));
            CommandLine { program: program.to_owned(), arguments: list }
        },
    }
}

pub fn desktop_command(backend: LaunchBackend, id: &str) -> (command: CommandLine)
    ensures
        command@ == desktop_invocation(backend, id@),
{
    let mut list: Vec<String> = Vec::new();
    match backend {
        LaunchBackend::Uwsm => {
            assert(texts(list@) =~= Seq::empty());
            command(backend, id, list.as_slice())
        },
        LaunchBackend::Direct => {
            let chars = chars_of(id);
            list.push(string_of(without_endings(chars.as_slice(), ".desktop")));
            assert(texts(list@) =~= seq![trim_end_matches(id@, ".desktop"@)]);
            command(backend, "gtk-launch", list.as_slice())
        },
    }
}

/// The command for an additional action of a desktop entry, which `uwsm-app`
/// reads from the entry. `None` where there is no `uwsm-app`.
pub fn desktop_action_command(backend: LaunchBackend, id: &str, action_id: &str) -> (command: Option<
    CommandLine,
>)
    ensures
        match command {
            Some(c) => backend == LaunchBackend::Uwsm && c@ == invocation(
                backend,
                id@ + ":"@ + action_id@,
                Seq::empty(),
            ),
            None => backend == LaunchBackend::Direct,
        },
{
    match backend {
        LaunchBackend::Uwsm => {
            let mut target = chars_of(id);
            append_text(&mut target, ":");
            append_text(&mut target, action_id);
            let target = string_of(target.as_slice());
            let list: Vec<String> = Vec::new();
            assert(texts(list@) =~= Seq::empty());
            Some(command(backend, target.as_str(), list.as_slice()))
        },
        LaunchBackend::Direct => None,
    }
}

/// What became of a command that hands an application over.
#[derive(Debug)]
pub enum Handoff {
    TimedOut,
    NotStarted,
    Succeeded,
    /// With what the command wrote to its error output.
    Failed(String),
}

/// What to say of a handoff that went wrong.
pub open spec fn handoff_fault(handoff: Handoff, description: Seq<char>) -> Option<Seq<char>> {
    match handoff {
        Handoff::TimedOut => Some(description + " launch handoff timed out"@),
        Handoff::NotStarted => Some("start "@ + description),
        Handoff::Succeeded => None,
        Handoff::Failed(output) => if trim(output@).len() == 0 {
            Some(description + " launch failed"@)
        } else {
            Some(description + " launch failed: "@ + trim(output@))
        },
    }
}

pub fn checked_handoff(handoff: &Handoff, description: &str) -> (result: Result<(), String>)
    ensures
        match result {
            Ok(_) => handoff_fault(*handoff, description@) is None,
            Err(message) => handoff_fault(*handoff, description@) == Some(message@),
        },
{
    match handoff {
        Handoff::TimedOut => Err(concat(description, " launch handoff timed out")),
        Handoff::NotStarted => Err(concat("start ", description)),
        Handoff::Succeeded => Ok(()),
        Handoff::Failed(output) => {
            let output = chars_of(output.as_str());
            let detail = trim_chars(output.as_slice());
            if detail.len() == 0 {
                Err(concat(description, " launch failed"))
            } else {
                let mut message = chars_of(description);
                append_text(&mut message, " launch failed: ");
                append(&mut message, detail);
                Err(string_of(message.as_slice()))
            }
        },
    }
}

/// The arguments with which the default terminal runs a command; `None` for a
/// command without a program.
pub open spec fn terminal_arguments(command: Seq<Seq<char>>) -> Option<Seq<Seq<char>>> {
    if command.len() == 0 {
        None
    } else {
        Some(seq!["--"@] + command)
    }
}

/// The command line that runs a command in the default terminal.
pub fn terminal_command(backend: LaunchBackend, arguments: &[String]) -> (line: Option<CommandLine>)
    ensures
        match line {
            Some(c) => terminal_arguments(texts(arguments@)) is Some && c@ == invocation(
                backend,
                "xdg-terminal-exec"@,
                terminal_arguments(texts(arguments@))->0,
            ),
            None => terminal_arguments(texts(arguments@)) is None,
        },
{
    if arguments.len() == 0 {
        return None;
    }
    let mut list: Vec<String> = Vec::new();
    list.push("--".to_owned());
    assert(texts(list@) =~= seq!["--"@]);
    push_copies(&mut list, arguments);
    Some(command(backend, "xdg-terminal-exec", list.as_slice()))
}

/// The command line that runs a command as it is; `None` for a command without
/// a program.
pub fn direct_command(backend: LaunchBackend, arguments: &[String]) -> (line: Option<CommandLine>)
    ensures
        match line {
            Some(c) => arguments@.len() > 0 && c@ == invocation(
                backend,
                arguments@[0]@,
                texts(arguments@).skip(1),
            ),
            None => arguments@.len() == 0,
        },
{
    let length = arguments.len();
    if length == 0 {
        return None;
    }
    let rest = vstd::slice::slice_subrange(arguments, 1, length);
    assert(texts(rest@) =~= texts(arguments@).skip(1));
    Some(command(backend, arguments[0].as_str(), rest))
}

} // verus!
