//! What is run to start something.

use vstd::prelude::*;
use crate::launch::{
    desktop_invocation, handoff_fault, invocation, terminal_arguments, Handoff, LaunchBackend,
};
use crate::text::{ends_with, starts_with, trim};
use crate::text_laws::{lemma_endings, lemma_without_ending};

verus! {

/// A program that is started in a unit of its own gets the same arguments as one that
/// is started directly: `uwsm-app` is told to make a service, and behind the two
/// hyphens stand the program and its arguments.
pub proof fn lemma_same_program(program: Seq<char>, arguments: Seq<Seq<char>>)
    ensures
        ({
            let unit = invocation(LaunchBackend::Uwsm, program, arguments);
            let direct = invocation(LaunchBackend::Direct, program, arguments);
            &&& direct.program == program
            &&& direct.arguments == arguments
            &&& unit.program == "uwsm-app"@
            &&& unit.arguments.len() == arguments.len() + 4
            &&& unit.arguments[0] == "-t"@
            &&& unit.arguments[1] == "service"@
            &&& unit.arguments[2] == "--"@
            &&& unit.arguments[3] == direct.program
            &&& unit.arguments.skip(4) == direct.arguments
        }),
{
    let unit = invocation(LaunchBackend::Uwsm, program, arguments);
    assert(unit.arguments.skip(4) =~= arguments);
}

/// A desktop entry is handed over by its id; without `uwsm-app` it is launched by its
/// id without the ending.
pub proof fn lemma_desktop_entry(name: Seq<char>)
    requires
        !ends_with(name, ".desktop"@),
    ensures
        ({
            let id = name + ".desktop"@;
            let unit = desktop_invocation(LaunchBackend::Uwsm, id);
            let direct = desktop_invocation(LaunchBackend::Direct, id);
            &&& unit.program == "uwsm-app"@
            &&& unit.arguments.len() == 4
            &&& unit.arguments.last() == id
            &&& direct.program == "gtk-launch"@
            &&& direct.arguments == seq![name]
        }),
{
    reveal_strlit(".desktop");
    lemma_without_ending(name, ".desktop"@);
}

/// The names and scopes of what starts applications.
pub proof fn lemma_backends()
    ensures
        LaunchBackend::Uwsm.name_text() == "uwsm-app"@,
        LaunchBackend::Uwsm.scope_text() == "app-graphical.slice"@,
        LaunchBackend::Direct.name_text() == "direct"@,
        LaunchBackend::Direct.scope_text() == "inherited"@,
{
}

/// A terminal gets the whole command behind two hyphens; there is no terminal for
/// nothing.
pub proof fn lemma_terminal(command: Seq<Seq<char>>)
    ensures
        command.len() == 0 ==> terminal_arguments(command) is None,
        command.len() > 0 ==> match terminal_arguments(command) {
            Some(arguments) => arguments[0] == "--"@ && arguments.skip(1) == command,
            None => false,
        },
{
    if command.len() > 0 {
        assert(terminal_arguments(command)->0.skip(1) =~= command);
    }
}

/// A handoff went wrong unless it succeeded, and what is said of it names what was
/// handed over and what the command complained of.
pub proof fn lemma_handoff(handoff: Handoff, description: Seq<char>)
    ensures
        (handoff_fault(handoff, description) is None) == (handoff is Succeeded),
        match handoff {
            Handoff::TimedOut => handoff_fault(handoff, description) == Some(
                description + " launch handoff timed out"@,
            ),
            Handoff::NotStarted => handoff_fault(handoff, description) == Some(
                "start "@ + description,
            ),
            Handoff::Failed(output) => {
                &&& starts_with(handoff_fault(handoff, description)->0, description)
                &&& ends_with(handoff_fault(handoff, description)->0, trim(output@))
            },
            Handoff::Succeeded => true,
        },
{
    if let Handoff::Failed(output) = handoff {
        let detail = trim(output@);
        lemma_endings(" launch failed"@, description);
        lemma_endings(description + " launch failed: "@, detail);
        lemma_endings(" launch failed: "@ + detail, description);
        assert(description + " launch failed: "@ + detail =~= description + (" launch failed: "@
            + detail));
        if detail.len() == 0 {
            let text = description + " launch failed"@;
            assert(text.skip(text.len() as int) =~= detail);
        }
    }
}

} // verus!
