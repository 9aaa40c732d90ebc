//! The console's own commands (`!stop`, `!layout`, `!reload`, `q`) and the
//! confirmation that some of them ask for while a debugging session is
//! active. The decisions are made here; each step tells the caller what to
//! do with gdb and the user, and the caller reports back what gdb said.
use vstd::prelude::*;
use crate::mi::commands::{cmd, find_char, find_char_exec, MiCommand, MiCommandView};
use crate::mi::value::str_eq;
use crate::mi::ExecuteError;
use crate::text::{chars_of, push_str, string_from_range};

verus! {

/// A command for gdb that waits to be executed, and the message to show
/// when it succeeded.
pub struct Command {
    pub command: MiCommand,
    pub success_message: Option<String>,
}

/// The mathematical form of a [`Command`].
pub struct CommandView {
    pub command: MiCommandView,
    pub success_message: Option<Seq<char>>,
}

impl Command {
    pub open spec fn view(&self) -> CommandView {
        CommandView {
            command: self.command@,
            success_message: match &self.success_message {
                Some(m) => Some(m@),
                None => None,
            },
        }
    }
}

/// Whether a command waits for the user's confirmation.
pub enum CommandState {
    Idle,
    WaitingForConfirmation(Command),
}

/// The mathematical form of a [`CommandState`].
pub enum CommandStateView {
    Idle,
    WaitingForConfirmation(CommandView),
}

impl CommandState {
    pub open spec fn view(&self) -> CommandStateView {
        match self {
            CommandState::Idle => CommandStateView::Idle,
            CommandState::WaitingForConfirmation(c) => CommandStateView::WaitingForConfirmation(c.view()),
        }
    }
}

/// What the caller is to do after a step.
pub enum CommandAction {
    /// Nothing.
    Nothing,
    /// Show the message to the user.
    Log(String),
    /// Interrupt the program that gdb runs.
    Interrupt,
    /// Change the layout to the one described.
    ChangeLayout(String),
    /// Ask gdb for the file of the program being debugged, and report it
    /// with [`CommandState::target_found`].
    ReloadTarget,
    /// Ask gdb whether a debugging session is active, and report it with
    /// [`CommandState::session_checked`] for the command and the question.
    CheckSession(Command, String),
    /// Execute the command and show its success message, or the error.
    Execute(Command),
    /// Pass the line to gdb's console.
    ExecuteConsole(String),
}

/// The mathematical form of a [`CommandAction`].
pub enum CommandActionView {
    Nothing,
    Log(Seq<char>),
    Interrupt,
    ChangeLayout(Seq<char>),
    ReloadTarget,
    CheckSession(CommandView, Seq<char>),
    Execute(CommandView),
    ExecuteConsole(Seq<char>),
}

impl CommandAction {
    pub open spec fn view(&self) -> CommandActionView {
        match self {
            CommandAction::Nothing => CommandActionView::Nothing,
            CommandAction::Log(m) => CommandActionView::Log(m@),
            CommandAction::Interrupt => CommandActionView::Interrupt,
            CommandAction::ChangeLayout(l) => CommandActionView::ChangeLayout(l@),
            CommandAction::ReloadTarget => CommandActionView::ReloadTarget,
            CommandAction::CheckSession(c, q) => CommandActionView::CheckSession(c.view(), q@),
            CommandAction::Execute(c) => CommandActionView::Execute(c.view()),
            CommandAction::ExecuteConsole(l) => CommandActionView::ExecuteConsole(l@),
        }
    }
}

/// The message for a command that gdb could not execute.
pub open spec fn execute_error_text(e: ExecuteError) -> Seq<char> {
    match e {
        ExecuteError::Quit => "quit"@,
        ExecuteError::Busy => "GDB is running!"@,
    }
}

/// The message for a command that gdb could not execute (see
/// [`execute_error_text`]).
pub fn execute_error_message(e: ExecuteError) -> (r: String)
    ensures
        r@ == execute_error_text(e),
{
    match e {
        ExecuteError::Quit => "quit".to_owned(),
        ExecuteError::Busy => "GDB is running!".to_owned(),
    }
}

/// The end of the command word of `line`: its first blank, or its end.
pub open spec fn command_end(line: Seq<char>) -> int {
    match find_char(line, ' ') {
        Some(p) => p,
        None => line.len() as int,
    }
}

/// The arguments of the command in `line`: what follows the blank after
/// the command word.
pub open spec fn command_args(line: Seq<char>) -> Seq<char> {
    let e = command_end(line);
    line.skip(if e + 1 <= line.len() {
        e + 1
    } else {
        line.len() as int
    })
}

/// The step for a line typed while no command waits: the console's own
/// commands, or else the line for gdb's console.
pub open spec fn dispatch_spec(line: Seq<char>) -> CommandActionView {
    let word = line.take(command_end(line));
    if word == "!stop"@ {
        CommandActionView::Interrupt
    } else if word == "!layout"@ {
        CommandActionView::ChangeLayout(command_args(line))
    } else if word == "!reload"@ {
        CommandActionView::ReloadTarget
    } else if word == "q"@ {
        CommandActionView::CheckSession(
            CommandView { command: cmd("gdb-exit"@, Seq::empty(), Seq::empty()), success_message: None },
            "Quit anyway?"@,
        )
    } else {
        CommandActionView::ExecuteConsole(line)
    }
}

/// The state and the step after the line `line`: while no command waits,
/// the line is dispatched; while one waits, `y`, `Y` or `yes` executes it,
/// `n`, `N` or `no` drops it, and anything else asks again.
pub open spec fn handle_spec(s: CommandStateView, line: Seq<char>) -> (CommandStateView, CommandActionView) {
    match s {
        CommandStateView::Idle => (CommandStateView::Idle, dispatch_spec(line)),
        CommandStateView::WaitingForConfirmation(c) => {
            if line == "y"@ || line == "Y"@ || line == "yes"@ {
                (CommandStateView::Idle, CommandActionView::Execute(c))
            } else if line == "n"@ || line == "N"@ || line == "no"@ {
                (CommandStateView::Idle, CommandActionView::Nothing)
            } else {
                (
                    CommandStateView::WaitingForConfirmation(c),
                    CommandActionView::Log("Please type 'y' or 'n'."@),
                )
            }
        },
    }
}

/// The step after gdb named the file of the program being debugged (or
/// none, or failed): reloading it asks for confirmation if a session is
/// active.
pub open spec fn target_spec(target: Result<Option<Seq<char>>, ExecuteError>) -> CommandActionView {
    match target {
        Ok(Some(t)) => CommandActionView::CheckSession(
            CommandView {
                command: cmd("file-exec-and-symbols"@, seq![t], Seq::empty()),
                success_message: Some("Reloaded target."@),
            },
            "Reload anyway?"@,
        ),
        Ok(None) => CommandActionView::Log("No target. Use the 'file' command to specify one."@),
        Err(e) => CommandActionView::Log(execute_error_text(e)),
    }
}

/// The state and the step after gdb said whether a session is active: if
/// one is, the command waits for confirmation of the question; if none is,
/// it is executed.
pub open spec fn session_spec(c: CommandView, question: Seq<char>, active: Result<bool, ExecuteError>) -> (CommandStateView, CommandActionView) {
    match active {
        Ok(true) => (
            CommandStateView::WaitingForConfirmation(c),
            CommandActionView::Log("A debugging session is active. "@ + question + " (y or n)"@),
        ),
        Ok(false) => (CommandStateView::Idle, CommandActionView::Execute(c)),
        Err(e) => (CommandStateView::Idle, CommandActionView::Log(execute_error_text(e))),
    }
}

fn dispatch_command(line: &str) -> (r: CommandAction)
    ensures
        r.view() == dispatch_spec(line@),
{
    let cs = chars_of(line);
    let cmd_end = match find_char_exec(&cs, ' ') {
        Some(p) => p,
        None => cs.len(),
    };
    assert(cmd_end == command_end(line@));
    let word = string_from_range(cs.as_slice(), 0, cmd_end);
    assert(word@ =~= line@.take(command_end(line@)));
    let args_begin = if cmd_end < cs.len() {
        cmd_end + 1
    } else {
        cs.len()
    };
    if str_eq(word.as_str(), "!stop") {
        CommandAction::Interrupt
    } else if str_eq(word.as_str(), "!layout") {
        let args = string_from_range(cs.as_slice(), args_begin, cs.len());
        assert(args@ =~= command_args(line@));
        CommandAction::ChangeLayout(args)
    } else if str_eq(word.as_str(), "!reload") {
        CommandAction::ReloadTarget
    } else if str_eq(word.as_str(), "q") {
        CommandAction::CheckSession(
            Command { command: MiCommand::exit(), success_message: None },
            "Quit anyway?".to_owned(),
        )
    } else {
        CommandAction::ExecuteConsole(line.to_owned())
    }
}

impl CommandState {
    /// Handles a line typed into the console (see [`handle_spec`]).
    pub fn handle_input_line(&mut self, line: &str) -> (r: CommandAction)
        ensures
            (final(self).view(), r.view()) == handle_spec(old(self).view(), line@),
    {
        let mut tmp_state = CommandState::Idle;
        std::mem::swap(&mut tmp_state, self);
        match tmp_state {
            CommandState::Idle => dispatch_command(line),
            CommandState::WaitingForConfirmation(c) => {
                if str_eq(line, "y") || str_eq(line, "Y") || str_eq(line, "yes") {
                    CommandAction::Execute(c)
                } else if str_eq(line, "n") || str_eq(line, "N") || str_eq(line, "no") {
                    CommandAction::Nothing
                } else {
                    *self = CommandState::WaitingForConfirmation(c);
                    CommandAction::Log("Please type 'y' or 'n'.".to_owned())
                }
            },
        }
    }

    /// Continues `!reload` with the file that gdb named for the program
    /// (see [`target_spec`]); no command waits afterwards.
    pub fn target_found(&mut self, target: Result<Option<String>, ExecuteError>) -> (r: CommandAction)
        ensures
            final(self).view() == CommandStateView::Idle,
            r.view() == target_spec(match target {
                Ok(Some(t)) => Ok(Some(t@)),
                Ok(None) => Ok(None),
                Err(e) => Err(e),
            }),
    {
        *self = CommandState::Idle;
        match target {
            Ok(Some(t)) => {
                let ghost tv = t@;
                let c = MiCommand::file_exec_and_symbols(t.as_str());
                CommandAction::CheckSession(
                    Command { command: c, success_message: Some("Reloaded target.".to_owned()) },
                    "Reload anyway?".to_owned(),
                )
            },
            Ok(None) => CommandAction::Log("No target. Use the 'file' command to specify one.".to_owned()),
            Err(e) => CommandAction::Log(execute_error_message(e)),
        }
    }

    /// Continues a command that depends on whether a debugging session is
    /// active (see [`session_spec`]).
    pub fn session_checked(&mut self, c: Command, question: String, active: Result<bool, ExecuteError>) -> (r: CommandAction)
        ensures
            (final(self).view(), r.view()) == session_spec(c.view(), question@, active),
    {
        match active {
            Ok(true) => {
                let mut msg = "A debugging session is active. ".to_owned();
                push_str(&mut msg, question.as_str());
                push_str(&mut msg, " (y or n)");
                *self = CommandState::WaitingForConfirmation(c);
                CommandAction::Log(msg)
            },
            Ok(false) => {
                *self = CommandState::Idle;
                CommandAction::Execute(c)
            },
            Err(e) => {
                *self = CommandState::Idle;
                CommandAction::Log(execute_error_message(e))
            },
        }
    }
}

/// Declining a confirmation leaves no command waiting, and accepting it
/// executes exactly the command that waited.
pub proof fn lemma_confirmation_answers(c: CommandView)
    ensures
        handle_spec(CommandStateView::WaitingForConfirmation(c), "n"@) == (
            CommandStateView::Idle,
            CommandActionView::Nothing,
        ),
        handle_spec(CommandStateView::WaitingForConfirmation(c), "y"@) == (
            CommandStateView::Idle,
            CommandActionView::Execute(c),
        ),
{
    reveal_strlit("n");
    reveal_strlit("N");
    reveal_strlit("no");
    reveal_strlit("y");
    reveal_strlit("Y");
    reveal_strlit("yes");
    assert("n"@ != "y"@) by {
        assert("n"@[0] != "y"@[0]);
    }
    assert("n"@ != "Y"@) by {
        assert("n"@[0] != "Y"@[0]);
    }
    assert("n"@.len() != "yes"@.len());
}

} // verus!
