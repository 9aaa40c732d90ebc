//! The console: gdb's log, the prompt line with its history, and the
//! console's own commands. The prompt shows whether gdb runs.
use vstd::prelude::*;
use crate::completion::{CompletionState, CompletionView};
use crate::command_state::{handle_spec, session_spec, target_spec, Command, CommandAction, CommandState, CommandStateView};
use crate::mi::ExecuteError;
use crate::mi::output::{AsyncClass, AsyncClassView, AsyncKind, BreakPointEvent, OutOfBandRecord, OutOfBandView, ThreadEvent};
use crate::mi::value::{entries_view, obj_get, object_get, MiValue, Val};
use crate::text::push_str;
use crate::completion::path::grapheme_clusters;
use crate::unsegen::widgets::{count_grapheme_clusters, write_lines, LineEditView, LogViewer, PromptLine};

verus! {

/// Whether gdb was last seen running its program or stopped.
#[derive(Clone, Copy, PartialEq, Eq, Debug, Structural)]
pub enum GdbRunState {
    Running,
    Stopped,
}

/// The prompt while gdb is stopped.
pub open spec fn stopped_prompt() -> Seq<char> {
    "(gdb) "@
}

/// The prompt while gdb runs the program.
pub open spec fn running_prompt() -> Seq<char> {
    "(↻↻↻) "@
}

/// The console.
pub struct Console {
    gdb_log: LogViewer,
    prompt_line: PromptLine,
    last_gdb_state: GdbRunState,
    command_state: CommandState,
    completion_state: Option<CompletionState>,
}

/// The prompt line that the completion `v` shows: its completed text, with
/// the cursor after the selection (at the end of the line, should the text
/// up to there hold more clusters than the whole line).
pub open spec fn completed_line(v: CompletionView) -> LineEditView {
    let text = v.completed_text();
    let c = grapheme_clusters(v.before_cursor() + v.option_text()).len();
    let n = grapheme_clusters(text).len();
    LineEditView { text, cursor: if c <= n { c } else { n } }
}

/// The line that a newline submits: the line typed, or the latest line of
/// the history when nothing was typed (nothing at all without one).
pub open spec fn submitted_line(typed: Seq<char>, history: Seq<Seq<char>>) -> Seq<char> {
    if typed.len() > 0 {
        typed
    } else if history.len() > 0 {
        history.last()
    } else {
        Seq::empty()
    }
}

impl Console {
    /// The lines of gdb's log.
    pub closed spec fn log_spec(&self) -> Seq<Seq<char>> {
        self.gdb_log@
    }

    /// The prompt line.
    pub closed spec fn prompt_line_spec(&self) -> PromptLine {
        self.prompt_line
    }

    /// Whether a command waits for confirmation.
    pub closed spec fn command_view(&self) -> CommandStateView {
        self.command_state.view()
    }

    /// Whether gdb was last seen running.
    pub closed spec fn state_spec(&self) -> GdbRunState {
        self.last_gdb_state
    }

    /// The completions being offered, if any.
    pub closed spec fn completion_spec(&self) -> Option<CompletionView> {
        match self.completion_state {
            Some(c) => Some(c@),
            None => None,
        }
    }

    /// An empty console for a stopped gdb.
    pub fn new() -> (r: Self)
        ensures
            r.log_spec() == Seq::<Seq<char>>::empty(),
            r.prompt_line_spec().prompt_spec() == stopped_prompt(),
            r.prompt_line_spec().line_spec() == (LineEditView { text: Seq::empty(), cursor: 0 }),
            r.prompt_line_spec().history_spec() == Seq::<Seq<char>>::empty(),
            r.state_spec() == GdbRunState::Stopped,
            r.command_view() == CommandStateView::Idle,
            r.completion_spec() is None,
    {
        Console {
            gdb_log: LogViewer::new(),
            prompt_line: PromptLine::with_prompt("(gdb) ".to_owned()),
            last_gdb_state: GdbRunState::Stopped,
            command_state: CommandState::Idle,
            completion_state: None,
        }
    }

    /// Whether completions are being offered.
    pub fn is_completing(&self) -> (r: bool)
        ensures
            r == self.completion_spec() is Some,
    {
        self.completion_state.is_some()
    }

    fn show_completion(&mut self, state: CompletionState)
        ensures
            final(self).completion_spec() == Some(state@),
            final(self).prompt_line_spec().line_spec() == completed_line(state@),
            final(self).prompt_line_spec().history_spec() == old(self).prompt_line_spec().history_spec(),
            final(self).prompt_line_spec().prompt_spec() == old(self).prompt_line_spec().prompt_spec(),
            final(self).log_spec() == old(self).log_spec(),
            final(self).state_spec() == old(self).state_spec(),
            final(self).command_view() == old(self).command_view(),
    {
        let (before, option, after) = state.current_line_parts();
        let mut text = String::new();
        push_str(&mut text, before);
        push_str(&mut text, option);
        let cursor = count_grapheme_clusters(text.as_str());
        push_str(&mut text, after);
        self.prompt_line.set(text.as_str());
        let _ = self.prompt_line.set_cursor_pos(cursor);
        self.completion_state = Some(state);
    }

    /// Offers the completions of `state`, made for the prompt line, and
    /// shows its selection in the line (see [`completed_line`]).
    pub fn start_completion(&mut self, state: CompletionState)
        ensures
            final(self).completion_spec() == Some(state@),
            final(self).prompt_line_spec().line_spec() == completed_line(state@),
            final(self).prompt_line_spec().history_spec() == old(self).prompt_line_spec().history_spec(),
            final(self).prompt_line_spec().prompt_spec() == old(self).prompt_line_spec().prompt_spec(),
            final(self).log_spec() == old(self).log_spec(),
            final(self).state_spec() == old(self).state_spec(),
            final(self).command_view() == old(self).command_view(),
    {
        self.show_completion(state);
    }

    /// Selects the next offered completion (`forwards`) or the previous one,
    /// and shows it in the prompt line (see [`completed_line`]).
    pub fn cycle_completion(&mut self, forwards: bool)
        requires
            old(self).completion_spec() is Some,
        ensures
            final(self).completion_spec() == Some(if forwards {
                old(self).completion_spec()->0.next()
            } else {
                old(self).completion_spec()->0.prev()
            }),
            final(self).prompt_line_spec().line_spec() == completed_line(final(self).completion_spec()->0),
            final(self).prompt_line_spec().history_spec() == old(self).prompt_line_spec().history_spec(),
            final(self).prompt_line_spec().prompt_spec() == old(self).prompt_line_spec().prompt_spec(),
            final(self).log_spec() == old(self).log_spec(),
            final(self).state_spec() == old(self).state_spec(),
            final(self).command_view() == old(self).command_view(),
    {
        let mut state = self.completion_state.take().unwrap();
        if forwards {
            state.select_next_option();
        } else {
            state.select_prev_option();
        }
        self.show_completion(state);
    }

    /// Stops offering completions; the prompt line keeps what it shows.
    pub fn end_completion(&mut self)
        ensures
            final(self).completion_spec() is None,
            final(self).prompt_line_spec() == old(self).prompt_line_spec(),
            final(self).log_spec() == old(self).log_spec(),
            final(self).state_spec() == old(self).state_spec(),
            final(self).command_view() == old(self).command_view(),
    {
        self.completion_state = None;
    }

    /// The prompt line.
    pub fn prompt_line(&self) -> (r: &PromptLine)
        ensures
            *r == self.prompt_line_spec(),
    {
        &self.prompt_line
    }

    /// Types `c` into the prompt line (see [`PromptLine::write`]); completions
    /// on offer are no longer offered.
    pub fn type_char(&mut self, c: char)
        ensures
            final(self).prompt_line_spec().line_spec().text == crate::unsegen::widgets::inserted(
                old(self).prompt_line_spec().line_spec().text,
                old(self).prompt_line_spec().line_spec().cursor,
                seq![c],
            ),
            final(self).prompt_line_spec().history_spec() == old(self).prompt_line_spec().history_spec(),
            final(self).prompt_line_spec().prompt_spec() == old(self).prompt_line_spec().prompt_spec(),
            final(self).log_spec() == old(self).log_spec(),
            final(self).state_spec() == old(self).state_spec(),
            final(self).command_view() == old(self).command_view(),
            final(self).completion_spec() is None,
    {
        self.completion_state = None;
        self.prompt_line.write(c);
    }

    /// Appends `msg` to gdb's log (see [`write_lines`]).
    pub fn write_to_gdb_log(&mut self, msg: &str)
        ensures
            final(self).log_spec() == write_lines(old(self).log_spec(), msg@),
            final(self).prompt_line_spec() == old(self).prompt_line_spec(),
            final(self).state_spec() == old(self).state_spec(),
            final(self).command_view() == old(self).command_view(),
    {
        self.gdb_log.write_str(msg);
    }

    /// Submits the prompt line: the line typed (moved into the history), or
    /// the latest line of the history when nothing was typed (see
    /// [`submitted_line`]). The line is echoed to the log after the stopped
    /// prompt, and handled as a command (see [`handle_spec`]). Completions on
    /// offer are no longer offered.
    pub fn handle_newline(&mut self) -> (r: CommandAction)
        ensures
            ({
                let typed = old(self).prompt_line_spec().line_spec().text;
                let line = submitted_line(typed, old(self).prompt_line_spec().history_spec());
                &&& final(self).log_spec() == write_lines(old(self).log_spec(), stopped_prompt() + line + seq!['\n'])
                &&& (final(self).command_view(), r.view()) == handle_spec(old(self).command_view(), line)
                &&& final(self).prompt_line_spec().history_spec() == (if typed.len() > 0 {
                    old(self).prompt_line_spec().history_spec().push(typed)
                } else {
                    old(self).prompt_line_spec().history_spec()
                })
                &&& final(self).state_spec() == old(self).state_spec()
                &&& final(self).completion_spec() is None
            }),
    {
        self.completion_state = None;
        let line = if self.prompt_line.line().get().is_empty() {
            match self.prompt_line.previous_line(1) {
                Some(l) => l.to_owned(),
                None => String::new(),
            }
        } else {
            self.prompt_line.finish_line()
        };
        let mut echo = "(gdb) ".to_owned();
        push_str(&mut echo, line.as_str());
        push_str(&mut echo, "\n");
        proof {
            reveal_strlit("(gdb) ");
            reveal_strlit("\n");
            assert(echo@ =~= stopped_prompt() + line@ + seq!['\n']);
        }
        self.gdb_log.write_str(echo.as_str());
        self.command_state.handle_input_line(line.as_str())
    }

    /// Follows whether gdb runs: the prompt changes where the state did.
    pub fn update_after_event(&mut self, is_running: bool)
        ensures
            final(self).state_spec() == (if is_running {
                GdbRunState::Running
            } else {
                GdbRunState::Stopped
            }),
            final(self).prompt_line_spec().prompt_spec() == (if old(self).state_spec() == final(self).state_spec() {
                old(self).prompt_line_spec().prompt_spec()
            } else if is_running {
                running_prompt()
            } else {
                stopped_prompt()
            }),
            final(self).prompt_line_spec().line_spec() == old(self).prompt_line_spec().line_spec(),
            final(self).prompt_line_spec().history_spec() == old(self).prompt_line_spec().history_spec(),
            final(self).log_spec() == old(self).log_spec(),
            final(self).command_view() == old(self).command_view(),
    {
        if is_running {
            if self.last_gdb_state != GdbRunState::Running {
                self.last_gdb_state = GdbRunState::Running;
                self.prompt_line.set_prompt("(↻↻↻) ".to_owned());
            }
        } else {
            if self.last_gdb_state != GdbRunState::Stopped {
                self.last_gdb_state = GdbRunState::Stopped;
                self.prompt_line.set_prompt("(gdb) ".to_owned());
            }
        }
    }

    /// Continues `!reload` (see [`CommandState::target_found`]).
    pub fn target_found(&mut self, target: Result<Option<String>, ExecuteError>) -> (r: CommandAction)
        ensures
            final(self).command_view() == CommandStateView::Idle,
            r.view() == target_spec(match target {
                Ok(Some(t)) => Ok(Some(t@)),
                Ok(None) => Ok(None),
                Err(e) => Err(e),
            }),
            final(self).log_spec() == old(self).log_spec(),
            final(self).prompt_line_spec() == old(self).prompt_line_spec(),
            final(self).state_spec() == old(self).state_spec(),
    {
        self.command_state.target_found(target)
    }

    /// Continues a command that asks for confirmation while a session is
    /// active (see [`CommandState::session_checked`]).
    pub fn session_checked(&mut self, c: Command, question: String, active: Result<bool, ExecuteError>) -> (r: CommandAction)
        ensures
            (final(self).command_view(), r.view()) == session_spec(c.view(), question@, active),
            final(self).log_spec() == old(self).log_spec(),
            final(self).prompt_line_spec() == old(self).prompt_line_spec(),
            final(self).state_spec() == old(self).state_spec(),
    {
        self.command_state.session_checked(c, question, active)
    }
}

/// What the interface does with an out-of-band record of gdb.
pub enum RecordAction {
    /// Append the text to gdb's log in the console.
    Log(String),
    /// The program stopped, or another thread was selected: show the frame
    /// (where the record describes one) and evaluate the watched
    /// expressions again.
    ShowFrame(Option<Vec<(String, MiValue)>>),
    /// Apply the notification about breakpoints.
    Breakpoint(BreakPointEvent, Vec<(String, MiValue)>),
    /// Nothing to do.
    Unhandled,
}

/// The frame that a record describes under `frame`, if it is a tuple.
pub open spec fn frame_of(results: Seq<(Seq<char>, Val)>) -> Option<Seq<(Seq<char>, Val)>> {
    match obj_get(results, "frame"@) {
        Some(Val::Object(f)) => Some(f),
        _ => None,
    }
}

/// What is done with an out-of-band record (see [`RecordAction`]).
pub open spec fn record_action_spec(r: OutOfBandView, a: RecordAction) -> bool {
    match r {
        OutOfBandView::Stream { data, .. } => a matches RecordAction::Log(t) && t@ == data,
        OutOfBandView::Async { kind, class, results, .. } => {
            if (kind == AsyncKind::Exec && class == AsyncClassView::Stopped) || (kind == AsyncKind::Notify
                && class == AsyncClassView::Thread(ThreadEvent::Selected)) {
                a matches RecordAction::ShowFrame(f) && match f {
                    Some(v) => frame_of(results) == Some(entries_view(v@)),
                    None => frame_of(results) is None,
                }
            } else if kind == AsyncKind::Notify && class is BreakPoint {
                a matches RecordAction::Breakpoint(e, v) && class == AsyncClassView::BreakPoint(e)
                    && entries_view(v@) == results
            } else {
                a is Unhandled
            }
        },
    }
}

fn frame_exec(results: &[(String, MiValue)]) -> (r: Option<Vec<(String, MiValue)>>)
    ensures
        match r {
            Some(v) => frame_of(entries_view(results@)) == Some(entries_view(v@)),
            None => frame_of(entries_view(results@)) is None,
        },
{
    match object_get(results, "frame") {
        Some(MiValue::Object(f)) => {
            proof {
                crate::mi::value::lemma_object_view(*f);
            }
            let c = crate::mi::value::clone_entries(f);
            Some(c)
        },
        _ => None,
    }
}

/// What is done with the out-of-band record `record` (see
/// [`record_action_spec`]).
pub fn record_action(record: OutOfBandRecord) -> (r: RecordAction)
    ensures
        record_action_spec(record.view(), r),
{
    match record {
        OutOfBandRecord::StreamRecord { kind: _, data } => RecordAction::Log(data),
        OutOfBandRecord::AsyncRecord { token: _, kind, class, results } => {
            match (kind, class) {
                (AsyncKind::Exec, AsyncClass::Stopped) => RecordAction::ShowFrame(frame_exec(results.as_slice())),
                (AsyncKind::Notify, AsyncClass::Thread(ThreadEvent::Selected)) => RecordAction::ShowFrame(
                    frame_exec(results.as_slice()),
                ),
                (AsyncKind::Notify, AsyncClass::BreakPoint(e)) => RecordAction::Breakpoint(e, results),
                _ => RecordAction::Unhandled,
            }
        },
    }
}

} // verus!
