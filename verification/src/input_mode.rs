//! The decisions of the main loop: how keys move between the containers
//! (normal input, a focused terminal, the selection of a container), how
//! an escape leaves a focused terminal (pressed twice within a short time),
//! and how long the cursor blinks after the last input.
use vstd::prelude::*;
use crate::layout::TuiContainerType;

verus! {

/// How keys are handled.
#[derive(Clone, Copy, PartialEq, Eq, Debug, Structural)]
pub enum InputMode {
    /// Keys go to the active container; escape selects another one.
    Normal,
    /// Keys, escape too, go to the active container; two escapes in a short
    /// time select another one.
    Focused,
    /// Keys select the container to activate.
    ContainerSelect,
}

/// How many times the cursor blinks after the last input.
pub const CURSOR_BLINK_TIMES: u8 = 20;

/// The mode and container that a key selects while a container is being
/// selected: `i` the console, `e` the expression table, `s` the source
/// view, `t` the terminal, `T` the terminal focused.
pub open spec fn container_for_key_spec(c: char) -> Option<(InputMode, TuiContainerType)> {
    if c == 'i' {
        Some((InputMode::Normal, TuiContainerType::Console))
    } else if c == 'e' {
        Some((InputMode::Normal, TuiContainerType::ExpressionTable))
    } else if c == 's' {
        Some((InputMode::Normal, TuiContainerType::SrcView))
    } else if c == 't' {
        Some((InputMode::Normal, TuiContainerType::Terminal))
    } else if c == 'T' {
        Some((InputMode::Focused, TuiContainerType::Terminal))
    } else {
        None
    }
}

/// The mode and container that `c` selects (see
/// [`container_for_key_spec`]).
pub fn container_for_key(c: char) -> (r: Option<(InputMode, TuiContainerType)>)
    ensures
        r == container_for_key_spec(c),
{
    if c == 'i' {
        Some((InputMode::Normal, TuiContainerType::Console))
    } else if c == 'e' {
        Some((InputMode::Normal, TuiContainerType::ExpressionTable))
    } else if c == 's' {
        Some((InputMode::Normal, TuiContainerType::SrcView))
    } else if c == 't' {
        Some((InputMode::Normal, TuiContainerType::Terminal))
    } else if c == 'T' {
        Some((InputMode::Focused, TuiContainerType::Terminal))
    } else {
        None
    }
}

/// The state of the main loop: the input mode, whether the cursor is
/// shown, and how often it blinked since the last input.
pub struct LoopState {
    pub input_mode: InputMode,
    pub cursor_on: bool,
    pub blinks_since_input: u8,
}

impl LoopState {
    /// Normal input, the cursor shown, no blink yet.
    pub fn new() -> (r: Self)
        ensures
            r.input_mode == InputMode::Normal,
            r.cursor_on,
            r.blinks_since_input == 0,
    {
        LoopState { input_mode: InputMode::Normal, cursor_on: true, blinks_since_input: 0 }
    }

    /// Whether the cursor is to blink once more.
    pub fn cursor_blinks(&self) -> (r: bool)
        ensures
            r == (self.blinks_since_input < CURSOR_BLINK_TIMES),
    {
        self.blinks_since_input < CURSOR_BLINK_TIMES
    }

    /// The cursor blinks: it is hidden if shown and shown if hidden.
    pub fn on_cursor_timer(&mut self)
        ensures
            final(self).cursor_on == !old(self).cursor_on,
            final(self).blinks_since_input == (if old(self).blinks_since_input < u8::MAX {
                (old(self).blinks_since_input + 1) as u8
            } else {
                u8::MAX
            }),
            final(self).input_mode == old(self).input_mode,
    {
        self.cursor_on = !self.cursor_on;
        self.blinks_since_input = self.blinks_since_input.saturating_add(1);
    }

    /// Something happened: the cursor is shown and blinks again.
    pub fn on_render_timer(&mut self)
        ensures
            final(self).cursor_on,
            final(self).blinks_since_input == 0,
            final(self).input_mode == old(self).input_mode,
    {
        self.cursor_on = true;
        self.blinks_since_input = 0;
    }

    /// An escape in normal mode: the selection of a container begins.
    /// Returns whether the escape was taken (elsewhere it goes on to the
    /// container, or, when focused, counts towards leaving it).
    pub fn on_escape(&mut self) -> (r: bool)
        ensures
            r == (old(self).input_mode == InputMode::Normal),
            final(self).input_mode == (if r {
                InputMode::ContainerSelect
            } else {
                old(self).input_mode
            }),
            final(self).cursor_on == old(self).cursor_on,
            final(self).blinks_since_input == old(self).blinks_since_input,
    {
        if self.input_mode == InputMode::Normal {
            self.input_mode = InputMode::ContainerSelect;
            true
        } else {
            false
        }
    }

    /// An escape reached a focused container: if one came shortly before
    /// (its timer runs), the selection of a container begins; else the
    /// timer is to be started, which is returned.
    pub fn on_focused_escape(&mut self, timer_started: bool) -> (r: bool)
        ensures
            r == !timer_started,
            final(self).input_mode == (if timer_started {
                InputMode::ContainerSelect
            } else {
                old(self).input_mode
            }),
            final(self).cursor_on == old(self).cursor_on,
            final(self).blinks_since_input == old(self).blinks_since_input,
    {
        if timer_started {
            self.input_mode = InputMode::ContainerSelect;
            false
        } else {
            true
        }
    }

    /// A character while a container is being selected: where it names a
    /// container (see [`container_for_key_spec`]), that one is to be
    /// activated in the mode given; a line feed returns to normal input.
    pub fn on_select_key(&mut self, c: char) -> (r: Option<TuiContainerType>)
        ensures
            match container_for_key_spec(c) {
                Some((m, t)) => r == Some(t) && final(self).input_mode == m,
                None => r is None && final(self).input_mode == (if c == '\n' {
                    InputMode::Normal
                } else {
                    old(self).input_mode
                }),
            },
            final(self).cursor_on == old(self).cursor_on,
            final(self).blinks_since_input == old(self).blinks_since_input,
    {
        match container_for_key(c) {
            Some((m, t)) => {
                self.input_mode = m;
                Some(t)
            },
            None => {
                if c == '\n' {
                    self.input_mode = InputMode::Normal;
                }
                None
            },
        }
    }
}

/// The part of the screen that keys go to, with the vi-like keyboard.
#[derive(Clone, Copy, PartialEq, Eq, Debug, Structural)]
pub enum ViMode {
    Console,
    PTY,
    SourcePager,
    ExpressionTable,
}

/// A key as far as the vi-like keyboard tells keys apart.
#[derive(Clone, Copy, PartialEq, Eq, Debug, Structural)]
pub enum ViKey {
    Esc,
    Char(char),
    F1,
    CtrlQ,
    Other,
}

/// Where a key is passed on to.
#[derive(Clone, Copy, PartialEq, Eq, Debug, Structural)]
pub enum ViRoute {
    /// The key goes to the console.
    Console,
    /// The console's log is shown or hidden.
    ToggleLog,
    PseudoTerminal,
    SourcePager,
    ExpressionTable,
}

/// What a key does with the vi-like keyboard: `Ctrl-q` quits (and is
/// passed on as well); in the source pager, escape stays there and `i`, `t`
/// and `e` switch to the console, the terminal and the expression table;
/// elsewhere escape returns to the source pager, in the terminal only when
/// a second escape comes shortly after the first; `F1` in the console
/// toggles its log; any other key goes to the active part.
pub open spec fn vi_step_spec(mode: ViMode, key: ViKey, recent_escape: bool) -> (bool, ViMode, Option<ViRoute>) {
    let quit = key == ViKey::CtrlQ;
    let (m, r) = match mode {
        ViMode::SourcePager => match key {
            ViKey::Esc => (ViMode::SourcePager, None),
            ViKey::Char('i') => (ViMode::Console, None),
            ViKey::Char('t') => (ViMode::PTY, None),
            ViKey::Char('e') => (ViMode::ExpressionTable, None),
            _ => (mode, Some(ViRoute::SourcePager)),
        },
        ViMode::Console => match key {
            ViKey::Esc => (ViMode::SourcePager, None),
            ViKey::F1 => (mode, Some(ViRoute::ToggleLog)),
            _ => (mode, Some(ViRoute::Console)),
        },
        ViMode::PTY => if key == ViKey::Esc && recent_escape {
            (ViMode::SourcePager, None)
        } else {
            (mode, Some(ViRoute::PseudoTerminal))
        },
        ViMode::ExpressionTable => match key {
            ViKey::Esc => (ViMode::SourcePager, None),
            _ => (mode, Some(ViRoute::ExpressionTable)),
        },
    };
    (quit, m, r)
}

/// What `key` does in `mode` (see [`vi_step_spec`]); `recent_escape` tells
/// whether the last escape came shortly before.
pub fn vi_step(mode: ViMode, key: ViKey, recent_escape: bool) -> (r: (bool, ViMode, Option<ViRoute>))
    ensures
        r == vi_step_spec(mode, key, recent_escape),
{
    let quit = key == ViKey::CtrlQ;
    let (m, r) = match mode {
        ViMode::SourcePager => match key {
            ViKey::Esc => (ViMode::SourcePager, None),
            ViKey::Char('i') => (ViMode::Console, None),
            ViKey::Char('t') => (ViMode::PTY, None),
            ViKey::Char('e') => (ViMode::ExpressionTable, None),
            _ => (mode, Some(ViRoute::SourcePager)),
        },
        ViMode::Console => match key {
            ViKey::Esc => (ViMode::SourcePager, None),
            ViKey::F1 => (mode, Some(ViRoute::ToggleLog)),
            _ => (mode, Some(ViRoute::Console)),
        },
        ViMode::PTY => {
            if key == ViKey::Esc && recent_escape {
                (ViMode::SourcePager, None)
            } else {
                (mode, Some(ViRoute::PseudoTerminal))
            }
        },
        ViMode::ExpressionTable => match key {
            ViKey::Esc => (ViMode::SourcePager, None),
            _ => (mode, Some(ViRoute::ExpressionTable)),
        },
    };
    (quit, m, r)
}

} // verus!
