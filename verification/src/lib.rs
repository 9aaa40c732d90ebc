//! Verified core logic of a terminal front-end for gdb.
use vstd::prelude::*;

pub mod text;
pub mod chars;
pub mod mi;
pub mod completion;
pub mod gdb_expression_parsing;
pub mod unsegen;
pub mod logging;
pub mod layout;
pub mod numbers;
pub mod breakpoints;
pub mod options;
pub mod command_state;
pub mod ipc;
pub mod serial;
pub mod code_window;
pub mod expression_table;
pub mod console;
pub mod input_mode;
pub mod pseudo_terminal;

verus! {
} // verus!
