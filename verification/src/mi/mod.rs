//! The gdb machine interface: values, output records, commands and the
//! construction of a gdb command line.
pub mod value;
pub mod output;
pub mod commands;
pub mod builder;


use vstd::prelude::*;
use crate::mi::output::OutOfBandRecord;

verus! {

/// Why a command could not be executed: gdb is running the program, or
/// gdb has quit.
#[derive(Copy, Clone, Debug, PartialEq, Eq, Structural)]
pub enum ExecuteError {
    Busy,
    Quit,
}

/// A receiver of the out-of-band records that gdb prints (notifications
/// and stream output).
pub trait OutOfBandRecordSink {
    fn send(&self, record: OutOfBandRecord);
}

} // verus!
