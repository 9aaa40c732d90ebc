//! The options of the program (as parsed from its command line) and the
//! gdb process they call for.
use vstd::prelude::*;
use crate::completion::strings_view;
use crate::mi::builder::{opt_string_view, GDBBuilder, GDBBuilderView};

verus! {

/// The options given on the command line.
pub struct Options {
    pub gdb_path: String,
    pub nh: bool,
    pub nx: bool,
    pub quiet: bool,
    pub rr: bool,
    pub rr_path: String,
    pub cd: Option<String>,
    pub bps: Option<u32>,
    pub symbol_file: Option<String>,
    pub core_file: Option<String>,
    pub proc_id: Option<u32>,
    pub command_file: Option<String>,
    pub source_dir: Option<String>,
    pub log_dir: String,
    pub initial_expression_table_entries: Vec<String>,
    pub layout: String,
    pub program: Vec<String>,
}

/// The gdb process that the options call for: each option passed on; the
/// trailing arguments go to `rr replay` if rr is used, and else name the
/// program and its arguments.
pub open spec fn builder_for(o: Options) -> GDBBuilderView {
    let prog = strings_view(o.program@);
    GDBBuilderView {
        gdb_path: o.gdb_path@,
        nh: o.nh,
        nx: o.nx,
        quiet: o.quiet,
        cd: opt_string_view(o.cd),
        bps: o.bps,
        symbol_file: opt_string_view(o.symbol_file),
        core_file: opt_string_view(o.core_file),
        proc_id: o.proc_id,
        command: opt_string_view(o.command_file),
        source_dir: opt_string_view(o.source_dir),
        args: if o.rr || prog.len() == 0 {
            Seq::empty()
        } else {
            prog.drop_first()
        },
        program: if o.rr || prog.len() == 0 {
            None
        } else {
            Some(prog[0])
        },
        tty: None,
        rr: if o.rr {
            Some((o.rr_path@, prog))
        } else {
            None
        },
    }
}

impl Options {
    /// The gdb process that the options call for (see [`builder_for`]);
    /// it has a program wherever it has arguments for one.
    pub fn create_gdb_builder(self) -> (r: GDBBuilder)
        ensures
            r@ == builder_for(self),
            r@.args.len() > 0 ==> r@.program is Some,
    {
        let ghost o = self;
        let mut gdb_builder = GDBBuilder::new(self.gdb_path);
        if self.nh {
            gdb_builder = gdb_builder.nh();
        }
        if self.nx {
            gdb_builder = gdb_builder.nx();
        }
        if self.quiet {
            gdb_builder = gdb_builder.quiet();
        }
        if let Some(cd) = self.cd {
            gdb_builder = gdb_builder.working_dir(cd);
        }
        if let Some(bps) = self.bps {
            gdb_builder = gdb_builder.bps(bps);
        }
        if let Some(symbol_file) = self.symbol_file {
            gdb_builder = gdb_builder.symbol_file(symbol_file);
        }
        if let Some(core_file) = self.core_file {
            gdb_builder = gdb_builder.core_file(core_file);
        }
        if let Some(proc_id) = self.proc_id {
            gdb_builder = gdb_builder.proc_id(proc_id);
        }
        if let Some(command_file) = self.command_file {
            gdb_builder = gdb_builder.command_file(command_file);
        }
        if let Some(src_dir) = self.source_dir {
            gdb_builder = gdb_builder.source_dir(src_dir);
        }
        if self.rr {
            gdb_builder = gdb_builder.rr_args(self.rr_path, self.program);
        } else if self.program.len() > 0 {
            let mut program = self.program;
            let first = program.remove(0);
            let ghost rest = program@;
            gdb_builder = gdb_builder.args(program.as_slice());
            gdb_builder = gdb_builder.program(first);
            proof {
                assert(rest.map_values(|a: String| a@) =~= strings_view(o.program@).drop_first());
                assert(Seq::<Seq<char>>::empty() + strings_view(o.program@).drop_first() =~= strings_view(o.program@).drop_first());
            }
        }
        gdb_builder
    }
}

} // verus!
