//! The command line that starts gdb in machine-interface mode (directly,
//! or inside `rr replay`), built from the chosen options.
use vstd::prelude::*;
use crate::completion::strings_view;
use crate::text::{decimal, decimal_string, push_str};

verus! {

/// The options of a gdb process to start.
pub struct GDBBuilder {
    gdb_path: String,
    opt_nh: bool,
    opt_nx: bool,
    opt_quiet: bool,
    opt_cd: Option<String>,
    opt_bps: Option<u32>,
    opt_symbol_file: Option<String>,
    opt_core_file: Option<String>,
    opt_proc_id: Option<u32>,
    opt_command: Option<String>,
    opt_source_dir: Option<String>,
    opt_args: Vec<String>,
    opt_program: Option<String>,
    opt_tty: Option<String>,
    rr_args: Option<(String, Vec<String>)>,
}

/// The mathematical form of a [`GDBBuilder`].
pub struct GDBBuilderView {
    pub gdb_path: Seq<char>,
    pub nh: bool,
    pub nx: bool,
    pub quiet: bool,
    pub cd: Option<Seq<char>>,
    pub bps: Option<u32>,
    pub symbol_file: Option<Seq<char>>,
    pub core_file: Option<Seq<char>>,
    pub proc_id: Option<u32>,
    pub command: Option<Seq<char>>,
    pub source_dir: Option<Seq<char>>,
    pub args: Seq<Seq<char>>,
    pub program: Option<Seq<char>>,
    pub tty: Option<Seq<char>>,
    pub rr: Option<(Seq<char>, Seq<Seq<char>>)>,
}

pub open spec fn opt_string_view(o: Option<String>) -> Option<Seq<char>> {
    match o {
        Some(s) => Some(s@),
        None => None,
    }
}

impl View for GDBBuilder {
    type V = GDBBuilderView;

    closed spec fn view(&self) -> GDBBuilderView {
        GDBBuilderView {
            gdb_path: self.gdb_path@,
            nh: self.opt_nh,
            nx: self.opt_nx,
            quiet: self.opt_quiet,
            cd: opt_string_view(self.opt_cd),
            bps: self.opt_bps,
            symbol_file: opt_string_view(self.opt_symbol_file),
            core_file: opt_string_view(self.opt_core_file),
            proc_id: self.opt_proc_id,
            command: opt_string_view(self.opt_command),
            source_dir: opt_string_view(self.opt_source_dir),
            args: strings_view(self.opt_args@),
            program: opt_string_view(self.opt_program),
            tty: opt_string_view(self.opt_tty),
            rr: match self.rr_args {
                Some((p, a)) => Some((p@, strings_view(a@))),
                None => None,
            },
        }
    }
}

/// The option `prefix` with `value` appended, if there is a value.
pub open spec fn opt_arg(prefix: Seq<char>, value: Option<Seq<char>>) -> Seq<Seq<char>> {
    match value {
        Some(v) => seq![prefix + v],
        None => Seq::empty(),
    }
}

/// The flags and the first options for gdb.
pub open spec fn flag_args(b: GDBBuilderView) -> Seq<Seq<char>> {
    (if b.nh {
        seq!["--nh"@]
    } else {
        Seq::empty()
    }) + (if b.nx {
        seq!["--nx"@]
    } else {
        Seq::empty()
    }) + (if b.quiet {
        seq!["--quiet"@]
    } else {
        Seq::empty()
    }) + opt_arg("--cd="@, b.cd) + (match b.bps {
        Some(bps) => seq!["-b"@, decimal(bps as nat)],
        None => Seq::empty(),
    })
}

/// The options for gdb that name files, a process or a terminal.
pub open spec fn file_args(b: GDBBuilderView) -> Seq<Seq<char>> {
    opt_arg("--symbols="@, b.symbol_file) + opt_arg("--core="@, b.core_file) + opt_arg(
        "--pid="@,
        match b.proc_id {
            Some(p) => Some(decimal(p as nat)),
            None => None,
        },
    ) + opt_arg("--command="@, b.command) + opt_arg("--directory="@, b.source_dir) + opt_arg(
        "--tty="@,
        b.tty,
    )
}

/// The program for gdb: `--args` with the program and its arguments if
/// there are arguments, or else the program alone.
pub open spec fn program_args(b: GDBBuilderView) -> Seq<Seq<char>> {
    if b.args.len() > 0 {
        seq!["--args"@, b.program->0] + b.args
    } else {
        match b.program {
            Some(p) => seq![p],
            None => Seq::empty(),
        }
    }
}

/// The arguments for gdb itself, in this order: flags and options, then the
/// program (see [`flag_args`], [`file_args`], [`program_args`]).
pub open spec fn gdb_args_spec(b: GDBBuilderView) -> Seq<Seq<char>> {
    flag_args(b) + file_args(b) + program_args(b)
}

/// Each argument preceded by `-o` (how `rr replay` passes arguments on to
/// gdb).
pub open spec fn rr_passed(args: Seq<Seq<char>>) -> Seq<Seq<char>>
    decreases args.len(),
{
    if args.len() == 0 {
        Seq::empty()
    } else {
        rr_passed(args.drop_last()) + seq!["-o"@, args.last()]
    }
}

/// The program to start and its arguments: gdb in machine-interface mode,
/// or `rr replay` (quiet) with gdb as its debugger, the gdb arguments
/// passed on and the arguments for rr at the end.
pub open spec fn command_line_spec(b: GDBBuilderView) -> (Seq<char>, Seq<Seq<char>>) {
    match b.rr {
        Some((rr_path, rr_args)) => (
            rr_path,
            seq!["replay"@, "--interpreter=mi"@, "-q"@, "-d"@, b.gdb_path] + rr_passed(
                gdb_args_spec(b),
            ) + rr_args,
        ),
        None => (b.gdb_path, seq!["--interpreter=mi"@] + gdb_args_spec(b)),
    }
}

fn push_arg(v: &mut Vec<String>, a: String)
    ensures
        strings_view(final(v)@) == strings_view(old(v)@).push(a@),
{
    v.push(a);
    assert(strings_view(v@) =~= strings_view(old(v)@).push(a@));
}

fn push_lit(v: &mut Vec<String>, a: &str)
    ensures
        strings_view(final(v)@) == strings_view(old(v)@).push(a@),
{
    push_arg(v, a.to_owned());
}

fn push_opt(v: &mut Vec<String>, prefix: &str, value: &Option<String>)
    ensures
        strings_view(final(v)@) == strings_view(old(v)@) + opt_arg(prefix@, opt_string_view(*value)),
{
    match value {
        Some(x) => {
            let mut a = prefix.to_owned();
            push_str(&mut a, x.as_str());
            push_arg(v, a);
        },
        None => {
            assert(strings_view(v@) + Seq::<Seq<char>>::empty() =~= strings_view(v@));
        },
    }
}

impl GDBBuilder {
    /// Starts `gdb` with no options.
    pub fn new(gdb: String) -> (r: Self)
        ensures
            r@ == (GDBBuilderView {
                gdb_path: gdb@,
                nh: false,
                nx: false,
                quiet: false,
                cd: None,
                bps: None,
                symbol_file: None,
                core_file: None,
                proc_id: None,
                command: None,
                source_dir: None,
                args: Seq::empty(),
                program: None,
                tty: None,
                rr: None,
            }),
    {
        let r = GDBBuilder {
            gdb_path: gdb,
            opt_nh: false,
            opt_nx: false,
            opt_quiet: false,
            opt_cd: None,
            opt_bps: None,
            opt_symbol_file: None,
            opt_core_file: None,
            opt_proc_id: None,
            opt_command: None,
            opt_source_dir: None,
            opt_args: Vec::new(),
            opt_program: None,
            opt_tty: None,
            rr_args: None,
        };
        assert(r@.args =~= Seq::<Seq<char>>::empty());
        r
    }

    /// Do not read `~/.gdbinit`.
    pub fn nh(self) -> (r: Self)
        ensures
            r@ == (GDBBuilderView { nh: true, ..self@ }),
    {
        GDBBuilder { opt_nh: true, ..self }
    }

    /// Do not read any `.gdbinit`.
    pub fn nx(self) -> (r: Self)
        ensures
            r@ == (GDBBuilderView { nx: true, ..self@ }),
    {
        GDBBuilder { opt_nx: true, ..self }
    }

    /// Run gdb inside `rr replay` from `rr_path`, with `args` for rr.
    pub fn rr_args(self, rr_path: String, args: Vec<String>) -> (r: Self)
        ensures
            r@ == (GDBBuilderView { rr: Some((rr_path@, strings_view(args@))), ..self@ }),
    {
        GDBBuilder { rr_args: Some((rr_path, args)), ..self }
    }

    /// No introductory messages.
    pub fn quiet(self) -> (r: Self)
        ensures
            r@ == (GDBBuilderView { quiet: true, ..self@ }),
    {
        GDBBuilder { opt_quiet: true, ..self }
    }

    pub fn working_dir(self, dir: String) -> (r: Self)
        ensures
            r@ == (GDBBuilderView { cd: Some(dir@), ..self@ }),
    {
        GDBBuilder { opt_cd: Some(dir), ..self }
    }

    pub fn bps(self, bps: u32) -> (r: Self)
        ensures
            r@ == (GDBBuilderView { bps: Some(bps), ..self@ }),
    {
        GDBBuilder { opt_bps: Some(bps), ..self }
    }

    pub fn symbol_file(self, file: String) -> (r: Self)
        ensures
            r@ == (GDBBuilderView { symbol_file: Some(file@), ..self@ }),
    {
        GDBBuilder { opt_symbol_file: Some(file), ..self }
    }

    pub fn core_file(self, file: String) -> (r: Self)
        ensures
            r@ == (GDBBuilderView { core_file: Some(file@), ..self@ }),
    {
        GDBBuilder { opt_core_file: Some(file), ..self }
    }

    pub fn proc_id(self, pid: u32) -> (r: Self)
        ensures
            r@ == (GDBBuilderView { proc_id: Some(pid), ..self@ }),
    {
        GDBBuilder { opt_proc_id: Some(pid), ..self }
    }

    pub fn command_file(self, command_file: String) -> (r: Self)
        ensures
            r@ == (GDBBuilderView { command: Some(command_file@), ..self@ }),
    {
        GDBBuilder { opt_command: Some(command_file), ..self }
    }

    pub fn source_dir(self, dir: String) -> (r: Self)
        ensures
            r@ == (GDBBuilderView { source_dir: Some(dir@), ..self@ }),
    {
        GDBBuilder { opt_source_dir: Some(dir), ..self }
    }

    /// Adds arguments for the program.
    pub fn args(self, args: &[String]) -> (r: Self)
        ensures
            r@ == (GDBBuilderView { args: self@.args + args@.map_values(|a: String| a@), ..self@ }),
    {
        let mut b = self;
        let ghost start = b@;
        let mut i: usize = 0;
        while i < args.len()
            invariant
                i <= args@.len(),
                b@.args == start.args + args@.take(i as int).map_values(|a: String| a@),
                b@ == (GDBBuilderView { args: b@.args, ..start }),
            decreases args@.len() - i,
        {
            let a = args[i].clone();
            let ghost before = b@;
            b.opt_args.push(a);
            proof {
                assert(b@.args =~= before.args.push(args@[i as int]@));
                assert(start.args + args@.take(i + 1).map_values(|a: String| a@) =~= start.args
                    + args@.take(i as int).map_values(|a: String| a@) + seq![args@[i as int]@]);
            }
            i += 1;
        }
        assert(args@.take(args@.len() as int) =~= args@);
        b
    }

    pub fn program(self, program: String) -> (r: Self)
        ensures
            r@ == (GDBBuilderView { program: Some(program@), ..self@ }),
    {
        GDBBuilder { opt_program: Some(program), ..self }
    }

    pub fn tty(self, tty: String) -> (r: Self)
        ensures
            r@ == (GDBBuilderView { tty: Some(tty@), ..self@ }),
    {
        GDBBuilder { opt_tty: Some(tty), ..self }
    }

    fn push_flag_args(&self, v: &mut Vec<String>)
        ensures
            strings_view(final(v)@) == strings_view(old(v)@) + flag_args(self@),
    {
        let ghost p0 = strings_view(v@);
        if self.opt_nh {
            push_lit(v, "--nh");
        }
        let ghost p1 = strings_view(v@);
        if self.opt_nx {
            push_lit(v, "--nx");
        }
        let ghost p2 = strings_view(v@);
        if self.opt_quiet {
            push_lit(v, "--quiet");
        }
        let ghost p3 = strings_view(v@);
        push_opt(v, "--cd=", &self.opt_cd);
        let ghost p4 = strings_view(v@);
        if let Some(bps) = self.opt_bps {
            push_lit(v, "-b");
            push_arg(v, decimal_string(bps as u128));
        }
        proof {
            assert(p1 =~= p0 + (if self@.nh { seq!["--nh"@] } else { Seq::empty() }));
            assert(p2 =~= p1 + (if self@.nx { seq!["--nx"@] } else { Seq::empty() }));
            assert(p3 =~= p2 + (if self@.quiet { seq!["--quiet"@] } else { Seq::empty() }));
            assert(strings_view(v@) =~= p4 + (match self@.bps {
                Some(bps) => seq!["-b"@, decimal(bps as nat)],
                None => Seq::empty(),
            }));
            assert(strings_view(v@) =~= p0 + flag_args(self@));
        }
    }

    fn push_file_args(&self, v: &mut Vec<String>)
        ensures
            strings_view(final(v)@) == strings_view(old(v)@) + file_args(self@),
    {
        let ghost p0 = strings_view(v@);
        push_opt(v, "--symbols=", &self.opt_symbol_file);
        push_opt(v, "--core=", &self.opt_core_file);
        let pid = match self.opt_proc_id {
            Some(p) => Some(decimal_string(p as u128)),
            None => None,
        };
        assert(opt_string_view(pid) == match self@.proc_id {
            Some(p) => Some(decimal(p as nat)),
            None => None::<Seq<char>>,
        });
        push_opt(v, "--pid=", &pid);
        push_opt(v, "--command=", &self.opt_command);
        push_opt(v, "--directory=", &self.opt_source_dir);
        push_opt(v, "--tty=", &self.opt_tty);
        proof {
            assert(strings_view(v@) =~= p0 + file_args(self@));
        }
    }

    fn push_program_args(&self, v: &mut Vec<String>)
        requires
            self@.args.len() > 0 ==> self@.program is Some,
        ensures
            strings_view(final(v)@) == strings_view(old(v)@) + program_args(self@),
    {
        let ghost p0 = strings_view(v@);
        if self.opt_args.len() > 0 {
            push_lit(v, "--args");
            match &self.opt_program {
                Some(p) => push_arg(v, p.clone()),
                None => {},
            }
            let mut i: usize = 0;
            let ghost p13 = strings_view(v@);
            while i < self.opt_args.len()
                invariant
                    i <= self.opt_args@.len(),
                    strings_view(v@) == p13 + strings_view(self.opt_args@).take(i as int),
                decreases self.opt_args@.len() - i,
            {
                push_arg(v, self.opt_args[i].clone());
                proof {
                    assert(p13 + strings_view(self.opt_args@).take(i + 1) =~= p13 + strings_view(
                        self.opt_args@,
                    ).take(i as int) + seq![self.opt_args@[i as int]@]);
                }
                i += 1;
            }
            assert(strings_view(self.opt_args@).take(self.opt_args@.len() as int) =~= strings_view(self.opt_args@));
            assert(strings_view(v@) =~= p0 + program_args(self@));
        } else {
            match &self.opt_program {
                Some(p) => push_arg(v, p.clone()),
                None => {},
            }
            assert(strings_view(v@) =~= p0 + program_args(self@));
        }
    }

    /// The arguments for gdb (see [`gdb_args_spec`]).
    pub fn gdb_args(&self) -> (r: Vec<String>)
        requires
            self@.args.len() > 0 ==> self@.program is Some,
        ensures
            strings_view(r@) == gdb_args_spec(self@),
    {
        let mut v: Vec<String> = Vec::new();
        assert(strings_view(v@) =~= Seq::<Seq<char>>::empty());
        self.push_flag_args(&mut v);
        self.push_file_args(&mut v);
        self.push_program_args(&mut v);
        assert(strings_view(v@) =~= gdb_args_spec(self@));
        v
    }

    /// The program to start and its arguments (see [`command_line_spec`]).
    pub fn command_line(&self) -> (r: (String, Vec<String>))
        requires
            self@.args.len() > 0 ==> self@.program is Some,
        ensures
            (r.0@, strings_view(r.1@)) == command_line_spec(self@),
    {
        let gdb_args = self.gdb_args();
        match &self.rr_args {
            Some((rr_path, rr_args)) => {
                let mut v: Vec<String> = Vec::new();
                assert(strings_view(v@) =~= Seq::<Seq<char>>::empty());
                push_lit(&mut v, "replay");
                push_lit(&mut v, "--interpreter=mi");
                push_lit(&mut v, "-q");
                push_lit(&mut v, "-d");
                push_arg(&mut v, self.gdb_path.clone());
                let ghost head = strings_view(v@);
                let mut i: usize = 0;
                while i < gdb_args.len()
                    invariant
                        i <= gdb_args@.len(),
                        strings_view(v@) == head + rr_passed(strings_view(gdb_args@).take(i as int)),
                    decreases gdb_args@.len() - i,
                {
                    push_lit(&mut v, "-o");
                    push_arg(&mut v, gdb_args[i].clone());
                    proof {
                        let g = strings_view(gdb_args@);
                        assert(g.take(i + 1).drop_last() =~= g.take(i as int));
                        assert(head + rr_passed(g.take(i + 1)) =~= head + rr_passed(g.take(i as int)) + seq!["-o"@, g[i as int]]);
                    }
                    i += 1;
                }
                assert(strings_view(gdb_args@).take(gdb_args@.len() as int) =~= strings_view(gdb_args@));
                let ghost mid = strings_view(v@);
                let mut j: usize = 0;
                while j < rr_args.len()
                    invariant
                        j <= rr_args@.len(),
                        strings_view(v@) == mid + strings_view(rr_args@).take(j as int),
                    decreases rr_args@.len() - j,
                {
                    push_arg(&mut v, rr_args[j].clone());
                    proof {
                        assert(mid + strings_view(rr_args@).take(j + 1) =~= mid + strings_view(rr_args@).take(j as int) + seq![rr_args@[j as int]@]);
                    }
                    j += 1;
                }
                assert(strings_view(rr_args@).take(rr_args@.len() as int) =~= strings_view(rr_args@));
                (rr_path.clone(), v)
            },
            None => {
                let mut v: Vec<String> = Vec::new();
                assert(strings_view(v@) =~= Seq::<Seq<char>>::empty());
                push_lit(&mut v, "--interpreter=mi");
                let ghost head = strings_view(v@);
                let mut i: usize = 0;
                while i < gdb_args.len()
                    invariant
                        i <= gdb_args@.len(),
                        strings_view(v@) == head + strings_view(gdb_args@).take(i as int),
                    decreases gdb_args@.len() - i,
                {
                    push_arg(&mut v, gdb_args[i].clone());
                    proof {
                        assert(head + strings_view(gdb_args@).take(i + 1) =~= head + strings_view(gdb_args@).take(i as int) + seq![gdb_args@[i as int]@]);
                    }
                    i += 1;
                }
                assert(strings_view(gdb_args@).take(gdb_args@.len() as int) =~= strings_view(gdb_args@));
                (self.gdb_path.clone(), v)
            },
        }
    }
}

} // verus!
