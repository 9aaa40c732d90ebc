use ugdb::breakpoints::{Address, BreakPoint, BreakPointSet};
use ugdb::mi::builder::GDBBuilder;
use ugdb::mi::commands::{
    escape_command, BreakPointLocation, BreakPointNumber, DisassembleMode, MiCommand, WatchMode,
};
use ugdb::mi::output::{
    dispatch_output, line_token_fits, AsyncClass, BreakPointEvent, Dispatch, Fail, OutOfBandRecord,
    Output, ResultClass, StreamKind,
};
use ugdb::mi::value::MiValue;
use ugdb::numbers::{parse_usize, IntErrorKind};
use ugdb::options::Options;

fn line(c: &MiCommand, token: u64) -> String {
    c.interpreter_string(token)
}

#[test]
fn mi_command_lines() {
    assert_eq!(line(&MiCommand::exit(), 3), "3-gdb-exit\n");
    assert_eq!(
        line(&MiCommand::cli_exec("print \"a\"\n"), 7),
        "7-interpreter-exec console \"print \\\"a\\\"\\\n\"\n"
    );
    assert_eq!(
        line(&MiCommand::data_disassemble_file("f.c", 10, None, DisassembleMode::MixedSourceAndDisassembly), 1),
        "1-data-disassemble -f f.c -l 10 -n -1 -- 1\n"
    );
    assert_eq!(
        line(&MiCommand::data_disassemble_address(16, 32, DisassembleMode::DisassemblyWithRawOpcodes), 2),
        "2-data-disassemble -s 16 -e 32 -- 2\n"
    );
    assert_eq!(line(&MiCommand::insert_breakpoint(BreakPointLocation::Address(255)), 4), "4-break-insert *0xff\n");
    assert_eq!(line(&MiCommand::insert_breakpoint(BreakPointLocation::Line("a.c", 12)), 5), "5-break-insert a.c:12\n");
    assert_eq!(line(&MiCommand::insert_breakpoint(BreakPointLocation::Function("a.c", "main")), 6), "6-break-insert a.c:main\n");
    assert_eq!(line(&MiCommand::insert_watchpoing("x", WatchMode::Access), 8), "8-break-watch -a -- x\n");
    assert_eq!(line(&MiCommand::insert_watchpoing("x", WatchMode::Write), 8), "8-break-watch x\n");
    assert_eq!(
        line(&MiCommand::stack_list_variables(Some(1), Some(2)), 9),
        "9-stack-list-variables --thread 1 --frame 2 --simple-values\n"
    );
    assert_eq!(line(&MiCommand::var_create(None, "a+b", None), 10), "10-var-create \"-\" \"*\" \"a+b\"\n");
    assert_eq!(line(&MiCommand::var_delete("v1".to_owned(), true), 11), "11-var-delete -c v1\n");
    assert_eq!(
        line(&MiCommand::var_list_children("v1".to_owned(), false, Some(0..5)), 12),
        "12-var-list-children --no-values v1 0 5\n"
    );
    assert_eq!(line(&MiCommand::list_thread_groups(true, &[1, 2]), 13), "13-list-thread-groups --available -- 1 2\n");
    assert_eq!(line(&MiCommand::data_evaluate_expression("x".to_owned()), 14), "14-data-evaluate-expression \"x\"\n");
    assert_eq!(line(&MiCommand::thread_info(None), 15), "15-thread-info\n");
    assert_eq!(line(&MiCommand::select_frame(3), 16), "16-stack-select-frame 3\n");
    assert_eq!(line(&MiCommand::file_symbol_file(Some("a.out")), 17), "17-file-symbol-file a.out\n");
}

#[test]
fn delete_breakpoints_sorts_and_dedups_as_text() {
    let nums = [
        BreakPointNumber { major: 10, minor: None },
        BreakPointNumber { major: 2, minor: Some(1) },
        BreakPointNumber { major: 2, minor: Some(2) },
        BreakPointNumber { major: 1, minor: None },
    ];
    assert_eq!(line(&MiCommand::delete_breakpoints(&nums), 1), "1-break-delete 1  10  2 \n");
}

#[test]
fn escape_command_quotes() {
    assert_eq!(escape_command("a\\b\"c\rd\ne"), "\"a\\\\b\\\"c\\\rd\\\ne\"");
}

#[test]
fn breakpoint_numbers_parse() {
    assert_eq!(BreakPointNumber::from_str("12"), Ok(BreakPointNumber { major: 12, minor: None }));
    assert_eq!(BreakPointNumber::from_str("3.4"), Ok(BreakPointNumber { major: 3, minor: Some(4) }));
    assert_eq!(BreakPointNumber::from_str(""), Err("cannot parse integer from empty string".to_owned()));
    assert_eq!(BreakPointNumber::from_str("3.x"), Err("invalid digit found in string".to_owned()));
    assert_eq!(
        BreakPointNumber::from_str("999999999999999999999999"),
        Err("number too large to fit in target type".to_owned())
    );
    assert_eq!(BreakPointNumber { major: 3, minor: Some(4) }.to_text(), "3.4");
    assert_eq!(parse_usize("+12", 10), Ok(12));
    assert_eq!(parse_usize("-1", 10), Err(IntErrorKind::InvalidDigit));
    assert_eq!(parse_usize("+", 10), Err(IntErrorKind::InvalidDigit));
    assert_eq!(parse_usize("fF", 16), Ok(255));
}

#[test]
fn address_parse() {
    assert_eq!(Address::parse("0x4005d6"), Ok(Address(0x4005d6)));
    assert_eq!(Address::parse("0xzz"), Err((IntErrorKind::InvalidDigit, "0xzz".to_owned())));
}

fn s(x: &str) -> MiValue {
    MiValue::Str(x.to_owned())
}

fn bkpt(number: &str, enabled: &str, addr: &str) -> Vec<(String, MiValue)> {
    vec![
        ("number".to_owned(), s(number)),
        ("enabled".to_owned(), s(enabled)),
        ("addr".to_owned(), s(addr)),
        ("fullname".to_owned(), s("/src/a.c")),
        ("line".to_owned(), s("17")),
    ]
}

#[test]
fn breakpoint_set_follows_notifications() {
    let bp = BreakPoint::from_json(&bkpt("1", "y", "0x10"));
    assert_eq!(bp.number, BreakPointNumber { major: 1, minor: None });
    assert!(bp.enabled);
    assert_eq!(bp.address, Some(Address(16)));
    assert_eq!(bp.src_pos.as_ref().map(|p| (p.file.clone(), p.line)), Some(("/src/a.c".to_owned(), 17)));

    let mut set = BreakPointSet::new();
    set.handle_breakpoint_event(
        BreakPointEvent::Created,
        &[("bkpt".to_owned(), MiValue::Object(bkpt("1", "y", "0x10")))],
    );
    set.handle_breakpoint_event(
        BreakPointEvent::Modified,
        &[(
            "bkpt".to_owned(),
            MiValue::Array(vec![
                MiValue::Object(bkpt("2.1", "n", "<MULTIPLE>")),
                MiValue::Object(bkpt("2.2", "y", "0x20")),
            ]),
        )],
    );
    assert_eq!(set.numbers().len(), 3);
    assert!(!set.get(BreakPointNumber { major: 2, minor: Some(1) }).unwrap().enabled);
    assert_eq!(set.get(BreakPointNumber { major: 2, minor: Some(1) }).unwrap().address, None);
    set.handle_breakpoint_event(BreakPointEvent::Deleted, &[("id".to_owned(), s("1"))]);
    assert!(set.get(BreakPointNumber { major: 1, minor: None }).is_none());
    set.forget_deleted(&[BreakPointNumber { major: 2, minor: None }]);
    assert_eq!(set.numbers().len(), 0);
    assert_eq!(set.changes(), 6);
}

#[test]
fn output_lines_are_parsed_and_dispatched() {
    match Output::parse("12^running\n").unwrap() {
        Output::Result(r) => {
            assert_eq!(r.token, Some(12));
            assert_eq!(r.class, ResultClass::Running);
        }
        _ => panic!("expected a result record"),
    }
    let (running, d) = dispatch_output(Output::parse("*stopped,reason=\"exited\"\n").unwrap());
    assert_eq!(running, Some(false));
    match d {
        Dispatch::ToOutOfBand(OutOfBandRecord::AsyncRecord { class: AsyncClass::Stopped, results, .. }) => {
            assert_eq!(results.len(), 1);
        }
        _ => panic!("expected a stopped record"),
    }
    assert!(matches!(Output::parse("hello\n"), Err(Fail::Error)));
    let (running, d) = dispatch_output(Output::parse("\n").unwrap());
    assert_eq!(running, None);
    match d {
        Dispatch::ToOutOfBand(OutOfBandRecord::StreamRecord { kind: StreamKind::Target, data }) => {
            assert_eq!(data, "\n");
        }
        _ => panic!("expected target output"),
    }
    assert!(matches!(Output::parse("(gdb) \n").unwrap(), Output::GDBLine));
    assert!(line_token_fits("18446744073709551615^done\n"));
    assert!(!line_token_fits("18446744073709551616^done\n"));
}

#[test]
fn gdb_command_line() {
    let b = GDBBuilder::new("gdb".to_owned()).nx().quiet().bps(9600).proc_id(42).program("a.out".to_owned());
    let (prog, args) = b.command_line();
    assert_eq!(prog, "gdb");
    assert_eq!(args, vec!["--interpreter=mi", "--nx", "--quiet", "-b", "9600", "--pid=42", "a.out"]);
    let b = GDBBuilder::new("gdb".to_owned())
        .args(&["x".to_owned()])
        .program("p".to_owned())
        .rr_args("rr".to_owned(), vec!["trace".to_owned()]);
    let (prog, args) = b.command_line();
    assert_eq!(prog, "rr");
    assert_eq!(
        args,
        vec!["replay", "--interpreter=mi", "-q", "-d", "gdb", "-o", "--args", "-o", "p", "-o", "x", "trace"]
    );
}

fn options(rr: bool, program: Vec<String>) -> Options {
    Options {
        gdb_path: "gdb".to_owned(),
        nh: true,
        nx: false,
        quiet: false,
        rr,
        rr_path: "rr".to_owned(),
        cd: Some("/tmp".to_owned()),
        bps: None,
        symbol_file: None,
        core_file: Some("core".to_owned()),
        proc_id: None,
        command_file: None,
        source_dir: None,
        log_dir: "/tmp".to_owned(),
        initial_expression_table_entries: vec![],
        layout: "c".to_owned(),
        program,
    }
}

#[test]
fn options_make_the_gdb_command_line() {
    let (prog, args) =
        options(false, vec!["prog".to_owned(), "arg".to_owned()]).create_gdb_builder().command_line();
    assert_eq!(prog, "gdb");
    assert_eq!(args, vec!["--interpreter=mi", "--nh", "--cd=/tmp", "--core=core", "--args", "prog", "arg"]);
    let (prog, args) = options(true, vec!["1".to_owned()]).create_gdb_builder().command_line();
    assert_eq!(prog, "rr");
    assert_eq!(
        args,
        vec!["replay", "--interpreter=mi", "-q", "-d", "gdb", "-o", "--nh", "-o", "--cd=/tmp", "-o", "--core=core", "1"]
    );
}

#[test]
fn breakpoint_command_results() {
    let mut set = BreakPointSet::new();
    let created = [("bkpt".to_owned(), MiValue::Object(bkpt("3", "y", "0x30")))];
    assert_eq!(set.insert_result(ResultClass::Done, &created), Ok(()));
    assert!(set.get(BreakPointNumber { major: 3, minor: None }).is_some());

    let failed = [("msg".to_owned(), s("No symbol table is loaded."))];
    assert_eq!(
        set.insert_result(ResultClass::Error, &failed),
        Err(Some("No symbol table is loaded.".to_owned()))
    );
    assert_eq!(set.insert_result(ResultClass::Error, &[]), Err(None));
    assert_eq!(set.numbers().len(), 1);

    assert_eq!(
        set.delete_result(ResultClass::Error, &failed, &[BreakPointNumber { major: 3, minor: None }]),
        Err(Some("No symbol table is loaded.".to_owned()))
    );
    assert_eq!(set.numbers().len(), 1);
    assert_eq!(
        set.delete_result(ResultClass::Done, &[], &[BreakPointNumber { major: 3, minor: Some(1) }]),
        Ok(())
    );
    assert_eq!(set.numbers().len(), 0);
}

#[test]
fn breakpoint_numbers_read_back_their_text() {
    for n in [
        BreakPointNumber { major: 0, minor: None },
        BreakPointNumber { major: 12, minor: Some(3) },
        BreakPointNumber { major: usize::MAX, minor: Some(usize::MAX) },
    ] {
        assert_eq!(BreakPointNumber::from_str(&n.to_text()), Ok(n));
    }
}

#[test]
fn test_output() {
    assert!(Output::parse("=library-loaded,ranges=[{}]\n").is_ok());
}

#[test]
fn breakpoint_numbers_parse_as_std_from_str() {
    assert_eq!("1.2".parse::<BreakPointNumber>(), Ok(BreakPointNumber { major: 1, minor: Some(2) }));
    assert_eq!("3".parse::<BreakPointNumber>(), Ok(BreakPointNumber { major: 3, minor: None }));
    assert!("1.".parse::<BreakPointNumber>().is_err());
    assert!("x".parse::<BreakPointNumber>().is_err());
}
