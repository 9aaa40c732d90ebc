use ugdb::code_window::{last_stop_line, GotoError};
use ugdb::input_mode::{vi_step, ViKey, ViMode, ViRoute};
use ugdb::pseudo_terminal::PseudoTerminal;
use ugdb::code_window::{block_step, penultimate_address, BlockStep};
use ugdb::input_mode::{container_for_key, InputMode, LoopState};
use ugdb::layout::TuiContainerType;
use ugdb::command_state::CommandAction;
use ugdb::console::{record_action, Console, RecordAction};
use ugdb::mi::output::{AsyncClass, AsyncKind, OutOfBandRecord, StreamKind, ThreadEvent};
use ugdb::breakpoints::{Address, BreakPointSet, BreakpointOperationError, SrcPosition};
use ugdb::code_window::{
    assembly_toggle_message, last_line_number_for, new_stack_level, source_toggle_message, toggle_at_address,
    toggle_at_line, AsmContentState, AssemblyDebugLocation, AssemblyDecorator, BreakpointToggle, CodeWindowState,
    ContentKind, DisplayMode, SourceDecorator, SrcContentState,
};
use ugdb::mi::commands::BreakPointNumber;
use ugdb::mi::output::BreakPointEvent;
use ugdb::mi::value::MiValue;
use ugdb::serial::{
    parse_data_bits, parse_flow_control, parse_parity_bit, parse_stop_bits, CharSize, FlowControl, Parity, StopBits,
};

fn s(t: &str) -> MiValue {
    MiValue::Str(t.to_owned())
}

fn bkpt(number: &str, enabled: &str, addr: &str, line: &str) -> MiValue {
    MiValue::Object(vec![
        ("number".to_owned(), s(number)),
        ("enabled".to_owned(), s(enabled)),
        ("addr".to_owned(), s(addr)),
        ("fullname".to_owned(), s("/src/a.c")),
        ("line".to_owned(), s(line)),
    ])
}

fn sample_set() -> BreakPointSet {
    let mut set = BreakPointSet::new();
    set.handle_breakpoint_event(
        BreakPointEvent::Created,
        &[(
            "bkpt".to_owned(),
            MiValue::Array(vec![bkpt("1", "y", "0x10", "5"), bkpt("2", "n", "0x20", "7"), bkpt("3", "y", "0x30", "9")]),
        )],
    );
    set
}

fn is_message(m: &DisplayMode, text: &str) -> bool {
    matches!(m, DisplayMode::Message(t) if t == text)
}

#[test]
fn display_mode_falls_back() {
    let mut w = CodeWindowState::new("welcome".to_owned());
    assert!(is_message(&w.available_display_mode(), "welcome"));
    w.preferred_mode = DisplayMode::SideBySide;
    assert!(is_message(&w.available_display_mode(), "Neither source nor assembly available!"));
    w.src_state = SrcContentState::Available;
    assert!(matches!(w.available_display_mode(), DisplayMode::Source));
    w.asm_state = AsmContentState::Available;
    assert!(matches!(w.available_display_mode(), DisplayMode::SideBySide));
    w.preferred_mode = DisplayMode::Assembly;
    w.asm_state = AsmContentState::Unavailable;
    assert!(matches!(w.available_display_mode(), DisplayMode::Source));
}

#[test]
fn toggling_modes() {
    let mut w = CodeWindowState::new("hi".to_owned());
    w.preferred_mode = DisplayMode::Source;
    w.src_state = SrcContentState::Available;
    let (prev, sync) = w.begin_toggle();
    assert!(matches!(prev, DisplayMode::Source));
    assert!(sync);
    assert!(matches!(w.preferred_mode, DisplayMode::SideBySide));
    // Only the source is available: the shown view stays the source, so the toggle is undone.
    assert!(!w.end_toggle(prev));
    assert!(matches!(w.preferred_mode, DisplayMode::Source));

    w.asm_state = AsmContentState::Available;
    let (prev, _) = w.begin_toggle();
    assert!(w.end_toggle(prev));
    assert!(matches!(w.preferred_mode, DisplayMode::SideBySide));
    let (prev, sync) = w.begin_toggle();
    assert!(!sync);
    assert!(w.end_toggle(prev));
    assert!(matches!(w.preferred_mode, DisplayMode::Assembly));
}

#[test]
fn loading_contents() {
    let mut w = CodeWindowState::new("hi".to_owned());
    w.preferred_mode = DisplayMode::Source;
    w.src_state = SrcContentState::NotYetLoaded("/src/a.c".to_owned());
    w.asm_state = AsmContentState::NotYetLoadedAddr(Address(16), Address(32));
    assert_eq!(w.primary_loads(), vec![ContentKind::Source]);
    w.loaded(ContentKind::Source, false);
    assert!(matches!(w.src_state, SrcContentState::Unavailable));
    assert_eq!(w.fallback_load(), Some(ContentKind::Assembly));
    w.loaded(ContentKind::Assembly, true);
    assert!(matches!(w.asm_state, AsmContentState::Available));
    w.preferred_mode = DisplayMode::SideBySide;
    assert_eq!(w.primary_loads(), vec![ContentKind::Source, ContentKind::Assembly]);
    assert_eq!(w.fallback_load(), None);
}

#[test]
fn stack_levels() {
    assert_eq!(new_stack_level(0, false, 5), 0);
    assert_eq!(new_stack_level(3, false, 5), 2);
    assert_eq!(new_stack_level(3, true, 5), 4);
    assert_eq!(new_stack_level(4, true, 5), 4);
    assert_eq!(new_stack_level(0, true, 0), 0);
}

#[test]
fn debug_locations_of_instructions() {
    let v = MiValue::Object(vec![("func-name".to_owned(), s("main")), ("offset".to_owned(), s("12"))]);
    assert_eq!(
        AssemblyDebugLocation::try_from_value(&v),
        Some(AssemblyDebugLocation { func_name: "main".to_owned(), offset: 12 })
    );
    let v = MiValue::Object(vec![("func-name".to_owned(), s("main")), ("offset".to_owned(), s("x"))]);
    assert_eq!(AssemblyDebugLocation::try_from_value(&v), None);
    assert_eq!(AssemblyDebugLocation::try_from_value(&s("main")), None);
}

#[test]
fn toggles_and_decorations() {
    let set = sample_set();
    match toggle_at_address(&set, Address(0x20)) {
        BreakpointToggle::Delete(v) => assert_eq!(v, vec![BreakPointNumber { major: 2, minor: None }]),
        BreakpointToggle::Insert => panic!("expected a deletion"),
    }
    assert!(matches!(toggle_at_address(&set, Address(0x24)), BreakpointToggle::Insert));
    match toggle_at_line(&set, "/src/a.c", 9) {
        BreakpointToggle::Delete(v) => assert_eq!(v, vec![BreakPointNumber { major: 3, minor: None }]),
        BreakpointToggle::Insert => panic!("expected a deletion"),
    }
    assert!(matches!(toggle_at_line(&set, "/src/b.c", 9), BreakpointToggle::Insert));

    let d = AssemblyDecorator::new(Address(0x10), Address(0x30), Some(Address(0x10)), &set);
    assert_eq!(d.breakpoint_addresses, vec![Address(0x10)]);
    assert_eq!(d.stop_position, Some(Address(0x10)));
    assert_eq!(d.label(Address(0x10), None, false, 10), " 0x000010▶");
    assert_eq!(d.label(Address(0x1c), Some(12), false, 8), "  <+12> ");
    assert_eq!(d.label(Address(0x1c), Some(12), true, 8), " 0x001c ");
    let d2 = AssemblyDecorator::new(Address(0x40), Address(0x50), Some(Address(0x10)), &set);
    assert_eq!(d2.stop_position, None);

    let sd = SourceDecorator::new("/src/a.c", Some(7), &set);
    let mut lines = sd.breakpoint_lines.clone();
    lines.sort();
    assert_eq!(lines, vec![5, 9]);
    assert_eq!(sd.label(5, 5), "   5●");
    assert_eq!(sd.label(7, 4), "  7▶");
    assert_eq!(sd.label(8, 2), " 8 ");

    assert_eq!(
        assembly_toggle_message(true, &BreakpointOperationError::ExecutionError("no".to_owned())),
        "Cannot insert breakpoint: no"
    );
    assert_eq!(assembly_toggle_message(false, &BreakpointOperationError::Busy), "Cannot remove breakpoint: Gdb is busy.");
    assert_eq!(source_toggle_message(true), "Cannot insert breakpoint: Gdb is busy.");
    let stop = Some(SrcPosition { file: "/src/a.c".to_owned(), line: 3 });
    assert_eq!(last_line_number_for(&stop, "/src/a.c"), Some(3));
    assert_eq!(last_line_number_for(&stop, "/src/b.c"), None);
}

#[test]
fn serial_settings_are_read() {
    assert_eq!(parse_data_bits("7"), Ok(CharSize::Bits7));
    assert_eq!(parse_data_bits("9"), Err("Valid values for data bits are: 5, 6, 7, and 8.".to_owned()));
    assert_eq!(parse_parity_bit("odd"), Ok(Parity::ParityOdd));
    assert!(parse_parity_bit("ODD").is_err());
    assert_eq!(parse_stop_bits("2"), Ok(StopBits::Stop2));
    assert_eq!(parse_stop_bits("3"), Err("Valid values for stop bits are: 1 and 2.".to_owned()));
    assert_eq!(parse_flow_control("hardware"), Ok(FlowControl::FlowHardware));
    assert!(parse_flow_control("rts").is_err());
}

#[test]
fn console_submits_lines_and_follows_gdb() {
    let mut c = Console::new();
    assert_eq!(c.prompt_line().prompt(), "(gdb) ");
    for ch in "p x".chars() {
        c.type_char(ch);
    }
    match c.handle_newline() {
        CommandAction::ExecuteConsole(l) => assert_eq!(l, "p x"),
        _ => panic!("expected a console command"),
    }
    assert_eq!(c.prompt_line().line().get(), "");
    // An empty line repeats the latest one.
    match c.handle_newline() {
        CommandAction::ExecuteConsole(l) => assert_eq!(l, "p x"),
        _ => panic!("expected a console command"),
    }
    assert_eq!(c.prompt_line().previous_line(1), Some("p x"));
    assert_eq!(c.prompt_line().previous_line(2), None);
    c.update_after_event(true);
    assert_eq!(c.prompt_line().prompt(), "(↻↻↻) ");
    c.update_after_event(false);
    assert_eq!(c.prompt_line().prompt(), "(gdb) ");
    c.write_to_gdb_log("hello\n");
}

#[test]
fn out_of_band_records_are_routed() {
    match record_action(OutOfBandRecord::StreamRecord { kind: StreamKind::Console, data: "hi".to_owned() }) {
        RecordAction::Log(t) => assert_eq!(t, "hi"),
        _ => panic!("expected a log"),
    }
    let frame = vec![("func".to_owned(), s("main"))];
    match record_action(OutOfBandRecord::AsyncRecord {
        token: None,
        kind: AsyncKind::Exec,
        class: AsyncClass::Stopped,
        results: vec![("frame".to_owned(), MiValue::Object(frame))],
    }) {
        RecordAction::ShowFrame(Some(f)) => assert_eq!(f.len(), 1),
        _ => panic!("expected a frame"),
    }
    match record_action(OutOfBandRecord::AsyncRecord {
        token: None,
        kind: AsyncKind::Notify,
        class: AsyncClass::Thread(ThreadEvent::Selected),
        results: vec![],
    }) {
        RecordAction::ShowFrame(None) => {}
        _ => panic!("expected no frame"),
    }
    match record_action(OutOfBandRecord::AsyncRecord {
        token: None,
        kind: AsyncKind::Notify,
        class: AsyncClass::BreakPoint(BreakPointEvent::Deleted),
        results: vec![("id".to_owned(), s("2"))],
    }) {
        RecordAction::Breakpoint(BreakPointEvent::Deleted, r) => assert_eq!(r.len(), 1),
        _ => panic!("expected a breakpoint event"),
    }
    assert!(matches!(
        record_action(OutOfBandRecord::AsyncRecord {
            token: None,
            kind: AsyncKind::Exec,
            class: AsyncClass::LibraryLoaded,
            results: vec![],
        }),
        RecordAction::Unhandled
    ));
}

#[test]
fn main_loop_modes_and_cursor() {
    use_loop_state();
}

fn use_loop_state() {
    let mut st = LoopState::new();
    assert!(st.on_escape());
    assert_eq!(st.input_mode, InputMode::ContainerSelect);
    assert_eq!(st.on_select_key('x'), None);
    assert_eq!(st.input_mode, InputMode::ContainerSelect);
    assert_eq!(st.on_select_key('T'), Some(TuiContainerType::Terminal));
    assert_eq!(st.input_mode, InputMode::Focused);
    assert!(!st.on_escape());
    assert!(st.on_focused_escape(false));
    assert_eq!(st.input_mode, InputMode::Focused);
    assert!(!st.on_focused_escape(true));
    assert_eq!(st.input_mode, InputMode::ContainerSelect);
    assert_eq!(st.on_select_key('\n'), None);
    assert_eq!(st.input_mode, InputMode::Normal);
    assert_eq!(container_for_key('e'), Some((InputMode::Normal, TuiContainerType::ExpressionTable)));

    for _ in 0..20 {
        assert!(st.cursor_blinks());
        st.on_cursor_timer();
    }
    assert!(!st.cursor_blinks());
    assert!(st.cursor_on);
    st.on_cursor_timer();
    assert!(!st.cursor_on);
    st.on_render_timer();
    assert!(st.cursor_on && st.cursor_blinks());
}

#[test]
fn frames_set_the_contents() {
    use_frames();
}

fn use_frames() {
    let frame = vec![
        ("addr".to_owned(), s("0x4005d6")),
        ("func".to_owned(), s("main")),
        ("fullname".to_owned(), s("/src/a.c")),
        ("line".to_owned(), s("12")),
    ];
    let loc = ugdb::code_window::frame_location(&frame);
    assert_eq!(loc.file, Some("/src/a.c".to_owned()));
    assert_eq!(loc.line, Some(12));
    assert_eq!(loc.address, Some(Address(0x4005d6)));
    let bare = ugdb::code_window::frame_location(&[("addr".to_owned(), s("x"))]);
    assert_eq!((bare.file, bare.line, bare.address), (None, None, None));

    let mut w = CodeWindowState::new("hi".to_owned());
    w.begin_frame();
    assert!(matches!(w.preferred_mode, DisplayMode::Source));
    w.frame_in_file("/src/a.c".to_owned(), Some("/src/b.c"));
    assert!(matches!(&w.src_state, SrcContentState::NotYetLoaded(p) if p == "/src/a.c"));
    w.frame_in_file("/src/a.c".to_owned(), Some("/src/a.c"));
    assert!(matches!(w.src_state, SrcContentState::Available));
    w.frame_at_address(false, Some((Address(1), Address(9))));
    assert!(matches!(w.asm_state, AsmContentState::NotYetLoadedAddr(Address(1), Address(9))));
    w.frame_at_line("/src/a.c".to_owned(), 12, false);
    assert!(matches!(&w.asm_state, AsmContentState::NotYetLoadedFile(p, 12) if p == "/src/a.c"));
    w.frame_at_address(true, None);
    assert!(matches!(w.asm_state, AsmContentState::NotYetLoadedFile(_, 12)));
}

fn insn(func: Option<&str>, addr: &str) -> MiValue {
    let mut v = vec![("address".to_owned(), s(addr))];
    if let Some(f) = func {
        v.push(("func-name".to_owned(), s(f)));
    }
    MiValue::Object(v)
}

#[test]
fn function_ranges_from_blocks() {
    let block = vec![insn(Some("main"), "0x10"), insn(Some("main"), "0x14"), insn(Some("main"), "0x18")];
    assert!(matches!(block_step(&block, "main"), BlockStep::Continue(Address(0x14))));
    let block = vec![insn(Some("main"), "0x10"), insn(Some("f"), "0x14"), insn(Some("f"), "0x18")];
    assert!(matches!(block_step(&block, "main"), BlockStep::Done(Address(0x14))));
    let block = vec![insn(Some("main"), "0x10"), insn(None, "0x14"), insn(Some("main"), "0x18")];
    assert!(matches!(block_step(&block, "main"), BlockStep::Done(Address(0x14))));
    assert!(matches!(block_step(&block[..1], "main"), BlockStep::Fail));
    assert_eq!(penultimate_address(&block), Some(Address(0x14)));
    assert_eq!(penultimate_address(&block[..1]), None);
}

#[test]
fn vi_keyboard_and_terminal_bytes() {
    assert_eq!(vi_step(ViMode::Console, ViKey::Esc, false), (false, ViMode::SourcePager, None));
    assert_eq!(vi_step(ViMode::Console, ViKey::F1, false), (false, ViMode::Console, Some(ViRoute::ToggleLog)));
    assert_eq!(vi_step(ViMode::Console, ViKey::CtrlQ, false), (true, ViMode::Console, Some(ViRoute::Console)));
    assert_eq!(vi_step(ViMode::SourcePager, ViKey::Char('t'), false), (false, ViMode::PTY, None));
    assert_eq!(vi_step(ViMode::SourcePager, ViKey::Char('x'), false), (false, ViMode::SourcePager, Some(ViRoute::SourcePager)));
    assert_eq!(vi_step(ViMode::PTY, ViKey::Esc, false), (false, ViMode::PTY, Some(ViRoute::PseudoTerminal)));
    assert_eq!(vi_step(ViMode::PTY, ViKey::Esc, true), (false, ViMode::SourcePager, None));
    assert_eq!(vi_step(ViMode::ExpressionTable, ViKey::Esc, true), (false, ViMode::SourcePager, None));

    let mut t = PseudoTerminal::new();
    t.add_byte_input(&[0xe2, 0x96]);
    assert_eq!(t.pending(), &[0xe2, 0x96]);
    t.add_byte_input(&[0xb6, b'\n']);
    assert_eq!(t.pending(), &[] as &[u8]);
}

#[test]
fn assembly_lines_sort_stably_by_address() {
    use_sort();
}

fn use_sort() {
    let l = |c: &str, a: usize| ugdb::code_window::AssemblyLine::new(c.to_owned(), Address(a), None, None);
    let sorted = ugdb::code_window::sort_by_address(vec![l("c", 0x30), l("a1", 0x10), l("b", 0x20), l("a2", 0x10)]);
    let contents: Vec<&str> = sorted.iter().map(|x| x.content.as_str()).collect();
    assert_eq!(contents, vec!["a1", "a2", "b", "c"]);
    assert!(ugdb::code_window::sort_by_address(Vec::new()).is_empty());
}

#[test]
fn assembly_and_source_positions() {
    use_positions();
}

fn use_positions() {
    let pos = |l: usize| Some(SrcPosition { file: "/src/a.c".to_owned(), line: l });
    let lines = vec![
        ugdb::code_window::AssemblyLine::new("push".to_owned(), Address(0x10), pos(3), None),
        ugdb::code_window::AssemblyLine::new("mov".to_owned(), Address(0x11), pos(4), None),
        ugdb::code_window::AssemblyLine::new("ret".to_owned(), Address(0x14), pos(4), None),
    ];
    assert_eq!(ugdb::code_window::first_line_for_source(&lines, "/src/a.c", 4), Some(1));
    assert_eq!(ugdb::code_window::first_line_for_source(&lines, "/src/b.c", 4), None);
    assert_eq!(ugdb::code_window::first_line_at_address(&lines, Address(0x14)), Some(2));
    assert_eq!(ugdb::code_window::first_line_at_address(&lines, Address(0x12)), None);
    assert_eq!(ugdb::code_window::shown_address_range(&lines), Some((Address(0x10), Address(0x15))));
    assert_eq!(ugdb::code_window::shown_address_range(&[]), None);

    let stop = pos(7);
    assert_eq!(last_stop_line(Some("/src/a.c"), &stop), Ok(7));
    assert_eq!(last_stop_line(Some("/src/b.c"), &stop), Err(GotoError::MismatchedPagerContent));
    assert_eq!(last_stop_line(Some("/src/a.c"), &None), Err(GotoError::NoLastStopPosition));
    assert_eq!(last_stop_line(None, &stop), Err(GotoError::NoContent));

    assert_eq!(ugdb::code_window::stack_info_prefix(Some(0), Some(3), Some("main")), "[0/3] main @ ");
    assert_eq!(ugdb::code_window::stack_info_prefix(None, None, None), "[?/?] ? @ ");
}
