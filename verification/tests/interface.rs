use ugdb::command_state::{execute_error_message, Command, CommandAction, CommandState};
use ugdb::gdb_expression_parsing::format::{format_int, format_leaf, next_format, Format, Value};
use ugdb::gdb_expression_parsing::parse_gdb_value;
use ugdb::logging::{LogMsgType, Logger, MessageSink};
use ugdb::mi::commands::MiCommand;
use ugdb::mi::ExecuteError;
use ugdb::unsegen::textattribute::{Color, Style, TextAttribute};
use ugdb::unsegen::widget::Demand;
use ugdb::unsegen::pager::{next_line_range, FileViewer, HighLighter, LineStorage, NoHighLighter, Pager};
use ugdb::unsegen::widget::Widget;
use ugdb::unsegen::widgets::{LineEdit, LineLabel, LogViewer, PromptLine, TextArea};

#[test]
fn styles_and_attributes_layer() {
    let s = Style::new().bold().underline();
    assert!(s.bold && s.underline && !s.italic && !s.invert);
    let t = Style::new().italic().or(&Style::new().invert());
    assert!(t.italic && t.invert && !t.bold);
    let a = TextAttribute::new(Some(Color::green()), None, Some(s));
    let b = TextAttribute::new(Some(Color::blue()), Some(Color::new(1, 2, 3)), None);
    let c = a.or(&b);
    assert_eq!(c.fg_color, Some(Color::new(0, 255, 0)));
    assert_eq!(c.bg_color, Some(Color::new(1, 2, 3)));
    assert_eq!(c.style, s);
    assert_eq!(TextAttribute::plain().or(&a), a);
    assert_eq!(a.or(&TextAttribute::plain()), a);
}

#[test]
fn demands_combine() {
    let d = Demand::from_to(1, 5).max(Demand::exact(3));
    assert_eq!(d, Demand { min: 3, max: Some(5) });
    assert_eq!(Demand::at_least(2).max(Demand::exact(7)), Demand { min: 7, max: None });
    assert_eq!(Demand::exact(1).checked_add(Demand::exact(2)), Some(Demand { min: 3, max: Some(3) }));
    assert_eq!(Demand::exact(u32::MAX).checked_add(Demand::exact(1)), None);
}

#[test]
fn logger_and_sink_drain_in_order() {
    let mut l = Logger::new();
    l.log_message("a".to_owned());
    l.log_debug("b".to_owned());
    let m = l.drain_messages();
    assert_eq!(m.len(), 2);
    assert!(matches!(m[0].0, LogMsgType::Message));
    assert_eq!(m[1].1, "b");
    assert!(l.drain_messages().is_empty());
    let mut s = MessageSink::new();
    s.send("x".to_owned());
    s.send("y".to_owned());
    assert_eq!(s.drain_messages(), vec!["x".to_owned(), "y".to_owned()]);
    assert!(s.drain_messages().is_empty());
}

#[test]
fn line_edit_by_clusters() {
    let mut e = LineEdit::new();
    e.insert("a");
    e.insert("c");
    e.move_cursor_left();
    e.insert("b");
    assert_eq!(e.get(), "abc");
    e.remove_symbol();
    assert_eq!(e.get(), "ac");
    e.move_cursor_left();
    e.delete_symbol();
    assert_eq!(e.get(), "c");
    e.insert("e\u{301}");
    assert_eq!(e.get(), "e\u{301}c");
    e.move_cursor_right();
    e.move_cursor_right();
    e.remove_symbol();
    assert_eq!(e.get(), "e\u{301}");
    e.clear();
    assert_eq!(e.get(), "");
}

#[test]
fn prompt_line_history() {
    let mut p = PromptLine::with_prompt("> ".to_owned());
    p.write('l');
    p.write('s');
    assert_eq!(p.finish_line(), "ls");
    assert_eq!(p.line().get(), "");
    p.scroll_backwards();
    p.scroll_forwards();
}

#[test]
fn text_area_writes_lines() {
    let mut t = TextArea::new();
    t.write_str("ab\ncd");
    t.write_str("e\n");
    t.active_line_mut().push_str("f");
    let mut u = TextArea::new();
    u.write_str("ab\ncde\nf");
    assert_eq!(t.active_line_mut().as_str(), "f");
    assert_eq!(u.active_line_mut().as_str(), "f");
}

#[test]
fn formats_cycle_and_format_leaves() {
    let mut f = None;
    for _ in 0..5 {
        f = next_format(f);
    }
    assert_eq!(f, None);
    assert_eq!(format_int(255, Format::Hex), "0xff");
    assert_eq!(format_int(-1, Format::Hex), "0xffffffffffffffffffffffffffffffff");
    assert_eq!(format_int(-10, Format::Decimal), "-10");
    assert_eq!(format_int(8, Format::Octal), "0o10");
    assert_eq!(format_int(5, Format::Binary), "0b101");
    assert_eq!(format_leaf("0x10", Some(Format::Decimal)), "16");
    assert_eq!(format_leaf("abc", Some(Format::Hex)), "abc");
    assert_eq!(format_leaf("17", None), "17");
    let n = parse_gdb_value("42").unwrap();
    let v = Value { node: &n, format: Some(Format::Hex) };
    assert_eq!(v.leaf_text(), Some("0x2a".to_owned()));
}

fn log_of(a: &CommandAction) -> Option<String> {
    match a {
        CommandAction::Log(m) => Some(m.clone()),
        _ => None,
    }
}

#[test]
fn console_commands_and_confirmation() {
    let mut s = CommandState::Idle;
    assert!(matches!(s.handle_input_line("!stop"), CommandAction::Interrupt));
    match s.handle_input_line("!layout (s|c)") {
        CommandAction::ChangeLayout(l) => assert_eq!(l, "(s|c)"),
        _ => panic!("expected a layout change"),
    }
    assert!(matches!(s.handle_input_line("!reload"), CommandAction::ReloadTarget));
    match s.handle_input_line("break main") {
        CommandAction::ExecuteConsole(l) => assert_eq!(l, "break main"),
        _ => panic!("expected a console command"),
    }
    let (c, q) = match s.handle_input_line("q") {
        CommandAction::CheckSession(c, q) => (c, q),
        _ => panic!("expected a session check"),
    };
    assert_eq!(q, "Quit anyway?");
    assert_eq!(c.command.interpreter_string(1), "1-gdb-exit\n");
    let a = s.session_checked(c, q, Ok(true));
    assert_eq!(log_of(&a), Some("A debugging session is active. Quit anyway? (y or n)".to_owned()));
    assert_eq!(log_of(&s.handle_input_line("maybe")), Some("Please type 'y' or 'n'.".to_owned()));
    assert!(matches!(s.handle_input_line("yes"), CommandAction::Execute(_)));
    assert!(matches!(s, CommandState::Idle));
    let a = s.target_found(Ok(None));
    assert_eq!(log_of(&a), Some("No target. Use the 'file' command to specify one.".to_owned()));
    assert_eq!(execute_error_message(ExecuteError::Busy), "GDB is running!");
    let c = Command { command: MiCommand::exit(), success_message: None };
    assert!(matches!(s.session_checked(c, "?".to_owned(), Ok(false)), CommandAction::Execute(_)));
}

struct Lines(Vec<String>);

impl LineStorage for Lines {
    fn view(&mut self, range: std::ops::Range<usize>) -> Vec<String> {
        range.filter_map(|i| self.0.get(i).cloned()).collect()
    }
}

#[test]
fn pager_moves_within_its_lines() {
    let mut p: Pager<Lines, NoHighLighter> = Pager::new();
    p.scroll_forwards();
    assert_eq!(p.active_line(), 0);
    p.load(Lines(vec!["a".to_owned(), "b".to_owned(), "c".to_owned()]), NoHighLighter);
    p.scroll_forwards();
    p.scroll_forwards();
    assert_eq!(p.active_line(), 2);
    p.scroll_forwards();
    assert_eq!(p.active_line(), 2);
    p.scroll_backwards();
    p.scroll_backwards();
    p.scroll_backwards();
    assert_eq!(p.active_line(), 0);
    assert_eq!(p.space_demand(), (Demand::at_least(1), Demand::at_least(1)));

    let mut h = NoHighLighter;
    let regions = h.highlight("int x;");
    assert_eq!(regions, vec![(TextAttribute::plain(), "int x;")]);
    let mut v = FileViewer::new(Lines(vec!["x".to_owned()]), NoHighLighter);
    assert_eq!(v.storage.view(0..3), vec!["x".to_owned()]);
}

#[test]
fn log_viewer_and_widget_demands() {
    let mut log = LogViewer::new();
    log.write_str("first\nsec");
    log.write_str("ond\n");
    log.active_line_mut().push_str("third");
    assert_eq!(log.active_line_mut().as_str(), "third");
    assert_eq!(log.space_demand(), (Demand::at_least(1), Demand::at_least(1)));

    let label = LineLabel::new("ab\u{301}c".to_owned());
    assert_eq!(label.space_demand(), (Demand::exact(3), Demand::exact(1)));
    let mut e = LineEdit::new();
    e.insert("xy");
    assert_eq!(e.space_demand(), (Demand::at_least(3), Demand::exact(1)));
}

#[test]
fn pager_load_replaces_content() {
    let mut p: Pager<Lines, NoHighLighter> = Pager::new();
    p.load(Lines(vec!["a".to_owned(), "b".to_owned()]), NoHighLighter);
    p.scroll_forwards();
    p.scroll_forwards();
    assert_eq!(p.active_line(), 1);
    p.load(Lines((0..5).map(|i| i.to_string()).collect()), NoHighLighter);
    assert_eq!(p.active_line(), 1);
    p.scroll_forwards();
    p.scroll_forwards();
    p.scroll_forwards();
    p.scroll_forwards();
    assert_eq!(p.active_line(), 4);
    p.load(Lines(Vec::new()), NoHighLighter);
    p.scroll_forwards();
    assert_eq!(p.active_line(), 4);
}

#[test]
fn pager_asks_for_the_line_after_the_active_one() {
    assert_eq!(next_line_range(0), 1..2);
    assert_eq!(next_line_range(41), 42..43);
}

#[test]
fn leaves_with_two_minus_signs_are_shown_as_printed() {
    let big = "--170141183460469231731687303715884105728";
    assert_eq!(format_leaf(big, Some(Format::Hex)), big);
    assert_eq!(format_leaf(" -0x-80000000000000000000000000000000", Some(Format::Decimal)), " -0x-80000000000000000000000000000000");
    assert_eq!(format_leaf(" -16", Some(Format::Hex)), "0xfffffffffffffffffffffffffffffff0");
    assert_eq!(format_leaf("a-b-c", Some(Format::Hex)), "a-b-c");
    assert_eq!(format_leaf("0x10", Some(Format::Decimal)), "16");
}

#[test]
fn line_edit_cursor_can_be_placed_within_the_text() {
    let mut e = LineEdit::new();
    e.set("abc");
    assert_eq!(e.set_cursor_pos(1), Ok(()));
    assert_eq!(e.cursor_pos(), 1);
    assert_eq!(e.set_cursor_pos(4), Err(()));
    assert_eq!(e.cursor_pos(), 1);
    let mut p = PromptLine::with_prompt("> ".to_owned());
    p.set("ab\u{301}c");
    assert_eq!(p.line().cursor_pos(), 3);
    assert_eq!(p.set_cursor_pos(2), Ok(()));
    assert_eq!(p.line().cursor_pos(), 2);
    assert_eq!(p.line().get(), "ab\u{301}c");
}
