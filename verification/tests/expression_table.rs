use ugdb::expression_table::{parse_failure_text, watchpoint_message, ExpressionRow, ExpressionTable, WatchOutcome};
use ugdb::gdb_expression_parsing::format::Format;
use ugdb::mi::ExecuteError;

fn rows(t: &ExpressionTable) -> Vec<String> {
    (0..t.len()).map(|i| t.row(i).expression.get().to_owned()).collect()
}

#[test]
fn table_keeps_one_empty_row_at_the_end() {
    let mut t = ExpressionTable::new();
    assert_eq!(rows(&t), vec![""]);
    t.add_entry("x");
    t.add_entry("y + 1");
    assert_eq!(rows(&t), vec!["x", "y + 1", ""]);
    t.add_entry("");
    assert_eq!(rows(&t), vec!["x", "y + 1", ""]);
    t.edit_row(1, "");
    assert_eq!(rows(&t), vec!["x", ""]);
    t.edit_row(1, "z");
    assert_eq!(rows(&t), vec!["x", "z", ""]);
    t.edit_row(0, "");
    assert_eq!(rows(&t), vec!["", "z", ""]);
    t.cycle_format(1);
    assert_eq!(t.row(1).format, Some(Format::Hex));
    t.cycle_format(1);
    assert_eq!(t.row(1).format, Some(Format::Decimal));
    assert_eq!(rows(&t), vec!["", "z", ""]);
}

#[test]
fn rows_and_messages() {
    let mut r = ExpressionRow::new();
    assert!(r.is_empty());
    r.expression.set("a.b");
    assert!(!r.is_empty());
    assert_eq!(r.expression.cursor_pos(), 3);
    for _ in 0..5 {
        r.cycle_format();
    }
    assert_eq!(r.format, None);

    assert_eq!(watchpoint_message("a.b", WatchOutcome::Inserted), "Inserted watchpoint for expression \"a.b\"");
    assert_eq!(
        watchpoint_message("a.b", WatchOutcome::Failed("no symbol".to_owned())),
        "Failed to set watchpoint: no symbol"
    );
    assert_eq!(watchpoint_message("a", WatchOutcome::NotExecuted(ExecuteError::Busy)), "Failed to set watchpoint: Busy");
    assert_eq!(parse_failure_text("{a = }"), "*Error parsing*: {a = }");
}

#[test]
fn rows_keep_their_formats_when_edited_or_reused() {
    let mut t = ExpressionTable::new();
    t.cycle_format(0);
    t.add_entry("x");
    assert_eq!(t.row(0).format, Some(Format::Hex));
    assert_eq!(t.row(1).format, None);
    t.add_entry("y");
    t.cycle_format(1);
    t.cycle_format(1);
    t.edit_row(1, "w");
    assert_eq!(rows(&t), vec!["x", "w", ""]);
    assert_eq!(t.row(0).format, Some(Format::Hex));
    assert_eq!(t.row(1).format, Some(Format::Decimal));
    assert_eq!(t.row(2).format, None);
    t.edit_row(1, "");
    assert_eq!(rows(&t), vec!["x", ""]);
    assert_eq!(t.row(1).format, None);
}
