use ugdb::layout::{parse, try_parse, ExpectedChars, LayoutParseErrorKind};

fn expect_equal(input: &str, expected: &str) {
    let parsed = parse(input.to_owned()).unwrap();
    assert_eq!(&parsed.describe(), expected);
}

fn expect_error(input: &str, e: LayoutParseErrorKind) {
    let pe = parse(input.to_owned()).unwrap_err();
    assert_eq!(pe.kind(), e);
}

#[test]
fn parse_default() {
    expect_equal("(1s-1c)|(1e-1t)", "(1(1SrcView-1Console)|1(1ExpressionTable-1Terminal))");
}

#[test]
fn parse_triple_weighted() {
    expect_equal("(s|2t|c)-99e", "(1(1SrcView|2Terminal|1Console)-99ExpressionTable)");
}

#[test]
fn parse_empty() {
    expect_error("", LayoutParseErrorKind::TooShortExpected(ExpectedChars::NodeStart));
}

#[test]
fn parse_unclosed() {
    expect_error("(c-e", LayoutParseErrorKind::TooShortExpected(ExpectedChars::ClosingBracket));
}

#[test]
fn parse_unexpected() {
    expect_error("f", LayoutParseErrorKind::ExpectedGotMany(0, ExpectedChars::NodeStart, 'f'));
}

#[test]
fn parse_change_split() {
    expect_error("s-e|t", LayoutParseErrorKind::SplitTypeChangeFromTo(3, '-', '|'));
}

#[test]
fn parse_single_leaf_and_no_console() {
    expect_equal("c", "Console");
    expect_error("s|t", LayoutParseErrorKind::NoConsole);
    expect_error("(c-e]", LayoutParseErrorKind::ExpectedGotMany(4, ExpectedChars::ClosingBracket, ']'));
    expect_error("c|s-t", LayoutParseErrorKind::SplitTypeChangeFromTo(3, '|', '-'));
}

#[test]
fn parse_weight_overflow_is_reported() {
    assert!(try_parse("99999999999c".to_owned()).is_none());
    assert!(try_parse("4294967295c".to_owned()).unwrap().is_ok());
}

#[test]
fn layout_error_messages() {
    let e = parse("s-e|t".to_owned()).unwrap_err();
    assert_eq!(
        e.message(),
        "Failed to parse layout string: \nSplit type cannot change from '-' to '|' within a node. Try to use brackets.\ns-e\u{261b}|t\n"
    );
    let e = parse("f".to_owned()).unwrap_err();
    assert_eq!(
        e.message(),
        "Failed to parse layout string: \nExpected One of ['c', 't', 's', 'e', '('], but got f!\n\u{261b}f \n"
    );
    let e = parse("(c".to_owned()).unwrap_err();
    assert_eq!(
        e.message(),
        "Failed to parse layout string: \nToo short! Expected at least ')'.\n(c\u{261a}\n"
    );
    let e = parse("s".to_owned()).unwrap_err();
    assert_eq!(
        e.message(),
        "Failed to parse layout string: \nLayout MUST contain gdb console. Insert 'c' somewhere in the layout.\n"
    );
}
