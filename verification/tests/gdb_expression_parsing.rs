use ugdb::gdb_expression_parsing::lexer::{Lexer, LexicalError, Token};
use ugdb::gdb_expression_parsing::parser::{parse_Value, Node, ParseError};
use ugdb::gdb_expression_parsing::{build_vec, parse_gdb_value, ANON_KEY};

fn lex_kinds(s: &str) -> Result<Vec<Token>, LexicalError> {
    Lexer::new(s).collect_tokens().map(|v| v.into_iter().map(|t| t.1).collect())
}

fn assert_eq_lexer_tokens(s: &'static str, expected_tokens: &[Token]) {
    let tokens = lex_kinds(s).unwrap();
    assert_eq!(tokens.as_slice(), expected_tokens);
}

#[test]
fn test_lexer_basic_success() {
    assert_eq_lexer_tokens("", &[]);
    assert_eq_lexer_tokens(
        "lj \"dlfj}[{}]=,  \\t \\\"\"    dfdf sadfad\n {{  []},   =\t\n\t",
        &[
            Token::Text,
            Token::String,
            Token::Text,
            Token::Newline,
            Token::LBrace,
            Token::LBrace,
            Token::LSquareBracket,
            Token::RSquareBracket,
            Token::RBrace,
            Token::Comma,
            Token::Equals,
            Token::Newline,
        ],
    );
}

fn assert_eq_lexer_error(s: &'static str, expected_error: LexicalError) {
    match lex_kinds(s) {
        Ok(tokens) => panic!("Unexpected successful lexing of \"{}\": {:?}", s, tokens),
        Err(err) => assert_eq!(err, expected_error),
    }
}

#[test]
fn test_lexer_error() {
    assert_eq_lexer_error("\"", LexicalError::UnfinishedString { begin_index: 0 });
    assert_eq_lexer_error("\"{,..\"\"", LexicalError::UnfinishedString { begin_index: 6 });
}

#[test]
fn lexer_locations_are_byte_offsets() {
    let tokens = Lexer::new("ä = \"ö\"").collect_tokens().unwrap();
    assert_eq!(
        tokens,
        vec![(0, Token::Text, 2), (3, Token::Equals, 4), (5, Token::String, 9)]
    );
    let mut lexer = Lexer::new("a,");
    assert_eq!(lexer.next(), Some(Ok((0, Token::Text, 1))));
    assert_eq!(lexer.next(), Some(Ok((1, Token::Comma, 2))));
    assert_eq!(lexer.next(), None);
}

#[test]
fn mod_test_parse_basic() {
    assert_eq!(parse_gdb_value("true").unwrap(), Node::Leaf("true"));
    assert_eq!(parse_gdb_value("false").unwrap(), Node::Leaf("false"));
    assert_eq!(parse_gdb_value("27").unwrap(), Node::Leaf("27"));
    assert_eq!(parse_gdb_value("27.1").unwrap(), Node::Leaf("27.1"));
    assert_eq!(parse_gdb_value("\"dfd\"").unwrap(), Node::Leaf("\"dfd\""));
    assert_eq!(parse_gdb_value(" l r ").unwrap(), Node::Leaf("l r"));
    assert_eq!(parse_gdb_value(" 0x123").unwrap(), Node::Leaf("0x123"));
    assert_eq!(parse_gdb_value(" -123").unwrap(), Node::Leaf("-123"));
    assert_eq!(parse_gdb_value("{}").unwrap(), Node::Array(None, Vec::new()));
    assert_eq!(
        parse_gdb_value("{...}").unwrap(),
        Node::Array(None, vec![Node::Leaf("...")])
    );
    assert_eq!(parse_gdb_value("foo,bar").unwrap(), Node::Leaf("foo,bar"));
    assert_eq!(parse_gdb_value("foo}bar").unwrap(), Node::Leaf("foo}bar"));
    assert_eq!(parse_gdb_value("\nfoo\nbar").unwrap(), Node::Leaf("foo\nbar"));
}

#[test]
fn mod_test_complex() {
    let testcase = "{
            boolean = 128,
            x = 0,
            y = \"kdf\\\\j}{\\\"\",
            {
                z = 5.88163081e-39,
                w = 0
            },
            named_inner = {
                v = 1.40129846e-45,
                w = 0
            },
            bar = {
                x = 4295032831,
                y = 140737488347120,
                z = 4197294
            },
            {...},
            vec_empty = std::vector of length 0, capacity 0,
            map_empty = std::map with 0 elements,
            vec = std::vector of length 1, capacity 1 = {{
                x = 1,
                y = 2,
                z = 3
            }},
            map = std::map with 2 elements = {
              [\"blub\"] = 2,
              [\"foo\"] = 123
            },
            uni_extern = {...},
            uni_intern = {...},
            const_array = {0, 0},
            ptr = 0x400bf0 <__libc_csu_init>,
            array = 0x7fffffffe018
        }";
    let result_obj = Node::Dict(
        None,
        vec![
            ("boolean", Node::Leaf("128")),
            ("x", Node::Leaf("0")),
            ("y", Node::Leaf("\"kdf\\\\j}{\\\"\"")),
            (
                "named_inner",
                Node::Dict(
                    None,
                    vec![("v", Node::Leaf("1.40129846e-45")), ("w", Node::Leaf("0"))],
                ),
            ),
            (
                "bar",
                Node::Dict(
                    None,
                    vec![
                        ("x", Node::Leaf("4295032831")),
                        ("y", Node::Leaf("140737488347120")),
                        ("z", Node::Leaf("4197294")),
                    ],
                ),
            ),
            ("vec_empty", Node::Leaf("std::vector of length 0, capacity 0")),
            ("map_empty", Node::Leaf("std::map with 0 elements")),
            (
                "vec",
                Node::Array(
                    Some("std::vector of length 1, capacity 1 ="),
                    vec![Node::Dict(
                        None,
                        vec![
                            ("x", Node::Leaf("1")),
                            ("y", Node::Leaf("2")),
                            ("z", Node::Leaf("3")),
                        ],
                    )],
                ),
            ),
            (
                "map",
                Node::Dict(
                    Some("std::map with 2 elements ="),
                    vec![
                        ("[\"blub\"]", Node::Leaf("2")),
                        ("[\"foo\"]", Node::Leaf("123")),
                    ],
                ),
            ),
            ("uni_extern", Node::Array(None, vec![Node::Leaf("...")])),
            ("uni_intern", Node::Array(None, vec![Node::Leaf("...")])),
            ("const_array", Node::Array(None, vec![Node::Leaf("0"), Node::Leaf("0")])),
            ("ptr", Node::Leaf("0x400bf0 <__libc_csu_init>")),
            ("array", Node::Leaf("0x7fffffffe018")),
            (
                ANON_KEY,
                Node::Array(
                    None,
                    vec![
                        Node::Dict(
                            None,
                            vec![("z", Node::Leaf("5.88163081e-39")), ("w", Node::Leaf("0"))],
                        ),
                        Node::Array(None, vec![Node::Leaf("...")]),
                    ],
                ),
            ),
        ],
    );
    let r = parse_gdb_value(testcase).unwrap();
    assert_eq!(r, result_obj);
}

#[test]
fn mod_test_parse_string() {
    assert_eq!(parse_gdb_value("\"foo\"").unwrap(), Node::Leaf("\"foo\""));
    assert_eq!(parse_gdb_value("\"foo\\\"\"").unwrap(), Node::Leaf("\"foo\\\"\""));
    assert_eq!(parse_gdb_value("\"\\\\}{\\\"\"").unwrap(), Node::Leaf("\"\\\\}{\\\"\""));
    assert_eq!(parse_gdb_value("\"\\t\"").unwrap(), Node::Leaf("\"\\t\""));
    assert_eq!(parse_gdb_value("\"\\n\"").unwrap(), Node::Leaf("\"\\n\""));
    assert_eq!(parse_gdb_value("\"\\r\"").unwrap(), Node::Leaf("\"\\r\""));
    assert_eq!(
        parse_gdb_value("\"kdf\\\\j}{\\\"\"").unwrap(),
        Node::Leaf("\"kdf\\\\j}{\\\"\"")
    );
}

#[test]
fn mod_test_parse_something_else() {
    assert_eq!(parse_gdb_value("l r").unwrap(), Node::Leaf("l r"));
    assert_eq!(parse_gdb_value(" l r").unwrap(), Node::Leaf("l r"));
    assert_eq!(parse_gdb_value("l r ").unwrap(), Node::Leaf("l r"));
    assert_eq!(parse_gdb_value(" l r ").unwrap(), Node::Leaf("l r"));

    assert_eq!(
        parse_gdb_value("{ l r, l r}").unwrap(),
        Node::Array(None, vec![Node::Leaf("l r"), Node::Leaf("l r")])
    );
    assert_eq!(
        parse_gdb_value("{l r,l r}").unwrap(),
        Node::Array(None, vec![Node::Leaf("l r"), Node::Leaf("l r")])
    );
    assert_eq!(
        parse_gdb_value("{ l r ,l r }").unwrap(),
        Node::Array(None, vec![Node::Leaf("l r"), Node::Leaf("l r")])
    );
    assert_eq!(
        parse_gdb_value("{ l r , l r }").unwrap(),
        Node::Array(None, vec![Node::Leaf("l r"), Node::Leaf("l r")])
    );

    assert_eq!(
        parse_gdb_value("{foo =l r,bar =l r}").unwrap(),
        Node::Dict(None, vec![("foo", Node::Leaf("l r")), ("bar", Node::Leaf("l r"))])
    );
    assert_eq!(
        parse_gdb_value("{foo = l r ,bar =l r}").unwrap(),
        Node::Dict(None, vec![("foo", Node::Leaf("l r")), ("bar", Node::Leaf("l r"))])
    );
    assert_eq!(
        parse_gdb_value("{foo =l r,bar = l r }").unwrap(),
        Node::Dict(None, vec![("foo", Node::Leaf("l r")), ("bar", Node::Leaf("l r"))])
    );
    assert_eq!(
        parse_gdb_value("{foo = l r ,bar = l r }").unwrap(),
        Node::Dict(None, vec![("foo", Node::Leaf("l r")), ("bar", Node::Leaf("l r"))])
    );

    assert_eq!(
        parse_gdb_value("{int (int, int)} 0x400a76 <foo(int, int)>").unwrap(),
        Node::Leaf("{int (int, int)} 0x400a76 <foo(int, int)>")
    );

    assert_eq!(
        parse_gdb_value("{ {int (int, int)} 0x400a76 <foo(int, int)> }").unwrap(),
        Node::Array(None, vec![Node::Leaf("{int (int, int)} 0x400a76 <foo(int, int)>")])
    );
}

#[test]
fn mod_test_parse_objects() {
    assert_eq!(
        parse_gdb_value(" { foo = 27}").unwrap(),
        Node::Dict(None, vec![("foo", Node::Leaf("27"))])
    );
    assert_eq!(
        parse_gdb_value("{ foo = 27, bar = 37}").unwrap(),
        Node::Dict(None, vec![("foo", Node::Leaf("27")), ("bar", Node::Leaf("37"))])
    );
    assert_eq!(
        parse_gdb_value("{\n foo = 27,\n bar = 37\n }").unwrap(),
        Node::Dict(None, vec![("foo", Node::Leaf("27")), ("bar", Node::Leaf("37"))])
    );
    assert_eq!(
        parse_gdb_value("{{...}}").unwrap(),
        Node::Array(None, vec![Node::Array(None, vec![Node::Leaf("...")])])
    );
    assert_eq!(
        parse_gdb_value("{{}}").unwrap(),
        Node::Array(None, vec![Node::Array(None, vec![])])
    );
    assert_eq!(
        parse_gdb_value("{foo = 27, { bar=37}}").unwrap(),
        Node::Dict(
            None,
            vec![
                ("foo", Node::Leaf("27")),
                (ANON_KEY, Node::Dict(None, vec![("bar", Node::Leaf("37"))]))
            ]
        )
    );
    assert_eq!(
        parse_gdb_value("{{ bar=37}, foo = 27}").unwrap(),
        Node::Dict(
            None,
            vec![
                ("foo", Node::Leaf("27")),
                (ANON_KEY, Node::Dict(None, vec![("bar", Node::Leaf("37"))]))
            ]
        )
    );
}

#[test]
fn mod_test_parse_arrays() {
    assert_eq!(parse_gdb_value("{27}").unwrap(), Node::Array(None, vec![Node::Leaf("27")]));
    assert_eq!(
        parse_gdb_value("{ 27, 37}").unwrap(),
        Node::Array(None, vec![Node::Leaf("27"), Node::Leaf("37")])
    );
    assert_eq!(
        parse_gdb_value("{\n 27,\n 37\n}").unwrap(),
        Node::Array(None, vec![Node::Leaf("27"), Node::Leaf("37")])
    );
}

#[test]
fn parse_errors() {
    assert_eq!(parse_gdb_value(""), Err(ParseError::MissingValue));
    assert_eq!(parse_gdb_value("\n"), Err(ParseError::MissingValue));
    assert_eq!(parse_gdb_value("{a = }"), Err(ParseError::MissingValue));
    assert_eq!(
        parse_gdb_value("{a = \"b}"),
        Err(ParseError::UnfinishedString { begin_index: 5 })
    );
}

#[test]
fn parse_non_ascii_leaf_and_build_vec() {
    assert_eq!(parse_gdb_value("{ä = ö}").unwrap(), Node::Dict(None, vec![("ä", Node::Leaf("ö"))]));
    assert_eq!(build_vec(vec![1, 2], 3), vec![1, 2, 3]);
}

#[test]
fn lexer_tokens_are_ordered_slices_of_the_input() {
    let input = "ä = {ö, \"ü\\\"\"}, x\tyz = <€>\n";
    let tokens = Lexer::new(input).collect_tokens().unwrap();
    assert!(!tokens.is_empty());
    let mut last = 0;
    for &(b, _, e) in &tokens {
        assert!(last <= b && b < e && e <= input.len());
        assert!(input.is_char_boundary(b) && input.is_char_boundary(e));
        last = e;
    }
    let texts: Vec<&str> = tokens.iter().map(|&(b, _, e)| &input[b..e]).collect();
    assert_eq!(texts, vec!["ä", "=", "{", "ö", ",", "\"ü\\\"\"", "}", ",", "x\tyz", "=", "<", "€", ">", "\n"]);
    let mut lexer = Lexer::new("é\"");
    assert_eq!(lexer.next(), Some(Ok((0, Token::Text, 2))));
    assert_eq!(lexer.next(), Some(Err(LexicalError::UnfinishedString { begin_index: 2 })));
    assert_eq!(lexer.next(), None);
}

#[test]
fn parser_hands_on_lexer_errors() {
    let input = "{a = \"b}";
    let chars: Vec<char> = input.chars().collect();
    assert_eq!(
        parse_Value(input, &chars, Err(LexicalError::UnfinishedString { begin_index: 5 })),
        Err(ParseError::UnfinishedString { begin_index: 5 })
    );
    assert_eq!(
        parse_Value("", &Vec::new(), Err(LexicalError::UnfinishedString { begin_index: 0 })),
        Err(ParseError::UnfinishedString { begin_index: 0 })
    );
}
