//! Parsing of values as gdb prints them (`{a = 1, b = {2, 3}}`) into a
//! tree of leaves, arrays and maps.
use vstd::prelude::*;
use crate::gdb_expression_parsing::lexer::{
    lemma_lex_all_ordered, lex_all, LexerState, Lexer, LexicalError,
};
use crate::gdb_expression_parsing::parser::{parse_value, parse_Value, Node, NodeV, ParseError};
use crate::text::chars_of;

pub mod lexer;
pub mod parser;
pub mod format;

verus! {

/// The key under which the elements of a map that are not members are
/// collected.
pub const ANON_KEY: &'static str = "*anon*";

/// The parse of the text `s`: its tokens (with character locations) read
/// as one value.
pub open spec fn parse_spec(s: Seq<char>) -> Result<NodeV, ParseError> {
    match lex_all(s, 0, LexerState::Free, false) {
        Err(LexicalError::UnfinishedString { begin_index }) => Err(
            ParseError::UnfinishedString { begin_index },
        ),
        Ok(t) => parse_value(s, t, 0, t.len() as int),
    }
}

/// Parses a value as gdb prints it.
pub fn parse_gdb_value<'s>(result_string: &'s str) -> (r: Result<Node<'s>, ParseError>)
    ensures
        match r {
            Ok(n) => parse_spec(result_string@) == Ok::<NodeV, ParseError>(n.view()),
            Err(e) => parse_spec(result_string@) == Err::<NodeV, ParseError>(e),
        },
{
    let chars = chars_of(result_string);
    let mut lexer = Lexer::with_locations(result_string, false);
    let tokens = lexer.collect_tokens();
    proof {
        lemma_lex_all_ordered(result_string@, 0, LexerState::Free, 0);
    }
    parse_Value(result_string, &chars, tokens)
}

/// Appends `a` to `v`.
pub fn build_vec<T>(v: Vec<T>, a: T) -> (r: Vec<T>)
    ensures
        r@ == v@.push(a),
{
    let mut v = v;
    v.push(a);
    v
}

} // verus!
