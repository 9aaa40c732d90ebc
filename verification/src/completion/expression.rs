//! The expression before the cursor: its tokens, and the split into the
//! parent expression whose members are completed and the prefix of the
//! member name typed so far.
use vstd::prelude::*;
use core::ops::Range;
use crate::chars::{alphanumeric, is_alphanumeric};
use vstd::string::StrSliceExecFns;
use crate::text::{chars_of, push_str};

verus! {

/// The kinds of tokens of an expression.
#[derive(Copy, Clone, PartialEq, Eq, Structural, Debug)]
pub enum ExpressionTokenType {
    Atom,
    Arrow,
    Dot,
    LParen,
    RParen,
    LBracket,
    RBracket,
    Asterisk,
    Sep,
    String,
}

/// A token and the characters it covers (character indices).
#[derive(PartialEq, Debug)]
pub struct ExpressionToken {
    pub ttype: ExpressionTokenType,
    pub pos: Range<usize>,
}

/// Tokenizing fails on a string literal without its closing quote.
#[derive(Copy, Clone, PartialEq, Eq, Structural, Debug)]
pub enum TokenizeError {
    UnfinishedString,
}

/// The mathematical form of a token.
pub struct Tok {
    pub ttype: ExpressionTokenType,
    pub start: int,
    pub end: int,
}

pub open spec fn tok(ttype: ExpressionTokenType, start: int, end: int) -> Tok {
    Tok { ttype, start, end }
}

pub open spec fn tok_view(t: ExpressionToken) -> Tok {
    Tok { ttype: t.ttype, start: t.pos.start as int, end: t.pos.end as int }
}

pub open spec fn toks_view(v: Seq<ExpressionToken>) -> Seq<Tok> {
    Seq::new(v.len(), |i: int| tok_view(v[i]))
}

/// Characters of identifiers and numbers.
pub open spec fn atom_char(c: char) -> bool {
    alphanumeric(c) || c == '_'
}

/// The end of the run of atom characters that starts at `i`.
pub open spec fn atom_end(s: Seq<char>, i: int) -> int
    decreases s.len() - i,
{
    if 0 <= i < s.len() && atom_char(s[i]) {
        atom_end(s, i + 1)
    } else {
        i
    }
}

/// The index of the quote that closes a string literal whose contents
/// start at `i` (`escaped`: the previous character was an unescaped
/// backslash); `None` if the literal is not closed.
pub open spec fn string_end(s: Seq<char>, i: int, escaped: bool) -> Option<int>
    decreases s.len() - i,
{
    if i < 0 || i >= s.len() {
        None
    } else if escaped {
        string_end(s, i + 1, false)
    } else if s[i] == '"' {
        Some(i)
    } else if s[i] == '\\' {
        string_end(s, i + 1, true)
    } else {
        string_end(s, i + 1, false)
    }
}

pub proof fn lemma_atom_end(s: Seq<char>, i: int)
    requires
        0 <= i <= s.len(),
    ensures
        i <= atom_end(s, i) <= s.len(),
        forall|j: int| i <= j < atom_end(s, i) ==> atom_char(#[trigger] s[j]),
        atom_end(s, i) < s.len() ==> !atom_char(s[atom_end(s, i)]),
    decreases s.len() - i,
{
    if i < s.len() && atom_char(s[i]) {
        lemma_atom_end(s, i + 1);
    }
}

pub proof fn lemma_string_end(s: Seq<char>, i: int, escaped: bool)
    requires
        0 <= i,
    ensures
        string_end(s, i, escaped) matches Some(j) ==> i <= j < s.len() && s[j] == '"',
    decreases s.len() - i,
{
    if 0 <= i < s.len() {
        lemma_string_end(s, i + 1, true);
        lemma_string_end(s, i + 1, false);
    }
}

/// Puts `t` in front of the tokens of a successful result.
pub open spec fn cons(t: Tok, r: Result<Seq<Tok>, TokenizeError>) -> Result<Seq<Tok>, TokenizeError> {
    match r {
        Ok(v) => Ok(seq![t] + v),
        Err(e) => Err(e),
    }
}

/// Puts `p` in front of the tokens of a successful result.
pub open spec fn prepend(p: Seq<Tok>, r: Result<Seq<Tok>, TokenizeError>) -> Result<Seq<Tok>, TokenizeError> {
    match r {
        Ok(v) => Ok(p + v),
        Err(e) => Err(e),
    }
}

/// The tokens of `s` from character `i` on. String literals are tokens of
/// type `lit` (an atom, or a string token of their own).
pub open spec fn tokens_from(s: Seq<char>, i: int, lit: ExpressionTokenType) -> Result<Seq<Tok>, TokenizeError>
    decreases s.len() - i,
{
    if i < 0 || i >= s.len() {
        Ok(Seq::empty())
    } else {
        let c = s[i];
        if c == ' ' || c == '\t' || c == '\n' {
            tokens_from(s, i + 1, lit)
        } else if c == '(' {
            cons(tok(ExpressionTokenType::LParen, i, i + 1), tokens_from(s, i + 1, lit))
        } else if c == '[' {
            cons(tok(ExpressionTokenType::LBracket, i, i + 1), tokens_from(s, i + 1, lit))
        } else if c == ')' {
            cons(tok(ExpressionTokenType::RParen, i, i + 1), tokens_from(s, i + 1, lit))
        } else if c == ']' {
            cons(tok(ExpressionTokenType::RBracket, i, i + 1), tokens_from(s, i + 1, lit))
        } else if c == '*' {
            cons(tok(ExpressionTokenType::Asterisk, i, i + 1), tokens_from(s, i + 1, lit))
        } else if c == '.' {
            cons(tok(ExpressionTokenType::Dot, i, i + 1), tokens_from(s, i + 1, lit))
        } else if c == '-' {
            if i + 1 < s.len() && s[i + 1] == '>' {
                cons(tok(ExpressionTokenType::Arrow, i, i + 2), tokens_from(s, i + 2, lit))
            } else if i + 1 < s.len() && s[i + 1] == '-' {
                cons(
                    tok(ExpressionTokenType::Sep, i, i + 1),
                    cons(tok(ExpressionTokenType::Sep, i + 1, i + 2), tokens_from(s, i + 2, lit)),
                )
            } else {
                cons(tok(ExpressionTokenType::Sep, i, i + 1), tokens_from(s, i + 1, lit))
            }
        } else if c == '"' {
            match string_end(s, i + 1, false) {
                None => Err(TokenizeError::UnfinishedString),
                Some(j) => {
                    proof {
                        lemma_string_end(s, i + 1, false);
                    }
                    cons(tok(lit, i, j + 1), tokens_from(s, j + 1, lit))
                },
            }
        } else if atom_char(c) {
            let e = atom_end(s, i + 1);
            proof {
                lemma_atom_end(s, i + 1);
            }
            cons(tok(ExpressionTokenType::Atom, i, e), tokens_from(s, e, lit))
        } else {
            cons(tok(ExpressionTokenType::Sep, i, i + 1), tokens_from(s, i + 1, lit))
        }
    }
}

/// The tokens of `s`, string literals being atoms.
pub open spec fn tokens_spec(s: Seq<char>) -> Result<Seq<Tok>, TokenizeError> {
    tokens_from(s, 0, ExpressionTokenType::Atom)
}

proof fn lemma_prepend_cons(p: Seq<Tok>, t: Tok, r: Result<Seq<Tok>, TokenizeError>)
    ensures
        prepend(p, cons(t, r)) == prepend(p.push(t), r),
{
    if let Ok(v) = r {
        assert(p + (seq![t] + v) =~= p.push(t) + v);
    }
}

fn push_tok(out: &mut Vec<ExpressionToken>, ttype: ExpressionTokenType, start: usize, end: usize)
    ensures
        toks_view(final(out)@) == toks_view(old(out)@).push(tok(ttype, start as int, end as int)),
{
    out.push(ExpressionToken { ttype, pos: Range { start, end } });
    assert(toks_view(out@) =~= toks_view(old(out)@).push(tok(ttype, start as int, end as int)));
}

fn tokenize(s: &str, lit: ExpressionTokenType) -> (r: Result<Vec<ExpressionToken>, TokenizeError>)
    ensures
        match r {
            Ok(v) => tokens_from(s@, 0, lit) == Ok::<Seq<Tok>, TokenizeError>(toks_view(v@)),
            Err(e) => tokens_from(s@, 0, lit) == Err::<Seq<Tok>, TokenizeError>(e),
        },
{
    let cs = chars_of(s);
    let n = cs.len();
    let mut out: Vec<ExpressionToken> = Vec::new();
    let mut i: usize = 0;
    assert(toks_view(out@) =~= Seq::<Tok>::empty());
    assert(prepend(Seq::empty(), tokens_from(s@, 0, lit)) =~= tokens_from(s@, 0, lit)) by {
        if let Ok(v) = tokens_from(s@, 0, lit) {
            assert(Seq::<Tok>::empty() + v =~= v);
        }
    }
    while i < n
        invariant
            cs@ == s@,
            n == cs@.len(),
            i <= n,
            tokens_from(s@, 0, lit) == prepend(toks_view(out@), tokens_from(s@, i as int, lit)),
        decreases n - i,
    {
        let c = cs[i];
        let ghost old_out = toks_view(out@);
        if c == ' ' || c == '\t' || c == '\n' {
            i += 1;
        } else if c == '(' || c == '[' || c == ')' || c == ']' || c == '*' || c == '.' {
            let t = if c == '(' {
                ExpressionTokenType::LParen
            } else if c == '[' {
                ExpressionTokenType::LBracket
            } else if c == ')' {
                ExpressionTokenType::RParen
            } else if c == ']' {
                ExpressionTokenType::RBracket
            } else if c == '*' {
                ExpressionTokenType::Asterisk
            } else {
                ExpressionTokenType::Dot
            };
            push_tok(&mut out, t, i, i + 1);
            proof {
                lemma_prepend_cons(old_out, tok(t, i as int, i + 1), tokens_from(s@, i + 1, lit));
            }
            i += 1;
        } else if c == '-' {
            if i + 1 < n && cs[i + 1] == '>' {
                push_tok(&mut out, ExpressionTokenType::Arrow, i, i + 2);
                proof {
                    lemma_prepend_cons(
                        old_out,
                        tok(ExpressionTokenType::Arrow, i as int, i + 2),
                        tokens_from(s@, i + 2, lit),
                    );
                }
                i += 2;
            } else if i + 1 < n && cs[i + 1] == '-' {
                push_tok(&mut out, ExpressionTokenType::Sep, i, i + 1);
                push_tok(&mut out, ExpressionTokenType::Sep, i + 1, i + 2);
                proof {
                    let t1 = tok(ExpressionTokenType::Sep, i as int, i + 1);
                    let t2 = tok(ExpressionTokenType::Sep, i + 1, i + 2);
                    lemma_prepend_cons(old_out, t1, cons(t2, tokens_from(s@, i + 2, lit)));
                    lemma_prepend_cons(old_out.push(t1), t2, tokens_from(s@, i + 2, lit));
                }
                i += 2;
            } else {
                push_tok(&mut out, ExpressionTokenType::Sep, i, i + 1);
                proof {
                    lemma_prepend_cons(
                        old_out,
                        tok(ExpressionTokenType::Sep, i as int, i + 1),
                        tokens_from(s@, i + 1, lit),
                    );
                }
                i += 1;
            }
        } else if c == '"' {
            let start = i;
            let mut j = i + 1;
            let mut escaped = false;
            proof {
                lemma_string_end(s@, j as int, escaped);
            }
            while j < n && (escaped || cs[j] != '"')
                invariant
                    cs@ == s@,
                    n == cs@.len(),
                    start < j <= n,
                    string_end(s@, j as int, escaped) == string_end(s@, start + 1, false),
                decreases n - j,
            {
                if escaped {
                    escaped = false;
                } else if cs[j] == '\\' {
                    escaped = true;
                }
                j += 1;
            }
            if j >= n {
                return Err(TokenizeError::UnfinishedString);
            }
            push_tok(&mut out, lit, start, j + 1);
            proof {
                lemma_prepend_cons(old_out, tok(lit, start as int, j + 1), tokens_from(s@, j + 1, lit));
            }
            i = j + 1;
        } else if is_alphanumeric(c) || c == '_' {
            let start = i;
            let mut j = i + 1;
            while j < n && (is_alphanumeric(cs[j]) || cs[j] == '_')
                invariant
                    cs@ == s@,
                    n == cs@.len(),
                    start < j <= n,
                    atom_end(s@, j as int) == atom_end(s@, start + 1),
                decreases n - j,
            {
                j += 1;
            }
            push_tok(&mut out, ExpressionTokenType::Atom, start, j);
            proof {
                lemma_prepend_cons(
                    old_out,
                    tok(ExpressionTokenType::Atom, start as int, j as int),
                    tokens_from(s@, j as int, lit),
                );
            }
            i = j;
        } else {
            push_tok(&mut out, ExpressionTokenType::Sep, i, i + 1);
            proof {
                lemma_prepend_cons(
                    old_out,
                    tok(ExpressionTokenType::Sep, i as int, i + 1),
                    tokens_from(s@, i + 1, lit),
                );
            }
            i += 1;
        }
    }
    assert(toks_view(out@) + Seq::<Tok>::empty() =~= toks_view(out@));
    Ok(out)
}

/// The tokens of an expression; string literals are atoms.
pub fn tokenize_expression(s: &str) -> (r: Result<Vec<ExpressionToken>, TokenizeError>)
    ensures
        match r {
            Ok(v) => tokens_spec(s@) == Ok::<Seq<Tok>, TokenizeError>(toks_view(v@)),
            Err(e) => tokens_spec(s@) == Err::<Seq<Tok>, TokenizeError>(e),
        },
{
    tokenize(s, ExpressionTokenType::Atom)
}

/// The tokens of an expression, string literals being tokens of type
/// `String`.
pub fn tokenize_expression_with_strings(s: &str) -> (r: Result<Vec<ExpressionToken>, TokenizeError>)
    ensures
        match r {
            Ok(v) => tokens_from(s@, 0, ExpressionTokenType::String) == Ok::<Seq<Tok>, TokenizeError>(toks_view(v@)),
            Err(e) => tokens_from(s@, 0, ExpressionTokenType::String) == Err::<Seq<Tok>, TokenizeError>(e),
        },
{
    tokenize(s, ExpressionTokenType::String)
}

/// Every token lies within the text, is not empty, and they come in order.
pub open spec fn toks_wf(t: Seq<Tok>, lo: int, len: int) -> bool {
    &&& forall|k: int| 0 <= k < t.len() ==> lo <= #[trigger] t[k].start < t[k].end <= len
    &&& forall|k: int, m: int| 0 <= k < m < t.len() ==> #[trigger] t[k].end <= #[trigger] t[m].start
}

proof fn lemma_cons_wf(t: Tok, r: Result<Seq<Tok>, TokenizeError>, lo: int, next: int, len: int)
    requires
        lo <= t.start < t.end <= next,
        r matches Ok(v) ==> toks_wf(v, next, len),
        t.end <= len,
    ensures
        cons(t, r) matches Ok(w) ==> toks_wf(w, lo, len),
{
    if let Ok(v) = r {
        let w = seq![t] + v;
        assert forall|k: int| 0 <= k < w.len() implies lo <= #[trigger] w[k].start < w[k].end
            <= len by {
            if k > 0 {
                assert(w[k] == v[k - 1]);
            }
        }
        assert forall|k: int, m: int| 0 <= k < m < w.len() implies #[trigger] w[k].end
            <= #[trigger] w[m].start by {
            assert(w[m] == v[m - 1]);
            if k > 0 {
                assert(w[k] == v[k - 1]);
            }
        }
    }
}

/// The tokens of a text lie within it, are not empty, and come in order.
pub proof fn lemma_tokens_wf(s: Seq<char>, i: int, lit: ExpressionTokenType)
    requires
        0 <= i,
    ensures
        tokens_from(s, i, lit) matches Ok(v) ==> toks_wf(v, i, s.len() as int),
    decreases s.len() - i,
{
    if i < s.len() {
        let c = s[i];
        let len = s.len() as int;
        if c == ' ' || c == '\t' || c == '\n' {
            lemma_tokens_wf(s, i + 1, lit);
        } else if c == '(' || c == '[' || c == ')' || c == ']' || c == '*' || c == '.' {
            lemma_tokens_wf(s, i + 1, lit);
            let r = tokens_from(s, i + 1, lit);
            lemma_cons_wf(tok(ExpressionTokenType::LParen, i, i + 1), r, i, i + 1, len);
            lemma_cons_wf(tok(ExpressionTokenType::LBracket, i, i + 1), r, i, i + 1, len);
            lemma_cons_wf(tok(ExpressionTokenType::RParen, i, i + 1), r, i, i + 1, len);
            lemma_cons_wf(tok(ExpressionTokenType::RBracket, i, i + 1), r, i, i + 1, len);
            lemma_cons_wf(tok(ExpressionTokenType::Asterisk, i, i + 1), r, i, i + 1, len);
            lemma_cons_wf(tok(ExpressionTokenType::Dot, i, i + 1), r, i, i + 1, len);
        } else if c == '-' {
            if i + 1 < s.len() && s[i + 1] == '>' {
                lemma_tokens_wf(s, i + 2, lit);
                lemma_cons_wf(
                    tok(ExpressionTokenType::Arrow, i, i + 2),
                    tokens_from(s, i + 2, lit),
                    i,
                    i + 2,
                    len,
                );
            } else if i + 1 < s.len() && s[i + 1] == '-' {
                lemma_tokens_wf(s, i + 2, lit);
                let r = tokens_from(s, i + 2, lit);
                lemma_cons_wf(tok(ExpressionTokenType::Sep, i + 1, i + 2), r, i + 1, i + 2, len);
                lemma_cons_wf(
                    tok(ExpressionTokenType::Sep, i, i + 1),
                    cons(tok(ExpressionTokenType::Sep, i + 1, i + 2), r),
                    i,
                    i + 1,
                    len,
                );
            } else {
                lemma_tokens_wf(s, i + 1, lit);
                lemma_cons_wf(
                    tok(ExpressionTokenType::Sep, i, i + 1),
                    tokens_from(s, i + 1, lit),
                    i,
                    i + 1,
                    len,
                );
            }
        } else if c == '"' {
            lemma_string_end(s, i + 1, false);
            if let Some(j) = string_end(s, i + 1, false) {
                lemma_tokens_wf(s, j + 1, lit);
                lemma_cons_wf(tok(lit, i, j + 1), tokens_from(s, j + 1, lit), i, j + 1, len);
            }
        } else if atom_char(c) {
            lemma_atom_end(s, i + 1);
            let e = atom_end(s, i + 1);
            lemma_tokens_wf(s, e, lit);
            lemma_cons_wf(tok(ExpressionTokenType::Atom, i, e), tokens_from(s, e, lit), i, e, len);
        } else {
            lemma_tokens_wf(s, i + 1, lit);
            lemma_cons_wf(
                tok(ExpressionTokenType::Sep, i, i + 1),
                tokens_from(s, i + 1, lit),
                i,
                i + 1,
                len,
            );
        }
    }
}

/// Whether `s`, read from character `i` on and outside string literals,
/// holds a string literal whose closing quote is missing.
pub open spec fn quote_unclosed(s: Seq<char>, i: int) -> bool
    decreases s.len() - i,
{
    if i < 0 || i >= s.len() {
        false
    } else if s[i] == '"' {
        match string_end(s, i + 1, false) {
            None => true,
            Some(j) => {
                proof {
                    lemma_string_end(s, i + 1, false);
                }
                quote_unclosed(s, j + 1)
            },
        }
    } else {
        quote_unclosed(s, i + 1)
    }
}

proof fn lemma_unclosed_skip(s: Seq<char>, i: int, e: int)
    requires
        0 <= i <= e <= s.len(),
        forall|j: int| i <= j < e ==> #[trigger] s[j] != '"',
    ensures
        quote_unclosed(s, i) == quote_unclosed(s, e),
    decreases e - i,
{
    if i < e {
        lemma_unclosed_skip(s, i + 1, e);
    }
}

proof fn lemma_tokens_err_iff_unclosed(s: Seq<char>, i: int, lit: ExpressionTokenType)
    requires
        0 <= i,
        !atom_char('"'),
    ensures
        tokens_from(s, i, lit) is Err <==> quote_unclosed(s, i),
    decreases s.len() - i,
{
    if i < s.len() {
        let c = s[i];
        if c == '-' && i + 1 < s.len() && (s[i + 1] == '>' || s[i + 1] == '-') {
            lemma_tokens_err_iff_unclosed(s, i + 2, lit);
            lemma_unclosed_skip(s, i, i + 2);
        } else if c == '"' {
            lemma_string_end(s, i + 1, false);
            if let Some(j) = string_end(s, i + 1, false) {
                lemma_tokens_err_iff_unclosed(s, j + 1, lit);
            }
        } else if atom_char(c) && !(c == ' ' || c == '\t' || c == '\n' || c == '(' || c == '['
            || c == ')' || c == ']' || c == '*' || c == '.' || c == '-') {
            lemma_atom_end(s, i + 1);
            let e = atom_end(s, i + 1);
            lemma_tokens_err_iff_unclosed(s, e, lit);
            lemma_unclosed_skip(s, i, e);
        } else {
            lemma_tokens_err_iff_unclosed(s, i + 1, lit);
        }
    }
}

/// Completion of a text fails exactly where a string literal in it is not
/// closed; otherwise the prefix it gives is an end of the text. (This rests
/// on a quote not being alphanumeric, as `char::is_alphanumeric` has it.)
pub proof fn lemma_completion_outcome(s: Seq<char>)
    requires
        !atom_char('"'),
    ensures
        completable_expression_spec(s) is Err <==> quote_unclosed(s, 0),
        completable_expression_spec(s) matches Ok((_parent, prefix)) ==> prefix.len() <= s.len()
            && s.skip(s.len() - prefix.len()) == prefix,
{
    lemma_tokens_err_iff_unclosed(s, 0, ExpressionTokenType::Atom);
    lemma_tokens_wf(s, 0, ExpressionTokenType::Atom);
    if let Ok(t) = tokens_spec(s) {
        let n = t.len() as int;
        if n > 0 && t[n - 1].ttype == ExpressionTokenType::Atom && t[n - 1].end == s.len() {
            assert(s.skip(t[n - 1].start) =~= s.subrange(t[n - 1].start, t[n - 1].end));
        } else {
            assert(s.skip(s.len() as int) =~= Seq::<char>::empty());
        }
    }
}

/// An expression split for completion: the members of `parent` are the
/// candidates, and `prefix` is the part of the member name already typed.
#[derive(Debug, PartialEq)]
pub struct CompletableExpression {
    pub parent: String,
    pub prefix: String,
}

/// The number of tokens before the typed prefix, and the prefix: the last
/// token if it is an atom that reaches the end of the text.
pub open spec fn prefix_split(s: Seq<char>, t: Seq<Tok>) -> (int, Seq<char>) {
    let n = t.len() as int;
    if n > 0 && t[n - 1].ttype == ExpressionTokenType::Atom && t[n - 1].end == s.len() {
        (n - 1, s.subrange(t[n - 1].start, t[n - 1].end))
    } else {
        (n, Seq::empty())
    }
}

/// Where the parent expression begins, scanning the tokens `t[j]`, `t[j-1]`,
/// ... backwards: the scan stops at an opening bracket without partner, or
/// at a token that cannot continue the expression at the outer nesting
/// level (anything but one atom, where `active` tells whether an atom was
/// already seen); it then gives the start of the token seen before
/// (`prev`). Without a stop the parent begins at the start of the text.
pub open spec fn parent_begin(t: Seq<Tok>, j: int, paren: int, bracket: int, active: bool, prev: int) -> int
    decreases j + 1,
{
    if j < 0 || j >= t.len() {
        0
    } else {
        let tk = t[j];
        match tk.ttype {
            ExpressionTokenType::RParen => parent_begin(t, j - 1, paren + 1, bracket, false, tk.start),
            ExpressionTokenType::RBracket => parent_begin(t, j - 1, paren, bracket + 1, false, tk.start),
            ExpressionTokenType::LParen => {
                if paren - 1 < 0 {
                    prev
                } else {
                    parent_begin(t, j - 1, paren - 1, bracket, false, tk.start)
                }
            },
            ExpressionTokenType::LBracket => {
                if bracket - 1 < 0 {
                    prev
                } else {
                    parent_begin(t, j - 1, paren, bracket - 1, false, tk.start)
                }
            },
            ExpressionTokenType::Dot | ExpressionTokenType::Arrow => parent_begin(
                t,
                j - 1,
                paren,
                bracket,
                false,
                tk.start,
            ),
            other => {
                if paren == 0 && bracket == 0 {
                    if other != ExpressionTokenType::Atom || active {
                        prev
                    } else {
                        parent_begin(t, j - 1, paren, bracket, true, tk.start)
                    }
                } else {
                    parent_begin(t, j - 1, paren, bracket, active, tk.start)
                }
            },
        }
    }
}

/// Whether the text before the prefix ends in a member access (`.` or
/// `->`).
pub open spec fn has_member_access(s: Seq<char>, t: Seq<Tok>) -> bool {
    let k = prefix_split(s, t).0;
    k > 0 && (t[k - 1].ttype == ExpressionTokenType::Dot || t[k - 1].ttype
        == ExpressionTokenType::Arrow)
}

/// The bounds of the parent expression.
pub open spec fn parent_bounds(s: Seq<char>, t: Seq<Tok>) -> (int, int) {
    let k = prefix_split(s, t).0;
    (parent_begin(t, k - 2, 0, 0, false, s.len() as int), t[k - 1].start)
}

/// The parent expression is found before the member access. (The scan can
/// stop at the token right before the access; the parent would then begin
/// after its end, which is not a range of the text.)
pub open spec fn parent_found(s: Seq<char>, t: Seq<Tok>) -> bool {
    has_member_access(s, t) ==> parent_bounds(s, t).0 <= parent_bounds(s, t).1
}

/// The parent and the prefix of the expression `s` with tokens `t`; a
/// member access through `->` makes the parent `*(...)`.
pub open spec fn completable_spec(s: Seq<char>, t: Seq<Tok>) -> (Seq<char>, Seq<char>) {
    let prefix = prefix_split(s, t).1;
    if has_member_access(s, t) {
        let (b, e) = parent_bounds(s, t);
        let p = s.subrange(b, e);
        let k = prefix_split(s, t).0;
        if t[k - 1].ttype == ExpressionTokenType::Arrow {
            (seq!['*', '('] + p + seq![')'], prefix)
        } else {
            (p, prefix)
        }
    } else {
        (Seq::empty(), prefix)
    }
}

/// Whether completion of `s` is defined: tokenizing fails, or the parent
/// expression is found.
pub open spec fn completable_defined(s: Seq<char>) -> bool {
    match tokens_spec(s) {
        Ok(t) => parent_found(s, t),
        Err(_) => true,
    }
}

/// The parent and the prefix of `s`, or the error of its tokenization.
pub open spec fn completable_expression_spec(s: Seq<char>) -> Result<(Seq<char>, Seq<char>), TokenizeError> {
    match tokens_spec(s) {
        Ok(t) => Ok(completable_spec(s, t)),
        Err(e) => Err(e),
    }
}

impl CompletableExpression {
    /// The parent and the prefix of the expression `s` with the tokens
    /// `tokens`.
    pub fn from_tokens(s: &str, tokens: &Vec<ExpressionToken>) -> (r: Self)
        requires
            toks_wf(toks_view(tokens@), 0, s@.len() as int),
            parent_found(s@, toks_view(tokens@)),
        ensures
            (r.parent@, r.prefix@) == completable_spec(s@, toks_view(tokens@)),
    {
        let ghost t = toks_view(tokens@);
        let n = tokens.len();
        let slen = s.unicode_len();
        let mut k = n;
        let prefix: &str;
        if n > 0 && tokens[n - 1].ttype == ExpressionTokenType::Atom && tokens[n - 1].pos.end
            == slen {
            assert(t[n - 1] == tok_view(tokens@[n - 1]));
            prefix = s.substring_char(tokens[n - 1].pos.start, tokens[n - 1].pos.end);
            k = n - 1;
        } else {
            proof {
                reveal_strlit("");
            }
            prefix = "";
        }
        assert(k == prefix_split(s@, t).0);
        if k == 0 || !(tokens[k - 1].ttype == ExpressionTokenType::Dot || tokens[k - 1].ttype
            == ExpressionTokenType::Arrow) {
            let r = CompletableExpression { parent: String::new(), prefix: prefix.to_owned() };
            return r;
        }
        assert(t[k - 1] == tok_view(tokens@[k - 1]));
        let parent_end = tokens[k - 1].pos.start;
        let needs_deref = tokens[k - 1].ttype == ExpressionTokenType::Arrow;
        let mut paren: usize = 0;
        let mut bracket: usize = 0;
        let mut active = false;
        let mut prev: usize = slen;
        let mut idx: usize = k - 1;
        let mut begin: usize = 0;
        while idx > 0
            invariant_except_break
                begin == 0,
                parent_begin(t, k - 2, 0, 0, false, s@.len() as int) == parent_begin(
                    t,
                    idx - 1,
                    paren as int,
                    bracket as int,
                    active,
                    prev as int,
                ),
            invariant
                t == toks_view(tokens@),
                toks_wf(t, 0, s@.len() as int),
                idx <= k - 1,
                k <= n == tokens@.len(),
                paren <= k - 1 - idx,
                bracket <= k - 1 - idx,
                prev <= s@.len(),
            ensures
                parent_begin(t, k - 2, 0, 0, false, s@.len() as int) == begin,
            decreases idx,
        {
            let j = idx - 1;
            let tk = &tokens[j];
            assert(t[j as int] == tok_view(tokens@[j as int]));
            let ttype = tk.ttype;
            let start = tk.pos.start;
            match ttype {
                ExpressionTokenType::RParen => {
                    paren += 1;
                    active = false;
                },
                ExpressionTokenType::RBracket => {
                    bracket += 1;
                    active = false;
                },
                ExpressionTokenType::LParen => {
                    active = false;
                    if paren == 0 {
                        begin = prev;
                        break;
                    }
                    paren -= 1;
                },
                ExpressionTokenType::LBracket => {
                    active = false;
                    if bracket == 0 {
                        begin = prev;
                        break;
                    }
                    bracket -= 1;
                },
                ExpressionTokenType::Dot | ExpressionTokenType::Arrow => {
                    active = false;
                },
                other => {
                    if paren == 0 && bracket == 0 {
                        if other != ExpressionTokenType::Atom || active {
                            begin = prev;
                            break;
                        } else {
                            active = true;
                        }
                    }
                },
            }
            prev = start;
            idx -= 1;
        }
        let p = s.substring_char(begin, parent_end);
        let mut parent = String::new();
        if needs_deref {
            proof {
                reveal_strlit("*(");
                reveal_strlit(")");
            }
            push_str(&mut parent, "*(");
            push_str(&mut parent, p);
            push_str(&mut parent, ")");
        } else {
            push_str(&mut parent, p);
        }
        CompletableExpression { parent, prefix: prefix.to_owned() }
    }

    /// The parent and the prefix of the expression `s`, or the error of its
    /// tokenization.
    pub fn from_str(s: &str) -> (r: Result<Self, TokenizeError>)
        requires
            completable_defined(s@),
        ensures
            match r {
                Ok(e) => completable_expression_spec(s@) == Ok::<(Seq<char>, Seq<char>), TokenizeError>((e.parent@, e.prefix@)),
                Err(e) => completable_expression_spec(s@) == Err::<(Seq<char>, Seq<char>), TokenizeError>(e),
            },
    {
        let tokens = tokenize_expression(s)?;
        proof {
            lemma_tokens_wf(s@, 0, ExpressionTokenType::Atom);
        }
        Ok(Self::from_tokens(s, &tokens))
    }

    /// Like [`CompletableExpression::from_str`], for any text: `None` where
    /// the parent expression would have to begin after its end.
    pub fn from_str_checked(s: &str) -> (r: Option<Result<Self, TokenizeError>>)
        ensures
            r is None <==> !completable_defined(s@),
            r matches Some(Ok(e)) ==> completable_expression_spec(s@) == Ok::<(Seq<char>, Seq<char>), TokenizeError>((e.parent@, e.prefix@)),
            r matches Some(Err(e)) ==> completable_expression_spec(s@) == Err::<(Seq<char>, Seq<char>), TokenizeError>(e),
    {
        match tokenize_expression(s) {
            Err(e) => Some(Err(e)),
            Ok(tokens) => {
                proof {
                    lemma_tokens_wf(s@, 0, ExpressionTokenType::Atom);
                }
                if parent_is_found(s, &tokens) {
                    Some(Ok(Self::from_tokens(s, &tokens)))
                } else {
                    None
                }
            },
        }
    }
}

/// The scan for the parent stops at its previous token, or gives a start
/// no later than that of token `j`.
proof fn lemma_parent_begin_bound(t: Seq<Tok>, len: int, j: int, paren: int, bracket: int, active: bool, prev: int)
    requires
        toks_wf(t, 0, len),
        -1 <= j < t.len(),
    ensures
        parent_begin(t, j, paren, bracket, active, prev) == prev || parent_begin(
            t,
            j,
            paren,
            bracket,
            active,
            prev,
        ) <= (if j >= 0 {
            t[j].start
        } else {
            0
        }),
    decreases j + 1,
{
    if j >= 0 {
        let tk = t[j];
        lemma_parent_begin_bound(t, len, j - 1, paren + 1, bracket, false, tk.start);
        lemma_parent_begin_bound(t, len, j - 1, paren, bracket + 1, false, tk.start);
        lemma_parent_begin_bound(t, len, j - 1, paren - 1, bracket, false, tk.start);
        lemma_parent_begin_bound(t, len, j - 1, paren, bracket - 1, false, tk.start);
        lemma_parent_begin_bound(t, len, j - 1, paren, bracket, false, tk.start);
        lemma_parent_begin_bound(t, len, j - 1, paren, bracket, true, tk.start);
        lemma_parent_begin_bound(t, len, j - 1, paren, bracket, active, tk.start);
        if j > 0 {
            assert(t[j - 1].end <= t[j].start);
        }
    }
}

/// Decides [`parent_found`] for the tokens of `s`.
fn parent_is_found(s: &str, tokens: &Vec<ExpressionToken>) -> (r: bool)
    requires
        toks_wf(toks_view(tokens@), 0, s@.len() as int),
    ensures
        r == parent_found(s@, toks_view(tokens@)),
{
    let ghost t = toks_view(tokens@);
    let n = tokens.len();
    let slen = s.unicode_len();
    let k = if n > 0 && tokens[n - 1].ttype == ExpressionTokenType::Atom && tokens[n - 1].pos.end
        == slen {
        n - 1
    } else {
        n
    };
    assert(n > 0 ==> t[n - 1] == tok_view(tokens@[n - 1]));
    assert(k == prefix_split(s@, t).0);
    if k == 0 || !(tokens[k - 1].ttype == ExpressionTokenType::Dot || tokens[k - 1].ttype
        == ExpressionTokenType::Arrow) {
        return true;
    }
    assert(t[k - 1] == tok_view(tokens@[k - 1]));
    if k < 2 {
        return true;
    }
    let j = k - 2;
    assert(t[j as int] == tok_view(tokens@[j as int]));
    let ttype = tokens[j].ttype;
    proof {
        if j >= 0 {
            lemma_parent_begin_bound(t, s@.len() as int, j - 1, 0, 0, false, t[j as int].start);
            lemma_parent_begin_bound(t, s@.len() as int, j - 1, 1, 0, false, t[j as int].start);
            lemma_parent_begin_bound(t, s@.len() as int, j - 1, 0, 1, false, t[j as int].start);
            lemma_parent_begin_bound(t, s@.len() as int, j - 1, 0, 0, true, t[j as int].start);
            if j > 0 {
                assert(t[j - 1].end <= t[j as int].start);
            }
        }
    }
    ttype == ExpressionTokenType::Atom || ttype == ExpressionTokenType::RParen || ttype
        == ExpressionTokenType::RBracket || ttype == ExpressionTokenType::Dot || ttype
        == ExpressionTokenType::Arrow
}


/// The kind of token `k` of a chain of member accesses: an atom at even
/// positions, an access (`.` or `->`) at odd ones.
pub open spec fn chain_kind(t: Seq<Tok>, k: int) -> bool {
    if k % 2 == 0 {
        t[k].ttype == ExpressionTokenType::Atom
    } else {
        t[k].ttype == ExpressionTokenType::Dot || t[k].ttype == ExpressionTokenType::Arrow
    }
}

/// Tokens that form a chain of member accesses `x1.x2->x3...xn`: atoms and
/// accesses in turn, beginning and ending with an atom.
pub open spec fn access_chain(t: Seq<Tok>) -> bool {
    &&& t.len() % 2 == 1
    &&& forall|k: int| 0 <= k < t.len() ==> #[trigger] chain_kind(t, k)
}

proof fn lemma_chain_scan(t: Seq<Tok>, j: int, active: bool, prev: int)
    requires
        access_chain(t),
        -1 <= j < t.len(),
        j >= 0 && j % 2 == 0 ==> !active,
    ensures
        parent_begin(t, j, 0, 0, active, prev) == 0,
    decreases j + 1,
{
    if j >= 0 {
        assert(chain_kind(t, j));
        if j % 2 == 0 {
            lemma_chain_scan(t, j - 1, true, t[j].start);
        } else {
            lemma_chain_scan(t, j - 1, false, t[j].start);
        }
    }
}

/// Completing a chain of member accesses that ends in the text's last atom
/// (`foo.bar.ba`, `p->next->va`) completes the members of everything before
/// the last access: the parent is the text up to the last `.` (wrapped as
/// `*(...)` for a last `->`), whatever the length of the chain, and the
/// prefix is the last atom.
pub proof fn lemma_member_chain_completion(s: Seq<char>, t: Seq<Tok>)
    requires
        toks_wf(t, 0, s.len() as int),
        access_chain(t),
        t.len() >= 3,
        t.last().end == s.len(),
    ensures
        parent_found(s, t),
        completable_spec(s, t).1 == s.subrange(t.last().start, s.len() as int),
        completable_spec(s, t).0 == (if t[t.len() - 2].ttype == ExpressionTokenType::Dot {
            s.subrange(0, t[t.len() - 2].start)
        } else {
            seq!['*', '('] + s.subrange(0, t[t.len() - 2].start) + seq![')']
        }),
        tokens_spec(s) == Ok::<Seq<Tok>, TokenizeError>(t) ==> completable_defined(s)
            && completable_expression_spec(s) == Ok::<(Seq<char>, Seq<char>), TokenizeError>(completable_spec(s, t)),
{
    let n = t.len() as int;
    assert(chain_kind(t, n - 1));
    assert(chain_kind(t, n - 2));
    lemma_chain_scan(t, n - 3, false, s.len() as int);
}


/// Atoms joined by dots: `x1.x2...xn`.
pub open spec fn dot_chain(xs: Seq<Seq<char>>) -> Seq<char>
    decreases xs.len(),
{
    if xs.len() == 0 {
        Seq::empty()
    } else if xs.len() == 1 {
        xs[0]
    } else {
        xs[0] + seq!['.'] + dot_chain(xs.drop_first())
    }
}

/// A character of an identifier or number that has no other meaning to the
/// tokenizer.
pub open spec fn atom_only(c: char) -> bool {
    &&& atom_char(c)
    &&& !(c == ' ' || c == '\t' || c == '\n' || c == '(' || c == '[' || c == ')' || c == ']' || c == '*'
        || c == '.' || c == '-' || c == '"')
}

/// Each of `xs` is a non-empty run of [`atom_only`] characters.
pub open spec fn atoms(xs: Seq<Seq<char>>) -> bool {
    &&& forall|k: int| 0 <= k < xs.len() ==> (#[trigger] xs[k]).len() > 0
    &&& forall|k: int, j: int| 0 <= k < xs.len() && 0 <= j < xs[k].len() ==> atom_only(#[trigger] xs[k][j])
}

/// The tokens of a dot chain that starts at `i`.
pub open spec fn chain_toks(xs: Seq<Seq<char>>, i: int) -> Seq<Tok>
    decreases xs.len(),
{
    if xs.len() == 0 {
        Seq::empty()
    } else if xs.len() == 1 {
        seq![tok(ExpressionTokenType::Atom, i, i + xs[0].len())]
    } else {
        let e = i + xs[0].len();
        seq![tok(ExpressionTokenType::Atom, i, e), tok(ExpressionTokenType::Dot, e, e + 1)]
            + chain_toks(xs.drop_first(), e + 1)
    }
}

proof fn lemma_atom_run_end(s: Seq<char>, j: int, e: int)
    requires
        0 <= j <= e <= s.len(),
        forall|k: int| j <= k < e ==> atom_char(#[trigger] s[k]),
        e == s.len() || !atom_char(s[e]),
    ensures
        atom_end(s, j) == e,
    decreases e - j,
{
    if j < e {
        lemma_atom_run_end(s, j + 1, e);
    }
}

proof fn lemma_dot_chain_len(xs: Seq<Seq<char>>)
    requires
        xs.len() >= 1,
    ensures
        dot_chain(xs).len() >= xs[0].len(),
        xs.len() >= 2 ==> dot_chain(xs) == dot_chain(xs.drop_last()) + seq!['.'] + xs.last(),
        xs.len() == 1 ==> dot_chain(xs) == xs[0],
    decreases xs.len(),
{
    if xs.len() >= 2 {
        lemma_dot_chain_len(xs.drop_first());
        if xs.len() == 2 {
            assert(xs.drop_last() =~= seq![xs[0]]);
            assert(xs.drop_first() =~= seq![xs[1]]);
        } else {
            assert(xs.drop_first().drop_last() =~= xs.drop_last().drop_first());
            assert(xs.drop_last()[0] == xs[0]);
            assert(xs.drop_first().last() == xs.last());
            assert(dot_chain(xs) =~= dot_chain(xs.drop_last()) + seq!['.'] + xs.last());
        }
    }
}

proof fn lemma_chain_tokens(xs: Seq<Seq<char>>, s: Seq<char>, i: int)
    requires
        xs.len() >= 1,
        atoms(xs),
        !atom_char('.'),
        0 <= i <= s.len(),
        s.subrange(i, s.len() as int) == dot_chain(xs),
    ensures
        tokens_from(s, i, ExpressionTokenType::Atom) == Ok::<Seq<Tok>, TokenizeError>(chain_toks(xs, i)),
    decreases xs.len(),
{
    lemma_dot_chain_len(xs);
    let x = xs[0];
    let e = i + x.len();
    let rest = s.subrange(i, s.len() as int);
    assert(x.len() > 0 && atom_only(x[0])) by {
        assert(xs[0].len() > 0);
        assert(atom_only(xs[0][0]));
    }
    assert forall|k: int| i <= k < e implies #[trigger] s[k] == x[k - i] && atom_char(s[k]) by {
        assert(s[k] == rest[k - i]);
        if xs.len() == 1 {
            assert(rest[k - i] == x[k - i]);
        } else {
            assert(rest[k - i] == (x + seq!['.'] + dot_chain(xs.drop_first()))[k - i]);
        }
        assert(atom_only(xs[0][k - i]));
    }
    if xs.len() == 1 {
        assert(e == s.len());
        lemma_atom_run_end(s, i + 1, e);
        assert(tokens_from(s, e, ExpressionTokenType::Atom) == Ok::<Seq<Tok>, TokenizeError>(Seq::empty()));
        assert(seq![tok(ExpressionTokenType::Atom, i, e)] + Seq::<Tok>::empty() =~= chain_toks(xs, i));
    } else {
        let tail = dot_chain(xs.drop_first());
        assert(rest =~= x + seq!['.'] + tail);
        assert(s[e] == '.') by {
            assert(s[e] == rest[e - i]);
        }
        lemma_atom_run_end(s, i + 1, e);
        assert(s.subrange(e + 1, s.len() as int) =~= tail) by {
            assert forall|k: int| 0 <= k < tail.len() implies s.subrange(e + 1, s.len() as int)[k] == tail[k] by {
                assert(s[e + 1 + k] == rest[e + 1 + k - i]);
            }
        }
        assert(atoms(xs.drop_first())) by {
            assert forall|k: int| 0 <= k < xs.drop_first().len() implies (#[trigger] xs.drop_first()[k]).len() > 0 by {
                assert(xs.drop_first()[k] == xs[k + 1]);
            }
            assert forall|k: int, j: int| 0 <= k < xs.drop_first().len() && 0 <= j < xs.drop_first()[k].len() implies atom_only(#[trigger] xs.drop_first()[k][j]) by {
                assert(xs.drop_first()[k] == xs[k + 1]);
                assert(atom_only(xs[k + 1][j]));
            }
        }
        lemma_chain_tokens(xs.drop_first(), s, e + 1);
        assert(seq![tok(ExpressionTokenType::Atom, i, e)] + (seq![tok(ExpressionTokenType::Dot, e, e + 1)]
            + chain_toks(xs.drop_first(), e + 1)) =~= chain_toks(xs, i));
    }
}

proof fn lemma_chain_toks_shape(xs: Seq<Seq<char>>, i: int)
    requires
        xs.len() >= 1,
    ensures
        chain_toks(xs, i).len() == 2 * xs.len() - 1,
        access_chain(chain_toks(xs, i)),
        chain_toks(xs, i).last() == tok(ExpressionTokenType::Atom, i + dot_chain(xs).len() - xs.last().len(), i + dot_chain(xs).len()),
        xs.len() >= 2 ==> chain_toks(xs, i)[2 * xs.len() - 3] == tok(
            ExpressionTokenType::Dot,
            i + dot_chain(xs).len() - xs.last().len() - 1,
            i + dot_chain(xs).len() - xs.last().len(),
        ),
    decreases xs.len(),
{
    let t = chain_toks(xs, i);
    if xs.len() >= 2 {
        let e = i + xs[0].len();
        let r = chain_toks(xs.drop_first(), e + 1);
        lemma_chain_toks_shape(xs.drop_first(), e + 1);
        assert(t =~= seq![tok(ExpressionTokenType::Atom, i, e), tok(ExpressionTokenType::Dot, e, e + 1)] + r);
        assert(xs.drop_first().last() == xs.last());
        assert forall|k: int| 0 <= k < t.len() implies #[trigger] chain_kind(t, k) by {
            if k >= 2 {
                assert(t[k] == r[k - 2]);
                assert(chain_kind(r, k - 2));
            }
        }
        if xs.len() == 2 {
            assert(xs.drop_first() =~= seq![xs[1]]);
        } else {
            assert(t[2 * xs.len() - 3] == r[2 * xs.len() - 5]);
        }
    }
}

/// Completing atoms joined by dots, `x1.x2...xn` (n at least 2), gives the
/// chain before the last dot, `x1.x2...x(n-1)`, as the parent and the last
/// atom `xn` as the prefix. (This rests on `.` not being alphanumeric, as
/// `char::is_alphanumeric` has it.)
pub proof fn lemma_dot_chain_completion(xs: Seq<Seq<char>>)
    requires
        xs.len() >= 2,
        atoms(xs),
        !atom_char('.'),
    ensures
        completable_defined(dot_chain(xs)),
        completable_expression_spec(dot_chain(xs)) == Ok::<(Seq<char>, Seq<char>), TokenizeError>(
            (dot_chain(xs.drop_last()), xs.last()),
        ),
{
    let s = dot_chain(xs);
    assert(s.subrange(0, s.len() as int) =~= s);
    lemma_chain_tokens(xs, s, 0);
    lemma_chain_toks_shape(xs, 0);
    lemma_tokens_wf(s, 0, ExpressionTokenType::Atom);
    let t = chain_toks(xs, 0);
    lemma_member_chain_completion(s, t);
    lemma_dot_chain_len(xs);
    let p = dot_chain(xs.drop_last());
    assert(s.subrange(0, p.len() as int) =~= p);
    assert(s.subrange(s.len() - xs.last().len(), s.len() as int) =~= xs.last());
}

} // verus!
