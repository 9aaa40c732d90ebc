//! The tokens of values as gdb prints them: brackets, commas, equal signs,
//! line breaks, string literals and runs of other text. Tokens carry their
//! location in the input; runs of text do not include trailing blanks.
use vstd::prelude::*;
use vstd::string::StringSliceAdditionalSpecFns;
use vstd::utf8::{encode_utf8, encode_scalar};
use crate::text::chars_of;

verus! {

/// A location in the input.
pub type Location = usize;

/// A token with the locations of its start and end.
pub type TokenWithLocation = (Location, Token, Location);

/// The kinds of tokens.
#[derive(Copy, Clone, Debug, PartialEq, Eq, Structural)]
pub enum Token {
    LBracket,
    RBracket,
    LBrace,
    RBrace,
    LSquareBracket,
    RSquareBracket,
    LPointyBracket,
    RPointyBracket,
    Comma,
    Equals,
    String,
    Text,
    Newline,
}

/// What the lexer has seen of the token being read.
#[derive(Copy, Clone, Debug)]
pub enum LexerState {
    /// Between tokens.
    Free,
    /// A one-character token was read and is yet to be handed out.
    PendingOutput(TokenWithLocation),
    /// Inside a string literal that begins at the location.
    InString(Location),
    /// Inside a string literal, right after a backslash.
    InStringEscapedChar(Location),
    /// Inside a run of text; the second location is the end of its last
    /// character that is not a blank.
    InText(Location, Location),
}

/// The input ends inside a string literal.
#[derive(Copy, Clone, Debug, PartialEq, Eq, Structural)]
pub enum LexicalError {
    UnfinishedString { begin_index: Location },
}

/// The token that a character stands for on its own, if any.
pub open spec fn single_token(c: char) -> Option<Token> {
    if c == '{' {
        Some(Token::LBrace)
    } else if c == '}' {
        Some(Token::RBrace)
    } else if c == '[' {
        Some(Token::LSquareBracket)
    } else if c == ']' {
        Some(Token::RSquareBracket)
    } else if c == '(' {
        Some(Token::LBracket)
    } else if c == ')' {
        Some(Token::RBracket)
    } else if c == '<' {
        Some(Token::LPointyBracket)
    } else if c == '>' {
        Some(Token::RPointyBracket)
    } else if c == ',' {
        Some(Token::Comma)
    } else if c == '=' {
        Some(Token::Equals)
    } else if c == '\n' {
        Some(Token::Newline)
    } else {
        None
    }
}

pub open spec fn is_blank(c: char) -> bool {
    c == ' ' || c == '\t'
}

/// One step of the lexer: the character `c` that occupies the locations
/// `l0` to `l1` moves the lexer from `st` to a new state, and may complete
/// a token.
pub open spec fn lex_step(st: LexerState, c: char, l0: Location, l1: Location) -> (Option<TokenWithLocation>, LexerState) {
    match st {
        LexerState::InString(begin) => {
            if c == '"' {
                (Some((begin, Token::String, l1)), LexerState::Free)
            } else if c == '\\' {
                (None, LexerState::InStringEscapedChar(begin))
            } else {
                (None, LexerState::InString(begin))
            }
        },
        LexerState::InStringEscapedChar(begin) => (None, LexerState::InString(begin)),
        LexerState::InText(begin, end) => {
            if c == '"' {
                (Some((begin, Token::Text, end)), LexerState::InString(l0))
            } else if let Some(t) = single_token(c) {
                (Some((begin, Token::Text, end)), LexerState::PendingOutput((l0, t, l1)))
            } else if is_blank(c) {
                (None, LexerState::InText(begin, end))
            } else {
                (None, LexerState::InText(begin, l1))
            }
        },
        LexerState::Free => {
            if c == '"' {
                (None, LexerState::InString(l0))
            } else if let Some(t) = single_token(c) {
                (Some((l0, t, l1)), LexerState::Free)
            } else if is_blank(c) {
                (None, LexerState::Free)
            } else {
                (None, LexerState::InText(l0, l1))
            }
        },
        LexerState::PendingOutput(output) => {
            if c == '"' {
                (Some(output), LexerState::InString(l0))
            } else if let Some(t) = single_token(c) {
                (Some(output), LexerState::PendingOutput((l0, t, l1)))
            } else if is_blank(c) {
                (Some(output), LexerState::Free)
            } else {
                (Some(output), LexerState::InText(l0, l1))
            }
        },
    }
}

/// What the lexer hands out at the end of the input in state `st`, and its
/// state afterwards.
pub open spec fn lex_finish(st: LexerState) -> (Option<Result<TokenWithLocation, LexicalError>>, LexerState) {
    match st {
        LexerState::Free => (None, LexerState::Free),
        LexerState::PendingOutput(output) => (Some(Ok(output)), LexerState::Free),
        LexerState::InString(begin) => (
            Some(Err(LexicalError::UnfinishedString { begin_index: begin })),
            LexerState::Free,
        ),
        LexerState::InStringEscapedChar(begin) => (
            Some(Err(LexicalError::UnfinishedString { begin_index: begin })),
            LexerState::Free,
        ),
        LexerState::InText(begin, end) => (Some(Ok((begin, Token::Text, end))), LexerState::Free),
    }
}

/// The location of the character with index `k` of `s`: its byte offset in
/// the UTF-8 encoding, or the character index itself.
pub open spec fn loc(s: Seq<char>, k: int, bytes: bool) -> int {
    if bytes {
        encode_utf8(s.take(k)).len() as int
    } else {
        k
    }
}

/// The next item of the lexer on `s` at character `i` in state `st`: a
/// token or an error (or nothing at the end), the character index after it
/// and the new state.
pub open spec fn lex_next(s: Seq<char>, i: int, st: LexerState, bytes: bool) -> (Option<Result<TokenWithLocation, LexicalError>>, int, LexerState)
    decreases s.len() - i,
{
    if i < 0 || i >= s.len() {
        let (out, st2) = lex_finish(st);
        (out, i, st2)
    } else {
        let (out, st2) = lex_step(
            st,
            s[i],
            loc(s, i, bytes) as usize,
            loc(s, i + 1, bytes) as usize,
        );
        match out {
            Some(t) => (Some(Ok(t)), i + 1, st2),
            None => lex_next(s, i + 1, st2, bytes),
        }
    }
}

/// All tokens of `s` from character `i` on in state `st`, or the first
/// error.
pub open spec fn lex_all(s: Seq<char>, i: int, st: LexerState, bytes: bool) -> Result<Seq<TokenWithLocation>, LexicalError>
    decreases s.len() + 1 - i, if st is Free { 0int } else { 1int },
{
    let (out, i2, st2) = lex_next(s, i, st, bytes);
    match out {
        None => Ok(Seq::empty()),
        Some(Err(e)) => Err(e),
        Some(Ok(t)) => {
            if !((i < i2 <= s.len()) || (i2 == i && st2 is Free && !(st is Free))) {
                Ok(seq![t])
            } else {
                match lex_all(s, i2, st2, bytes) {
                    Ok(rest) => Ok(seq![t] + rest),
                    Err(e) => Err(e),
                }
            }
        },
    }
}

/// The lexer: the characters of the input, the index of the next one to
/// read, whether locations are byte offsets (else character indices), the
/// byte offset of the next character, and the state.
pub struct Lexer {
    chars: Vec<char>,
    pos: usize,
    bytes: bool,
    byte_pos: usize,
    state: LexerState,
}

/// The mathematical form of a [`Lexer`].
pub struct LexerView {
    pub input: Seq<char>,
    pub pos: int,
    pub bytes: bool,
    pub state: LexerState,
}

impl View for Lexer {
    type V = LexerView;

    closed spec fn view(&self) -> LexerView {
        LexerView { input: self.chars@, pos: self.pos as int, bytes: self.bytes, state: self.state }
    }
}

/// The UTF-8 encoding of a concatenation is the concatenation of the
/// encodings.
pub proof fn lemma_encode_concat(a: Seq<char>, b: Seq<char>)
    ensures
        encode_utf8(a + b) == encode_utf8(a) + encode_utf8(b),
    decreases a.len(),
{
    if a.len() == 0 {
        assert(a + b =~= b);
        assert(encode_utf8(a) =~= Seq::<u8>::empty());
        assert(Seq::<u8>::empty() + encode_utf8(b) =~= encode_utf8(b));
    } else {
        assert((a + b).drop_first() =~= a.drop_first() + b);
        assert((a + b)[0] == a[0]);
        lemma_encode_concat(a.drop_first(), b);
        assert(encode_scalar(a[0] as u32) + (encode_utf8(a.drop_first()) + encode_utf8(b))
            =~= (encode_scalar(a[0] as u32) + encode_utf8(a.drop_first())) + encode_utf8(b));
    }
}

proof fn lemma_loc_step(s: Seq<char>, k: int)
    requires
        0 <= k < s.len(),
    ensures
        encode_utf8(s.take(k + 1)).len() == encode_utf8(s.take(k)).len() + encode_scalar(
            s[k] as u32,
        ).len(),
        encode_utf8(s.take(k + 1)).len() <= encode_utf8(s).len(),
{
    assert(s.take(k + 1) =~= s.take(k) + seq![s[k]]);
    lemma_encode_concat(s.take(k), seq![s[k]]);
    assert(seq![s[k]].drop_first() =~= Seq::<char>::empty());
    assert(encode_utf8(seq![s[k]]) =~= encode_scalar(s[k] as u32) + encode_utf8(
        Seq::<char>::empty(),
    ));
    assert(s =~= s.take(k + 1) + s.skip(k + 1));
    lemma_encode_concat(s.take(k + 1), s.skip(k + 1));
}

/// The number of bytes of the UTF-8 encoding of `c`.
fn len_utf8(c: char) -> (r: usize)
    ensures
        r == encode_scalar(c as u32).len(),
{
    let v = c as u32;
    if v <= 0x7F {
        1
    } else if v <= 0x7FF {
        2
    } else if v <= 0xFFFF {
        proof {
            vstd::utf8::char_is_scalar(c);
        }
        3
    } else {
        4
    }
}

/// The token that the character stands for on its own, if any.
fn single_token_exec(c: char) -> (r: Option<Token>)
    ensures
        r == single_token(c),
{
    if c == '{' {
        Some(Token::LBrace)
    } else if c == '}' {
        Some(Token::RBrace)
    } else if c == '[' {
        Some(Token::LSquareBracket)
    } else if c == ']' {
        Some(Token::RSquareBracket)
    } else if c == '(' {
        Some(Token::LBracket)
    } else if c == ')' {
        Some(Token::RBracket)
    } else if c == '<' {
        Some(Token::LPointyBracket)
    } else if c == '>' {
        Some(Token::RPointyBracket)
    } else if c == ',' {
        Some(Token::Comma)
    } else if c == '=' {
        Some(Token::Equals)
    } else if c == '\n' {
        Some(Token::Newline)
    } else {
        None
    }
}

/// One step of the lexer (see [`lex_step`]).
fn step(st: LexerState, c: char, l0: Location, l1: Location) -> (r: (Option<TokenWithLocation>, LexerState))
    ensures
        r == lex_step(st, c, l0, l1),
{
    let single = single_token_exec(c);
    let blank = c == ' ' || c == '\t';
    match st {
        LexerState::InString(begin) => {
            if c == '"' {
                (Some((begin, Token::String, l1)), LexerState::Free)
            } else if c == '\\' {
                (None, LexerState::InStringEscapedChar(begin))
            } else {
                (None, LexerState::InString(begin))
            }
        },
        LexerState::InStringEscapedChar(begin) => (None, LexerState::InString(begin)),
        LexerState::InText(begin, end) => {
            if c == '"' {
                (Some((begin, Token::Text, end)), LexerState::InString(l0))
            } else if let Some(t) = single {
                (Some((begin, Token::Text, end)), LexerState::PendingOutput((l0, t, l1)))
            } else if blank {
                (None, LexerState::InText(begin, end))
            } else {
                (None, LexerState::InText(begin, l1))
            }
        },
        LexerState::Free => {
            if c == '"' {
                (None, LexerState::InString(l0))
            } else if let Some(t) = single {
                (Some((l0, t, l1)), LexerState::Free)
            } else if blank {
                (None, LexerState::Free)
            } else {
                (None, LexerState::InText(l0, l1))
            }
        },
        LexerState::PendingOutput(output) => {
            if c == '"' {
                (Some(output), LexerState::InString(l0))
            } else if let Some(t) = single {
                (Some(output), LexerState::PendingOutput((l0, t, l1)))
            } else if blank {
                (Some(output), LexerState::Free)
            } else {
                (Some(output), LexerState::InText(l0, l1))
            }
        },
    }
}

impl Lexer {
    /// The lexer invariant: the byte offset matches the character index.
    pub closed spec fn wf(&self) -> bool {
        &&& self.pos <= self.chars@.len()
        &&& self.byte_pos == encode_utf8(self.chars@.take(self.pos as int)).len()
        &&& encode_utf8(self.chars@).len() <= usize::MAX
    }

    /// A lexer at the start of `input`; locations are byte offsets. A token
    /// ends after the last byte of its last character, multi-byte ones
    /// included, so that each token is a slice of the input (see
    /// [`lemma_lex_all_placed`]).
    pub fn new(input: &str) -> (r: Self)
        ensures
            r.wf(),
            r@ == (LexerView { input: input@, pos: 0, bytes: true, state: LexerState::Free }),
    {
        Self::with_locations(input, true)
    }

    /// A lexer at the start of `input`; locations are byte offsets if
    /// `bytes`, else character indices.
    pub fn with_locations(input: &str, bytes: bool) -> (r: Self)
        ensures
            r.wf(),
            r@ == (LexerView { input: input@, pos: 0, bytes, state: LexerState::Free }),
    {
        let chars = chars_of(input);
        let b = input.as_bytes();
        let _n = b.len();
        proof {
            assert(chars@.take(0) =~= Seq::<char>::empty());
        }
        Lexer { chars, pos: 0, bytes, byte_pos: 0, state: LexerState::Free }
    }

    /// The next token, or the error at the end of the input, or `None` when
    /// the input is exhausted.
    pub fn next(&mut self) -> (r: Option<Result<TokenWithLocation, LexicalError>>)
        requires
            old(self).wf(),
        ensures
            final(self).wf(),
            final(self)@.input == old(self)@.input,
            final(self)@.bytes == old(self)@.bytes,
            (r, final(self)@.pos, final(self)@.state) == lex_next(
                old(self)@.input,
                old(self)@.pos,
                old(self)@.state,
                old(self)@.bytes,
            ),
    {
        let ghost s = self.chars@;
        let ghost bytes = self.bytes;
        while self.pos < self.chars.len()
            invariant
                self.wf(),
                self.chars@ == s,
                self.bytes == bytes,
                s == old(self)@.input,
                bytes == old(self)@.bytes,
                lex_next(s, self.pos as int, self.state, bytes) == lex_next(
                    old(self)@.input,
                    old(self)@.pos,
                    old(self)@.state,
                    old(self)@.bytes,
                ),
            decreases s.len() - self.pos,
        {
            let c = self.chars[self.pos];
            proof {
                lemma_loc_step(s, self.pos as int);
            }
            let next_byte = self.byte_pos + len_utf8(c);
            let l0 = if self.bytes {
                self.byte_pos
            } else {
                self.pos
            };
            let l1 = if self.bytes {
                next_byte
            } else {
                self.pos + 1
            };
            let (out, st) = step(self.state, c, l0, l1);
            self.state = st;
            self.pos = self.pos + 1;
            self.byte_pos = next_byte;
            if let Some(t) = out {
                return Some(Ok(t));
            }
        }
        match self.state {
            LexerState::Free => None,
            LexerState::PendingOutput(output) => {
                self.state = LexerState::Free;
                Some(Ok(output))
            },
            LexerState::InString(begin) | LexerState::InStringEscapedChar(begin) => {
                self.state = LexerState::Free;
                Some(Err(LexicalError::UnfinishedString { begin_index: begin }))
            },
            LexerState::InText(begin, end) => {
                self.state = LexerState::Free;
                Some(Ok((begin, Token::Text, end)))
            },
        }
    }

    /// All remaining tokens, in order, or the first error.
    pub fn collect_tokens(&mut self) -> (r: Result<Vec<TokenWithLocation>, LexicalError>)
        requires
            old(self).wf(),
        ensures
            match r {
                Ok(v) => lex_all(old(self)@.input, old(self)@.pos, old(self)@.state, old(self)@.bytes) == Ok::<Seq<TokenWithLocation>, LexicalError>(v@),
                Err(e) => lex_all(old(self)@.input, old(self)@.pos, old(self)@.state, old(self)@.bytes) == Err::<Seq<TokenWithLocation>, LexicalError>(e),
            },
    {
        let mut out: Vec<TokenWithLocation> = Vec::new();
        loop
            invariant
                self.wf(),
                self@.input == old(self)@.input,
                self@.bytes == old(self)@.bytes,
                match lex_all(self@.input, self@.pos, self@.state, self@.bytes) {
                    Ok(rest) => lex_all(old(self)@.input, old(self)@.pos, old(self)@.state, old(self)@.bytes) == Ok::<Seq<TokenWithLocation>, LexicalError>(out@ + rest),
                    Err(e) => lex_all(old(self)@.input, old(self)@.pos, old(self)@.state, old(self)@.bytes) == Err::<Seq<TokenWithLocation>, LexicalError>(e),
                },
            decreases self@.input.len() + 1 - self@.pos, if self@.state is Free { 0int } else { 1int },
        {
            let ghost i = self@.pos;
            let ghost st = self@.state;
            match self.next() {
                None => {
                    assert(out@ + Seq::<TokenWithLocation>::empty() =~= out@);
                    return Ok(out);
                },
                Some(Err(e)) => {
                    return Err(e);
                },
                Some(Ok(t)) => {
                    proof {
                        lemma_lex_next_progress(self@.input, i, st, self@.bytes);
                    }
                    let ghost before = out@;
                    out.push(t);
                    proof {
                        if let Ok(rest) = lex_all(self@.input, self@.pos, self@.state, self@.bytes) {
                            assert(before + (seq![t] + rest) =~= out@ + rest);
                        }
                    }
                },
            }
        }
    }
}

/// A token handed out by the lexer either consumed a character or ended
/// the input, leaving the lexer in the free state.
proof fn lemma_lex_next_progress(s: Seq<char>, i: int, st: LexerState, bytes: bool)
    requires
        0 <= i <= s.len(),
    ensures
        lex_next(s, i, st, bytes).0 is Some ==> (i < lex_next(s, i, st, bytes).1 <= s.len() || (
        lex_next(s, i, st, bytes).1 == i == s.len() && lex_next(s, i, st, bytes).2 is Free
            && !(st is Free))),
    decreases s.len() - i,
{
    if i < s.len() {
        let (out, st2) = lex_step(st, s[i], loc(s, i, bytes) as usize, loc(s, i + 1, bytes) as usize);
        if out is None {
            lemma_lex_next_progress(s, i + 1, st2, bytes);
        }
    }
}

/// The tokens `v` lie between `lo` and `hi`, each ends no earlier than it
/// starts, and each starts no earlier than the previous one ends.
pub open spec fn toks_ordered(v: Seq<TokenWithLocation>, lo: int, hi: int) -> bool {
    &&& forall|k: int| 0 <= k < v.len() ==> lo <= (#[trigger] v[k]).0 <= v[k].2 <= hi
    &&& forall|k: int, m: int| 0 <= k < m < v.len() ==> (#[trigger] v[k]).2 <= (#[trigger] v[m]).0
}

/// The locations that a state holds are ordered, no earlier than `last`
/// and no later than `i`.
pub open spec fn state_ordered(st: LexerState, i: int, last: int) -> bool {
    match st {
        LexerState::Free => last <= i,
        LexerState::PendingOutput((b, _t, e)) => last <= b <= e <= i,
        LexerState::InString(b) => last <= b <= i,
        LexerState::InStringEscapedChar(b) => last <= b <= i,
        LexerState::InText(b, e) => last <= b <= e <= i,
    }
}

proof fn lemma_lex_next_ordered(s: Seq<char>, i: int, st: LexerState, last: int)
    requires
        0 <= i <= s.len(),
        state_ordered(st, i, last),
        s.len() <= usize::MAX,
    ensures
        lex_next(s, i, st, false).0 matches Some(Ok(t)) ==> last <= t.0 <= t.2 <= lex_next(
            s,
            i,
            st,
            false,
        ).1 <= s.len() && state_ordered(lex_next(s, i, st, false).2, lex_next(s, i, st, false).1, t.2 as int),
        i <= lex_next(s, i, st, false).1 <= s.len(),
    decreases s.len() - i,
{
    if i < s.len() {
        let (out, st2) = lex_step(st, s[i], i as usize, (i + 1) as usize);
        if out is None {
            lemma_lex_next_ordered(s, i + 1, st2, last);
        }
    }
}

/// With character locations, the tokens lie within the input and come in
/// order.
pub proof fn lemma_lex_all_ordered(s: Seq<char>, i: int, st: LexerState, last: int)
    requires
        0 <= i <= s.len(),
        state_ordered(st, i, last),
        s.len() <= usize::MAX,
    ensures
        lex_all(s, i, st, false) matches Ok(v) ==> toks_ordered(v, last, s.len() as int),
    decreases s.len() + 1 - i, if st is Free { 0int } else { 1int },
{
    lemma_lex_next_ordered(s, i, st, last);
    lemma_lex_next_progress(s, i, st, false);
    let (out, i2, st2) = lex_next(s, i, st, false);
    if let Some(Ok(t)) = out {
        if (i < i2 <= s.len()) || (i2 == i && st2 is Free && !(st is Free)) {
            lemma_lex_all_ordered(s, i2, st2, t.2 as int);
            if let Ok(rest) = lex_all(s, i2, st2, false) {
                let v = seq![t] + rest;
                assert forall|k: int| 0 <= k < v.len() implies last <= (#[trigger] v[k]).0 <= v[k].2
                    <= s.len() by {
                    if k > 0 {
                        assert(v[k] == rest[k - 1]);
                    }
                }
                assert forall|k: int, m: int| 0 <= k < m < v.len() implies (#[trigger] v[k]).2
                    <= (#[trigger] v[m]).0 by {
                    assert(v[m] == rest[m - 1]);
                    if k > 0 {
                        assert(v[k] == rest[k - 1]);
                    }
                }
            }
        }
    }
}


/// Each character moves the location forwards: by its encoded length for
/// byte offsets, by one for character indices.
proof fn lemma_loc_next(s: Seq<char>, k: int, bytes: bool)
    requires
        0 <= k < s.len(),
    ensures
        loc(s, k, bytes) < loc(s, k + 1, bytes) <= loc(s, s.len() as int, bytes),
{
    if bytes {
        lemma_loc_step(s, k);
        assert(s.take(s.len() as int) =~= s);
    }
}

/// Locations grow with the character index.
proof fn lemma_loc_mono(s: Seq<char>, j: int, k: int, bytes: bool)
    requires
        0 <= j <= k <= s.len(),
    ensures
        loc(s, j, bytes) <= loc(s, k, bytes) <= loc(s, s.len() as int, bytes),
        j < k ==> loc(s, j, bytes) < loc(s, k, bytes),
    decreases s.len() - j,
{
    if j < k {
        lemma_loc_next(s, j, bytes);
        lemma_loc_mono(s, j + 1, k, bytes);
    } else if k < s.len() {
        lemma_loc_next(s, k, bytes);
        lemma_loc_mono(s, k + 1, s.len() as int, bytes);
    }
}

/// Whether `x` is the location of a character of `s` or of its end: for
/// byte offsets, a boundary between the encodings of two characters.
pub open spec fn at_boundary(s: Seq<char>, x: int, bytes: bool) -> bool {
    exists|k: int| 0 <= k <= s.len() && #[trigger] loc(s, k, bytes) == x
}

/// The token `t` starts at a boundary no earlier than `last`, ends at a
/// later boundary, and ends no later than `hi`.
pub open spec fn tok_placed(s: Seq<char>, t: TokenWithLocation, last: int, hi: int, bytes: bool) -> bool {
    &&& last <= t.0 < t.2 <= hi
    &&& at_boundary(s, t.0 as int, bytes)
    &&& at_boundary(s, t.2 as int, bytes)
}

/// The tokens `v` lie within `s` between boundaries, each ends after it
/// starts, and each starts no earlier than the previous one ends.
pub open spec fn toks_placed(s: Seq<char>, v: Seq<TokenWithLocation>, bytes: bool) -> bool {
    &&& forall|k: int| 0 <= k < v.len() ==> tok_placed(s, #[trigger] v[k], 0, loc(s, s.len() as int, bytes), bytes)
    &&& forall|k: int, m: int| 0 <= k < m < v.len() ==> (#[trigger] v[k]).2 <= (#[trigger] v[m]).0
}

/// The locations that the state holds, at character `i` of `s`, lie at
/// boundaries no earlier than `last`, and those of a token being read
/// before the location of `i`.
pub open spec fn state_placed(s: Seq<char>, st: LexerState, i: int, last: int, bytes: bool) -> bool {
    match st {
        LexerState::Free => last <= loc(s, i, bytes),
        LexerState::PendingOutput(t) => tok_placed(s, t, last, loc(s, i, bytes), bytes),
        LexerState::InString(b) => last <= b < loc(s, i, bytes) && at_boundary(s, b as int, bytes),
        LexerState::InStringEscapedChar(b) => last <= b < loc(s, i, bytes) && at_boundary(s, b as int, bytes),
        LexerState::InText(b, e) => tok_placed(s, (b, Token::Text, e), last, loc(s, i, bytes), bytes),
    }
}

/// What the lexer hands out on `s` from character `i` in a placed state is
/// placed: a token starts no earlier than `last`, ends after it starts,
/// both at boundaries, and the lexer is left in a state placed after the
/// token.
pub proof fn lemma_lex_next_placed(s: Seq<char>, i: int, st: LexerState, last: int, bytes: bool)
    requires
        0 <= i <= s.len(),
        s.len() <= usize::MAX,
        encode_utf8(s).len() <= usize::MAX,
        state_placed(s, st, i, last, bytes),
    ensures
        i <= lex_next(s, i, st, bytes).1 <= s.len(),
        lex_next(s, i, st, bytes).0 matches Some(Ok(t)) ==> tok_placed(s, t, last, loc(s, lex_next(s, i, st, bytes).1, bytes), bytes)
            && state_placed(s, lex_next(s, i, st, bytes).2, lex_next(s, i, st, bytes).1, t.2 as int, bytes),
        !(lex_next(s, i, st, bytes).0 matches Some(Ok(_))) ==> state_placed(s, lex_next(s, i, st, bytes).2, lex_next(s, i, st, bytes).1, last, bytes),
    decreases s.len() - i,
{
    assert(s.take(s.len() as int) =~= s);
    if i < s.len() {
        lemma_loc_next(s, i, bytes);
        lemma_loc_mono(s, 0, i, bytes);
        let l0 = loc(s, i, bytes);
        let l1 = loc(s, i + 1, bytes);
        assert(at_boundary(s, l0, bytes));
        assert(at_boundary(s, l1, bytes));
        let (out, st2) = lex_step(st, s[i], l0 as usize, l1 as usize);
        assert(state_placed(s, st2, i + 1, if let Some(t) = out { t.2 as int } else { last }, bytes));
        if out is None {
            lemma_lex_next_placed(s, i + 1, st2, last, bytes);
        }
    }
}

/// All tokens of `s` from character `i` on, in a placed state, are
/// placed and no earlier than `last`.
proof fn lemma_lex_all_placed_from(s: Seq<char>, i: int, st: LexerState, last: int, bytes: bool)
    requires
        0 <= i <= s.len(),
        s.len() <= usize::MAX,
        encode_utf8(s).len() <= usize::MAX,
        state_placed(s, st, i, last, bytes),
    ensures
        lex_all(s, i, st, bytes) matches Ok(v) ==> toks_placed(s, v, bytes)
            && forall|k: int| 0 <= k < v.len() ==> last <= (#[trigger] v[k]).0,
    decreases s.len() + 1 - i, if st is Free { 0int } else { 1int },
{
    lemma_lex_next_placed(s, i, st, last, bytes);
    lemma_lex_next_progress(s, i, st, bytes);
    let (out, i2, st2) = lex_next(s, i, st, bytes);
    if let Some(Ok(t)) = out {
        lemma_loc_mono(s, i2, s.len() as int, bytes);
        if (i < i2 <= s.len()) || (i2 == i && st2 is Free && !(st is Free)) {
            lemma_lex_all_placed_from(s, i2, st2, t.2 as int, bytes);
            if let Ok(rest) = lex_all(s, i2, st2, bytes) {
                let v = seq![t] + rest;
                assert forall|k: int| 0 <= k < v.len() implies tok_placed(s, #[trigger] v[k], 0, loc(s, s.len() as int, bytes), bytes)
                    && last <= v[k].0 by {
                    if k > 0 {
                        assert(v[k] == rest[k - 1]);
                    }
                }
                assert forall|k: int, m: int| 0 <= k < m < v.len() implies (#[trigger] v[k]).2
                    <= (#[trigger] v[m]).0 by {
                    assert(v[m] == rest[m - 1]);
                    if k > 0 {
                        assert(v[k] == rest[k - 1]);
                    }
                }
            }
        }
    }
}

/// All tokens of an input, read from its start with byte offsets or
/// character indices as locations, lie within the input between boundaries
/// of its characters (so each is a slice of it), each ends after it starts,
/// and each starts no earlier than the previous one ends.
pub proof fn lemma_lex_all_placed(s: Seq<char>, bytes: bool)
    requires
        s.len() <= usize::MAX,
        encode_utf8(s).len() <= usize::MAX,
    ensures
        lex_all(s, 0, LexerState::Free, bytes) matches Ok(v) ==> toks_placed(s, v, bytes),
{
    if bytes {
        assert(s.take(0) =~= Seq::<char>::empty());
    }
    lemma_lex_all_placed_from(s, 0, LexerState::Free, 0, bytes);
}

/// A new lexer is in a placed state: its tokens, one call of
/// [`Lexer::next`] after another, are placed as [`lemma_lex_next_placed`]
/// says.
pub proof fn lemma_lexer_new_placed(s: Seq<char>, bytes: bool)
    ensures
        state_placed(s, LexerState::Free, 0, 0, bytes),
{
    if bytes {
        assert(s.take(0) =~= Seq::<char>::empty());
    }
}

} // verus!
