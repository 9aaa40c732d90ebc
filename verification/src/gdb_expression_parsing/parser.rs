//! The grammar of printed values, over the tokens of the lexer (with
//! character locations).
//!
//! A value is one of:
//! - a braced group `{ ... }` that spans the whole value: its elements are
//!   separated by commas outside of any brackets; an element `key = value`
//!   (the key a run of text without blanks, or a `[...]` subscript) is a
//!   member, and an element that is neither a member nor a group continues
//!   the value of the member right before it (gdb prints commas inside some
//!   descriptions). With members the group is a map, whose other elements
//!   are collected under the key `*anon*`; without, it is an array.
//! - a description ending in `= { ... }` (`std::map with 2 elements = {...}`):
//!   the group, labelled with the description.
//! - anything else: a leaf, the text from its first to its last token.
//! Line breaks at the ends of a value or element are skipped.
use vstd::prelude::*;
use vstd::string::StrSliceExecFns;
use crate::gdb_expression_parsing::lexer::{LexicalError, Token, TokenWithLocation};

verus! {

/// The mathematical form of a parsed value.
pub enum NodeV {
    Leaf(Seq<char>),
    Array(Option<Seq<char>>, Seq<NodeV>),
    Dict(Option<Seq<char>>, Seq<(Seq<char>, NodeV)>),
}

/// Why a value could not be parsed.
#[derive(Copy, Clone, Debug, PartialEq, Eq, Structural)]
pub enum ParseError {
    /// The input ends inside a string literal that begins at the location.
    UnfinishedString { begin_index: usize },
    /// A value (the whole input, or the value of a member) has no tokens.
    MissingValue,
}

/// The key under which the elements of a map that are not members are
/// collected.
pub open spec fn anon_key() -> Seq<char> {
    seq!['*', 'a', 'n', 'o', 'n', '*']
}

pub open spec fn is_open(t: Token) -> bool {
    t == Token::LBracket || t == Token::LBrace || t == Token::LSquareBracket || t
        == Token::LPointyBracket
}

pub open spec fn is_close(t: Token) -> bool {
    t == Token::RBracket || t == Token::RBrace || t == Token::RSquareBracket || t
        == Token::RPointyBracket
}

/// The range `[a, b)` of tokens without the line breaks at its ends: its
/// first index.
pub open spec fn skip_newlines(t: Seq<TokenWithLocation>, a: int, b: int) -> int
    decreases b - a,
{
    if a < b && t[a].1 == Token::Newline {
        skip_newlines(t, a + 1, b)
    } else {
        a
    }
}

/// The range `[a, b)` of tokens without the line breaks at its ends: its
/// end.
pub open spec fn drop_newlines(t: Seq<TokenWithLocation>, a: int, b: int) -> int
    decreases b - a,
{
    if a < b && t[b - 1].1 == Token::Newline {
        drop_newlines(t, a, b - 1)
    } else {
        b
    }
}

/// The first comma at or after `j` (before `b`) outside of brackets, where
/// `depth` brackets are open at `j`; `b` if there is none.
pub open spec fn next_comma(t: Seq<TokenWithLocation>, j: int, b: int, depth: int) -> int
    decreases b - j,
{
    if j >= b {
        b
    } else if depth == 0 && t[j].1 == Token::Comma {
        j
    } else if is_open(t[j].1) {
        next_comma(t, j + 1, b, depth + 1)
    } else if is_close(t[j].1) {
        next_comma(t, j + 1, b, depth - 1)
    } else {
        next_comma(t, j + 1, b, depth)
    }
}

/// The closing bracket at or after `j` (before `b`) that closes the bracket
/// opened before `j`, with `depth` brackets open at `j`.
pub open spec fn match_close(t: Seq<TokenWithLocation>, j: int, b: int, depth: int) -> Option<int>
    decreases b - j,
{
    if j >= b {
        None
    } else if is_open(t[j].1) {
        match_close(t, j + 1, b, depth + 1)
    } else if is_close(t[j].1) {
        if depth == 1 {
            Some(j)
        } else {
            match_close(t, j + 1, b, depth - 1)
        }
    } else {
        match_close(t, j + 1, b, depth)
    }
}

/// The tokens `[a, b)` are one braced group.
pub open spec fn pure_group(t: Seq<TokenWithLocation>, a: int, b: int) -> bool {
    &&& 0 <= a
    &&& a + 2 <= b <= t.len()
    &&& t[a].1 == Token::LBrace
    &&& t[b - 1].1 == Token::RBrace
    &&& match_close(t, a + 1, b, 1) == Some(b - 1)
}

/// The first equal sign at or after `e` (before `b`) that is followed by a
/// braced group up to `b`.
pub open spec fn find_desc(t: Seq<TokenWithLocation>, e: int, b: int) -> Option<int>
    decreases b - e,
{
    if e < 0 || e >= b {
        None
    } else if t[e].1 == Token::Equals && pure_group(t, e + 1, b) {
        Some(e)
    } else {
        find_desc(t, e + 1, b)
    }
}

/// The text of the tokens `[a, b)`: from the start of the first to the end
/// of the last.
pub open spec fn span(s: Seq<char>, t: Seq<TokenWithLocation>, a: int, b: int) -> Seq<char> {
    s.subrange(t[a].0 as int, t[b - 1].2 as int)
}

/// A text without blanks.
pub open spec fn no_blank(u: Seq<char>) -> bool {
    forall|i: int| 0 <= i < u.len() ==> u[i] != ' ' && u[i] != '\t'
}

/// If the element `[a, b)` begins with a key and an equal sign, the index
/// of the equal sign.
pub open spec fn key_end(s: Seq<char>, t: Seq<TokenWithLocation>, a: int, b: int) -> Option<int> {
    if !(0 <= a < b <= t.len()) {
        None
    } else if t[a].1 == Token::Text {
        if no_blank(span(s, t, a, a + 1)) && a + 1 < b && t[a + 1].1 == Token::Equals {
            Some(a + 1)
        } else {
            None
        }
    } else if t[a].1 == Token::LSquareBracket {
        match match_close(t, a + 1, b, 1) {
            Some(m) => {
                if t[m].1 == Token::RSquareBracket && m + 1 < b && t[m + 1].1 == Token::Equals {
                    Some(m + 1)
                } else {
                    None
                }
            },
            None => None,
        }
    } else {
        None
    }
}

/// An element of a group, by token ranges: a member with its key `[ka, kb)`
/// and value `[va, vb)`, or an element without key.
pub enum RawEntry {
    Member { ka: int, kb: int, va: int, vb: int },
    Anon { a: int, b: int },
}

/// The elements of the group contents from `j` to `b`, added to `acc`.
pub open spec fn raw_entries(s: Seq<char>, t: Seq<TokenWithLocation>, j: int, b: int, acc: Seq<RawEntry>) -> Seq<RawEntry>
    decreases b + 1 - j,
{
    if j > b {
        acc
    } else {
        let c = next_comma(t, j, b, 0);
        let ca = skip_newlines(t, j, c);
        let cb = drop_newlines(t, ca, c);
        let acc2 = if ca >= cb {
            acc
        } else {
            match key_end(s, t, ca, cb) {
                Some(e) => acc.push(RawEntry::Member { ka: ca, kb: e, va: e + 1, vb: cb }),
                None => {
                    if !pure_group(t, ca, cb) && acc.len() > 0 && acc.last() is Member {
                        acc.update(
                            acc.len() - 1,
                            RawEntry::Member {
                                ka: acc.last()->ka,
                                kb: acc.last()->kb,
                                va: acc.last()->va,
                                vb: cb,
                            },
                        )
                    } else {
                        acc.push(RawEntry::Anon { a: ca, b: cb })
                    }
                },
            }
        };
        if c >= b || c < j {
            acc2
        } else {
            raw_entries(s, t, c + 1, b, acc2)
        }
    }
}

/// The value of the tokens `[a, b)`.
pub open spec fn parse_value(s: Seq<char>, t: Seq<TokenWithLocation>, a: int, b: int) -> Result<NodeV, ParseError>
    decreases b - a, 0int, 0int,
{
    let a2 = skip_newlines(t, a, b);
    let b2 = drop_newlines(t, a2, b);
    if !(0 <= a <= a2 && a2 < b2 && b2 <= b <= t.len()) {
        Err(ParseError::MissingValue)
    } else if pure_group(t, a2, b2) {
        parse_group(s, t, a2 + 1, b2 - 1, None)
    } else {
        match find_desc(t, a2, b2) {
            Some(e) => {
                if a2 <= e && e + 2 < b2 {
                    parse_group(s, t, e + 2, b2 - 1, Some(span(s, t, a2, e + 1)))
                } else {
                    Err(ParseError::MissingValue)
                }
            },
            None => Ok(NodeV::Leaf(span(s, t, a2, b2))),
        }
    }
}

/// The group with contents `[a, b)` and the label `desc`.
pub open spec fn parse_group(s: Seq<char>, t: Seq<TokenWithLocation>, a: int, b: int, desc: Option<Seq<char>>) -> Result<NodeV, ParseError>
    decreases b - a, 2int, 0int,
{
    let raws = raw_entries(s, t, a, b, Seq::empty());
    match parse_entries(s, t, a, b, raws, raws.len() as int) {
        Err(e) => Err(e),
        Ok((members, anons)) => Ok(group_node(desc, members, anons)),
    }
}

/// The members and the other elements among the first `k` raw elements of a
/// group with contents `[a, b)`.
pub open spec fn parse_entries(s: Seq<char>, t: Seq<TokenWithLocation>, a: int, b: int, raws: Seq<RawEntry>, k: int) -> Result<(Seq<(Seq<char>, NodeV)>, Seq<NodeV>), ParseError>
    decreases b - a, 1int, k,
{
    if k <= 0 || k > raws.len() {
        Ok((Seq::empty(), Seq::empty()))
    } else {
        match parse_entries(s, t, a, b, raws, k - 1) {
            Err(e) => Err(e),
            Ok((members, anons)) => {
                match raws[k - 1] {
                    RawEntry::Member { ka, kb, va, vb } => {
                        if 0 <= a <= ka < kb < va <= vb <= b {
                            match parse_value(s, t, va, vb) {
                                Ok(v) => Ok((members.push((span(s, t, ka, kb), v)), anons)),
                                Err(e) => Err(e),
                            }
                        } else {
                            Err(ParseError::MissingValue)
                        }
                    },
                    RawEntry::Anon { a: ca, b: cb } => {
                        if 0 <= a <= ca <= cb <= b {
                            match parse_value(s, t, ca, cb) {
                                Ok(v) => Ok((members, anons.push(v))),
                                Err(e) => Err(e),
                            }
                        } else {
                            Err(ParseError::MissingValue)
                        }
                    },
                }
            },
        }
    }
}

/// A parsed value; leaves, keys and labels are slices of the input.
#[derive(Debug, PartialEq)]
pub enum Node<'a> {
    Leaf(&'a str),
    Array(Option<&'a str>, Vec<Node<'a>>),
    Dict(Option<&'a str>, Vec<(&'a str, Node<'a>)>),
}

pub open spec fn opt_view(d: Option<&str>) -> Option<Seq<char>> {
    match d {
        Some(x) => Some(x@),
        None => None,
    }
}

impl<'a> Node<'a> {
    pub open spec fn view(&self) -> NodeV
        decreases self,
    {
        match self {
            Node::Leaf(x) => NodeV::Leaf(x@),
            Node::Array(d, v) => NodeV::Array(
                opt_view(*d),
                Seq::new(
                    v.len() as nat,
                    |i: int|
                        if 0 <= i < v@.len() {
                            proof {
                                assert(decreases_to!(v => v@));
                                assert(decreases_to!(v@ => v@[i]));
                            }
                            v@[i].view()
                        } else {
                            NodeV::Leaf(Seq::empty())
                        },
                ),
            ),
            Node::Dict(d, v) => NodeV::Dict(
                opt_view(*d),
                Seq::new(
                    v.len() as nat,
                    |i: int|
                        if 0 <= i < v@.len() {
                            proof {
                                assert(decreases_to!(v => v@));
                                assert(decreases_to!(v@ => v@[i]));
                            }
                            (v@[i].0@, v@[i].1.view())
                        } else {
                            (Seq::empty(), NodeV::Leaf(Seq::empty()))
                        },
                ),
            ),
        }
    }
}

pub open spec fn nodes_view<'a>(v: Seq<Node<'a>>) -> Seq<NodeV> {
    Seq::new(v.len(), |i: int| v[i].view())
}

pub open spec fn members_view<'a>(v: Seq<(&'a str, Node<'a>)>) -> Seq<(Seq<char>, NodeV)> {
    Seq::new(v.len(), |i: int| (v[i].0@, v[i].1.view()))
}

proof fn lemma_array_view<'a>(d: Option<&'a str>, v: Vec<Node<'a>>)
    ensures
        Node::Array(d, v).view() == NodeV::Array(opt_view(d), nodes_view(v@)),
{
    assert(Node::Array(d, v).view()->Array_1 =~= nodes_view(v@));
}

proof fn lemma_dict_view<'a>(d: Option<&'a str>, v: Vec<(&'a str, Node<'a>)>)
    ensures
        Node::Dict(d, v).view() == NodeV::Dict(opt_view(d), members_view(v@)),
{
    assert(Node::Dict(d, v).view()->Dict_1 =~= members_view(v@));
}

/// What the parser works on: the input, its characters, and its tokens
/// with character locations, in order and within the input.
pub open spec fn parser_input(input: &str, chars: Seq<char>, t: Seq<TokenWithLocation>) -> bool {
    &&& chars == input@
    &&& crate::gdb_expression_parsing::lexer::toks_ordered(t, 0, input@.len() as int)
}

fn skip_newlines_exec(t: &Vec<TokenWithLocation>, a: usize, b: usize) -> (r: usize)
    requires
        a <= b <= t@.len(),
    ensures
        r == skip_newlines(t@, a as int, b as int),
        a <= r <= b,
{
    let mut i = a;
    while i < b && t[i].1 == Token::Newline
        invariant
            a <= i <= b <= t@.len(),
            skip_newlines(t@, i as int, b as int) == skip_newlines(t@, a as int, b as int),
        decreases b - i,
    {
        i += 1;
    }
    i
}

fn drop_newlines_exec(t: &Vec<TokenWithLocation>, a: usize, b: usize) -> (r: usize)
    requires
        a <= b <= t@.len(),
    ensures
        r == drop_newlines(t@, a as int, b as int),
        a <= r <= b,
{
    let mut i = b;
    while i > a && t[i - 1].1 == Token::Newline
        invariant
            a <= i <= b <= t@.len(),
            drop_newlines(t@, a as int, i as int) == drop_newlines(t@, a as int, b as int),
        decreases i - a,
    {
        i -= 1;
    }
    i
}

fn is_open_exec(t: Token) -> (r: bool)
    ensures
        r == is_open(t),
{
    t == Token::LBracket || t == Token::LBrace || t == Token::LSquareBracket || t
        == Token::LPointyBracket
}

fn is_close_exec(t: Token) -> (r: bool)
    ensures
        r == is_close(t),
{
    t == Token::RBracket || t == Token::RBrace || t == Token::RSquareBracket || t
        == Token::RPointyBracket
}

fn next_comma_exec(t: &Vec<TokenWithLocation>, j: usize, b: usize) -> (r: usize)
    requires
        j <= b <= t@.len(),
    ensures
        r == next_comma(t@, j as int, b as int, 0),
        j <= r <= b,
{
    let mut i = j;
    let mut depth: i128 = 0;
    while i < b
        invariant
            j <= i <= b <= t@.len(),
            -(i - j) <= depth <= i - j,
            next_comma(t@, i as int, b as int, depth as int) == next_comma(t@, j as int, b as int, 0),
        decreases b - i,
    {
        let tk = t[i].1;
        if depth == 0 && tk == Token::Comma {
            return i;
        } else if is_open_exec(tk) {
            depth += 1;
        } else if is_close_exec(tk) {
            depth -= 1;
        }
        i += 1;
    }
    i
}

fn match_close_exec(t: &Vec<TokenWithLocation>, j: usize, b: usize) -> (r: Option<usize>)
    requires
        j <= b <= t@.len(),
    ensures
        match r {
            Some(m) => match_close(t@, j as int, b as int, 1) == Some(m as int) && j <= m < b,
            None => match_close(t@, j as int, b as int, 1) is None,
        },
{
    let mut i = j;
    let mut depth: i128 = 1;
    while i < b
        invariant
            j <= i <= b <= t@.len(),
            1 - (i - j) <= depth <= 1 + (i - j),
            match_close(t@, i as int, b as int, depth as int) == match_close(t@, j as int, b as int, 1),
        decreases b - i,
    {
        let tk = t[i].1;
        if is_open_exec(tk) {
            depth += 1;
        } else if is_close_exec(tk) {
            if depth == 1 {
                return Some(i);
            }
            depth -= 1;
        }
        i += 1;
    }
    None
}

fn pure_group_exec(t: &Vec<TokenWithLocation>, a: usize, b: usize) -> (r: bool)
    requires
        a <= b <= t@.len(),
    ensures
        r == pure_group(t@, a as int, b as int),
{
    if b < 2 || a > b - 2 {
        return false;
    }
    if t[a].1 != Token::LBrace || t[b - 1].1 != Token::RBrace {
        return false;
    }
    match match_close_exec(t, a + 1, b) {
        Some(m) => m == b - 1,
        None => false,
    }
}

fn find_desc_exec(t: &Vec<TokenWithLocation>, a: usize, b: usize) -> (r: Option<usize>)
    requires
        a <= b <= t@.len(),
    ensures
        match r {
            Some(e) => find_desc(t@, a as int, b as int) == Some(e as int) && a <= e < b,
            None => find_desc(t@, a as int, b as int) is None,
        },
{
    let mut e = a;
    while e < b
        invariant
            a <= e <= b <= t@.len(),
            find_desc(t@, e as int, b as int) == find_desc(t@, a as int, b as int),
        decreases b - e,
    {
        if t[e].1 == Token::Equals && pure_group_exec(t, e + 1, b) {
            return Some(e);
        }
        e += 1;
    }
    None
}

fn no_blank_exec(chars: &Vec<char>, from: usize, to: usize) -> (r: bool)
    requires
        from <= to <= chars@.len(),
    ensures
        r == no_blank(chars@.subrange(from as int, to as int)),
{
    let ghost u = chars@.subrange(from as int, to as int);
    let mut i = from;
    while i < to
        invariant
            from <= i <= to <= chars@.len(),
            u == chars@.subrange(from as int, to as int),
            forall|k: int| 0 <= k < i - from ==> u[k] != ' ' && u[k] != '\t',
        decreases to - i,
    {
        if chars[i] == ' ' || chars[i] == '\t' {
            assert(u[i - from] == chars@[i as int]);
            return false;
        }
        assert(u[i - from] == chars@[i as int]);
        i += 1;
    }
    true
}

fn key_end_exec(chars: &Vec<char>, t: &Vec<TokenWithLocation>, a: usize, b: usize) -> (r: Option<usize>)
    requires
        a < b <= t@.len(),
        crate::gdb_expression_parsing::lexer::toks_ordered(t@, 0, chars@.len() as int),
    ensures
        match r {
            Some(e) => key_end(chars@, t@, a as int, b as int) == Some(e as int) && a < e < b,
            None => key_end(chars@, t@, a as int, b as int) is None,
        },
{
    if t[a].1 == Token::Text {
        let tok = t[a];
        assert(t@[a as int] == tok);
        if no_blank_exec(chars, tok.0, tok.2) && a + 1 < b && t[a + 1].1 == Token::Equals {
            Some(a + 1)
        } else {
            None
        }
    } else if t[a].1 == Token::LSquareBracket {
        match match_close_exec(t, a + 1, b) {
            Some(m) => {
                if t[m].1 == Token::RSquareBracket && m + 1 < b && t[m + 1].1 == Token::Equals {
                    Some(m + 1)
                } else {
                    None
                }
            },
            None => None,
        }
    } else {
        None
    }
}

/// A raw element of a group, by token ranges (see [`RawEntry`]); for an
/// element without key the range is `[va, vb)`.
#[derive(Copy, Clone)]
struct RawSpan {
    member: bool,
    ka: usize,
    kb: usize,
    va: usize,
    vb: usize,
}

spec fn raw_view(r: RawSpan) -> RawEntry {
    if r.member {
        RawEntry::Member { ka: r.ka as int, kb: r.kb as int, va: r.va as int, vb: r.vb as int }
    } else {
        RawEntry::Anon { a: r.va as int, b: r.vb as int }
    }
}

spec fn raws_view(v: Seq<RawSpan>) -> Seq<RawEntry> {
    Seq::new(v.len(), |i: int| raw_view(v[i]))
}

fn raw_entries_exec(chars: &Vec<char>, t: &Vec<TokenWithLocation>, a: usize, b: usize) -> (r: Vec<RawSpan>)
    requires
        a <= b <= t@.len(),
        crate::gdb_expression_parsing::lexer::toks_ordered(t@, 0, chars@.len() as int),
    ensures
        raws_view(r@) == raw_entries(chars@, t@, a as int, b as int, Seq::empty()),
{
    let mut acc: Vec<RawSpan> = Vec::new();
    let mut j = a;
    assert(raws_view(acc@) =~= Seq::<RawEntry>::empty());
    loop
        invariant
            a <= j <= b <= t@.len(),
            crate::gdb_expression_parsing::lexer::toks_ordered(t@, 0, chars@.len() as int),
            raw_entries(chars@, t@, a as int, b as int, Seq::empty()) == raw_entries(
                chars@,
                t@,
                j as int,
                b as int,
                raws_view(acc@),
            ),
        decreases b + 1 - j,
    {
        let c = next_comma_exec(t, j, b);
        let ca = skip_newlines_exec(t, j, c);
        let cb = drop_newlines_exec(t, ca, c);
        let ghost before = raws_view(acc@);
        if ca < cb {
            match key_end_exec(chars, t, ca, cb) {
                Some(e) => {
                    acc.push(RawSpan { member: true, ka: ca, kb: e, va: e + 1, vb: cb });
                    assert(raws_view(acc@) =~= before.push(
                        RawEntry::Member { ka: ca as int, kb: e as int, va: e + 1, vb: cb as int },
                    ));
                },
                None => {
                    let n = acc.len();
                    if !pure_group_exec(t, ca, cb) && n > 0 && acc[n - 1].member {
                        let last = acc[n - 1];
                        acc.set(n - 1, RawSpan { vb: cb, ..last });
                        assert(raws_view(acc@) =~= before.update(
                            n - 1,
                            RawEntry::Member {
                                ka: before.last()->ka,
                                kb: before.last()->kb,
                                va: before.last()->va,
                                vb: cb as int,
                            },
                        ));
                    } else {
                        acc.push(RawSpan { member: false, ka: 0, kb: 0, va: ca, vb: cb });
                        assert(raws_view(acc@) =~= before.push(
                            RawEntry::Anon { a: ca as int, b: cb as int },
                        ));
                    }
                },
            }
        }
        if c >= b {
            return acc;
        }
        j = c + 1;
    }
}

proof fn lemma_entries_err(s: Seq<char>, t: Seq<TokenWithLocation>, a: int, b: int, raws: Seq<RawEntry>, k: int, m: int, e: ParseError)
    requires
        0 < k <= m <= raws.len(),
        parse_entries(s, t, a, b, raws, k) == Err::<(Seq<(Seq<char>, NodeV)>, Seq<NodeV>), ParseError>(e),
    ensures
        parse_entries(s, t, a, b, raws, m) == Err::<(Seq<(Seq<char>, NodeV)>, Seq<NodeV>), ParseError>(e),
    decreases m - k,
{
    if m > k {
        lemma_entries_err(s, t, a, b, raws, k, m - 1, e);
    }
}

/// The value of the tokens `[a, b)` (see [`parse_value`]).
#[verifier::rlimit(40)]
pub fn parse_value_exec<'a>(input: &'a str, chars: &Vec<char>, t: &Vec<TokenWithLocation>, a: usize, b: usize) -> (r: Result<Node<'a>, ParseError>)
    requires
        a <= b <= t@.len(),
        parser_input(input, chars@, t@),
    ensures
        match r {
            Ok(n) => parse_value(input@, t@, a as int, b as int) == Ok::<NodeV, ParseError>(n.view()),
            Err(e) => parse_value(input@, t@, a as int, b as int) == Err::<NodeV, ParseError>(e),
        },
    decreases b - a, 0int, 0int,
{
    let a2 = skip_newlines_exec(t, a, b);
    let b2 = drop_newlines_exec(t, a2, b);
    if a2 >= b2 {
        return Err(ParseError::MissingValue);
    }
    if pure_group_exec(t, a2, b2) {
        return parse_group_exec(input, chars, t, a2 + 1, b2 - 1, None);
    }
    match find_desc_exec(t, a2, b2) {
        Some(e) => {
            if b2 >= 2 && e < b2 - 2 {
                assert(t@[a2 as int].0 <= t@[e as int].2);
                let desc = input.substring_char(t[a2].0, t[e].2);
                parse_group_exec(input, chars, t, e + 2, b2 - 1, Some(desc))
            } else {
                Err(ParseError::MissingValue)
            }
        },
        None => {
            assert(t@[a2 as int].0 <= t@[b2 - 1].2);
            Ok(Node::Leaf(input.substring_char(t[a2].0, t[b2 - 1].2)))
        },
    }
}

/// The group with contents `[a, b)` and the label `desc` (see
/// [`parse_group`]).
#[verifier::rlimit(40)]
pub fn parse_group_exec<'a>(input: &'a str, chars: &Vec<char>, t: &Vec<TokenWithLocation>, a: usize, b: usize, desc: Option<&'a str>) -> (r: Result<Node<'a>, ParseError>)
    requires
        a <= b <= t@.len(),
        parser_input(input, chars@, t@),
    ensures
        match r {
            Ok(n) => parse_group(input@, t@, a as int, b as int, opt_view(desc)) == Ok::<NodeV, ParseError>(n.view()),
            Err(e) => parse_group(input@, t@, a as int, b as int, opt_view(desc)) == Err::<NodeV, ParseError>(e),
        },
    decreases b - a, 2int, 0int,
{
    let raws = raw_entries_exec(chars, t, a, b);
    let ghost rv = raws_view(raws@);
    let mut members: Vec<(&'a str, Node<'a>)> = Vec::new();
    let mut anons: Vec<Node<'a>> = Vec::new();
    let mut k: usize = 0;
    assert(members_view(members@) =~= Seq::<(Seq<char>, NodeV)>::empty());
    assert(nodes_view(anons@) =~= Seq::<NodeV>::empty());
    while k < raws.len()
        invariant
            a <= b <= t@.len(),
            parser_input(input, chars@, t@),
            rv == raws_view(raws@),
            rv == raw_entries(input@, t@, a as int, b as int, Seq::empty()),
            k <= raws@.len(),
            parse_entries(input@, t@, a as int, b as int, rv, k as int) == Ok::<(Seq<(Seq<char>, NodeV)>, Seq<NodeV>), ParseError>((members_view(members@), nodes_view(anons@))),
        decreases raws@.len() - k,
    {
        let raw = raws[k];
        assert(rv[k as int] == raw_view(raw));
        if raw.member {
            if !(a <= raw.ka && raw.ka < raw.kb && raw.kb < raw.va && raw.va <= raw.vb && raw.vb <= b) {
                proof {
                    lemma_entries_err(input@, t@, a as int, b as int, rv, k + 1, rv.len() as int, ParseError::MissingValue);
                }
                return Err(ParseError::MissingValue);
            }
            match parse_value_exec(input, chars, t, raw.va, raw.vb) {
                Ok(v) => {
                    assert(t@[raw.ka as int].0 <= t@[raw.kb - 1].2);
                    let key = input.substring_char(t[raw.ka].0, t[raw.kb - 1].2);
                    let ghost before = members@;
                    members.push((key, v));
                    assert(members_view(members@) =~= members_view(before).push((key@, v.view())));
                },
                Err(e) => {
                    proof {
                        lemma_entries_err(input@, t@, a as int, b as int, rv, k + 1, rv.len() as int, e);
                    }
                    return Err(e);
                },
            }
        } else {
            if !(a <= raw.va && raw.va <= raw.vb && raw.vb <= b) {
                proof {
                    lemma_entries_err(input@, t@, a as int, b as int, rv, k + 1, rv.len() as int, ParseError::MissingValue);
                }
                return Err(ParseError::MissingValue);
            }
            match parse_value_exec(input, chars, t, raw.va, raw.vb) {
                Ok(v) => {
                    let ghost before = anons@;
                    anons.push(v);
                    assert(nodes_view(anons@) =~= nodes_view(before).push(v.view()));
                },
                Err(e) => {
                    proof {
                        lemma_entries_err(input@, t@, a as int, b as int, rv, k + 1, rv.len() as int, e);
                    }
                    return Err(e);
                },
            }
        }
        k += 1;
    }
    Ok(assemble(desc, members, anons))
}

/// The node of a group with the given label, members and other elements.
pub open spec fn group_node(desc: Option<Seq<char>>, members: Seq<(Seq<char>, NodeV)>, anons: Seq<NodeV>) -> NodeV {
    if members.len() == 0 {
        NodeV::Array(desc, anons)
    } else if anons.len() == 0 {
        NodeV::Dict(desc, members)
    } else if anons.len() == 1 {
        NodeV::Dict(desc, members.push((anon_key(), anons[0])))
    } else {
        NodeV::Dict(desc, members.push((anon_key(), NodeV::Array(None, anons))))
    }
}

fn assemble<'a>(desc: Option<&'a str>, members: Vec<(&'a str, Node<'a>)>, anons: Vec<Node<'a>>) -> (r: Node<'a>)
    ensures
        r.view() == group_node(opt_view(desc), members_view(members@), nodes_view(anons@)),
{
    let mut members = members;
    let mut anons = anons;
    if members.len() == 0 {
        proof {
            lemma_array_view(desc, anons);
        }
        Node::Array(desc, anons)
    } else if anons.len() == 0 {
        proof {
            lemma_dict_view(desc, members);
        }
        Node::Dict(desc, members)
    } else if anons.len() == 1 {
        let ghost av = nodes_view(anons@);
        let only = anons.remove(0);
        proof {
            reveal_strlit("*anon*");
            assert("*anon*"@ =~= anon_key());
        }
        let ghost before = members@;
        members.push(("*anon*", only));
        proof {
            assert(members_view(members@) =~= members_view(before).push((anon_key(), av[0])));
            lemma_dict_view(desc, members);
        }
        Node::Dict(desc, members)
    } else {
        let ghost av = nodes_view(anons@);
        proof {
            reveal_strlit("*anon*");
            assert("*anon*"@ =~= anon_key());
            lemma_array_view(None, anons);
        }
        let arr = Node::Array(None, anons);
        let ghost before = members@;
        members.push(("*anon*", arr));
        proof {
            assert(members_view(members@) =~= members_view(before).push((anon_key(), NodeV::Array(None, av))));
            lemma_dict_view(desc, members);
        }
        Node::Dict(desc, members)
    }
}

/// The value that the tokens of `input` stand for (the whole token list
/// read as one value); an error of the lexer is handed on unchanged.
#[allow(non_snake_case)]
pub fn parse_Value<'a>(input: &'a str, chars: &Vec<char>, tokens: Result<Vec<TokenWithLocation>, LexicalError>) -> (r: Result<Node<'a>, ParseError>)
    requires
        tokens matches Ok(t) ==> parser_input(input, chars@, t@),
    ensures
        tokens matches Err(LexicalError::UnfinishedString { begin_index }) ==> r == Err::<Node<'a>, ParseError>(
            ParseError::UnfinishedString { begin_index },
        ),
        tokens matches Ok(t) ==> match r {
            Ok(n) => parse_value(input@, t@, 0, t@.len() as int) == Ok::<NodeV, ParseError>(n.view()),
            Err(e) => parse_value(input@, t@, 0, t@.len() as int) == Err::<NodeV, ParseError>(e),
        },
{
    match tokens {
        Err(LexicalError::UnfinishedString { begin_index }) => Err(ParseError::UnfinishedString { begin_index }),
        Ok(t) => parse_value_exec(input, chars, &t, 0, t.len()),
    }
}

} // verus!
