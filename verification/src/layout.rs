//! The layout of the interface's containers, given as a string such as
//! `(1s-1c)|(1e-1t)`: `s`, `c`, `e` and `t` stand for the source view, the
//! gdb console, the expression table and the terminal; `|` splits side by
//! side and `-` one above the other; a number before a node is its weight
//! (1 if absent); brackets group.
use vstd::prelude::*;
use vstd::string::StrSliceExecFns;
use crate::text::{chars_of, decimal, decimal_string, push_char, push_str};

verus! {

/// The containers of the interface.
#[derive(Copy, Clone, PartialEq, Eq, Debug, Structural)]
pub enum TuiContainerType {
    SrcView,
    Console,
    ExpressionTable,
    Terminal,
}

/// The characters that a parse error says were expected.
#[derive(Copy, Clone, PartialEq, Eq, Debug, Structural)]
pub enum ExpectedChars {
    /// The start of a node: `c`, `t`, `s`, `e` or `(`.
    NodeStart,
    /// A closing bracket `)`.
    ClosingBracket,
}

/// Why a layout string was refused.
#[derive(Copy, Clone, PartialEq, Eq, Debug, Structural)]
pub enum LayoutParseErrorKind {
    /// The string ends where one of the characters was expected.
    TooShortExpected(ExpectedChars),
    /// At the index, one of the characters was expected instead of the one
    /// found.
    ExpectedGotMany(usize, ExpectedChars, char),
    /// At the index, the split changes from the first kind to the second
    /// within one node.
    SplitTypeChangeFromTo(usize, char, char),
    /// The string does not contain `c`, so the console would be missing.
    NoConsole,
}

/// A refused layout string and why it was refused.
#[derive(PartialEq, Eq, Debug)]
pub struct LayoutParseError {
    pub layout: String,
    pub kind: LayoutParseErrorKind,
}

/// A layout: a container, or containers split side by side (`HSplit`) or
/// one above the other (`VSplit`), each with its weight.
#[derive(PartialEq, Eq, Debug)]
pub enum LayoutNode {
    Leaf(TuiContainerType),
    HSplit(Vec<(LayoutNode, u32)>),
    VSplit(Vec<(LayoutNode, u32)>),
}

/// The mathematical form of a layout.
pub enum LayoutV {
    Leaf(TuiContainerType),
    HSplit(Seq<(LayoutV, nat)>),
    VSplit(Seq<(LayoutV, nat)>),
}

impl LayoutNode {
    pub open spec fn view(&self) -> LayoutV
        decreases self,
    {
        match self {
            LayoutNode::Leaf(t) => LayoutV::Leaf(*t),
            LayoutNode::HSplit(v) => LayoutV::HSplit(
                Seq::new(
                    v.len() as nat,
                    |i: int|
                        if 0 <= i < v@.len() {
                            proof {
                                assert(decreases_to!(v => v@));
                                assert(decreases_to!(v@ => v@[i]));
                            }
                            (v@[i].0.view(), v@[i].1 as nat)
                        } else {
                            (LayoutV::Leaf(TuiContainerType::Console), 0)
                        },
                ),
            ),
            LayoutNode::VSplit(v) => LayoutV::VSplit(
                Seq::new(
                    v.len() as nat,
                    |i: int|
                        if 0 <= i < v@.len() {
                            proof {
                                assert(decreases_to!(v => v@));
                                assert(decreases_to!(v@ => v@[i]));
                            }
                            (v@[i].0.view(), v@[i].1 as nat)
                        } else {
                            (LayoutV::Leaf(TuiContainerType::Console), 0)
                        },
                ),
            ),
        }
    }
}

pub open spec fn items_view(v: Seq<(LayoutNode, u32)>) -> Seq<(LayoutV, nat)> {
    Seq::new(v.len(), |i: int| (v[i].0.view(), v[i].1 as nat))
}

/// How the nodes at one level are split so far.
#[derive(Copy, Clone, PartialEq, Eq, Structural)]
pub enum SplitType {
    H,
    V,
    Unsplit,
}

/// The outcome of parsing, where a weight that does not fit in `u32` is an
/// outcome of its own.
pub enum LayoutFail {
    Kind(LayoutParseErrorKind),
    Overflow,
}

pub open spec fn is_digit(c: char) -> bool {
    '0' <= c && c <= '9'
}

/// The end of the run of digits that starts at `i`.
pub open spec fn digits_end(s: Seq<char>, i: int) -> int
    decreases s.len() - i,
{
    if 0 <= i < s.len() && is_digit(s[i]) {
        digits_end(s, i + 1)
    } else {
        i
    }
}

/// The number that the digits `s[i..j]` stand for.
pub open spec fn digits_value(s: Seq<char>, i: int, j: int) -> nat
    decreases j - i,
{
    if j <= i {
        0
    } else {
        digits_value(s, i, j - 1) * 10 + ((s[j - 1] as u32) - ('0' as u32)) as nat
    }
}

/// The weight at `i`: the number there, or 1 without digits.
pub open spec fn weight_at(s: Seq<char>, i: int) -> nat {
    let e = digits_end(s, i);
    if e == i {
        1
    } else {
        digits_value(s, i, e)
    }
}

/// The container that a character stands for.
pub open spec fn leaf_of(c: char) -> Option<TuiContainerType> {
    if c == 'c' {
        Some(TuiContainerType::Console)
    } else if c == 't' {
        Some(TuiContainerType::Terminal)
    } else if c == 's' {
        Some(TuiContainerType::SrcView)
    } else if c == 'e' {
        Some(TuiContainerType::ExpressionTable)
    } else {
        None
    }
}

/// The node made of the items of one level.
pub open spec fn finish(split: SplitType, acc: Seq<(LayoutV, nat)>) -> LayoutV {
    match split {
        SplitType::H => LayoutV::HSplit(acc),
        SplitType::V => LayoutV::VSplit(acc),
        SplitType::Unsplit => acc[0].0,
    }
}

/// The node that starts at `i`, and the index after it.
pub open spec fn node_at(s: Seq<char>, i: int) -> Result<(LayoutV, int), LayoutFail>
    decreases s.len() - i, 1int,
{
    items_from(s, i, SplitType::Unsplit, Seq::empty())
}

/// The rest of a level from the item at `i` on, after the items `acc`
/// split as `split`: the finished node and the index after it.
pub open spec fn items_from(s: Seq<char>, i: int, split: SplitType, acc: Seq<(LayoutV, nat)>) -> Result<(LayoutV, int), LayoutFail>
    decreases s.len() - i, 0int,
{
    let j = digits_end(s, i);
    let w = weight_at(s, i);
    if i < 0 || j < i || j > s.len() {
        Err(LayoutFail::Overflow)
    } else if w > u32::MAX {
        Err(LayoutFail::Overflow)
    } else if j >= s.len() {
        Err(LayoutFail::Kind(LayoutParseErrorKind::TooShortExpected(ExpectedChars::NodeStart)))
    } else {
        let elem: Result<(LayoutV, int), LayoutFail> = if leaf_of(s[j]) is Some {
            Ok((LayoutV::Leaf(leaf_of(s[j])->0), j + 1))
        } else if s[j] == '(' {
            match node_at(s, j + 1) {
                Err(e) => Err(e),
                Ok((n, k)) => {
                    if k <= j || k > s.len() {
                        Err(LayoutFail::Overflow)
                    } else if k == s.len() {
                        Err(
                            LayoutFail::Kind(
                                LayoutParseErrorKind::TooShortExpected(ExpectedChars::ClosingBracket),
                            ),
                        )
                    } else if s[k] == ')' {
                        Ok((n, k + 1))
                    } else {
                        Err(
                            LayoutFail::Kind(
                                LayoutParseErrorKind::ExpectedGotMany(
                                    k as usize,
                                    ExpectedChars::ClosingBracket,
                                    s[k],
                                ),
                            ),
                        )
                    }
                },
            }
        } else {
            Err(
                LayoutFail::Kind(
                    LayoutParseErrorKind::ExpectedGotMany(j as usize, ExpectedChars::NodeStart, s[j]),
                ),
            )
        };
        match elem {
            Err(e) => Err(e),
            Ok((n, k)) => {
                let acc2 = acc.push((n, w));
                if k <= i || k > s.len() {
                    Err(LayoutFail::Overflow)
                } else if k == s.len() {
                    Ok((finish(split, acc2), k))
                } else {
                    let c = s[k];
                    if c == '|' {
                        if split == SplitType::V {
                            Err(
                                LayoutFail::Kind(
                                    LayoutParseErrorKind::SplitTypeChangeFromTo(k as usize, '-', '|'),
                                ),
                            )
                        } else {
                            items_from(s, k + 1, SplitType::H, acc2)
                        }
                    } else if c == '-' {
                        if split == SplitType::H {
                            Err(
                                LayoutFail::Kind(
                                    LayoutParseErrorKind::SplitTypeChangeFromTo(k as usize, '|', '-'),
                                ),
                            )
                        } else {
                            items_from(s, k + 1, SplitType::V, acc2)
                        }
                    } else {
                        Ok((finish(split, acc2), k))
                    }
                }
            },
        }
    }
}

/// Whether `s` contains `c`.
pub open spec fn contains_char(s: Seq<char>, c: char) -> bool {
    exists|i: int| 0 <= i < s.len() && s[i] == c
}

/// The layout of the string `s`, or why it is refused: an empty string, a
/// syntax error, or (for a well-formed string) the lack of a `c`. Text after
/// the first complete node is ignored.
pub open spec fn layout_spec(s: Seq<char>) -> Result<LayoutV, LayoutFail> {
    if s.len() == 0 {
        Err(LayoutFail::Kind(LayoutParseErrorKind::TooShortExpected(ExpectedChars::NodeStart)))
    } else {
        match node_at(s, 0) {
            Err(e) => Err(e),
            Ok((n, _)) => {
                if contains_char(s, 'c') {
                    Ok(n)
                } else {
                    Err(LayoutFail::Kind(LayoutParseErrorKind::NoConsole))
                }
            },
        }
    }
}

proof fn lemma_digits_end(s: Seq<char>, i: int)
    requires
        0 <= i <= s.len(),
    ensures
        i <= digits_end(s, i) <= s.len(),
        forall|k: int| i <= k < digits_end(s, i) ==> is_digit(#[trigger] s[k]),
    decreases s.len() - i,
{
    if i < s.len() && is_digit(s[i]) {
        lemma_digits_end(s, i + 1);
    }
}

proof fn lemma_digits_value_monotone(s: Seq<char>, i: int, j: int, k: int)
    requires
        i <= j <= k,
        forall|m: int| i <= m < k ==> is_digit(#[trigger] s[m]),
    ensures
        digits_value(s, i, j) <= digits_value(s, i, k),
    decreases k - j,
{
    if j < k {
        lemma_digits_value_monotone(s, i, j, k - 1);
        assert(is_digit(s[k - 1]));
    }
}

fn parse_weight(s: &Vec<char>, i: usize) -> (r: Option<(u32, usize)>)
    requires
        i <= s@.len(),
    ensures
        match r {
            Some((w, j)) => w == weight_at(s@, i as int) && j == digits_end(s@, i as int),
            None => weight_at(s@, i as int) > u32::MAX,
        },
{
    proof {
        lemma_digits_end(s@, i as int);
    }
    let ghost e = digits_end(s@, i as int);
    let mut j = i;
    let mut w: u32 = 0;
    while j < s.len() && '0' <= s[j] && s[j] <= '9'
        invariant
            i <= j <= e <= s@.len(),
            e == digits_end(s@, i as int),
            digits_end(s@, j as int) == e,
            forall|k: int| i <= k < e ==> is_digit(#[trigger] s@[k]),
            w == digits_value(s@, i as int, j as int),
        decreases s@.len() - j,
    {
        proof {
            lemma_digits_end(s@, j + 1);
            assert(digits_end(s@, j as int) == digits_end(s@, j + 1));
            lemma_digits_value_monotone(s@, i as int, j + 1, e);
        }
        let d = (s[j] as u32) - ('0' as u32);
        match w.checked_mul(10) {
            Some(w10) => match w10.checked_add(d) {
                Some(w2) => {
                    w = w2;
                },
                None => {
                    return None;
                },
            },
            None => {
                proof {
                    assert(digits_value(s@, i as int, j + 1) >= w * 10);
                }
                return None;
            },
        }
        j += 1;
    }
    if j == i {
        Some((1, j))
    } else {
        Some((w, j))
    }
}

fn leaf_of_exec(c: char) -> (r: Option<TuiContainerType>)
    ensures
        r == leaf_of(c),
{
    if c == 'c' {
        Some(TuiContainerType::Console)
    } else if c == 't' {
        Some(TuiContainerType::Terminal)
    } else if c == 's' {
        Some(TuiContainerType::SrcView)
    } else if c == 'e' {
        Some(TuiContainerType::ExpressionTable)
    } else {
        None
    }
}

fn finish_exec(split: SplitType, acc: Vec<(LayoutNode, u32)>) -> (r: LayoutNode)
    requires
        split == SplitType::Unsplit ==> acc@.len() == 1,
    ensures
        r.view() == finish(split, items_view(acc@)),
{
    match split {
        SplitType::H => {
            assert(LayoutNode::HSplit(acc).view()->HSplit_0 =~= items_view(acc@));
            LayoutNode::HSplit(acc)
        },
        SplitType::V => {
            assert(LayoutNode::VSplit(acc).view()->VSplit_0 =~= items_view(acc@));
            LayoutNode::VSplit(acc)
        },
        SplitType::Unsplit => {
            let mut acc = acc;
            let (n, _w) = acc.remove(0);
            n
        },
    }
}

/// The node that starts at `i` (see [`node_at`]).
fn parse_node(s: &Vec<char>, i: usize) -> (r: Result<(LayoutNode, usize), LayoutFail>)
    requires
        i <= s@.len(),
    ensures
        match r {
            Ok((n, k)) => node_at(s@, i as int) == Ok::<(LayoutV, int), LayoutFail>((n.view(), k as int))
                && i < k <= s@.len(),
            Err(e) => node_at(s@, i as int) == Err::<(LayoutV, int), LayoutFail>(e),
        },
    decreases s@.len() - i, 1int,
{
    let acc: Vec<(LayoutNode, u32)> = Vec::new();
    assert(items_view(acc@) =~= Seq::<(LayoutV, nat)>::empty());
    parse_items(s, i, SplitType::Unsplit, acc)
}

/// The rest of a level (see [`items_from`]).
fn parse_items(s: &Vec<char>, i: usize, split: SplitType, acc: Vec<(LayoutNode, u32)>) -> (r: Result<(LayoutNode, usize), LayoutFail>)
    requires
        i <= s@.len(),
        split == SplitType::Unsplit ==> acc@.len() == 0,
    ensures
        match r {
            Ok((n, k)) => items_from(s@, i as int, split, items_view(acc@)) == Ok::<(LayoutV, int), LayoutFail>((n.view(), k as int))
                && i < k <= s@.len(),
            Err(e) => items_from(s@, i as int, split, items_view(acc@)) == Err::<(LayoutV, int), LayoutFail>(e),
        },
    decreases s@.len() - i, 0int,
{
    proof {
        lemma_digits_end(s@, i as int);
    }
    let (w, j) = match parse_weight(s, i) {
        Some(wj) => wj,
        None => {
            return Err(LayoutFail::Overflow);
        },
    };
    if j >= s.len() {
        return Err(LayoutFail::Kind(LayoutParseErrorKind::TooShortExpected(ExpectedChars::NodeStart)));
    }
    let c = s[j];
    let (n, k) = match leaf_of_exec(c) {
        Some(t) => (LayoutNode::Leaf(t), j + 1),
        None => {
            if c == '(' {
                match parse_node(s, j + 1) {
                    Err(e) => {
                        return Err(e);
                    },
                    Ok((n, k)) => {
                        if k == s.len() {
                            return Err(
                                LayoutFail::Kind(LayoutParseErrorKind::TooShortExpected(ExpectedChars::ClosingBracket)),
                            );
                        } else if s[k] == ')' {
                            (n, k + 1)
                        } else {
                            return Err(
                                LayoutFail::Kind(LayoutParseErrorKind::ExpectedGotMany(
                                    k,
                                    ExpectedChars::ClosingBracket,
                                    s[k],
                                )),
                            );
                        }
                    },
                }
            } else {
                return Err(LayoutFail::Kind(LayoutParseErrorKind::ExpectedGotMany(j, ExpectedChars::NodeStart, c)));
            }
        },
    };
    let ghost before = items_view(acc@);
    let ghost nv = n.view();
    let mut acc = acc;
    acc.push((n, w));
    assert(items_view(acc@) =~= before.push((nv, w as nat)));
    if k == s.len() {
        return Ok((finish_exec(split, acc), k));
    }
    let c2 = s[k];
    if c2 == '|' {
        if split == SplitType::V {
            Err(LayoutFail::Kind(LayoutParseErrorKind::SplitTypeChangeFromTo(k, '-', '|')))
        } else {
            parse_items(s, k + 1, SplitType::H, acc)
        }
    } else if c2 == '-' {
        if split == SplitType::H {
            Err(LayoutFail::Kind(LayoutParseErrorKind::SplitTypeChangeFromTo(k, '|', '-')))
        } else {
            parse_items(s, k + 1, SplitType::V, acc)
        }
    } else {
        Ok((finish_exec(split, acc), k))
    }
}

/// Whether `s` contains `c`.
fn contains_char_exec(s: &Vec<char>, c: char) -> (r: bool)
    ensures
        r == contains_char(s@, c),
{
    let mut i: usize = 0;
    while i < s.len()
        invariant
            i <= s@.len(),
            forall|k: int| 0 <= k < i ==> s@[k] != c,
        decreases s@.len() - i,
    {
        if s[i] == c {
            return true;
        }
        i += 1;
    }
    false
}

/// Parses a layout string (see [`layout_spec`]); `None` if a weight does
/// not fit in `u32`.
pub fn try_parse(s: String) -> (r: Option<Result<LayoutNode, LayoutParseError>>)
    ensures
        match r {
            None => layout_spec(s@) is Err && layout_spec(s@)->Err_0 is Overflow,
            Some(Ok(n)) => layout_spec(s@) == Ok::<LayoutV, LayoutFail>(n.view()),
            Some(Err(e)) => layout_spec(s@) == Err::<LayoutV, LayoutFail>(LayoutFail::Kind(e.kind))
                && e.layout@ == s@,
        },
{
    let chars = chars_of(s.as_str());
    if chars.len() == 0 {
        return Some(Err(LayoutParseError {
            layout: s,
            kind: LayoutParseErrorKind::TooShortExpected(ExpectedChars::NodeStart),
        }));
    }
    match parse_node(&chars, 0) {
        Err(LayoutFail::Overflow) => None,
        Err(LayoutFail::Kind(kind)) => Some(Err(LayoutParseError { layout: s, kind })),
        Ok((n, _)) => {
            if contains_char_exec(&chars, 'c') {
                Some(Ok(n))
            } else {
                Some(Err(LayoutParseError { layout: s, kind: LayoutParseErrorKind::NoConsole }))
            }
        },
    }
}

/// Parses a layout string (see [`layout_spec`]) whose weights fit in
/// `u32`.
pub fn parse(s: String) -> (r: Result<LayoutNode, LayoutParseError>)
    requires
        !(layout_spec(s@) is Err && layout_spec(s@)->Err_0 is Overflow),
    ensures
        match r {
            Ok(n) => layout_spec(s@) == Ok::<LayoutV, LayoutFail>(n.view()),
            Err(e) => layout_spec(s@) == Err::<LayoutV, LayoutFail>(LayoutFail::Kind(e.kind))
                && e.layout@ == s@,
        },
{
    match try_parse(s) {
        Some(r) => r,
        None => Err(LayoutParseError { layout: String::new(), kind: LayoutParseErrorKind::NoConsole }),
    }
}

/// The name of a container.
pub open spec fn container_name(t: TuiContainerType) -> Seq<char> {
    match t {
        TuiContainerType::SrcView => "SrcView"@,
        TuiContainerType::Console => "Console"@,
        TuiContainerType::ExpressionTable => "ExpressionTable"@,
        TuiContainerType::Terminal => "Terminal"@,
    }
}

/// The description of a layout: a container by its name, a split as its
/// items in brackets, each as its weight and its description, separated by
/// `|` (side by side) or `-` (one above the other).
pub open spec fn describe_spec(l: LayoutV) -> Seq<char>
    decreases l, 0nat,
{
    match l {
        LayoutV::Leaf(t) => container_name(t),
        LayoutV::HSplit(items) => seq!['('] + describe_items(items, '|', items.len()) + seq![')'],
        LayoutV::VSplit(items) => seq!['('] + describe_items(items, '-', items.len()) + seq![')'],
    }
}

/// The first `k` items, described and separated by `sep`.
pub open spec fn describe_items(items: Seq<(LayoutV, nat)>, sep: char, k: nat) -> Seq<char>
    decreases items, k,
{
    if k == 0 || k > items.len() {
        Seq::empty()
    } else {
        proof {
            assert(decreases_to!(items => items[k - 1]));
        }
        let item = decimal(items[k - 1].1) + describe_spec(items[k - 1].0);
        if k == 1 {
            item
        } else {
            describe_items(items, sep, (k - 1) as nat) + seq![sep] + item
        }
    }
}

fn push_container_name(out: &mut String, t: TuiContainerType)
    ensures
        final(out)@ == old(out)@ + container_name(t),
{
    match t {
        TuiContainerType::SrcView => push_str(out, "SrcView"),
        TuiContainerType::Console => push_str(out, "Console"),
        TuiContainerType::ExpressionTable => push_str(out, "ExpressionTable"),
        TuiContainerType::Terminal => push_str(out, "Terminal"),
    }
}

impl LayoutNode {
    /// Appends the description of this layout to `out`.
    fn describe_into(&self, out: &mut String)
        ensures
            final(out)@ == old(out)@ + describe_spec(self.view()),
        decreases self,
    {
        match self {
            LayoutNode::Leaf(t) => push_container_name(out, *t),
            LayoutNode::HSplit(items) => {
                push_char(out, '(');
                Self::describe_items_into(items, '|', out);
                push_char(out, ')');
                proof {
                    assert(self.view()->HSplit_0 =~= items_view(items@));
                }
            },
            LayoutNode::VSplit(items) => {
                push_char(out, '(');
                Self::describe_items_into(items, '-', out);
                push_char(out, ')');
                proof {
                    assert(self.view()->VSplit_0 =~= items_view(items@));
                }
            },
        }
    }

    fn describe_items_into(items: &Vec<(LayoutNode, u32)>, sep: char, out: &mut String)
        ensures
            final(out)@ == old(out)@ + describe_items(items_view(items@), sep, items@.len()),
        decreases items,
    {
        let ghost iv = items_view(items@);
        let mut k: usize = 0;
        assert(old(out)@ + describe_items(iv, sep, 0) =~= old(out)@);
        while k < items.len()
            invariant
                k <= items@.len(),
                iv == items_view(items@),
                out@ == old(out)@ + describe_items(iv, sep, k as nat),
            decreases items@.len() - k,
        {
            if k > 0 {
                push_char(out, sep);
            }
            let w = items[k].1;
            push_str(out, decimal_string(w as u128).as_str());
            proof {
                assert(decreases_to!(items => items@[k as int].0));
            }
            items[k].0.describe_into(out);
            proof {
                assert(iv[k as int] == (items@[k as int].0.view(), w as nat));
                let item = decimal(w as nat) + describe_spec(items@[k as int].0.view());
                if k == 0 {
                    assert(old(out)@ + describe_items(iv, sep, 1) =~= old(out)@ + Seq::<char>::empty() + item);
                    assert(out@ =~= old(out)@ + describe_items(iv, sep, 1));
                } else {
                    assert(out@ =~= old(out)@ + describe_items(iv, sep, (k + 1) as nat));
                }
            }
            k += 1;
        }
    }

    /// The description of this layout (see [`describe_spec`]), such as
    /// `(1(1SrcView-1Console)|1Terminal)`.
    pub fn describe(&self) -> (r: String)
        ensures
            r@ == describe_spec(self.view()),
    {
        let mut out = String::new();
        self.describe_into(&mut out);
        assert(Seq::<char>::empty() + describe_spec(self.view()) =~= describe_spec(self.view()));
        out
    }
}

/// How a list of expected characters is shown.
pub open spec fn expected_text(e: ExpectedChars) -> Seq<char> {
    match e {
        ExpectedChars::NodeStart => "One of ['c', 't', 's', 'e', '(']"@,
        ExpectedChars::ClosingBracket => "')'"@,
    }
}

/// The explanation of a refused layout, as shown to the user.
pub open spec fn message_spec(layout: Seq<char>, kind: LayoutParseErrorKind) -> Seq<char> {
    "Failed to parse layout string: \n"@ + match kind {
        LayoutParseErrorKind::ExpectedGotMany(at, expected, got) => "Expected "@ + expected_text(
            expected,
        ) + ", but got "@ + seq![got] + "!\n"@ + layout.take(at as int) + "\u{261b}"@
            + layout.skip(at as int) + " \n"@,
        LayoutParseErrorKind::TooShortExpected(expected) => "Too short! Expected at least "@
            + expected_text(expected) + ".\n"@ + layout + "\u{261a}\n"@,
        LayoutParseErrorKind::SplitTypeChangeFromTo(at, from, to) => "Split type cannot change from '"@
            + seq![from] + "' to '"@ + seq![to]
            + "' within a node. Try to use brackets.\n"@ + layout.take(at as int) + "\u{261b}"@
            + layout.skip(at as int) + "\n"@,
        LayoutParseErrorKind::NoConsole => "Layout MUST contain gdb console. Insert 'c' somewhere in the layout.\n"@,
    }
}

fn push_expected(out: &mut String, e: ExpectedChars)
    ensures
        final(out)@ == old(out)@ + expected_text(e),
{
    match e {
        ExpectedChars::NodeStart => push_str(out, "One of ['c', 't', 's', 'e', '(']"),
        ExpectedChars::ClosingBracket => push_str(out, "')'"),
    }
}

impl LayoutParseError {
    /// Why the layout was refused.
    pub fn kind(&self) -> (r: LayoutParseErrorKind)
        ensures
            r == self.kind,
    {
        self.kind
    }

    /// The explanation of the refusal, as shown to the user (see
    /// [`message_spec`]).
    pub fn message(&self) -> (r: String)
        requires
            self.kind matches LayoutParseErrorKind::ExpectedGotMany(at, _, _) ==> at <= self.layout@.len(),
            self.kind matches LayoutParseErrorKind::SplitTypeChangeFromTo(at, _, _) ==> at <= self.layout@.len(),
        ensures
            r@ == message_spec(self.layout@, self.kind),
    {
        let mut out = String::new();
        push_str(&mut out, "Failed to parse layout string: \n");
        let layout = self.layout.as_str();
        let n = layout.unicode_len();
        match self.kind {
            LayoutParseErrorKind::ExpectedGotMany(at, expected, got) => {
                push_str(&mut out, "Expected ");
                push_expected(&mut out, expected);
                push_str(&mut out, ", but got ");
                push_char(&mut out, got);
                push_str(&mut out, "!\n");
                push_str(&mut out, layout.substring_char(0, at));
                push_str(&mut out, "\u{261b}");
                push_str(&mut out, layout.substring_char(at, n));
                push_str(&mut out, " \n");
                proof {
                    assert(layout@.subrange(0, at as int) =~= layout@.take(at as int));
                    assert(layout@.subrange(at as int, n as int) =~= layout@.skip(at as int));
                }
            },
            LayoutParseErrorKind::TooShortExpected(expected) => {
                push_str(&mut out, "Too short! Expected at least ");
                push_expected(&mut out, expected);
                push_str(&mut out, ".\n");
                push_str(&mut out, layout);
                push_str(&mut out, "\u{261a}\n");
            },
            LayoutParseErrorKind::SplitTypeChangeFromTo(at, from, to) => {
                push_str(&mut out, "Split type cannot change from '");
                push_char(&mut out, from);
                push_str(&mut out, "' to '");
                push_char(&mut out, to);
                push_str(&mut out, "' within a node. Try to use brackets.\n");
                push_str(&mut out, layout.substring_char(0, at));
                push_str(&mut out, "\u{261b}");
                push_str(&mut out, layout.substring_char(at, n));
                push_str(&mut out, "\n");
                proof {
                    assert(layout@.subrange(0, at as int) =~= layout@.take(at as int));
                    assert(layout@.subrange(at as int, n as int) =~= layout@.skip(at as int));
                }
            },
            LayoutParseErrorKind::NoConsole => {
                push_str(&mut out, "Layout MUST contain gdb console. Insert 'c' somewhere in the layout.\n");
            },
        }
        out
    }
}

} // verus!
