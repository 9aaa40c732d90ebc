//! How the leaves of a parsed value are shown: as printed, or, where a leaf
//! reads as an integer, in a chosen base.
use vstd::prelude::*;
use crate::gdb_expression_parsing::parser::{Node, NodeV};
use crate::chars::{is_whitespace, whitespace};
use crate::text::{chars_of, decimal, decimal_string, push_char, push_str, radix_chars, radix_digits, string_from_chars};

verus! {

/// A base in which integers are shown.
#[derive(Clone, Copy, Debug, PartialEq, Eq, Structural)]
pub enum Format {
    Decimal,
    Hex,
    Octal,
    Binary,
}

/// The format after `f` in the cycle: as printed, hexadecimal, decimal,
/// octal, binary, and back.
pub open spec fn next_format_spec(f: Option<Format>) -> Option<Format> {
    match f {
        None => Some(Format::Hex),
        Some(Format::Hex) => Some(Format::Decimal),
        Some(Format::Decimal) => Some(Format::Octal),
        Some(Format::Octal) => Some(Format::Binary),
        Some(Format::Binary) => None,
    }
}

/// The format after `f` (see [`next_format_spec`]).
pub fn next_format(f: Option<Format>) -> (r: Option<Format>)
    ensures
        r == next_format_spec(f),
{
    match f {
        None => Some(Format::Hex),
        Some(Format::Hex) => Some(Format::Decimal),
        Some(Format::Decimal) => Some(Format::Octal),
        Some(Format::Octal) => Some(Format::Binary),
        Some(Format::Binary) => None,
    }
}

/// Cycling through the formats comes back after five steps, and visits each
/// format once on the way.
pub proof fn lemma_next_format_cycle(f: Option<Format>)
    ensures
        next_format_spec(next_format_spec(next_format_spec(next_format_spec(next_format_spec(f)))))
            == f,
        next_format_spec(f) != f,
{
}

/// The integer that parse_int's `parse::<i128>` reads from `s`, if any.
pub uninterp spec fn parsed_i128(s: Seq<char>) -> Option<i128>;

/// Whether `s`, after leading whitespace, begins with `-` and holds another
/// `-` later.
pub open spec fn double_minus(s: Seq<char>) -> bool {
    exists|i: int, j: int|
        #![trigger s[i], s[j]]
        0 <= i < j < s.len() && s[i] == '-' && s[j] == '-' && forall|k: int| 0 <= k < i ==> whitespace(#[trigger] s[k])
}

/// Whether `s` is a [`double_minus`] text.
fn has_double_minus(s: &str) -> (r: bool)
    ensures
        r == double_minus(s@),
{
    let cs = chars_of(s);
    let n = cs.len();
    let mut i: usize = 0;
    while i < n && is_whitespace(cs[i])
        invariant
            i <= n == cs@.len(),
            cs@ == s@,
            forall|k: int| 0 <= k < i ==> whitespace(#[trigger] cs@[k]) && cs@[k] != '-',
        decreases n - i,
    {
        i += 1;
    }
    if i == n || cs[i] != '-' {
        assert(!double_minus(s@)) by {
            if double_minus(s@) {
                let (a, b) = choose|a: int, b: int|
                    #![trigger s@[a], s@[b]]
                    0 <= a < b < s@.len() && s@[a] == '-' && s@[b] == '-' && forall|k: int| 0 <= k < a ==> whitespace(#[trigger] s@[k]);
                if a < i {
                    assert(cs@[a] != '-');
                } else if a > i {
                    assert(whitespace(s@[i as int]));
                }
            }
        }
        return false;
    }
    let mut j: usize = i + 1;
    while j < n
        invariant
            i < j <= n == cs@.len(),
            cs@ == s@,
            cs@[i as int] == '-',
            forall|k: int| 0 <= k < i ==> whitespace(#[trigger] cs@[k]) && cs@[k] != '-',
            forall|k: int| i < k < j ==> #[trigger] cs@[k] != '-',
        decreases n - j,
    {
        if cs[j] == '-' {
            assert(s@[i as int] == '-' && s@[j as int] == '-');
            return true;
        }
        j += 1;
    }
    assert(!double_minus(s@)) by {
        if double_minus(s@) {
            let (a, b) = choose|a: int, b: int|
                #![trigger s@[a], s@[b]]
                0 <= a < b < s@.len() && s@[a] == '-' && s@[b] == '-' && forall|k: int| 0 <= k < a ==> whitespace(#[trigger] s@[k]);
            if a < i {
                assert(cs@[a] != '-');
            } else if a > i {
                assert(whitespace(s@[i as int]));
                assert(cs@[i as int] != '-');
            } else {
                assert(cs@[b] != '-');
            }
        }
    }
    false
}

/// `parse_int::parse::<i128>` of parse_int (text trimmed, an optional `-`,
/// the prefixes `0x`, `0b` and `0o`, `_` between digits). Its result is
/// named [`parsed_i128`]: whether it reads a number, and which, depends on
/// the text alone. After a leading `-`, parse_int reads the rest, which may
/// begin with a `-` of its own, and negates it; that negation overflows on
/// `i128::MIN`, so a [`double_minus`] text is not handed to it.
#[verifier::external_body]
fn parse_i128(s: &str) -> (r: Option<i128>)
    requires
        !double_minus(s@),
    ensures
        r == parsed_i128(s@),
{
    match parse_int::parse::<i128>(s) {
        Ok(i) => Some(i),
        Err(_) => None,
    }
}

/// The unsigned 128-bit word that holds `i` in two's complement.
pub open spec fn twos_complement(i: i128) -> nat {
    if i < 0 {
        (i + 0x1_0000_0000_0000_0000_0000_0000_0000_0000) as nat
    } else {
        i as nat
    }
}

/// `i` in the format `f`: decimal with its sign; in the other bases with
/// the prefix `0x`, `0o` or `0b` and its two's complement word.
pub open spec fn format_int_spec(i: i128, f: Format) -> Seq<char> {
    match f {
        Format::Decimal => if i < 0 {
            seq!['-'] + decimal((-i) as nat)
        } else {
            decimal(i as nat)
        },
        Format::Hex => seq!['0', 'x'] + radix_digits(twos_complement(i), 16),
        Format::Octal => seq!['0', 'o'] + radix_digits(twos_complement(i), 8),
        Format::Binary => seq!['0', 'b'] + radix_digits(twos_complement(i), 2),
    }
}

/// `i` in the format `f` (see [`format_int_spec`]).
pub fn format_int(i: i128, f: Format) -> (r: String)
    ensures
        r@ == format_int_spec(i, f),
{
    match f {
        Format::Decimal => {
            if i < 0 {
                let mut r = String::new();
                push_char(&mut r, '-');
                let m: u128 = if i == i128::MIN {
                    0x8000_0000_0000_0000_0000_0000_0000_0000
                } else {
                    (-i) as u128
                };
                push_str(&mut r, decimal_string(m).as_str());
                r
            } else {
                decimal_string(i as u128)
            }
        },
        _ => {
            let w: u128 = if i < 0 {
                let j: u128 = (i + 1 + 0x7fff_ffff_ffff_ffff_ffff_ffff_ffff_ffff) as u128;
                j + 0x8000_0000_0000_0000_0000_0000_0000_0000
            } else {
                i as u128
            };
            let (p, radix): (char, u128) = match f {
                Format::Hex => ('x', 16),
                Format::Octal => ('o', 8),
                _ => ('b', 2),
            };
            let mut r = String::new();
            push_char(&mut r, '0');
            push_char(&mut r, p);
            let digits = radix_chars(w, radix);
            push_str(&mut r, string_from_chars(digits.as_slice()).as_str());
            r
        },
    }
}

/// How the leaf `s` is shown in the format `format`: as printed without a
/// format, or if it does not read as an integer; else the integer in the
/// format. A text with a second `-` after a leading one (see
/// [`double_minus`]) is not read as an integer.
pub open spec fn format_leaf_spec(s: Seq<char>, format: Option<Format>) -> Seq<char> {
    match format {
        None => s,
        Some(_) if double_minus(s) => s,
        Some(f) => match parsed_i128(s) {
            None => s,
            Some(i) => format_int_spec(i, f),
        },
    }
}

/// How the leaf `s` is shown (see [`format_leaf_spec`]).
pub fn format_leaf(s: &str, format: Option<Format>) -> (r: String)
    ensures
        r@ == format_leaf_spec(s@, format),
{
    match format {
        None => s.to_owned(),
        Some(_) if has_double_minus(s) => s.to_owned(),
        Some(f) => match parse_i128(s) {
            None => s.to_owned(),
            Some(i) => format_int(i, f),
        },
    }
}

/// A parsed value to be shown with a format.
pub struct Value<'s> {
    pub node: &'s Node<'s>,
    pub format: Option<Format>,
}

impl<'s> Value<'s> {
    /// How this value is shown if it is a leaf (see [`format_leaf_spec`]).
    pub fn leaf_text(&self) -> (r: Option<String>)
        ensures
            match self.node.view() {
                NodeV::Leaf(s) => r matches Some(t) && t@ == format_leaf_spec(s, self.format),
                _ => r is None,
            },
    {
        match self.node {
            Node::Leaf(s) => Some(format_leaf(s, self.format)),
            _ => None,
        }
    }
}

} // verus!
