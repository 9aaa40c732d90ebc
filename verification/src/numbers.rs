//! Reading unsigned integers from text, with the outcomes of std's
//! `usize::from_str_radix`: the digits are read from the left, an optional
//! leading `+` is skipped, and the first invalid digit or the first overflow
//! ends the reading with an error.
use vstd::prelude::*;
use crate::text::{chars_of, decimal, digit_char, lemma_div_smaller, radix_digits};

verus! {

/// Why text is not an integer.
#[derive(Copy, Clone, Debug, PartialEq, Eq, Structural)]
pub enum IntErrorKind {
    Empty,
    InvalidDigit,
    PosOverflow,
}

/// The value of `c` as a digit in base `radix` (letters of either case
/// stand for 10 and up), if it is one.
pub open spec fn digit_value(c: char, radix: nat) -> Option<nat> {
    let v: int = if '0' <= c && c <= '9' {
        (c as u32) - ('0' as u32)
    } else if 'a' <= c && c <= 'z' {
        (c as u32) - ('a' as u32) + 10
    } else if 'A' <= c && c <= 'Z' {
        (c as u32) - ('A' as u32) + 10
    } else {
        radix as int
    };
    if 0 <= v < radix {
        Some(v as nat)
    } else {
        None
    }
}

/// Reads the digits `d[i..]` after the value `acc` was read.
pub open spec fn read_digits(d: Seq<char>, i: int, radix: nat, acc: nat) -> Result<nat, IntErrorKind>
    decreases d.len() - i,
{
    if i < 0 || i >= d.len() {
        Ok(acc)
    } else {
        match digit_value(d[i], radix) {
            None => Err(IntErrorKind::InvalidDigit),
            Some(v) => {
                if acc * radix + v > usize::MAX {
                    Err(IntErrorKind::PosOverflow)
                } else {
                    read_digits(d, i + 1, radix, acc * radix + v)
                }
            },
        }
    }
}

/// The unsigned integer that `s` stands for in base `radix`, or why there
/// is none.
pub open spec fn parse_usize_spec(s: Seq<char>, radix: nat) -> Result<nat, IntErrorKind> {
    if s.len() == 0 {
        Err(IntErrorKind::Empty)
    } else if (s[0] == '+' || s[0] == '-') && s.len() == 1 {
        Err(IntErrorKind::InvalidDigit)
    } else if s[0] == '+' {
        read_digits(s, 1, radix, 0)
    } else {
        read_digits(s, 0, radix, 0)
    }
}

fn digit_value_exec(c: char, radix: u32) -> (r: Option<u32>)
    requires
        2 <= radix <= 36,
    ensures
        match r {
            Some(v) => digit_value(c, radix as nat) == Some(v as nat),
            None => digit_value(c, radix as nat) is None,
        },
{
    let v: u32 = if '0' <= c && c <= '9' {
        (c as u32) - ('0' as u32)
    } else if 'a' <= c && c <= 'z' {
        (c as u32) - ('a' as u32) + 10
    } else if 'A' <= c && c <= 'Z' {
        (c as u32) - ('A' as u32) + 10
    } else {
        radix
    };
    if v < radix {
        Some(v)
    } else {
        None
    }
}

/// Reads an unsigned integer in base `radix` (see [`parse_usize_spec`]).
pub fn parse_usize(s: &str, radix: u32) -> (r: Result<usize, IntErrorKind>)
    requires
        2 <= radix <= 36,
    ensures
        match r {
            Ok(v) => parse_usize_spec(s@, radix as nat) == Ok::<nat, IntErrorKind>(v as nat),
            Err(e) => parse_usize_spec(s@, radix as nat) == Err::<nat, IntErrorKind>(e),
        },
{
    let d = chars_of(s);
    if d.len() == 0 {
        return Err(IntErrorKind::Empty);
    }
    if (d[0] == '+' || d[0] == '-') && d.len() == 1 {
        return Err(IntErrorKind::InvalidDigit);
    }
    let mut i: usize = if d[0] == '+' {
        1
    } else {
        0
    };
    let ghost start = i;
    let mut acc: usize = 0;
    while i < d.len()
        invariant
            d@ == s@,
            i <= d@.len(),
            parse_usize_spec(s@, radix as nat) == read_digits(d@, i as int, radix as nat, acc as nat),
            2 <= radix <= 36,
        decreases d@.len() - i,
    {
        match digit_value_exec(d[i], radix) {
            None => {
                return Err(IntErrorKind::InvalidDigit);
            },
            Some(v) => {
                match acc.checked_mul(radix as usize) {
                    None => {
                        return Err(IntErrorKind::PosOverflow);
                    },
                    Some(m) => match m.checked_add(v as usize) {
                        None => {
                            return Err(IntErrorKind::PosOverflow);
                        },
                        Some(a) => {
                            acc = a;
                        },
                    },
                }
            },
        }
        i += 1;
    }
    Ok(acc)
}

/// The message of std's `ParseIntError` for each kind.
pub open spec fn int_error_message(e: IntErrorKind) -> Seq<char> {
    match e {
        IntErrorKind::Empty => "cannot parse integer from empty string"@,
        IntErrorKind::InvalidDigit => "invalid digit found in string"@,
        IntErrorKind::PosOverflow => "number too large to fit in target type"@,
    }
}

impl IntErrorKind {
    /// The message for this error (see [`int_error_message`]).
    pub fn message(&self) -> (r: String)
        ensures
            r@ == int_error_message(*self),
    {
        match self {
            IntErrorKind::Empty => "cannot parse integer from empty string".to_owned(),
            IntErrorKind::InvalidDigit => "invalid digit found in string".to_owned(),
            IntErrorKind::PosOverflow => "number too large to fit in target type".to_owned(),
        }
    }
}

proof fn lemma_read_digits_push(s: Seq<char>, x: char, i: int, radix: nat, acc: nat, v: nat, dx: nat)
    requires
        0 <= i <= s.len(),
        read_digits(s, i, radix, acc) == Ok::<nat, IntErrorKind>(v),
        digit_value(x, radix) == Some(dx),
        v * radix + dx <= usize::MAX,
    ensures
        read_digits(s.push(x), i, radix, acc) == Ok::<nat, IntErrorKind>(v * radix + dx),
    decreases s.len() - i,
{
    let t = s.push(x);
    if i == s.len() {
        assert(t[i] == x);
        assert(read_digits(t, i + 1, radix, (acc * radix + dx) as nat) == Ok::<nat, IntErrorKind>((acc * radix + dx) as nat));
    } else {
        assert(t[i] == s[i]);
        let d = digit_value(s[i], radix)->0;
        lemma_read_digits_push(s, x, i + 1, radix, (acc * radix + d) as nat, v, dx);
    }
}

proof fn lemma_digit_char_value(d: nat)
    requires
        d < 10,
    ensures
        digit_value(digit_char(d), 10) == Some(d),
        '0' <= digit_char(d) <= '9',
{
    assert(digit_char(d) == (48 + d) as char);
    assert((((48 + d) as char) as u32) == 48 + d);
}

/// The decimal digits of `k` are digits, at least one.
pub proof fn lemma_decimal_digits(k: nat)
    ensures
        decimal(k).len() >= 1,
        forall|i: int| 0 <= i < decimal(k).len() ==> '0' <= #[trigger] decimal(k)[i] <= '9',
    decreases k,
{
    if k < 10 {
        lemma_digit_char_value(k);
    } else {
        lemma_div_smaller(k, 10);
        lemma_decimal_digits(k / 10);
        lemma_digit_char_value(k % 10);
        let p = radix_digits(k / 10, 10);
        assert forall|i: int| 0 <= i < decimal(k).len() implies '0' <= #[trigger] decimal(k)[i] <= '9' by {
            if i < p.len() {
                assert(decimal(k)[i] == p[i]);
                assert(p[i] == decimal(k / 10)[i]);
            }
        }
    }
}

proof fn lemma_read_decimal(k: nat)
    requires
        k <= usize::MAX,
    ensures
        read_digits(decimal(k), 0, 10, 0) == Ok::<nat, IntErrorKind>(k),
    decreases k,
{
    if k < 10 {
        lemma_digit_char_value(k);
        lemma_read_digits_push(Seq::empty(), digit_char(k), 0, 10, 0, 0, k);
        assert(Seq::<char>::empty().push(digit_char(k)) =~= decimal(k));
    } else {
        lemma_div_smaller(k, 10);
        lemma_read_decimal(k / 10);
        lemma_digit_char_value(k % 10);
        assert((k / 10) * 10 + k % 10 == k) by (nonlinear_arith);
        lemma_read_digits_push(decimal(k / 10), digit_char(k % 10), 0, 10, 0, k / 10, k % 10);
    }
}

/// Reading the decimal digits of a number that fits in `usize` gives the
/// number back.
pub proof fn lemma_parse_decimal(k: nat)
    requires
        k <= usize::MAX,
    ensures
        parse_usize_spec(decimal(k), 10) == Ok::<nat, IntErrorKind>(k),
{
    lemma_decimal_digits(k);
    lemma_read_decimal(k);
    assert('0' <= decimal(k)[0] <= '9');
}

} // verus!
