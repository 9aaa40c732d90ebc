//! Conversions between strings and character sequences, and formatting of
//! integers as digit strings.
use vstd::prelude::*;

verus! {

broadcast use vstd::string::axiom_spec_iter;

/// The characters of `s`, in order.
pub fn chars_of(s: &str) -> (r: Vec<char>)
    ensures
        r@ == s@,
{
    let mut r: Vec<char> = Vec::new();
    for c in it: s.chars()
        invariant
            r@ == it.seq().take(it.index() as int),
            it.seq() == s@,
    {
        r.push(c);
    }
    r
}

/// Appends one character to a string (`String::push` of std, which the
/// documentation describes as appending the given char to the end).
#[verifier::external_body]
pub(crate) fn push_char(s: &mut String, c: char)
    ensures
        final(s)@ == old(s)@.push(c),
{
    s.push(c);
}

/// The string made of the characters of `v`, in order.
pub fn string_from_chars(v: &[char]) -> (r: String)
    ensures
        r@ == v@,
{
    let mut r = String::new();
    let mut i: usize = 0;
    while i < v.len()
        invariant
            i <= v@.len(),
            r@ == v@.take(i as int),
        decreases v@.len() - i,
    {
        push_char(&mut r, v[i]);
        assert(v@.take(i as int).push(v@[i as int]) =~= v@.take(i + 1));
        i += 1;
    }
    assert(v@.take(v@.len() as int) =~= v@);
    r
}

/// The string made of the characters `v[from..to]`.
pub fn string_from_range(v: &[char], from: usize, to: usize) -> (r: String)
    requires
        from <= to <= v@.len(),
    ensures
        r@ == v@.subrange(from as int, to as int),
{
    let mut r = String::new();
    let mut i: usize = from;
    while i < to
        invariant
            from <= i <= to <= v@.len(),
            r@ == v@.subrange(from as int, i as int),
        decreases to - i,
    {
        push_char(&mut r, v[i]);
        assert(v@.subrange(from as int, i as int).push(v@[i as int]) =~= v@.subrange(
            from as int,
            i + 1,
        ));
        i += 1;
    }
    r
}

/// Appends all characters of `v` to `s`.
pub fn push_chars(s: &mut String, v: &[char])
    ensures
        final(s)@ == old(s)@ + v@,
{
    let mut i: usize = 0;
    while i < v.len()
        invariant
            i <= v@.len(),
            s@ == old(s)@ + v@.take(i as int),
        decreases v@.len() - i,
    {
        push_char(s, v[i]);
        assert(old(s)@ + v@.take(i as int).push(v@[i as int]) =~= old(s)@ + v@.take(i + 1));
        i += 1;
    }
    assert(v@.take(v@.len() as int) =~= v@);
}

/// Appends all characters of `t` to `s`.
pub fn push_str(s: &mut String, t: &str)
    ensures
        final(s)@ == old(s)@ + t@,
{
    let v = chars_of(t);
    push_chars(s, v.as_slice());
}

/// The character that stands for the digit `d` (`0`-`9`, then `a`-`z`).
pub open spec fn digit_char(d: nat) -> char {
    if d < 10 {
        (48 + d) as char
    } else {
        (87 + d) as char
    }
}

/// The digits of `n` in base `radix`, most significant first, without
/// leading zeros (zero is a single `0`).
pub open spec fn radix_digits(n: nat, radix: nat) -> Seq<char>
    decreases n,
{
    if radix < 2 {
        seq![]
    } else if n < radix {
        seq![digit_char(n)]
    } else {
        proof {
            lemma_div_smaller(n, radix);
        }
        radix_digits(n / radix, radix).push(digit_char(n % radix))
    }
}

/// The decimal digits of `n`.
pub open spec fn decimal(n: nat) -> Seq<char> {
    radix_digits(n, 10)
}

pub proof fn lemma_div_smaller(n: nat, radix: nat)
    requires
        radix >= 2,
        n >= radix,
    ensures
        n / radix < n,
        n / radix > 0,
        n % radix < radix,
{
    assert(n / radix < n && n / radix > 0 && n % radix < radix) by (nonlinear_arith)
        requires
            radix >= 2,
            n >= radix,
    ;
}

fn digit_to_char(d: u128) -> (c: char)
    requires
        d < 36,
    ensures
        c == digit_char(d as nat),
{
    if d < 10 {
        ((48 + d) as u8) as char
    } else {
        ((87 + d) as u8) as char
    }
}

/// The digits of `n` in base `radix` (2 to 36), most significant first.
pub fn radix_chars(n: u128, radix: u128) -> (r: Vec<char>)
    requires
        2 <= radix <= 36,
    ensures
        r@ == radix_digits(n as nat, radix as nat),
{
    let mut digits: Vec<char> = Vec::new();
    let mut m: u128 = n;
    loop
        invariant
            2 <= radix <= 36,
            m > 0 || digits@.len() == 0,
            radix_digits(n as nat, radix as nat) == (if m == 0 && digits@.len() > 0 {
                Seq::<char>::empty()
            } else {
                radix_digits(m as nat, radix as nat)
            }) + digits@,
        decreases m,
    {
        let d = m % radix;
        let c = digit_to_char(d);
        if m < radix {
            assert(m % radix == m) by (nonlinear_arith)
                requires
                    m < radix,
            ;
            digits.insert(0, c);
            assert(radix_digits(m as nat, radix as nat) =~= seq![c]);
            assert(radix_digits(n as nat, radix as nat) =~= Seq::<char>::empty() + digits@);
            return digits;
        }
        proof {
            lemma_div_smaller(m as nat, radix as nat);
        }
        let ghost old_digits = digits@;
        digits.insert(0, c);
        assert(radix_digits(m as nat, radix as nat) == radix_digits(
            (m / radix) as nat,
            radix as nat,
        ).push(c));
        assert(radix_digits((m / radix) as nat, radix as nat).push(c) + old_digits
            =~= radix_digits((m / radix) as nat, radix as nat) + digits@);
        m = m / radix;
    }
}

/// The decimal representation of `n`.
pub fn decimal_string(n: u128) -> (r: String)
    ensures
        r@ == decimal(n as nat),
{
    let v = radix_chars(n, 10);
    string_from_chars(v.as_slice())
}

/// `std::str::from_utf8`: the text of the bytes when they are valid UTF-8.
#[verifier::external_body]
pub(crate) fn str_from_utf8(raw: &[u8]) -> (r: Option<&str>)
    ensures
        r is Some <==> vstd::utf8::valid_utf8(raw@),
        r matches Some(t) ==> t@ == vstd::utf8::decode_utf8(raw@),
{
    std::str::from_utf8(raw).ok()
}

} // verus!
