//! The names of gdb's commands, read from the output of `help all`: each
//! line `name, alias -- description` names one or more commands.
use vstd::prelude::*;
use crate::chars::{whitespace, is_whitespace};
use crate::completion::strings_view;
use crate::text::{chars_of, string_from_range};

verus! {

/// The first index at or after `i` that holds `c`, or the length.
pub open spec fn next_index(s: Seq<char>, i: int, c: char) -> int
    decreases s.len() - i,
{
    if i < 0 || i >= s.len() {
        s.len() as int
    } else if s[i] == c {
        i
    } else {
        next_index(s, i + 1, c)
    }
}

/// The first position at or after `i` where `p` occurs in `l`.
pub open spec fn find_from(l: Seq<char>, p: Seq<char>, i: int) -> Option<int>
    decreases l.len() + 1 - i,
{
    if i < 0 || i + p.len() > l.len() {
        None
    } else if l.subrange(i, i + p.len()) == p {
        Some(i)
    } else {
        find_from(l, p, i + 1)
    }
}

/// The first index at or after `i` whose character is not whitespace, or
/// the length.
pub open spec fn skip_white(t: Seq<char>, i: int) -> int
    decreases t.len() - i,
{
    if i < 0 || i >= t.len() {
        t.len() as int
    } else if whitespace(t[i]) {
        skip_white(t, i + 1)
    } else {
        i
    }
}

/// The end of `t[lo..j]` without its trailing whitespace.
pub open spec fn trim_end(t: Seq<char>, lo: int, j: int) -> int
    decreases j - lo,
{
    if j <= lo {
        lo
    } else if whitespace(t[j - 1]) {
        trim_end(t, lo, j - 1)
    } else {
        j
    }
}

/// `t` without leading and trailing whitespace.
pub open spec fn trim(t: Seq<char>) -> Seq<char> {
    let a = skip_white(t, 0);
    t.subrange(a, trim_end(t, a, t.len() as int))
}

/// The comma-separated parts of `t` from index `i` on, each trimmed.
pub open spec fn trimmed_parts(t: Seq<char>, i: int) -> Seq<Seq<char>>
    decreases t.len() - i,
{
    let j = next_index(t, i, ',');
    if i < 0 || i > t.len() || j >= t.len() || j < i {
        seq![trim(t.subrange(i, t.len() as int))]
    } else {
        seq![trim(t.subrange(i, j))] + trimmed_parts(t, j + 1)
    }
}

/// The separator between the names of a command and its description.
pub open spec fn name_separator() -> Seq<char> {
    seq![' ', '-', '-', ' ']
}

/// The command names of one line of help text: the comma-separated names
/// before the first ` -- `, trimmed; none if the line has no ` -- `.
pub open spec fn names_of_line(l: Seq<char>) -> Seq<Seq<char>> {
    match find_from(l, name_separator(), 0) {
        None => Seq::empty(),
        Some(k) => trimmed_parts(l.subrange(0, k), 0),
    }
}

/// The line that starts at `i` and ends at the line feed `j` (or at the end
/// of the text), without a carriage return before the line feed.
pub open spec fn line_at(s: Seq<char>, i: int, j: int) -> Seq<char> {
    if j < s.len() && j > i && s[j - 1] == '\r' {
        s.subrange(i, j - 1)
    } else {
        s.subrange(i, j)
    }
}

/// The command names of the lines of `s` from index `i` on.
pub open spec fn names_from(s: Seq<char>, i: int) -> Seq<Seq<char>>
    decreases s.len() + 1 - i,
{
    if i < 0 || i >= s.len() {
        Seq::empty()
    } else {
        let j = next_index(s, i, '\n');
        if j < i || j > s.len() {
            Seq::empty()
        } else {
            names_of_line(line_at(s, i, j)) + names_from(s, j + 1)
        }
    }
}

pub proof fn lemma_next_index(s: Seq<char>, i: int, c: char)
    requires
        0 <= i <= s.len(),
    ensures
        i <= next_index(s, i, c) <= s.len(),
        next_index(s, i, c) < s.len() ==> s[next_index(s, i, c)] == c,
    decreases s.len() - i,
{
    if i < s.len() && s[i] != c {
        lemma_next_index(s, i + 1, c);
    }
}

/// Searching a suffix of `s` finds the same character, shifted.
pub proof fn lemma_next_index_skip(s: Seq<char>, k: int, j: int, c: char)
    requires
        0 <= k <= s.len(),
        0 <= j <= s.len() - k,
    ensures
        next_index(s.skip(k), j, c) == next_index(s, j + k, c) - k,
    decreases s.len() - k - j,
{
    if j < s.len() - k {
        assert(s.skip(k)[j] == s[j + k]);
        lemma_next_index_skip(s, k, j + 1, c);
    }
}

pub(crate) fn next_index_exec(s: &Vec<char>, i: usize, c: char) -> (r: usize)
    requires
        i <= s@.len(),
    ensures
        r == next_index(s@, i as int, c),
        i <= r <= s@.len(),
{
    proof {
        lemma_next_index(s@, i as int, c);
    }
    let mut j = i;
    while j < s.len() && s[j] != c
        invariant
            i <= j <= s@.len(),
            next_index(s@, j as int, c) == next_index(s@, i as int, c),
        decreases s@.len() - j,
    {
        j += 1;
    }
    j
}

fn find_separator(l: &Vec<char>) -> (r: Option<usize>)
    ensures
        r matches Some(k) ==> find_from(l@, name_separator(), 0) == Some(k as int) && k <= l@.len(),
        r is None ==> find_from(l@, name_separator(), 0) is None,
{
    let mut i: usize = 0;
    while l.len() >= 4 && i <= l.len() - 4
        invariant
            find_from(l@, name_separator(), i as int) == find_from(l@, name_separator(), 0),
        decreases l@.len() - i,
    {
        if l[i] == ' ' && l[i + 1] == '-' && l[i + 2] == '-' && l[i + 3] == ' ' {
            assert(l@.subrange(i as int, i + 4) =~= name_separator());
            return Some(i);
        }
        assert(l@.subrange(i as int, i + 4) != name_separator()) by {
            if l@.subrange(i as int, i + 4) == name_separator() {
                assert(l@.subrange(i as int, i + 4)[0] == l@[i as int]);
                assert(l@.subrange(i as int, i + 4)[1] == l@[i + 1]);
                assert(l@.subrange(i as int, i + 4)[2] == l@[i + 2]);
                assert(l@.subrange(i as int, i + 4)[3] == l@[i + 3]);
            }
        }
        i += 1;
    }
    None
}

fn trimmed(t: &Vec<char>, from: usize, to: usize) -> (r: String)
    requires
        from <= to <= t@.len(),
    ensures
        r@ == trim(t@.subrange(from as int, to as int)),
{
    let ghost u = t@.subrange(from as int, to as int);
    let mut a = from;
    while a < to && is_whitespace(t[a])
        invariant
            from <= a <= to <= t@.len(),
            u == t@.subrange(from as int, to as int),
            skip_white(u, a - from) == skip_white(u, 0),
        decreases to - a,
    {
        a += 1;
    }
    assert(skip_white(u, a - from) == a - from);
    let mut b = to;
    while b > a && is_whitespace(t[b - 1])
        invariant
            from <= a <= b <= to <= t@.len(),
            u == t@.subrange(from as int, to as int),
            trim_end(u, a - from, b - from) == trim_end(u, a - from, to - from),
        decreases b - a,
    {
        assert(u[b - 1 - from] == t@[b - 1]);
        b -= 1;
    }
    assert(trim_end(u, a - from, b - from) == b - from);
    assert(u.subrange(a - from, b - from) =~= t@.subrange(a as int, b as int));
    string_from_range(t.as_slice(), a, b)
}

fn names_of_line_exec(l: &Vec<char>, out: &mut Vec<String>)
    ensures
        strings_view(final(out)@) == strings_view(old(out)@) + names_of_line(l@),
{
    match find_separator(l) {
        None => {
            assert(strings_view(out@) + Seq::<Seq<char>>::empty() =~= strings_view(out@));
        },
        Some(k) => {
            let ghost t = l@.subrange(0, k as int);
            let mut i: usize = 0;
            let ghost start = strings_view(out@);
            while i <= k
                invariant_except_break
                    i <= k,
                    start + trimmed_parts(t, 0) == strings_view(out@) + trimmed_parts(
                        t,
                        i as int,
                    ),
                invariant
                    k <= l@.len(),
                    t == l@.subrange(0, k as int),
                    strings_view(old(out)@) == start,
                ensures
                    start + trimmed_parts(t, 0) == strings_view(out@),
                decreases k + 1 - i,
            {
                let j = next_index_exec(l, i, ',');
                let jj = if j > k {
                    k
                } else {
                    j
                };
                assert(next_index(t, i as int, ',') == jj) by {
                    lemma_next_index_prefix(l@, k as int, i as int, ',');
                }
                let part = trimmed(l, i, jj);
                assert(t.subrange(i as int, jj as int) =~= l@.subrange(i as int, jj as int));
                let ghost before = out@;
                out.push(part);
                proof {
                    assert(strings_view(out@) =~= strings_view(before).push(part@));
                }
                if jj >= k {
                    assert(t.subrange(i as int, t.len() as int) =~= l@.subrange(i as int, jj as int));
                    assert(strings_view(before) + seq![part@] =~= strings_view(out@));
                    break;
                }
                assert(strings_view(before) + (seq![part@] + trimmed_parts(t, jj + 1))
                    =~= strings_view(out@) + trimmed_parts(t, jj + 1));
                i = jj + 1;
            }
        },
    }
}

proof fn lemma_next_index_prefix(s: Seq<char>, k: int, i: int, c: char)
    requires
        0 <= i <= k <= s.len(),
    ensures
        next_index(s.subrange(0, k), i, c) == (if next_index(s, i, c) > k {
            k
        } else {
            next_index(s, i, c)
        }),
    decreases k - i,
{
    if i < k && s[i] != c {
        lemma_next_index_prefix(s, k, i + 1, c);
    }
    if i < k {
        assert(s.subrange(0, k)[i] == s[i]);
    }
    lemma_next_index(s, i, c);
}

/// The names of the commands that the help text `gdb_output` lists, in
/// order.
pub fn parse_command_names(gdb_output: &str) -> (r: Vec<String>)
    ensures
        strings_view(r@) == names_from(gdb_output@, 0),
{
    let s = chars_of(gdb_output);
    let n = s.len();
    let mut out: Vec<String> = Vec::new();
    let mut i: usize = 0;
    assert(strings_view(out@) + names_from(s@, 0) =~= names_from(s@, 0));
    while i < n
        invariant_except_break
            names_from(s@, 0) == strings_view(out@) + names_from(s@, i as int),
        invariant
            s@ == gdb_output@,
            n == s@.len(),
            i <= n,
        ensures
            names_from(s@, 0) == strings_view(out@),
        decreases n - i,
    {
        let j = next_index_exec(&s, i, '\n');
        let end = if j < n && j > i && s[j - 1] == '\r' {
            j - 1
        } else {
            j
        };
        let line = chars_of(string_from_range(s.as_slice(), i, end).as_str());
        let ghost before = strings_view(out@);
        names_of_line_exec(&line, &mut out);
        assert(line@ == line_at(s@, i as int, j as int));
        assert(before + (names_of_line(line@) + names_from(s@, j + 1)) =~= strings_view(out@)
            + names_from(s@, j + 1));
        if j >= n {
            assert(strings_view(out@) + Seq::<Seq<char>>::empty() =~= strings_view(out@));
            break;
        }
        i = j + 1;
    }
    out
}

} // verus!
