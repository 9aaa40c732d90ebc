//! Commands of the gdb machine interface: an operation with options and
//! parameters, written as one line `<token>-<operation> <options> -- <parameters>`.
use vstd::prelude::*;
use vstd::utf8::{encode_utf8, is_char_boundary};
use crate::completion::strings_view;
use crate::numbers::{int_error_message, lemma_decimal_digits, lemma_parse_decimal, parse_usize, parse_usize_spec, IntErrorKind};
use crate::text::{
    chars_of, decimal, decimal_string, push_char, push_str, radix_chars, radix_digits,
    string_from_chars, string_from_range,
};

verus! {

/// A command: the operation, its options and its parameters.
#[derive(Debug)]
pub struct MiCommand {
    operation: String,
    options: Vec<String>,
    parameters: Vec<String>,
}

/// The mathematical form of a [`MiCommand`].
pub struct MiCommandView {
    pub operation: Seq<char>,
    pub options: Seq<Seq<char>>,
    pub parameters: Seq<Seq<char>>,
}

impl View for MiCommand {
    type V = MiCommandView;

    closed spec fn view(&self) -> MiCommandView {
        MiCommandView {
            operation: self.operation@,
            options: strings_view(self.options@),
            parameters: strings_view(self.parameters@),
        }
    }
}

/// The command `operation` with `options` and `parameters`.
pub open spec fn cmd(operation: Seq<char>, options: Seq<Seq<char>>, parameters: Seq<Seq<char>>) -> MiCommandView {
    MiCommandView { operation, options, parameters }
}

/// What to show of disassembled code.
#[derive(Copy, Clone, Debug, PartialEq, Eq, Structural)]
pub enum DisassembleMode {
    DisassemblyOnly,
    DisassemblyWithRawOpcodes,
    MixedSourceAndDisassembly,
    MixedSourceAndDisassemblyWithRawOpcodes,
}

/// The number by which gdb knows a disassembly mode.
pub open spec fn mode_code(m: DisassembleMode) -> nat {
    match m {
        DisassembleMode::DisassemblyOnly => 0,
        DisassembleMode::DisassemblyWithRawOpcodes => 2,
        DisassembleMode::MixedSourceAndDisassembly => 1,
        DisassembleMode::MixedSourceAndDisassemblyWithRawOpcodes => 3,
    }
}

impl DisassembleMode {
    /// The number by which gdb knows this mode.
    pub fn code(&self) -> (r: u8)
        ensures
            r == mode_code(*self),
    {
        match self {
            DisassembleMode::DisassemblyOnly => 0,
            DisassembleMode::DisassemblyWithRawOpcodes => 2,
            DisassembleMode::MixedSourceAndDisassembly => 1,
            DisassembleMode::MixedSourceAndDisassemblyWithRawOpcodes => 3,
        }
    }
}

/// Which accesses a watchpoint stops at.
#[derive(Copy, Clone, Debug, PartialEq, Eq, Structural)]
pub enum WatchMode {
    Read,
    Write,
    Access,
}

/// Where a breakpoint is set: at an address, a function of a file, or a
/// line of a file.
pub enum BreakPointLocation<'a> {
    Address(usize),
    Function(&'a str, &'a str),
    Line(&'a str, usize),
}

/// The number of a breakpoint, with the number of a location of it where
/// it has several.
#[derive(Copy, Clone, Hash, PartialEq, Eq, Debug, Structural)]
pub struct BreakPointNumber {
    pub major: usize,
    pub minor: Option<usize>,
}

/// The first index of `c` in `s`.
pub open spec fn find_char(s: Seq<char>, c: char) -> Option<int> {
    if exists|i: int| 0 <= i < s.len() && s[i] == c {
        Some(choose|i: int| 0 <= i < s.len() && s[i] == c && forall|j: int| 0 <= j < i ==> s[j] != c)
    } else {
        None
    }
}

/// The breakpoint number that `s` stands for (`major` or `major.minor`),
/// or the message of the first part that is not a number.
pub open spec fn breakpoint_number_spec(s: Seq<char>) -> Result<(nat, Option<nat>), Seq<char>> {
    match find_char(s, '.') {
        Some(p) => match parse_usize_spec(s.take(p), 10) {
            Err(e) => Err(int_error_message(e)),
            Ok(major) => match parse_usize_spec(s.skip(p + 1), 10) {
                Err(e) => Err(int_error_message(e)),
                Ok(minor) => Ok((major, Some(minor))),
            },
        },
        None => match parse_usize_spec(s, 10) {
            Err(e) => Err(int_error_message(e)),
            Ok(major) => Ok((major, None)),
        },
    }
}

/// The text of a breakpoint number: `major` or `major.minor`.
pub open spec fn breakpoint_number_text(n: BreakPointNumber) -> Seq<char> {
    match n.minor {
        Some(minor) => decimal(n.major as nat) + seq!['.'] + decimal(minor as nat),
        None => decimal(n.major as nat),
    }
}

/// Reading the text of a breakpoint number gives the number back: what
/// [`BreakPointNumber::from_str`] makes of [`BreakPointNumber::to_text`].
pub proof fn lemma_breakpoint_number_round_trip(n: BreakPointNumber)
    ensures
        breakpoint_number_spec(breakpoint_number_text(n)) == Ok::<(nat, Option<nat>), Seq<char>>((
            n.major as nat,
            match n.minor {
                Some(m) => Some(m as nat),
                None => None,
            },
        )),
{
    let a = decimal(n.major as nat);
    lemma_decimal_digits(n.major as nat);
    lemma_parse_decimal(n.major as nat);
    match n.minor {
        Some(m) => {
            let b = decimal(m as nat);
            lemma_decimal_digits(m as nat);
            lemma_parse_decimal(m as nat);
            let t = a + seq!['.'] + b;
            let p = a.len() as int;
            assert(t[p] == '.');
            assert forall|j: int| 0 <= j < p implies t[j] != '.' by {
                assert(t[j] == a[j]);
            }
            assert(exists|i: int| 0 <= i < t.len() && t[i] == '.');
            let q = choose|i: int| 0 <= i < t.len() && t[i] == '.' && forall|j: int| 0 <= j < i ==> t[j] != '.';
            assert(q == p) by {
                if q < p {
                    assert(t[q] == a[q]);
                } else if q > p {
                    assert(t[p] != '.');
                }
            }
            assert(t.take(p) =~= a);
            assert(t.skip(p + 1) =~= b);
        },
        None => {
            assert forall|j: int| 0 <= j < a.len() implies a[j] != '.' by {}
        },
    }
}

pub(crate) fn find_char_exec(s: &Vec<char>, c: char) -> (r: Option<usize>)
    ensures
        match r {
            Some(p) => find_char(s@, c) == Some(p as int) && p < s@.len(),
            None => find_char(s@, c) is None,
        },
{
    let mut i: usize = 0;
    while i < s.len()
        invariant
            i <= s@.len(),
            forall|j: int| 0 <= j < i ==> s@[j] != c,
        decreases s@.len() - i,
    {
        if s[i] == c {
            proof {
                let q = choose|k: int| 0 <= k < s@.len() && s@[k] == c && forall|j: int| 0 <= j < k ==> s@[j] != c;
                assert(0 <= i < s@.len() && s@[i as int] == c && forall|j: int| 0 <= j < i ==> s@[j] != c);
                if q < i {
                } else if q > i {
                    assert(s@[i as int] != c);
                }
            }
            return Some(i);
        }
        i += 1;
    }
    None
}

impl std::str::FromStr for BreakPointNumber {
    type Err = String;

    /// See [`BreakPointNumber::from_str`].
    fn from_str(s: &str) -> Result<Self, String> {
        BreakPointNumber::from_str(s)
    }
}

impl BreakPointNumber {
    /// The breakpoint number of `s` (see [`breakpoint_number_spec`]).
    pub fn from_str(s: &str) -> (r: Result<Self, String>)
        ensures
            match r {
                Ok(n) => breakpoint_number_spec(s@) == Ok::<(nat, Option<nat>), Seq<char>>((n.major as nat, match n.minor {
                    Some(m) => Some(m as nat),
                    None => None,
                })),
                Err(e) => breakpoint_number_spec(s@) == Err::<(nat, Option<nat>), Seq<char>>(e@),
            },
    {
        let cs = chars_of(s);
        match find_char_exec(&cs, '.') {
            Some(p) => {
                let before = string_from_range(cs.as_slice(), 0, p);
                let after = string_from_range(cs.as_slice(), p + 1, cs.len());
                proof {
                    assert(cs@.subrange(0, p as int) =~= s@.take(p as int));
                    assert(cs@.subrange(p + 1, cs@.len() as int) =~= s@.skip(p + 1));
                }
                let major = match parse_usize(before.as_str(), 10) {
                    Ok(v) => v,
                    Err(e) => {
                        return Err(e.message());
                    },
                };
                let minor = match parse_usize(after.as_str(), 10) {
                    Ok(v) => v,
                    Err(e) => {
                        return Err(e.message());
                    },
                };
                Ok(BreakPointNumber { major, minor: Some(minor) })
            },
            None => match parse_usize(s, 10) {
                Ok(val) => Ok(BreakPointNumber { major: val, minor: None }),
                Err(e) => Err(e.message()),
            },
        }
    }

    /// The text of this number (see [`breakpoint_number_text`]).
    pub fn to_text(&self) -> (r: String)
        ensures
            r@ == breakpoint_number_text(*self),
    {
        let mut r = decimal_string(self.major as u128);
        if let Some(minor) = self.minor {
            push_char(&mut r, '.');
            push_str(&mut r, decimal_string(minor as u128).as_str());
        }
        r
    }
}

/// `input` as a quoted string for gdb's command line: in quotes, with a
/// backslash before backslashes, quotes, carriage returns and line feeds.
pub open spec fn escaped(input: Seq<char>) -> Seq<char>
    decreases input.len(),
{
    if input.len() == 0 {
        Seq::empty()
    } else {
        let c = input.last();
        let e = if c == '\\' || c == '"' || c == '\r' || c == '\n' {
            seq!['\\', c]
        } else {
            seq![c]
        };
        escaped(input.drop_last()) + e
    }
}

pub open spec fn escape_spec(input: Seq<char>) -> Seq<char> {
    seq!['"'] + escaped(input) + seq!['"']
}

/// `input` quoted for gdb's command line (see [`escape_spec`]).
pub fn escape_command(input: &str) -> (r: String)
    ensures
        r@ == escape_spec(input@),
{
    let cs = chars_of(input);
    let mut output = String::new();
    push_char(&mut output, '"');
    let mut i: usize = 0;
    while i < cs.len()
        invariant
            i <= cs@.len(),
            cs@ == input@,
            output@ == seq!['"'] + escaped(cs@.take(i as int)),
        decreases cs@.len() - i,
    {
        let c = cs[i];
        if c == '\\' || c == '"' || c == '\r' || c == '\n' {
            push_char(&mut output, '\\');
        }
        push_char(&mut output, c);
        proof {
            assert(cs@.take(i + 1).drop_last() =~= cs@.take(i as int));
            assert(cs@.take(i + 1).last() == c);
        }
        i += 1;
    }
    push_char(&mut output, '"');
    assert(cs@.take(cs@.len() as int) =~= cs@);
    output
}

/// The words of `v`, each preceded by a blank.
pub open spec fn spaced(v: Seq<Seq<char>>) -> Seq<char>
    decreases v.len(),
{
    if v.len() == 0 {
        Seq::empty()
    } else {
        spaced(v.drop_last()) + seq![' '] + v.last()
    }
}

/// The line that sends the command `c` with `token`: the token, `-`, the
/// operation, the options, ` --` if there are both options and parameters,
/// the parameters, and a line feed.
pub open spec fn interpreter_line(c: MiCommandView, token: nat) -> Seq<char> {
    decimal(token) + seq!['-'] + c.operation + spaced(c.options) + (if c.options.len() > 0
        && c.parameters.len() > 0 {
        seq![' ', '-', '-']
    } else {
        Seq::empty()
    }) + spaced(c.parameters) + seq!['\n']
}

fn push_spaced(out: &mut String, v: &Vec<String>)
    ensures
        final(out)@ == old(out)@ + spaced(strings_view(v@)),
{
    let mut i: usize = 0;
    assert(strings_view(v@).take(0) =~= Seq::<Seq<char>>::empty());
    assert(old(out)@ + spaced(Seq::empty()) =~= old(out)@);
    while i < v.len()
        invariant
            i <= v@.len(),
            out@ == old(out)@ + spaced(strings_view(v@).take(i as int)),
        decreases v@.len() - i,
    {
        push_char(out, ' ');
        push_str(out, v[i].as_str());
        proof {
            let w = strings_view(v@);
            assert(w.take(i + 1).drop_last() =~= w.take(i as int));
            assert(w.take(i + 1).last() == v@[i as int]@);
        }
        i += 1;
    }
    assert(strings_view(v@).take(v@.len() as int) =~= strings_view(v@));
}

impl MiCommand {
    /// The command with these parts.
    pub fn new(operation: String, options: Vec<String>, parameters: Vec<String>) -> (r: MiCommand)
        ensures
            r@ == cmd(operation@, strings_view(options@), strings_view(parameters@)),
    {
        MiCommand { operation, options, parameters }
    }

    /// The line that sends this command with `token` (see
    /// [`interpreter_line`]).
    pub fn interpreter_string(&self, token: u64) -> (r: String)
        ensures
            r@ == interpreter_line(self@, token as nat),
    {
        let mut out = decimal_string(token as u128);
        push_char(&mut out, '-');
        push_str(&mut out, self.operation.as_str());
        push_spaced(&mut out, &self.options);
        if !self.parameters.is_empty() && !self.options.is_empty() {
            push_str(&mut out, " --");
            proof {
                reveal_strlit(" --");
            }
        }
        push_spaced(&mut out, &self.parameters);
        push_char(&mut out, '\n');
        proof {
            let c = self@;
            assert(out@ =~= interpreter_line(c, token as nat));
        }
        out
    }
}

/// The frame argument of `var-create`: the frame's address, or `"*"` for
/// the current frame.
pub open spec fn frame_text(frame_addr: Option<u64>) -> Seq<char> {
    match frame_addr {
        Some(a) => decimal(a as nat),
        None => "\"*\""@,
    }
}

/// The text of `s`, or `d` if there is none.
pub open spec fn string_or(s: Option<String>, d: Seq<char>) -> Seq<char> {
    match s {
        Some(x) => x@,
        None => d,
    }
}

/// The decimal text of a signed number.
pub open spec fn signed_decimal(v: int) -> Seq<char> {
    if v < 0 {
        seq!['-'] + decimal((-v) as nat)
    } else {
        decimal(v as nat)
    }
}

fn signed_decimal_string(v: i128) -> (r: String)
    requires
        v > i128::MIN,
    ensures
        r@ == signed_decimal(v as int),
{
    if v < 0 {
        let mut r = String::new();
        push_char(&mut r, '-');
        push_str(&mut r, decimal_string((-v) as u128).as_str());
        r
    } else {
        decimal_string(v as u128)
    }
}

/// The option `-n` of a disassembly: the number of lines (as a signed
/// machine word), or -1 for all.
pub open spec fn lines_option(lines: Option<usize>) -> Seq<char> {
    match lines {
        Some(l) => signed_decimal((l as isize) as int),
        None => seq!['-', '1'],
    }
}

/// The location argument of `break-insert`.
pub open spec fn location_text(location: BreakPointLocation) -> Seq<char> {
    match location {
        BreakPointLocation::Address(addr) => seq!['*', '0', 'x'] + radix_digits(addr as nat, 16),
        BreakPointLocation::Function(path, func) => path@ + seq![':'] + func@,
        BreakPointLocation::Line(path, line) => path@ + seq![':'] + decimal(line as nat),
    }
}

/// Lexicographic order of texts.
pub open spec fn text_lt(a: Seq<char>, b: Seq<char>) -> bool
    decreases a.len(),
{
    if a.len() == 0 {
        b.len() > 0
    } else if b.len() == 0 {
        false
    } else if a[0] != b[0] {
        a[0] < b[0]
    } else {
        text_lt(a.drop_first(), b.drop_first())
    }
}

pub proof fn lemma_text_lt_irreflexive(a: Seq<char>)
    ensures
        !text_lt(a, a),
    decreases a.len(),
{
    if a.len() > 0 {
        lemma_text_lt_irreflexive(a.drop_first());
    }
}

pub proof fn lemma_text_lt_transitive(a: Seq<char>, b: Seq<char>, c: Seq<char>)
    requires
        text_lt(a, b),
        text_lt(b, c),
    ensures
        text_lt(a, c),
    decreases a.len(),
{
    if a.len() > 0 && b.len() > 0 && c.len() > 0 && a[0] == b[0] && b[0] == c[0] {
        lemma_text_lt_transitive(a.drop_first(), b.drop_first(), c.drop_first());
    }
}

pub proof fn lemma_text_lt_total(a: Seq<char>, b: Seq<char>)
    ensures
        a == b || text_lt(a, b) || text_lt(b, a),
    decreases a.len(),
{
    if a.len() > 0 && b.len() > 0 && a[0] == b[0] {
        lemma_text_lt_total(a.drop_first(), b.drop_first());
        if a.drop_first() == b.drop_first() {
            assert(a =~= seq![a[0]] + a.drop_first());
            assert(b =~= seq![b[0]] + b.drop_first());
        }
    } else if a.len() == 0 && b.len() == 0 {
        assert(a =~= b);
    }
}

fn text_lt_exec(a: &Vec<char>, b: &Vec<char>) -> (r: bool)
    ensures
        r == text_lt(a@, b@),
{
    let mut i: usize = 0;
    assert(a@.skip(0) =~= a@);
    assert(b@.skip(0) =~= b@);
    while i < a.len() && i < b.len() && a[i] == b[i]
        invariant
            i <= a@.len(),
            i <= b@.len(),
            text_lt(a@, b@) == text_lt(a@.skip(i as int), b@.skip(i as int)),
        decreases a@.len() - i,
    {
        proof {
            assert(a@.skip(i as int).drop_first() =~= a@.skip(i + 1));
            assert(b@.skip(i as int).drop_first() =~= b@.skip(i + 1));
        }
        i += 1;
    }
    if i == a.len() {
        i < b.len()
    } else if i == b.len() {
        false
    } else {
        assert(a@.skip(i as int)[0] == a@[i as int]);
        assert(b@.skip(i as int)[0] == b@[i as int]);
        a[i] < b[i]
    }
}

/// `v` is in strictly increasing order.
pub open spec fn strictly_sorted(v: Seq<Seq<char>>) -> bool {
    forall|i: int, j: int| 0 <= i < j < v.len() ==> text_lt(#[trigger] v[i], #[trigger] v[j])
}

/// The option that deletes the breakpoint with number `n`: its major number
/// and a blank (gdb cannot delete a single location of a breakpoint).
pub open spec fn delete_option(n: BreakPointNumber) -> Seq<char> {
    decimal(n.major as nat) + seq![' ']
}

/// Inserts `x` into the strictly sorted `out` unless it is there.
fn insert_sorted(out: &mut Vec<String>, x: String)
    requires
        strictly_sorted(strings_view(old(out)@)),
    ensures
        strictly_sorted(strings_view(final(out)@)),
        strings_view(final(out)@).to_set() == strings_view(old(out)@).to_set().insert(x@),
{
    let xc = chars_of(x.as_str());
    let ghost v = strings_view(out@);
    let mut p: usize = 0;
    while p < out.len()
        invariant_except_break
            forall|i: int| 0 <= i < p ==> text_lt(#[trigger] v[i], x@),
        invariant
            p <= out@.len(),
            v == strings_view(out@),
            xc@ == x@,
        ensures
            forall|i: int| 0 <= i < p ==> text_lt(#[trigger] v[i], x@),
            p < out@.len() ==> !text_lt(v[p as int], x@),
        decreases out@.len() - p,
    {
        if !text_lt_exec(&chars_of(out[p].as_str()), &xc) {
            break;
        }
        p += 1;
    }
    if p < out.len() {
        if !text_lt_exec(&xc, &chars_of(out[p].as_str())) {
            proof {
                lemma_text_lt_total(v[p as int], x@);
            }
            assert(v.to_set().insert(x@) =~= v.to_set()) by {
                assert(v[p as int] == x@);
            }
            return;
        }
    }
    let ghost found_lt = p < v.len() ==> text_lt(x@, v[p as int]);
    out.insert(p, x);
    proof {
        let w = strings_view(out@);
        assert(found_lt);
        assert(w =~= v.insert(p as int, x@));
        assert forall|i: int, j: int| 0 <= i < j < w.len() implies text_lt(#[trigger] w[i], #[trigger] w[j]) by {
            if j < p {
            } else if j == p {
            } else if i < p {
                if j - 1 > p {
                    lemma_text_lt_transitive(x@, v[p as int], v[j - 1]);
                }
                lemma_text_lt_transitive(v[i], x@, v[j - 1]);
            } else if i == p {
                if j - 1 > p {
                    lemma_text_lt_transitive(x@, v[p as int], v[j - 1]);
                }
            } else {
            }
        }
        assert(w.to_set() =~= v.to_set().insert(x@)) by {
            assert forall|e: Seq<char>| w.to_set().contains(e) <==> v.to_set().insert(x@).contains(e) by {
                if w.to_set().contains(e) {
                    let k = choose|k: int| 0 <= k < w.len() && w[k] == e;
                    if k < p {
                        assert(v[k] == e);
                    } else if k > p {
                        assert(v[k - 1] == e);
                    }
                }
                if v.to_set().contains(e) {
                    let k = choose|k: int| 0 <= k < v.len() && v[k] == e;
                    if k < p {
                        assert(w[k] == e);
                    } else {
                        assert(w[k + 1] == e);
                    }
                }
                if e == x@ {
                    assert(w[p as int] == e);
                }
            }
        }
    }
}

fn lit(s: &str) -> (r: String)
    ensures
        r@ == s@,
{
    s.to_owned()
}

fn dec(n: u64) -> (r: String)
    ensures
        r@ == decimal(n as nat),
{
    decimal_string(n as u128)
}

fn one(a: String) -> (r: Vec<String>)
    ensures
        strings_view(r@) == seq![a@],
{
    let mut v = Vec::new();
    v.push(a);
    assert(strings_view(v@) =~= seq![a@]);
    v
}

fn none() -> (r: Vec<String>)
    ensures
        strings_view(r@) == Seq::<Seq<char>>::empty(),
{
    let v: Vec<String> = Vec::new();
    assert(strings_view(v@) =~= Seq::<Seq<char>>::empty());
    v
}

fn push_string(v: &mut Vec<String>, a: String)
    ensures
        strings_view(final(v)@) == strings_view(old(v)@).push(a@),
{
    v.push(a);
    assert(strings_view(v@) =~= strings_view(old(v)@).push(a@));
}

impl MiCommand {
    /// `interpreter-exec` of `command` in the interpreter `interpreter`.
    pub fn interpreter_exec(interpreter: String, command: String) -> (r: MiCommand)
        ensures
            r@ == cmd("interpreter-exec"@, seq![interpreter@, command@], Seq::empty()),
    {
        let ghost (i, c) = (interpreter@, command@);
        let mut options = one(interpreter);
        push_string(&mut options, command);
        assert(strings_view(options@) =~= seq![i, c]);
        MiCommand::new(lit("interpreter-exec"), options, none())
    }

    /// The console command `command`, quoted (see [`escape_spec`]).
    pub fn cli_exec(command: &str) -> (r: MiCommand)
        ensures
            r@ == cmd("interpreter-exec"@, seq!["console"@, escape_spec(command@)], Seq::empty()),
    {
        Self::interpreter_exec(lit("console"), escape_command(command))
    }

    /// Disassembly of `lines` lines (all if `None`) of `file` from line
    /// `linenum`.
    pub fn data_disassemble_file(file: &str, linenum: usize, lines: Option<usize>, mode: DisassembleMode) -> (r: MiCommand)
        ensures
            r@ == cmd(
                "data-disassemble"@,
                seq!["-f"@, file@, "-l"@, decimal(linenum as nat), "-n"@, lines_option(lines)],
                seq![decimal(mode_code(mode))],
            ),
    {
        let n = match lines {
            Some(l) => {
                let v: isize = l as isize;
                signed_decimal_string(v as i128)
            },
            None => {
                proof {
                    reveal_strlit("-1");
                }
                let r = lit("-1");
                assert(r@ =~= seq!['-', '1']);
                r
            },
        };
        assert(n@ == lines_option(lines));
        let mut options = one(lit("-f"));
        push_string(&mut options, lit(file));
        push_string(&mut options, lit("-l"));
        push_string(&mut options, dec(linenum as u64));
        push_string(&mut options, lit("-n"));
        let ghost nv = n@;
        push_string(&mut options, n);
        assert(strings_view(options@) =~= seq!["-f"@, file@, "-l"@, decimal(linenum as nat), "-n"@, nv]);
        MiCommand::new(lit("data-disassemble"), options, one(dec(mode.code() as u64)))
    }

    /// Disassembly of the addresses from `start_addr` to `end_addr`.
    pub fn data_disassemble_address(start_addr: usize, end_addr: usize, mode: DisassembleMode) -> (r: MiCommand)
        ensures
            r@ == cmd(
                "data-disassemble"@,
                seq!["-s"@, decimal(start_addr as nat), "-e"@, decimal(end_addr as nat)],
                seq![decimal(mode_code(mode))],
            ),
    {
        let mut options = one(lit("-s"));
        push_string(&mut options, dec(start_addr as u64));
        push_string(&mut options, lit("-e"));
        push_string(&mut options, dec(end_addr as u64));
        assert(strings_view(options@) =~= seq!["-s"@, decimal(start_addr as nat), "-e"@, decimal(end_addr as nat)]);
        MiCommand::new(lit("data-disassemble"), options, one(dec(mode.code() as u64)))
    }

    /// Evaluation of `expression`, in quotes.
    pub fn data_evaluate_expression(expression: String) -> (r: MiCommand)
        ensures
            r@ == cmd(
                "data-evaluate-expression"@,
                seq![seq!['"'] + expression@ + seq!['"']],
                Seq::empty(),
            ),
    {
        let mut q = String::new();
        push_char(&mut q, '"');
        push_str(&mut q, expression.as_str());
        push_char(&mut q, '"');
        assert(q@ =~= seq!['"'] + expression@ + seq!['"']);
        MiCommand::new(lit("data-evaluate-expression"), one(q), none())
    }

    /// A breakpoint at `location` (see [`location_text`]).
    pub fn insert_breakpoint(location: BreakPointLocation) -> (r: MiCommand)
        ensures
            r@ == cmd("break-insert"@, seq![location_text(location)], Seq::empty()),
    {
        let ghost expected = location_text(location);
        let mut t = String::new();
        match location {
            BreakPointLocation::Address(addr) => {
                push_char(&mut t, '*');
                push_char(&mut t, '0');
                push_char(&mut t, 'x');
                let digits = radix_chars(addr as u128, 16);
                push_str(&mut t, string_from_chars(digits.as_slice()).as_str());
                assert(t@ =~= expected);
            },
            BreakPointLocation::Function(path, func_name) => {
                push_str(&mut t, path);
                push_char(&mut t, ':');
                push_str(&mut t, func_name);
                assert(t@ =~= expected);
            },
            BreakPointLocation::Line(path, line_number) => {
                push_str(&mut t, path);
                push_char(&mut t, ':');
                push_str(&mut t, dec(line_number as u64).as_str());
                assert(t@ =~= expected);
            },
        }
        MiCommand::new(lit("break-insert"), one(t), none())
    }

    /// Deletion of the breakpoints with the given numbers: the options are
    /// their texts (see [`delete_option`]) in increasing order, each once.
    pub fn delete_breakpoints(breakpoint_numbers: &[BreakPointNumber]) -> (r: MiCommand)
        ensures
            r@.operation == "break-delete"@,
            r@.parameters == Seq::<Seq<char>>::empty(),
            strictly_sorted(r@.options),
            r@.options.to_set() == breakpoint_numbers@.map_values(|n: BreakPointNumber| delete_option(n)).to_set(),
    {
        let mut options: Vec<String> = Vec::new();
        let mut i: usize = 0;
        let ghost all = breakpoint_numbers@.map_values(|n: BreakPointNumber| delete_option(n));
        assert(strings_view(options@).to_set() =~= all.take(0).to_set());
        while i < breakpoint_numbers.len()
            invariant
                i <= breakpoint_numbers@.len(),
                all == breakpoint_numbers@.map_values(|n: BreakPointNumber| delete_option(n)),
                strictly_sorted(strings_view(options@)),
                strings_view(options@).to_set() == all.take(i as int).to_set(),
            decreases breakpoint_numbers@.len() - i,
        {
            let mut t = dec(breakpoint_numbers[i].major as u64);
            push_char(&mut t, ' ');
            assert(t@ =~= all[i as int]);
            insert_sorted(&mut options, t);
            proof {
                assert(all.take(i + 1) =~= all.take(i as int).push(all[i as int]));
                all.take(i as int).lemma_push_to_set_commute(all[i as int]);
            }
            i += 1;
        }
        assert(all.take(all.len() as int) =~= all);
        MiCommand::new(lit("break-delete"), options, none())
    }

    /// A watchpoint on `expression`.
    pub fn insert_watchpoing(expression: &str, mode: WatchMode) -> (r: MiCommand)
        ensures
            r@ == cmd(
                "break-watch"@,
                match mode {
                    WatchMode::Write => Seq::empty(),
                    WatchMode::Read => seq!["-r"@],
                    WatchMode::Access => seq!["-a"@],
                },
                seq![expression@],
            ),
    {
        let options = match mode {
            WatchMode::Write => none(),
            WatchMode::Read => one(lit("-r")),
            WatchMode::Access => one(lit("-a")),
        };
        MiCommand::new(lit("break-watch"), options, one(lit(expression)))
    }

    pub fn environment_pwd() -> (r: MiCommand)
        ensures
            r@ == cmd("environment-pwd"@, Seq::empty(), Seq::empty()),
    {
        MiCommand::new(lit("environment-pwd"), none(), none())
    }

    pub fn exec_interrupt() -> (r: MiCommand)
        ensures
            r@ == cmd("exec-interrupt"@, Seq::empty(), Seq::empty()),
    {
        MiCommand::new(lit("exec-interrupt"), none(), none())
    }

    /// Sets the arguments of the program.
    pub fn exec_arguments(args: Vec<String>) -> (r: MiCommand)
        ensures
            r@ == cmd("exec-arguments"@, strings_view(args@), Seq::empty()),
    {
        MiCommand::new(lit("exec-arguments"), args, none())
    }

    pub fn exit() -> (r: MiCommand)
        ensures
            r@ == cmd("gdb-exit"@, Seq::empty(), Seq::empty()),
    {
        MiCommand::new(lit("gdb-exit"), none(), none())
    }

    pub fn select_frame(frame_number: u64) -> (r: MiCommand)
        ensures
            r@ == cmd("stack-select-frame"@, seq![decimal(frame_number as nat)], Seq::empty()),
    {
        MiCommand::new(lit("stack-select-frame"), one(dec(frame_number)), none())
    }

    pub fn stack_info_frame(frame_number: Option<u64>) -> (r: MiCommand)
        ensures
            r@ == cmd(
                "stack-info-frame"@,
                match frame_number {
                    Some(f) => seq![decimal(f as nat)],
                    None => Seq::empty(),
                },
                Seq::empty(),
            ),
    {
        let options = match frame_number {
            Some(f) => one(dec(f)),
            None => none(),
        };
        MiCommand::new(lit("stack-info-frame"), options, none())
    }

    pub fn stack_info_depth() -> (r: MiCommand)
        ensures
            r@ == cmd("stack-info-depth"@, Seq::empty(), Seq::empty()),
    {
        MiCommand::new(lit("stack-info-depth"), none(), none())
    }

    /// The variables of a frame, with simple values.
    pub fn stack_list_variables(thread_number: Option<u64>, frame_number: Option<u64>) -> (r: MiCommand)
        ensures
            r@ == cmd(
                "stack-list-variables"@,
                Seq::empty(),
                (match thread_number {
                    Some(t) => seq!["--thread"@, decimal(t as nat)],
                    None => Seq::empty(),
                }) + (match frame_number {
                    Some(f) => seq!["--frame"@, decimal(f as nat)],
                    None => Seq::empty(),
                }) + seq!["--simple-values"@],
            ),
    {
        let mut parameters = none();
        if let Some(t) = thread_number {
            push_string(&mut parameters, lit("--thread"));
            push_string(&mut parameters, dec(t));
        }
        if let Some(f) = frame_number {
            push_string(&mut parameters, lit("--frame"));
            push_string(&mut parameters, dec(f));
        }
        push_string(&mut parameters, lit("--simple-values"));
        let r = MiCommand::new(lit("stack-list-variables"), none(), parameters);
        proof {
            let t: Seq<Seq<char>> = match thread_number {
                Some(t) => seq!["--thread"@, decimal(t as nat)],
                None => Seq::empty(),
            };
            let f: Seq<Seq<char>> = match frame_number {
                Some(f) => seq!["--frame"@, decimal(f as nat)],
                None => Seq::empty(),
            };
            assert(r@.parameters =~= t + f + seq!["--simple-values"@]);
        }
        r
    }

    pub fn thread_info(thread_id: Option<u64>) -> (r: MiCommand)
        ensures
            r@ == cmd(
                "thread-info"@,
                match thread_id {
                    Some(t) => seq![decimal(t as nat)],
                    None => Seq::empty(),
                },
                Seq::empty(),
            ),
    {
        let options = match thread_id {
            Some(t) => one(dec(t)),
            None => none(),
        };
        MiCommand::new(lit("thread-info"), options, none())
    }

    pub fn file_exec_and_symbols(file: &str) -> (r: MiCommand)
        ensures
            r@ == cmd("file-exec-and-symbols"@, seq![file@], Seq::empty()),
    {
        MiCommand::new(lit("file-exec-and-symbols"), one(lit(file)), none())
    }

    pub fn file_symbol_file(file: Option<&str>) -> (r: MiCommand)
        ensures
            r@ == cmd(
                "file-symbol-file"@,
                match file {
                    Some(f) => seq![f@],
                    None => Seq::empty(),
                },
                Seq::empty(),
            ),
    {
        let options = match file {
            Some(f) => one(lit(f)),
            None => none(),
        };
        MiCommand::new(lit("file-symbol-file"), options, none())
    }

    pub fn list_thread_groups(list_all_available: bool, thread_group_ids: &[u32]) -> (r: MiCommand)
        ensures
            r@ == cmd(
                "list-thread-groups"@,
                if list_all_available {
                    seq!["--available"@]
                } else {
                    Seq::empty()
                },
                thread_group_ids@.map_values(|id: u32| decimal(id as nat)),
            ),
    {
        let options = if list_all_available {
            one(lit("--available"))
        } else {
            none()
        };
        let mut parameters = none();
        let mut i: usize = 0;
        while i < thread_group_ids.len()
            invariant
                i <= thread_group_ids@.len(),
                strings_view(parameters@) == thread_group_ids@.take(i as int).map_values(
                    |id: u32| decimal(id as nat),
                ),
            decreases thread_group_ids@.len() - i,
        {
            push_string(&mut parameters, dec(thread_group_ids[i] as u64));
            proof {
                assert(thread_group_ids@.take(i + 1).map_values(|id: u32| decimal(id as nat))
                    =~= thread_group_ids@.take(i as int).map_values(|id: u32| decimal(id as nat)).push(
                    decimal(thread_group_ids@[i as int] as nat),
                ));
            }
            i += 1;
        }
        assert(thread_group_ids@.take(thread_group_ids@.len() as int) =~= thread_group_ids@);
        MiCommand::new(lit("list-thread-groups"), options, parameters)
    }

    /// A variable object for `expression`, named `name` (gdb chooses the
    /// name if `None`), in the frame at `frame_addr` (the current frame if
    /// `None`).
    pub fn var_create(name: Option<String>, expression: &str, frame_addr: Option<u64>) -> (r: MiCommand)
        ensures
            r@ == cmd(
                "var-create"@,
                Seq::empty(),
                seq![
                    string_or(name, "\"-\""@),
                    frame_text(frame_addr),
                    escape_spec(expression@),
                ],
            ),
    {
        let ghost name_spec = string_or(name, "\"-\""@);
        let n = match name {
            Some(n) => n,
            None => lit("\"-\""),
        };
        let f = match frame_addr {
            Some(a) => dec(a),
            None => lit("\"*\""),
        };
        assert(n@ == name_spec);
        assert(f@ == frame_text(frame_addr));
        let ghost (nv, fv) = (n@, f@);
        let mut parameters = one(n);
        push_string(&mut parameters, f);
        push_string(&mut parameters, escape_command(expression));
        assert(strings_view(parameters@) =~= seq![nv, fv, escape_spec(expression@)]);
        let r = MiCommand::new(lit("var-create"), none(), parameters);
        assert(r@.parameters =~= seq![name_spec, fv, escape_spec(expression@)]);
        assert(r@.options =~= Seq::<Seq<char>>::empty());
        assert(name_spec == string_or(name, "\"-\""@));
        r
    }

    /// Deletion of the variable object `name`, with its children if
    /// `delete_children`.
    pub fn var_delete(name: String, delete_children: bool) -> (r: MiCommand)
        ensures
            r@ == cmd(
                "var-delete"@,
                Seq::empty(),
                if delete_children {
                    seq!["-c"@, name@]
                } else {
                    seq![name@]
                },
            ),
    {
        let mut parameters = none();
        if delete_children {
            push_string(&mut parameters, lit("-c"));
        }
        let ghost nv = name@;
        push_string(&mut parameters, name);
        assert(strings_view(parameters@) =~= (if delete_children {
            seq!["-c"@, nv]
        } else {
            seq![nv]
        }));
        MiCommand::new(lit("var-delete"), none(), parameters)
    }

    /// The children of the variable object `name` (from `from_to.start` to
    /// `from_to.end` if given), with their values if `print_values`.
    pub fn var_list_children(name: String, print_values: bool, from_to: Option<core::ops::Range<u64>>) -> (r: MiCommand)
        ensures
            r@ == cmd(
                "var-list-children"@,
                Seq::empty(),
                seq![
                    if print_values {
                        "--all-values"@
                    } else {
                        "--no-values"@
                    },
                    name@,
                ] + match from_to {
                    Some(ft) => seq![decimal(ft.start as nat), decimal(ft.end as nat)],
                    None => Seq::empty(),
                },
            ),
    {
        let mut parameters = one(
            if print_values {
                lit("--all-values")
            } else {
                lit("--no-values")
            },
        );
        let ghost nv = name@;
        push_string(&mut parameters, name);
        let ghost base = strings_view(parameters@);
        assert(base =~= seq![
            if print_values {
                "--all-values"@
            } else {
                "--no-values"@
            },
            nv,
        ]);
        let ghost ft_spec = from_to;
        if let Some(ft) = from_to {
            push_string(&mut parameters, dec(ft.start));
            push_string(&mut parameters, dec(ft.end));
        }
        let r = MiCommand::new(lit("var-list-children"), none(), parameters);
        proof {
            let tail: Seq<Seq<char>> = match ft_spec {
                Some(ft) => seq![decimal(ft.start as nat), decimal(ft.end as nat)],
                None => Seq::empty(),
            };
            assert(r@.parameters =~= base + tail);
        }
        r
    }
}

} // verus!
