//! The records that gdb writes in its machine interface, and the parser that
//! reads one line of such output.
//!
//! A line holds a result record (`[token]^class,results`), an out-of-band
//! record (an asynchronous record `[token]*class,results`,
//! `[token]+class,results` or `[token]=class,results`, or a stream record
//! `~"text"`, `@"text"`, `&"text"`), the prompt `(gdb) `, or anything else; it
//! ends with `\n` or `\r\n`. The parser tells a line that ends too early
//! (`Fail::Incomplete`) from one that does not fit (`Fail::Error`).
use vstd::prelude::*;
use vstd::string::StringSliceAdditionalSpecFns;
use super::value::{
    MiValue, Val, entries_view, values_view, to_map, make_object, lemma_object_view,
    lemma_array_view,
};

verus! {

broadcast use vstd::string::is_ascii_spec_bytes;

/// Why a parser did not succeed.
#[derive(Clone, Copy, PartialEq, Eq, Debug, Structural)]
pub enum Fail {
    /// The input ended before the parser could decide.
    Incomplete,
    /// The input does not have the expected form.
    Error,
}

/// The class of a result record.
#[derive(Clone, Copy, PartialEq, Eq, Debug, Structural)]
pub enum ResultClass {
    Done,
    Running,
    Connected,
    Error,
    Exit,
}

/// What happened to a breakpoint.
#[derive(Clone, Copy, PartialEq, Eq, Debug, Structural)]
pub enum BreakPointEvent {
    Created,
    Deleted,
    Modified,
}

/// What happened to a thread.
#[derive(Clone, Copy, PartialEq, Eq, Debug, Structural)]
pub enum ThreadEvent {
    Created,
    GroupStarted,
    Exited,
    GroupExited,
    Selected,
}

/// The class of an asynchronous record.
pub enum AsyncClass {
    Stopped,
    CmdParamChanged,
    LibraryLoaded,
    Thread(ThreadEvent),
    BreakPoint(BreakPointEvent),
    Other(String),
}

/// The kind of an asynchronous record.
#[derive(Clone, Copy, PartialEq, Eq, Debug, Structural)]
pub enum AsyncKind {
    Exec,
    Status,
    Notify,
}

/// The kind of a stream record.
#[derive(Clone, Copy, PartialEq, Eq, Debug, Structural)]
pub enum StreamKind {
    Console,
    Target,
    Log,
}

/// A result record: the answer to a command.
pub struct ResultRecord {
    pub token: Option<u64>,
    pub class: ResultClass,
    pub results: Vec<(String, MiValue)>,
}

/// An out-of-band record.
#[allow(inconsistent_fields)]
pub enum OutOfBandRecord {
    AsyncRecord {
        token: Option<u64>,
        kind: AsyncKind,
        class: AsyncClass,
        results: Vec<(String, MiValue)>,
    },
    StreamRecord { kind: StreamKind, data: String },
}

/// One line of gdb/mi output.
pub enum Output {
    Result(ResultRecord),
    OutOfBand(OutOfBandRecord),
    GDBLine,
    SomethingElse(String),
}

/// The mathematical form of an [`AsyncClass`].
pub enum AsyncClassView {
    Stopped,
    CmdParamChanged,
    LibraryLoaded,
    Thread(ThreadEvent),
    BreakPoint(BreakPointEvent),
    Other(Seq<char>),
}

/// The mathematical form of a [`ResultRecord`].
pub struct ResultRecordView {
    pub token: Option<nat>,
    pub class: ResultClass,
    pub results: Seq<(Seq<char>, Val)>,
}

/// The mathematical form of an [`OutOfBandRecord`].
#[allow(inconsistent_fields)]
pub enum OutOfBandView {
    Async { token: Option<nat>, kind: AsyncKind, class: AsyncClassView, results: Seq<(Seq<char>, Val)> },
    Stream { kind: StreamKind, data: Seq<char> },
}

/// The mathematical form of an [`Output`].
pub enum OutputView {
    Result(ResultRecordView),
    OutOfBand(OutOfBandView),
    GDBLine,
    SomethingElse(Seq<char>),
}

impl AsyncClass {
    pub open spec fn view(&self) -> AsyncClassView {
        match self {
            AsyncClass::Stopped => AsyncClassView::Stopped,
            AsyncClass::CmdParamChanged => AsyncClassView::CmdParamChanged,
            AsyncClass::LibraryLoaded => AsyncClassView::LibraryLoaded,
            AsyncClass::Thread(e) => AsyncClassView::Thread(*e),
            AsyncClass::BreakPoint(e) => AsyncClassView::BreakPoint(*e),
            AsyncClass::Other(s) => AsyncClassView::Other(s@),
        }
    }
}

pub open spec fn token_view(t: Option<u64>) -> Option<nat> {
    match t {
        Some(v) => Some(v as nat),
        None => None,
    }
}

impl ResultRecord {
    pub open spec fn view(&self) -> ResultRecordView {
        ResultRecordView {
            token: token_view(self.token),
            class: self.class,
            results: entries_view(self.results@),
        }
    }
}

impl OutOfBandRecord {
    pub open spec fn view(&self) -> OutOfBandView {
        match self {
            OutOfBandRecord::AsyncRecord { token, kind, class, results } => OutOfBandView::Async {
                token: token_view(*token),
                kind: *kind,
                class: class.view(),
                results: entries_view(results@),
            },
            OutOfBandRecord::StreamRecord { kind, data } => OutOfBandView::Stream {
                kind: *kind,
                data: data@,
            },
        }
    }
}

impl Output {
    pub open spec fn view(&self) -> OutputView {
        match self {
            Output::Result(r) => OutputView::Result(r.view()),
            Output::OutOfBand(r) => OutputView::OutOfBand(r.view()),
            Output::GDBLine => OutputView::GDBLine,
            Output::SomethingElse(s) => OutputView::SomethingElse(s@),
        }
    }
}

// ---------------------------------------------------------------------------
// Bytes and text.

/// The bytes of an ASCII text.
pub open spec fn bytes_of(s: Seq<char>) -> Seq<u8> {
    Seq::new(s.len(), |i: int| s[i] as u8)
}

/// The text that a sequence of bytes decodes to, invalid sequences replaced
/// by U+FFFD.
pub uninterp spec fn utf8_lossy(b: Seq<u8>) -> Seq<char>;

/// `String::from_utf8_lossy` of std: the text of the bytes, each invalid
/// sequence replaced by U+FFFD, the text unchanged where the bytes are valid
/// UTF-8.
#[verifier::external_body]
fn string_from_utf8_lossy(b: &[u8]) -> (r: String)
    ensures
        r@ == utf8_lossy(b@),
        vstd::utf8::valid_utf8(b@) ==> r@ == vstd::utf8::decode_utf8(b@),
{
    String::from_utf8_lossy(b).into_owned()
}

fn ascii_bytes(t: &str) -> (r: &[u8])
    requires
        vstd::string::is_ascii(t),
    ensures
        r@ == bytes_of(t@),
{
    t.as_bytes()
}

fn sub_vec(s: &[u8], from: usize, to: usize) -> (r: Vec<u8>)
    requires
        from <= to <= s@.len(),
    ensures
        r@ == s@.subrange(from as int, to as int),
{
    let mut r: Vec<u8> = Vec::new();
    let mut i = from;
    while i < to
        invariant
            from <= i <= to <= s@.len(),
            r@ == s@.subrange(from as int, i as int),
        decreases to - i,
    {
        r.push(s[i]);
        assert(s@.subrange(from as int, i as int).push(s@[i as int]) =~= s@.subrange(
            from as int,
            i + 1,
        ));
        i += 1;
    }
    r
}

// ---------------------------------------------------------------------------
// Basic parsers.

/// Matching the bytes `t` at position `p` of `s`: an input that ends within
/// a prefix of `t` is incomplete.
pub open spec fn sp_tag(s: Seq<u8>, p: int, t: Seq<u8>) -> Result<int, Fail> {
    let m = if s.len() - p < t.len() {
        s.len() - p
    } else {
        t.len() as int
    };
    if p < 0 || p > s.len() {
        Err(Fail::Error)
    } else if s.subrange(p, p + m) != t.subrange(0, m) {
        Err(Fail::Error)
    } else if m < t.len() {
        Err(Fail::Incomplete)
    } else {
        Ok(p + t.len())
    }
}

fn p_tag(s: &[u8], p: usize, t: &[u8]) -> (r: Result<usize, Fail>)
    requires
        p <= s@.len(),
    ensures
        match r {
            Ok(q) => sp_tag(s@, p as int, t@) == Ok::<int, Fail>(q as int) && p <= q <= s@.len(),
            Err(e) => sp_tag(s@, p as int, t@) == Err::<int, Fail>(e),
        },
{
    let avail = s.len() - p;
    let m = if avail < t.len() {
        avail
    } else {
        t.len()
    };
    let mut i: usize = 0;
    while i < m
        invariant
            m <= t@.len(),
            p + m <= s@.len(),
            s@.len() <= usize::MAX,
            i <= m,
            s@.subrange(p as int, p + i) == t@.subrange(0, i as int),
        decreases m - i,
    {
        if s[p + i] != t[i] {
            assert(s@.subrange(p as int, p + m)[i as int] != t@.subrange(0, m as int)[i as int]);
            return Err(Fail::Error);
        }
        assert(s@.subrange(p as int, p + i + 1) =~= s@.subrange(p as int, p + i).push(s@[p + i]));
        assert(t@.subrange(0, i + 1) =~= t@.subrange(0, i as int).push(t@[i as int]));
        i += 1;
    }
    if m < t.len() {
        Err(Fail::Incomplete)
    } else {
        Ok(p + t.len())
    }
}

proof fn lemma_tag1(s: Seq<u8>, p: int, b: u8)
    requires
        0 <= p <= s.len(),
    ensures
        sp_tag(s, p, seq![b]) == (if p == s.len() {
            Err::<int, Fail>(Fail::Incomplete)
        } else if s[p] == b {
            Ok::<int, Fail>(p + 1)
        } else {
            Err::<int, Fail>(Fail::Error)
        }),
{
    if p == s.len() {
        assert(s.subrange(p, p) =~= seq![b].subrange(0, 0));
    } else if s[p] == b {
        assert(s.subrange(p, p + 1) =~= seq![b].subrange(0, 1));
    } else {
        assert(s.subrange(p, p + 1)[0] != seq![b].subrange(0, 1)[0]);
    }
}

/// The position of the first byte at or after `p` that is in `set`, or the
/// end of `s`.
pub open spec fn first_in(s: Seq<u8>, p: int, set: Seq<u8>) -> int
    decreases s.len() - p,
{
    if p < 0 || p >= s.len() {
        s.len() as int
    } else if set.contains(s[p]) {
        p
    } else {
        first_in(s, p + 1, set)
    }
}

/// The longest run of bytes, at least one, that are not in `set`.
pub open spec fn sp_is_not(s: Seq<u8>, p: int, set: Seq<u8>) -> Result<(int, Seq<u8>), Fail> {
    let q = first_in(s, p, set);
    if p < 0 || p > s.len() {
        Err(Fail::Error)
    } else if q == p && p < s.len() {
        Err(Fail::Error)
    } else {
        Ok((q, s.subrange(p, q)))
    }
}

proof fn lemma_first_in(s: Seq<u8>, p: int, set: Seq<u8>)
    requires
        0 <= p <= s.len(),
    ensures
        p <= first_in(s, p, set) <= s.len(),
        forall|k: int| p <= k < first_in(s, p, set) ==> !set.contains(#[trigger] s[k]),
        first_in(s, p, set) < s.len() ==> set.contains(s[first_in(s, p, set)]),
    decreases s.len() - p,
{
    if p < s.len() && !set.contains(s[p]) {
        lemma_first_in(s, p + 1, set);
    }
}

fn contains_byte(set: &[u8], b: u8) -> (r: bool)
    ensures
        r == set@.contains(b),
{
    let mut i: usize = 0;
    while i < set.len()
        invariant
            i <= set@.len(),
            forall|k: int| 0 <= k < i ==> set@[k] != b,
        decreases set@.len() - i,
    {
        if set[i] == b {
            assert(set@[i as int] == b);
            return true;
        }
        i += 1;
    }
    false
}

fn p_is_not(s: &[u8], p: usize, set: &[u8]) -> (r: Result<(usize, Vec<u8>), Fail>)
    requires
        p <= s@.len(),
    ensures
        match r {
            Ok((q, v)) => sp_is_not(s@, p as int, set@) == Ok::<(int, Seq<u8>), Fail>(
                (q as int, v@),
            ),
            Err(e) => sp_is_not(s@, p as int, set@) == Err::<(int, Seq<u8>), Fail>(e),
        },
{
    let mut q = p;
    while q < s.len() && !contains_byte(set, s[q])
        invariant
            p <= q <= s@.len(),
            first_in(s@, q as int, set@) == first_in(s@, p as int, set@),
        decreases s@.len() - q,
    {
        q += 1;
    }
    if q == p && p < s.len() {
        Err(Fail::Error)
    } else {
        Ok((q, sub_vec(s, p, q)))
    }
}

// ---------------------------------------------------------------------------
// Strings.

pub open spec fn escape_tags() -> Seq<Seq<u8>> {
    seq![bytes_of("\\n"@), bytes_of("\\r"@), bytes_of("\\t"@), bytes_of("\\\""@), bytes_of("\\\\"@)]
}

pub open spec fn escape_results() -> Seq<u8> {
    seq![10u8, 13u8, 9u8, 34u8, 92u8]
}

/// The first of `tags` that matches at `p`, with its index; an incomplete
/// match ends the search.
pub open spec fn sp_alt_tags(s: Seq<u8>, p: int, tags: Seq<Seq<u8>>) -> Result<(int, int), Fail>
    decreases tags.len(),
{
    if tags.len() == 0 {
        Err(Fail::Error)
    } else {
        match sp_tag(s, p, tags[0]) {
            Ok(q) => Ok((q, 0)),
            Err(Fail::Incomplete) => Err(Fail::Incomplete),
            Err(Fail::Error) => match sp_alt_tags(s, p, tags.drop_first()) {
                Ok((q, i)) => Ok((q, i + 1)),
                Err(e) => Err(e),
            },
        }
    }
}

pub open spec fn tags_view(v: Seq<Vec<u8>>) -> Seq<Seq<u8>> {
    Seq::new(v.len(), |i: int| v[i]@)
}

fn p_alt_tags(s: &[u8], p: usize, tags: &Vec<Vec<u8>>) -> (r: Result<(usize, usize), Fail>)
    requires
        p <= s@.len(),
    ensures
        match r {
            Ok((q, i)) => sp_alt_tags(s@, p as int, tags_view(tags@)) == Ok::<(int, int), Fail>(
                (q as int, i as int),
            ) && i < tags@.len() && p <= q <= s@.len(),
            Err(e) => sp_alt_tags(s@, p as int, tags_view(tags@)) == Err::<(int, int), Fail>(e),
        },
{
    let ghost all = tags_view(tags@);
    let mut i: usize = 0;
    assert(all.skip(0) =~= all);
    while i < tags.len()
        invariant
            i <= tags@.len(),
            p <= s@.len(),
            all == tags_view(tags@),
            forall|j: int|
                0 <= j < i ==> sp_tag(s@, p as int, #[trigger] all[j]) == Err::<int, Fail>(
                    Fail::Error,
                ),
            sp_alt_tags(s@, p as int, all) == match sp_alt_tags(
                s@,
                p as int,
                all.skip(i as int),
            ) {
                Ok((q, k)) => Ok((q, k + i)),
                Err(e) => Err::<(int, int), Fail>(e),
            },
        decreases tags@.len() - i,
    {
        let ghost rest = all.skip(i as int);
        assert(rest[0] == all[i as int]);
        assert(rest.drop_first() =~= all.skip(i + 1));
        match p_tag(s, p, tags[i].as_slice()) {
            Ok(q) => {
                return Ok((q, i));
            },
            Err(Fail::Incomplete) => {
                return Err(Fail::Incomplete);
            },
            Err(Fail::Error) => {},
        }
        i += 1;
    }
    assert(all.skip(i as int) =~= Seq::<Seq<u8>>::empty());
    Err(Fail::Error)
}

fn make_tags(v: Vec<&str>) -> (r: Vec<Vec<u8>>)
    requires
        forall|i: int| 0 <= i < v@.len() ==> vstd::string::is_ascii(#[trigger] v@[i]),
    ensures
        r@.len() == v@.len(),
        forall|i: int| 0 <= i < v@.len() ==> #[trigger] r@[i]@ == bytes_of(v@[i]@),
{
    let mut r: Vec<Vec<u8>> = Vec::new();
    let mut i: usize = 0;
    while i < v.len()
        invariant
            i <= v@.len(),
            forall|k: int| 0 <= k < v@.len() ==> vstd::string::is_ascii(#[trigger] v@[k]),
            r@.len() == i,
            forall|k: int| 0 <= k < i ==> #[trigger] r@[k]@ == bytes_of(v@[k]@),
        decreases v@.len() - i,
    {
        let b = ascii_bytes(v[i]);
        let mut w: Vec<u8> = Vec::new();
        let mut j: usize = 0;
        while j < b.len()
            invariant
                j <= b@.len(),
                w@ == b@.take(j as int),
            decreases b@.len() - j,
        {
            w.push(b[j]);
            assert(b@.take(j as int).push(b@[j as int]) =~= b@.take(j + 1));
            j += 1;
        }
        assert(b@.take(j as int) =~= b@);
        r.push(w);
        i += 1;
    }
    r
}

/// One character of a string: an escape sequence or a byte other than `"`.
pub open spec fn sp_escaped(s: Seq<u8>, p: int) -> Result<(int, u8), Fail> {
    match sp_alt_tags(s, p, escape_tags()) {
        Ok((q, i)) => Ok((q, escape_results()[i])),
        Err(Fail::Incomplete) => Err(Fail::Incomplete),
        Err(Fail::Error) => if 0 <= p < s.len() && s[p] != 34 {
            Ok((p + 1, s[p]))
        } else {
            Err(Fail::Error)
        },
    }
}

fn p_escaped(s: &[u8], p: usize, escapes: &Vec<Vec<u8>>) -> (r: Result<(usize, u8), Fail>)
    requires
        p <= s@.len(),
        tags_view(escapes@) == escape_tags(),
    ensures
        match r {
            Ok((q, b)) => sp_escaped(s@, p as int) == Ok::<(int, u8), Fail>((q as int, b)),
            Err(e) => sp_escaped(s@, p as int) == Err::<(int, u8), Fail>(e),
        },
{
    match p_alt_tags(s, p, escapes) {
        Ok((q, i)) => {
            let b: u8 = if i == 0 {
                10
            } else if i == 1 {
                13
            } else if i == 2 {
                9
            } else if i == 3 {
                34
            } else {
                92
            };
            Ok((q, b))
        },
        Err(Fail::Incomplete) => Err(Fail::Incomplete),
        Err(Fail::Error) => {
            if p < s.len() && s[p] != 34 {
                Ok((p + 1, s[p]))
            } else {
                Err(Fail::Error)
            }
        },
    }
}

/// Characters of a string, as many as there are.
pub open spec fn sp_many_escaped(s: Seq<u8>, p: int) -> Result<(int, Seq<u8>), Fail>
    decreases s.len() - p,
{
    if p < 0 || p >= s.len() {
        Ok((p, Seq::empty()))
    } else {
        match sp_escaped(s, p) {
            Err(Fail::Error) => Ok((p, Seq::empty())),
            Err(Fail::Incomplete) => Err(Fail::Incomplete),
            Ok((q, b)) => if q <= p || q > s.len() {
                Err(Fail::Error)
            } else {
                match sp_many_escaped(s, q) {
                    Ok((r, bs)) => Ok((r, seq![b] + bs)),
                    Err(e) => Err(e),
                }
            },
        }
    }
}

proof fn lemma_escaped_pos(s: Seq<u8>, p: int)
    requires
        0 <= p <= s.len(),
    ensures
        sp_escaped(s, p) matches Ok((q, b)) ==> p < q <= s.len(),
{
    reveal_strlit("\\n");
    reveal_strlit("\\r");
    reveal_strlit("\\t");
    reveal_strlit("\\\"");
    reveal_strlit("\\\\");
    lemma_alt_tags_pos(s, p, escape_tags());
}

proof fn lemma_alt_tags_pos(s: Seq<u8>, p: int, tags: Seq<Seq<u8>>)
    requires
        0 <= p <= s.len(),
        forall|i: int| 0 <= i < tags.len() ==> #[trigger] tags[i].len() > 0,
    ensures
        sp_alt_tags(s, p, tags) matches Ok((q, i)) ==> p < q <= s.len() && 0 <= i < tags.len(),
    decreases tags.len(),
{
    if tags.len() > 0 {
        assert(tags[0].len() > 0);
        if sp_tag(s, p, tags[0]) is Err {
            assert forall|i: int| 0 <= i < tags.drop_first().len() implies #[trigger] tags.drop_first()[i].len() > 0 by {
                assert(tags.drop_first()[i] == tags[i + 1]);
            }
            lemma_alt_tags_pos(s, p, tags.drop_first());
        }
    }
}

fn p_many_escaped(s: &[u8], p: usize, escapes: &Vec<Vec<u8>>) -> (r: Result<(usize, Vec<u8>), Fail>)
    requires
        p <= s@.len(),
        tags_view(escapes@) == escape_tags(),
    ensures
        match r {
            Ok((q, v)) => sp_many_escaped(s@, p as int) == Ok::<(int, Seq<u8>), Fail>(
                (q as int, v@),
            ) && p <= q <= s@.len(),
            Err(e) => sp_many_escaped(s@, p as int) == Err::<(int, Seq<u8>), Fail>(e),
        },
    decreases s@.len() - p,
{
    if p >= s.len() {
        return Ok((p, Vec::new()));
    }
    proof {
        lemma_escaped_pos(s@, p as int);
    }
    match p_escaped(s, p, escapes) {
        Err(Fail::Error) => Ok((p, Vec::new())),
        Err(Fail::Incomplete) => Err(Fail::Incomplete),
        Ok((q, b)) => {
            match p_many_escaped(s, q, escapes) {
                Ok((r, bs)) => {
                    let mut v: Vec<u8> = Vec::new();
                    v.push(b);
                    let mut bs = bs;
                    v.append(&mut bs);
                    Ok((r, v))
                },
                Err(e) => Err(e),
            }
        },
    }
}

/// A quoted string: its text, escape sequences replaced.
pub open spec fn sp_string(s: Seq<u8>, p: int) -> Result<(int, Seq<char>), Fail> {
    match sp_tag(s, p, seq![34u8]) {
        Err(e) => Err(e),
        Ok(p1) => match sp_many_escaped(s, p1) {
            Err(e) => Err(e),
            Ok((p2, bs)) => match sp_tag(s, p2, seq![34u8]) {
                Err(e) => Err(e),
                Ok(p3) => Ok((p3, utf8_lossy(bs))),
            },
        },
    }
}

fn quote() -> (r: Vec<u8>)
    ensures
        r@ == seq![34u8],
{
    let mut r = Vec::new();
    r.push(34u8);
    r
}

fn p_string(s: &[u8], p: usize, escapes: &Vec<Vec<u8>>) -> (r: Result<(usize, String), Fail>)
    requires
        p <= s@.len(),
        tags_view(escapes@) == escape_tags(),
    ensures
        match r {
            Ok((q, v)) => sp_string(s@, p as int) == Ok::<(int, Seq<char>), Fail>(
                (q as int, v@),
            ) && p < q <= s@.len(),
            Err(e) => sp_string(s@, p as int) == Err::<(int, Seq<char>), Fail>(e),
        },
{
    let q = quote();
    match p_tag(s, p, q.as_slice()) {
        Err(e) => Err(e),
        Ok(p1) => match p_many_escaped(s, p1, escapes) {
            Err(e) => Err(e),
            Ok((p2, bs)) => match p_tag(s, p2, q.as_slice()) {
                Err(e) => Err(e),
                Ok(p3) => Ok((p3, string_from_utf8_lossy(bs.as_slice()))),
            },
        },
    }
}


// ---------------------------------------------------------------------------
// Values and named results.

pub open spec fn comma() -> Seq<u8> {
    seq![44u8]
}

pub open spec fn equals() -> Seq<u8> {
    seq![61u8]
}

pub open spec fn lbrace() -> Seq<u8> {
    seq![123u8]
}

pub open spec fn rbrace() -> Seq<u8> {
    seq![125u8]
}

pub open spec fn lbracket() -> Seq<u8> {
    seq![91u8]
}

pub open spec fn rbracket() -> Seq<u8> {
    seq![93u8]
}

/// The bytes that end the name of a result: `=`, `{` and `}`.
pub open spec fn name_stops() -> Seq<u8> {
    seq![61u8, 123u8, 125u8]
}

/// The values of a list of named values.
pub open spec fn to_list(rs: Seq<(Seq<char>, Val)>) -> Seq<Val> {
    Seq::new(rs.len(), |i: int| rs[i].1)
}

/// A value: a string, a tuple `{name=value,...}`, a list of values
/// `[value,...]` or a list of results `[name=value,...]` (whose names are
/// dropped), tried in this order.
pub open spec fn sp_value(s: Seq<u8>, p: int) -> Result<(int, Val), Fail>
    decreases s.len() - p, 0int,
{
    if p < 0 || p > s.len() {
        Err(Fail::Error)
    } else if p == s.len() {
        Err(Fail::Incomplete)
    } else {
        match sp_string(s, p) {
            Ok((q, t)) => Ok((q, Val::Str(t))),
            Err(Fail::Incomplete) => Err(Fail::Incomplete),
            Err(Fail::Error) => if s[p] == 123 {
                // `{` results `}`
                match sp_seplist_result(s, p + 1) {
                    Err(e) => Err(e),
                    Ok((p2, rs)) => match sp_tag(s, p2, rbrace()) {
                        Err(e) => Err(e),
                        Ok(p3) => Ok((p3, Val::Object(to_map(rs)))),
                    },
                }
            } else if s[p] != 91 {
                Err(Fail::Error)
            } else {
                // `[` values `]`
                match sp_seplist_value(s, p + 1) {
                    Err(Fail::Incomplete) => Err(Fail::Incomplete),
                    Ok((p2, vs)) if sp_tag(s, p2, rbracket()) is Ok => Ok(
                        (p2 + 1, Val::Array(vs)),
                    ),
                    Ok((p2, vs)) if sp_tag(s, p2, rbracket()) == Err::<int, Fail>(
                        Fail::Incomplete,
                    ) => Err(Fail::Incomplete),
                    _ => {
                        // `[` results `]`
                        match sp_seplist_result(s, p + 1) {
                            Err(e) => Err(e),
                            Ok((p2, rs)) => match sp_tag(s, p2, rbracket()) {
                                Err(e) => Err(e),
                                Ok(p3) => Ok((p3, Val::Array(to_list(rs)))),
                            },
                        }
                    },
                }
            },
        }
    }
}

/// Values separated by commas; none when the first one does not fit.
pub open spec fn sp_seplist_value(s: Seq<u8>, p: int) -> Result<(int, Seq<Val>), Fail>
    decreases s.len() - p, 1int,
{
    if p < 0 || p > s.len() {
        Err(Fail::Error)
    } else {
        match sp_value(s, p) {
            Err(Fail::Error) => Ok((p, Seq::empty())),
            Err(Fail::Incomplete) => Err(Fail::Incomplete),
            Ok((q, v)) => if q <= p || q > s.len() {
                Err(Fail::Error)
            } else {
                let (e, vs) = sp_seplist_value_rest(s, q);
                Ok((e, seq![v] + vs))
            },
        }
    }
}

/// Further `,value` after the first value; it stops before a comma that is
/// not followed by a value.
pub open spec fn sp_seplist_value_rest(s: Seq<u8>, p: int) -> (int, Seq<Val>)
    decreases s.len() - p, 1int,
{
    if p < 0 || p >= s.len() || s[p] != 44 {
        (p, Seq::empty())
    } else {
        match sp_value(s, p + 1) {
            Ok((p3, v)) => if p3 <= p + 1 || p3 > s.len() {
                (p, Seq::empty())
            } else {
                let (e, vs) = sp_seplist_value_rest(s, p3);
                (e, seq![v] + vs)
            },
            Err(_) => (p, Seq::empty()),
        }
    }
}

/// Named results separated by commas; none when the first one does not fit.
pub open spec fn sp_seplist_result(s: Seq<u8>, p: int) -> Result<(int, Seq<(Seq<char>, Val)>), Fail>
    decreases s.len() - p, 1int,
{
    if p < 0 || p > s.len() {
        Err(Fail::Error)
    } else {
        match sp_result(s, p) {
            Err(Fail::Error) => Ok((p, Seq::empty())),
            Err(Fail::Incomplete) => Err(Fail::Incomplete),
            Ok((q, r)) => if q <= p || q > s.len() {
                Err(Fail::Error)
            } else {
                let (e, rs) = sp_seplist_result_rest(s, q);
                Ok((e, seq![r] + rs))
            },
        }
    }
}

/// Further `,name=value` after the first result.
pub open spec fn sp_seplist_result_rest(s: Seq<u8>, p: int) -> (int, Seq<(Seq<char>, Val)>)
    decreases s.len() - p, 1int,
{
    if p < 0 || p >= s.len() || s[p] != 44 {
        (p, Seq::empty())
    } else {
        match sp_result(s, p + 1) {
            Ok((p3, r)) => if p3 <= p + 1 || p3 > s.len() {
                (p, Seq::empty())
            } else {
                let (e, rs) = sp_seplist_result_rest(s, p3);
                (e, seq![r] + rs)
            },
            Err(_) => (p, Seq::empty()),
        }
    }
}

/// A named result `name=value`. Against the grammar, gdb at times writes
/// several comma separated values here: one value stands for itself, any
/// other number of them for the list of them.
pub open spec fn sp_result(s: Seq<u8>, p: int) -> Result<(int, (Seq<char>, Val)), Fail>
    decreases s.len() - p, 0int,
{
    match sp_is_not(s, p, name_stops()) {
        Err(e) => Err(e),
        Ok((p1, name)) => if p1 < p || p1 > s.len() {
            Err(Fail::Error)
        } else {
            match sp_tag(s, p1, equals()) {
                Err(e) => Err(e),
                Ok(p2) => match sp_several_values(s, p2) {
                    Err(e) => Err(e),
                    Ok((p3, v)) => Ok((p3, (utf8_lossy(name), v))),
                },
            }
        },
    }
}

/// Comma separated values: one stands for itself, any other number of them
/// for the list of them.
pub open spec fn sp_several_values(s: Seq<u8>, p: int) -> Result<(int, Val), Fail>
    decreases s.len() - p, 2int,
{
    match sp_seplist_value(s, p) {
        Err(e) => Err(e),
        Ok((q, vs)) => Ok(
            (
                q,
                if vs.len() == 1 {
                    vs[0]
                } else {
                    Val::Array(vs)
                },
            ),
        ),
    }
}

/// The byte sequences that the parser looks for.
pub struct Tables {
    pub escapes: Vec<Vec<u8>>,
    pub result_classes: Vec<Vec<u8>>,
    pub stream_kinds: Vec<Vec<u8>>,
    pub async_kinds: Vec<Vec<u8>>,
    pub async_classes: Vec<Vec<u8>>,
    pub newlines: Vec<Vec<u8>>,
    pub prompt: Vec<u8>,
}

impl Tables {
    pub open spec fn wf(&self) -> bool {
        &&& tags_view(self.escapes@) == escape_tags()
        &&& tags_view(self.result_classes@) == result_class_tags()
        &&& tags_view(self.stream_kinds@) == stream_kind_tags()
        &&& tags_view(self.async_kinds@) == async_kind_tags()
        &&& tags_view(self.async_classes@) == async_class_tags()
        &&& tags_view(self.newlines@) == newline_tags()
        &&& self.prompt@ == bytes_of("(gdb) "@)
    }

    pub fn new() -> (r: Self)
        ensures
            r.wf(),
    {
        proof {
            reveal_strlit("\\n");
            reveal_strlit("\\r");
            reveal_strlit("\\t");
            reveal_strlit("\\\"");
            reveal_strlit("\\\\");
            reveal_strlit("done");
            reveal_strlit("running");
            reveal_strlit("connected");
            reveal_strlit("error");
            reveal_strlit("exit");
            reveal_strlit("~");
            reveal_strlit("@");
            reveal_strlit("&");
            reveal_strlit("*");
            reveal_strlit("+");
            reveal_strlit("=");
            reveal_strlit("stopped");
            reveal_strlit("thread-created");
            reveal_strlit("thread-group-started");
            reveal_strlit("thread-exited");
            reveal_strlit("thread-group-exited");
            reveal_strlit("thread-selected");
            reveal_strlit("cmd-param-changed");
            reveal_strlit("library-loaded");
            reveal_strlit("breakpoint-created");
            reveal_strlit("breakpoint-deleted");
            reveal_strlit("breakpoint-modified");
            reveal_strlit("\n");
            reveal_strlit("\r\n");
            reveal_strlit("(gdb) ");
        }
        let escapes = make_tags(vec!["\\n", "\\r", "\\t", "\\\"", "\\\\"]);
        assert(tags_view(escapes@) =~= escape_tags());
        let result_classes = make_tags(vec!["done", "running", "connected", "error", "exit"]);
        assert(tags_view(result_classes@) =~= result_class_tags());
        let stream_kinds = make_tags(vec!["~", "@", "&"]);
        assert(tags_view(stream_kinds@)[0] =~= stream_kind_tags()[0]);
        assert(tags_view(stream_kinds@)[1] =~= stream_kind_tags()[1]);
        assert(tags_view(stream_kinds@)[2] =~= stream_kind_tags()[2]);
        assert(tags_view(stream_kinds@) =~= stream_kind_tags());
        let async_kinds = make_tags(vec!["*", "+", "="]);
        assert(tags_view(async_kinds@)[0] =~= async_kind_tags()[0]);
        assert(tags_view(async_kinds@)[1] =~= async_kind_tags()[1]);
        assert(tags_view(async_kinds@)[2] =~= async_kind_tags()[2]);
        assert(tags_view(async_kinds@) =~= async_kind_tags());
        let async_classes = make_tags(
            vec![
                "stopped",
                "thread-created",
                "thread-group-started",
                "thread-exited",
                "thread-group-exited",
                "thread-selected",
                "cmd-param-changed",
                "library-loaded",
                "breakpoint-created",
                "breakpoint-deleted",
                "breakpoint-modified",
            ],
        );
        assert(tags_view(async_classes@) =~= async_class_tags());
        let newlines = make_tags(vec!["\n", "\r\n"]);
        assert(tags_view(newlines@)[0] =~= newline_tags()[0]);
        assert(tags_view(newlines@)[1] =~= newline_tags()[1]);
        assert(tags_view(newlines@) =~= newline_tags());
        let prompt_bytes = ascii_bytes("(gdb) ");
        let prompt = sub_vec(prompt_bytes, 0, prompt_bytes.len());
        assert(prompt@ =~= bytes_of("(gdb) "@));
        Tables { escapes, result_classes, stream_kinds, async_kinds, async_classes, newlines, prompt }
    }
}

fn p_value(s: &[u8], p: usize, esc: &Tables) -> (r: Result<(usize, MiValue), Fail>)
    requires
        p <= s@.len(),
        esc.wf(),
    ensures
        match r {
            Ok((q, v)) => sp_value(s@, p as int) == Ok::<(int, Val), Fail>((q as int, v.view()))
                && p < q <= s@.len(),
            Err(e) => sp_value(s@, p as int) == Err::<(int, Val), Fail>(e),
        },
    decreases s@.len() - p, 0int,
{
    if p >= s.len() {
        return Err(Fail::Incomplete);
    }
    match p_string(s, p, &esc.escapes) {
        Ok((q, t)) => {
            return Ok((q, MiValue::Str(t)));
        },
        Err(Fail::Incomplete) => {
            return Err(Fail::Incomplete);
        },
        Err(Fail::Error) => {},
    }
    if s[p] == 123 {
        match p_seplist_result(s, p + 1, esc) {
            Err(e) => {
                return Err(e);
            },
            Ok((p2, rs)) => {
                proof {
                    lemma_tag1(s@, p2 as int, 125u8);
                }
                if p2 < s.len() && s[p2] == 125 {
                    let obj = make_object(rs);
                    proof {
                        lemma_object_view(obj);
                    }
                    return Ok((p2 + 1, MiValue::Object(obj)));
                } else if p2 == s.len() {
                    return Err(Fail::Incomplete);
                } else {
                    return Err(Fail::Error);
                }
            },
        }
    }
    if s[p] != 91 {
        return Err(Fail::Error);
    }
    match p_seplist_value(s, p + 1, esc) {
        Err(Fail::Incomplete) => {
            return Err(Fail::Incomplete);
        },
        Err(Fail::Error) => {},
        Ok((p2, vs)) => {
            proof {
                lemma_tag1(s@, p2 as int, 93u8);
            }
            if p2 < s.len() && s[p2] == 93 {
                proof {
                    lemma_array_view(vs);
                }
                return Ok((p2 + 1, MiValue::Array(vs)));
            } else if p2 == s.len() {
                return Err(Fail::Incomplete);
            }
        },
    }
    match p_seplist_result(s, p + 1, esc) {
        Err(e) => Err(e),
        Ok((p2, rs)) => {
            proof {
                lemma_tag1(s@, p2 as int, 93u8);
            }
            if p2 < s.len() && s[p2] == 93 {
                let vs = drop_names(rs);
                proof {
                    lemma_array_view(vs);
                }
                Ok((p2 + 1, MiValue::Array(vs)))
            } else if p2 == s.len() {
                Err(Fail::Incomplete)
            } else {
                Err(Fail::Error)
            }
        },
    }
}

fn drop_names(rs: Vec<(String, MiValue)>) -> (r: Vec<MiValue>)
    ensures
        values_view(r@) == to_list(entries_view(rs@)),
{
    let ghost all = entries_view(rs@);
    let mut rs = rs;
    let mut r: Vec<MiValue> = Vec::new();
    let total = rs.len();
    let mut n: usize = 0;
    assert(all.skip(0) =~= all);
    while rs.len() > 0
        invariant
            n <= all.len(),
            all.len() == total,
            entries_view(rs@) == all.skip(n as int),
            values_view(r@) == to_list(all).take(n as int),
        decreases rs@.len(),
    {
        let ghost before = entries_view(rs@);
        let ghost old_r = values_view(r@);
        let (k, v) = rs.remove(0);
        assert(entries_view(rs@) =~= before.drop_first());
        assert(before[0] == (k@, v.view()));
        assert(all.skip(n as int).drop_first() =~= all.skip(n + 1));
        r.push(v);
        assert(values_view(r@) =~= old_r.push(v.view()));
        assert(to_list(all).take(n + 1) =~= to_list(all).take(n as int).push(all[n as int].1));
        n += 1;
    }
    assert(to_list(all).take(n as int) =~= to_list(all));
    r
}

fn p_seplist_value(s: &[u8], p: usize, esc: &Tables) -> (r: Result<(usize, Vec<MiValue>), Fail>)
    requires
        p <= s@.len(),
        esc.wf(),
    ensures
        match r {
            Ok((q, v)) => sp_seplist_value(s@, p as int) == Ok::<(int, Seq<Val>), Fail>(
                (q as int, values_view(v@)),
            ) && p <= q <= s@.len(),
            Err(e) => sp_seplist_value(s@, p as int) == Err::<(int, Seq<Val>), Fail>(e),
        },
    decreases s@.len() - p, 1int,
{
    let empty_values: Vec<MiValue> = Vec::new();
    assert(values_view(empty_values@) =~= Seq::<Val>::empty());
    match p_value(s, p, esc) {
        Err(Fail::Error) => Ok((p, empty_values)),
        Err(Fail::Incomplete) => Err(Fail::Incomplete),
        Ok((q, v)) => {
            let (e, vs) = p_seplist_value_rest(s, q, esc);
            let mut r: Vec<MiValue> = Vec::new();
            r.push(v);
            let mut vs = vs;
            let ghost vsv = values_view(vs@);
            r.append(&mut vs);
            assert(values_view(r@) =~= seq![v.view()] + vsv);
            Ok((e, r))
        },
    }
}

fn p_seplist_value_rest(s: &[u8], p: usize, esc: &Tables) -> (r: (usize, Vec<MiValue>))
    requires
        p <= s@.len(),
        esc.wf(),
    ensures
        sp_seplist_value_rest(s@, p as int) == (r.0 as int, values_view(r.1@)),
        p <= r.0 <= s@.len(),
    decreases s@.len() - p, 1int,
{
    let empty_values: Vec<MiValue> = Vec::new();
    assert(values_view(empty_values@) =~= Seq::<Val>::empty());
    if p >= s.len() || s[p] != 44 {
        return (p, empty_values);
    }
    match p_value(s, p + 1, esc) {
        Ok((p3, v)) => {
            let (e, vs) = p_seplist_value_rest(s, p3, esc);
            let mut r: Vec<MiValue> = Vec::new();
            r.push(v);
            let mut vs = vs;
            let ghost vsv = values_view(vs@);
            r.append(&mut vs);
            assert(values_view(r@) =~= seq![v.view()] + vsv);
            (e, r)
        },
        Err(_) => (p, empty_values),
    }
}

fn p_seplist_result(s: &[u8], p: usize, esc: &Tables) -> (r: Result<
    (usize, Vec<(String, MiValue)>),
    Fail,
>)
    requires
        p <= s@.len(),
        esc.wf(),
    ensures
        match r {
            Ok((q, v)) => sp_seplist_result(s@, p as int) == Ok::<
                (int, Seq<(Seq<char>, Val)>),
                Fail,
            >((q as int, entries_view(v@))) && p <= q <= s@.len(),
            Err(e) => sp_seplist_result(s@, p as int) == Err::<
                (int, Seq<(Seq<char>, Val)>),
                Fail,
            >(e),
        },
    decreases s@.len() - p, 1int,
{
    let empty_entries: Vec<(String, MiValue)> = Vec::new();
    assert(entries_view(empty_entries@) =~= Seq::<(Seq<char>, Val)>::empty());
    match p_result(s, p, esc) {
        Err(Fail::Error) => Ok((p, empty_entries)),
        Err(Fail::Incomplete) => Err(Fail::Incomplete),
        Ok((q, kv)) => {
            let (e, rs) = p_seplist_result_rest(s, q, esc);
            let ghost first = (kv.0@, kv.1.view());
            let mut r: Vec<(String, MiValue)> = Vec::new();
            r.push(kv);
            let mut rs = rs;
            let ghost rsv = entries_view(rs@);
            r.append(&mut rs);
            assert(entries_view(r@) =~= seq![first] + rsv);
            Ok((e, r))
        },
    }
}

fn p_seplist_result_rest(s: &[u8], p: usize, esc: &Tables) -> (r: (
    usize,
    Vec<(String, MiValue)>,
))
    requires
        p <= s@.len(),
        esc.wf(),
    ensures
        sp_seplist_result_rest(s@, p as int) == (r.0 as int, entries_view(r.1@)),
        p <= r.0 <= s@.len(),
    decreases s@.len() - p, 1int,
{
    let empty_entries: Vec<(String, MiValue)> = Vec::new();
    assert(entries_view(empty_entries@) =~= Seq::<(Seq<char>, Val)>::empty());
    if p >= s.len() || s[p] != 44 {
        return (p, empty_entries);
    }
    match p_result(s, p + 1, esc) {
        Ok((p3, kv)) => {
            let (e, rs) = p_seplist_result_rest(s, p3, esc);
            let ghost first = (kv.0@, kv.1.view());
            let mut r: Vec<(String, MiValue)> = Vec::new();
            r.push(kv);
            let mut rs = rs;
            let ghost rsv = entries_view(rs@);
            r.append(&mut rs);
            assert(entries_view(r@) =~= seq![first] + rsv);
            (e, r)
        },
        Err(_) => (p, empty_entries),
    }
}

fn name_stops_exec() -> (r: Vec<u8>)
    ensures
        r@ == name_stops(),
{
    let mut r = Vec::new();
    r.push(61u8);
    r.push(123u8);
    r.push(125u8);
    assert(r@ =~= name_stops());
    r
}

fn p_result(s: &[u8], p: usize, esc: &Tables) -> (r: Result<(usize, (String, MiValue)), Fail>)
    requires
        p <= s@.len(),
        esc.wf(),
    ensures
        match r {
            Ok((q, kv)) => sp_result(s@, p as int) == Ok::<(int, (Seq<char>, Val)), Fail>(
                (q as int, (kv.0@, kv.1.view())),
            ) && p < q <= s@.len(),
            Err(e) => sp_result(s@, p as int) == Err::<(int, (Seq<char>, Val)), Fail>(e),
        },
    decreases s@.len() - p, 0int,
{
    let stops = name_stops_exec();
    proof {
        lemma_first_in(s@, p as int, name_stops());
    }
    match p_is_not(s, p, stops.as_slice()) {
        Err(e) => Err(e),
        Ok((p1, name)) => {
            proof {
                lemma_tag1(s@, p1 as int, 61u8);
            }
            if p1 >= s.len() {
                return Err(Fail::Incomplete);
            }
            if s[p1] != 61 {
                return Err(Fail::Error);
            }
            match p_several_values(s, p1 + 1, esc) {
                Err(e) => Err(e),
                Ok((p3, v)) => Ok((p3, (string_from_utf8_lossy(name.as_slice()), v))),
            }
        },
    }
}

fn p_several_values(s: &[u8], p: usize, esc: &Tables) -> (r: Result<(usize, MiValue), Fail>)
    requires
        p <= s@.len(),
        esc.wf(),
    ensures
        match r {
            Ok((q, v)) => sp_several_values(s@, p as int) == Ok::<(int, Val), Fail>(
                (q as int, v.view()),
            ) && p <= q <= s@.len(),
            Err(e) => sp_several_values(s@, p as int) == Err::<(int, Val), Fail>(e),
        },
    decreases s@.len() - p, 2int,
{
    match p_seplist_value(s, p, esc) {
        Err(e) => Err(e),
        Ok((q, vs)) => {
            let mut vs = vs;
            if vs.len() == 1 {
                let v = vs.remove(0);
                Ok((q, v))
            } else {
                proof {
                    lemma_array_view(vs);
                }
                Ok((q, MiValue::Array(vs)))
            }
        },
    }
}

// ---------------------------------------------------------------------------
// Records.

pub open spec fn is_digit(b: u8) -> bool {
    48 <= b <= 57
}

/// The end of the run of decimal digits that starts at `p`.
pub open spec fn digit_run_end(s: Seq<u8>, p: int) -> int
    decreases s.len() - p,
{
    if 0 <= p < s.len() && is_digit(s[p]) {
        digit_run_end(s, p + 1)
    } else {
        p
    }
}

/// The number that a sequence of decimal digits writes.
pub open spec fn digits_value(ds: Seq<u8>) -> nat
    decreases ds.len(),
{
    if ds.len() == 0 {
        0
    } else {
        digits_value(ds.drop_last()) * 10 + (ds.last() - 48) as nat
    }
}

/// The leading token of a line (the digits that it starts with) fits in 64
/// bits.
pub open spec fn token_fits(s: Seq<u8>) -> bool {
    digits_value(s.subrange(0, digit_run_end(s, 0))) <= u64::MAX
}

/// A token: one or more decimal digits.
pub open spec fn sp_token(s: Seq<u8>, p: int) -> Result<(int, nat), Fail> {
    if p < 0 || p > s.len() {
        Err(Fail::Error)
    } else if p == s.len() {
        Err(Fail::Incomplete)
    } else if digit_run_end(s, p) == p {
        Err(Fail::Error)
    } else {
        Ok((digit_run_end(s, p), digits_value(s.subrange(p, digit_run_end(s, p)))))
    }
}

/// An optional token.
pub open spec fn sp_opt_token(s: Seq<u8>, p: int) -> Result<(int, Option<nat>), Fail> {
    match sp_token(s, p) {
        Ok((q, v)) => Ok((q, Some(v))),
        Err(Fail::Error) => Ok((p, None)),
        Err(Fail::Incomplete) => Err(Fail::Incomplete),
    }
}

proof fn lemma_digit_run_end(s: Seq<u8>, p: int)
    requires
        0 <= p <= s.len(),
    ensures
        p <= digit_run_end(s, p) <= s.len(),
        forall|k: int| p <= k < digit_run_end(s, p) ==> is_digit(#[trigger] s[k]),
    decreases s.len() - p,
{
    if p < s.len() && is_digit(s[p]) {
        lemma_digit_run_end(s, p + 1);
    }
}

proof fn lemma_digits_prefix(ds: Seq<u8>, k: int)
    requires
        0 <= k <= ds.len(),
        forall|i: int| 0 <= i < ds.len() ==> is_digit(#[trigger] ds[i]),
    ensures
        digits_value(ds.take(k)) <= digits_value(ds),
    decreases ds.len(),
{
    if k < ds.len() {
        assert(ds.drop_last().take(k) =~= ds.take(k));
        lemma_digits_prefix(ds.drop_last(), k);
    } else {
        assert(ds.take(k) =~= ds);
    }
}

fn p_opt_token(s: &[u8], p: usize) -> (r: Result<(usize, Option<u64>), Fail>)
    requires
        p <= s@.len(),
        digits_value(s@.subrange(p as int, digit_run_end(s@, p as int))) <= u64::MAX,
    ensures
        match r {
            Ok((q, t)) => sp_opt_token(s@, p as int) == Ok::<(int, Option<nat>), Fail>(
                (q as int, token_view(t)),
            ) && p <= q <= s@.len(),
            Err(e) => sp_opt_token(s@, p as int) == Err::<(int, Option<nat>), Fail>(e),
        },
{
    if p >= s.len() {
        return Err(Fail::Incomplete);
    }
    let ghost end = digit_run_end(s@, p as int);
    proof {
        lemma_digit_run_end(s@, p as int);
        assert(s@.subrange(p as int, p as int) =~= Seq::<u8>::empty());
    }
    let mut i = p;
    let mut acc: u64 = 0;
    while i < s.len() && 48 <= s[i] && s[i] <= 57
        invariant
            p <= i <= end <= s@.len(),
            end == digit_run_end(s@, p as int),
            digit_run_end(s@, i as int) == end,
            acc == digits_value(s@.subrange(p as int, i as int)),
            digits_value(s@.subrange(p as int, end)) <= u64::MAX,
            forall|k: int| p <= k < end ==> is_digit(#[trigger] s@[k]),
        decreases s@.len() - i,
    {
        proof {
            assert(digit_run_end(s@, i as int) == digit_run_end(s@, i + 1));
            lemma_digit_run_end(s@, i + 1);
            let run = s@.subrange(p as int, end);
            assert forall|k: int| 0 <= k < run.len() implies is_digit(#[trigger] run[k]) by {
                assert(run[k] == s@[p + k]);
            }
            lemma_digits_prefix(run, i + 1 - p);
            assert(run.take(i + 1 - p) =~= s@.subrange(p as int, i + 1));
            assert(s@.subrange(p as int, i + 1).drop_last() =~= s@.subrange(p as int, i as int));
        }
        acc = acc * 10 + (s[i] - 48) as u64;
        i += 1;
    }
    if i == p {
        Ok((p, None))
    } else {
        Ok((i, Some(acc)))
    }
}

pub open spec fn result_class_tags() -> Seq<Seq<u8>> {
    seq![
        bytes_of("done"@),
        bytes_of("running"@),
        bytes_of("connected"@),
        bytes_of("error"@),
        bytes_of("exit"@),
    ]
}

pub open spec fn result_class_at(i: int) -> ResultClass {
    if i == 0 {
        ResultClass::Done
    } else if i == 1 {
        ResultClass::Running
    } else if i == 2 {
        ResultClass::Connected
    } else if i == 3 {
        ResultClass::Error
    } else {
        ResultClass::Exit
    }
}

pub open spec fn sp_result_class(s: Seq<u8>, p: int) -> Result<(int, ResultClass), Fail> {
    match sp_alt_tags(s, p, result_class_tags()) {
        Ok((q, i)) => Ok((q, result_class_at(i))),
        Err(e) => Err(e),
    }
}

/// Further `,name=value` results, as many as there are.
pub open spec fn sp_many_results(s: Seq<u8>, p: int) -> Result<(int, Seq<(Seq<char>, Val)>), Fail>
    decreases s.len() - p,
{
    if p < 0 || p > s.len() {
        Err(Fail::Error)
    } else if p == s.len() {
        Ok((p, Seq::empty()))
    } else if s[p] != 44 {
        Ok((p, Seq::empty()))
    } else {
        match sp_result(s, p + 1) {
            Err(Fail::Error) => Ok((p, Seq::empty())),
            Err(Fail::Incomplete) => Err(Fail::Incomplete),
            Ok((p2, r)) => if p2 <= p || p2 > s.len() {
                Err(Fail::Error)
            } else {
                match sp_many_results(s, p2) {
                    Ok((q, rs)) => Ok((q, seq![r] + rs)),
                    Err(e) => Err(e),
                }
            },
        }
    }
}

/// A result record: an optional token, `^`, a result class and results.
pub open spec fn sp_result_record(s: Seq<u8>, p: int) -> Result<(int, ResultRecordView), Fail> {
    match sp_opt_token(s, p) {
        Err(e) => Err(e),
        Ok((p1, token)) => match sp_tag(s, p1, seq![94u8]) {
            Err(e) => Err(e),
            Ok(p2) => match sp_result_class(s, p2) {
                Err(e) => Err(e),
                Ok((p3, class)) => match sp_many_results(s, p3) {
                    Err(e) => Err(e),
                    Ok((p4, rs)) => Ok(
                        (p4, ResultRecordView { token, class, results: to_map(rs) }),
                    ),
                },
            },
        },
    }
}

pub open spec fn stream_kind_tags() -> Seq<Seq<u8>> {
    seq![seq![126u8], seq![64u8], seq![38u8]]
}

pub open spec fn stream_kind_at(i: int) -> StreamKind {
    if i == 0 {
        StreamKind::Console
    } else if i == 1 {
        StreamKind::Target
    } else {
        StreamKind::Log
    }
}

/// A stream record: `~`, `@` or `&` and a string.
pub open spec fn sp_stream_record(s: Seq<u8>, p: int) -> Result<(int, OutOfBandView), Fail> {
    match sp_alt_tags(s, p, stream_kind_tags()) {
        Err(e) => Err(e),
        Ok((p1, i)) => match sp_string(s, p1) {
            Err(e) => Err(e),
            Ok((p2, data)) => Ok((p2, OutOfBandView::Stream { kind: stream_kind_at(i), data })),
        },
    }
}

pub open spec fn async_kind_tags() -> Seq<Seq<u8>> {
    seq![seq![42u8], seq![43u8], seq![61u8]]
}

pub open spec fn async_kind_at(i: int) -> AsyncKind {
    if i == 0 {
        AsyncKind::Exec
    } else if i == 1 {
        AsyncKind::Status
    } else {
        AsyncKind::Notify
    }
}

pub open spec fn async_class_tags() -> Seq<Seq<u8>> {
    seq![
        bytes_of("stopped"@),
        bytes_of("thread-created"@),
        bytes_of("thread-group-started"@),
        bytes_of("thread-exited"@),
        bytes_of("thread-group-exited"@),
        bytes_of("thread-selected"@),
        bytes_of("cmd-param-changed"@),
        bytes_of("library-loaded"@),
        bytes_of("breakpoint-created"@),
        bytes_of("breakpoint-deleted"@),
        bytes_of("breakpoint-modified"@),
    ]
}

pub open spec fn async_class_at(i: int) -> AsyncClassView {
    if i == 0 {
        AsyncClassView::Stopped
    } else if i == 1 {
        AsyncClassView::Thread(ThreadEvent::Created)
    } else if i == 2 {
        AsyncClassView::Thread(ThreadEvent::GroupStarted)
    } else if i == 3 {
        AsyncClassView::Thread(ThreadEvent::Exited)
    } else if i == 4 {
        AsyncClassView::Thread(ThreadEvent::GroupExited)
    } else if i == 5 {
        AsyncClassView::Thread(ThreadEvent::Selected)
    } else if i == 6 {
        AsyncClassView::CmdParamChanged
    } else if i == 7 {
        AsyncClassView::LibraryLoaded
    } else if i == 8 {
        AsyncClassView::BreakPoint(BreakPointEvent::Created)
    } else if i == 9 {
        AsyncClassView::BreakPoint(BreakPointEvent::Deleted)
    } else {
        AsyncClassView::BreakPoint(BreakPointEvent::Modified)
    }
}

/// The class of an asynchronous record: a known word, or else the text up to
/// the first comma.
pub open spec fn sp_async_class(s: Seq<u8>, p: int) -> Result<(int, AsyncClassView), Fail> {
    match sp_alt_tags(s, p, async_class_tags()) {
        Ok((q, i)) => Ok((q, async_class_at(i))),
        Err(Fail::Incomplete) => Err(Fail::Incomplete),
        Err(Fail::Error) => match sp_is_not(s, p, comma()) {
            Err(e) => Err(e),
            Ok((q, t)) => Ok((q, AsyncClassView::Other(utf8_lossy(t)))),
        },
    }
}

/// An asynchronous record: an optional token, `*`, `+` or `=`, a class and
/// results.
pub open spec fn sp_async_record(s: Seq<u8>, p: int) -> Result<(int, OutOfBandView), Fail> {
    match sp_opt_token(s, p) {
        Err(e) => Err(e),
        Ok((p1, token)) => match sp_alt_tags(s, p1, async_kind_tags()) {
            Err(e) => Err(e),
            Ok((p2, k)) => match sp_async_class(s, p2) {
                Err(e) => Err(e),
                Ok((p3, class)) => match sp_many_results(s, p3) {
                    Err(e) => Err(e),
                    Ok((p4, rs)) => Ok(
                        (
                            p4,
                            OutOfBandView::Async {
                                token,
                                kind: async_kind_at(k),
                                class,
                                results: to_map(rs),
                            },
                        ),
                    ),
                },
            },
        },
    }
}

/// An out-of-band record: a stream record or an asynchronous record.
pub open spec fn sp_out_of_band(s: Seq<u8>, p: int) -> Result<(int, OutOfBandView), Fail> {
    match sp_stream_record(s, p) {
        Ok(r) => Ok(r),
        Err(Fail::Incomplete) => Err(Fail::Incomplete),
        Err(Fail::Error) => sp_async_record(s, p),
    }
}

/// The record of a line, before its end: a result record, an out-of-band
/// record, the prompt `(gdb) `, or else the whole line as it is.
pub open spec fn sp_record(s: Seq<u8>) -> Result<(int, OutputView), Fail> {
    match sp_result_record(s, 0) {
        Ok((q, r)) => Ok((q, OutputView::Result(r))),
        Err(Fail::Incomplete) => Err(Fail::Incomplete),
        Err(Fail::Error) => match sp_out_of_band(s, 0) {
            Ok((q, r)) => Ok((q, OutputView::OutOfBand(r))),
            Err(Fail::Incomplete) => Err(Fail::Incomplete),
            Err(Fail::Error) => match sp_tag(s, 0, bytes_of("(gdb) "@)) {
                Ok(q) => Ok((q, OutputView::GDBLine)),
                Err(Fail::Incomplete) => Err(Fail::Incomplete),
                Err(Fail::Error) => Ok((0, OutputView::SomethingElse(utf8_lossy(s)))),
            },
        },
    }
}

pub open spec fn newline_tags() -> Seq<Seq<u8>> {
    seq![seq![10u8], seq![13u8, 10u8]]
}

/// One line of output: a record followed by `\n` or `\r\n` (what follows is
/// not read).
pub open spec fn sp_output(s: Seq<u8>) -> Result<OutputView, Fail> {
    match sp_record(s) {
        Err(e) => Err(e),
        Ok((q, o)) => match sp_alt_tags(s, q, newline_tags()) {
            Ok(_) => Ok(o),
            Err(e) => Err(e),
        },
    }
}

fn p_many_results(s: &[u8], p: usize, t: &Tables) -> (r: Result<
    (usize, Vec<(String, MiValue)>),
    Fail,
>)
    requires
        p <= s@.len(),
        t.wf(),
    ensures
        match r {
            Ok((q, v)) => sp_many_results(s@, p as int) == Ok::<
                (int, Seq<(Seq<char>, Val)>),
                Fail,
            >((q as int, entries_view(v@))) && p <= q <= s@.len(),
            Err(e) => sp_many_results(s@, p as int) == Err::<
                (int, Seq<(Seq<char>, Val)>),
                Fail,
            >(e),
        },
    decreases s@.len() - p,
{
    let empty_entries: Vec<(String, MiValue)> = Vec::new();
    assert(entries_view(empty_entries@) =~= Seq::<(Seq<char>, Val)>::empty());
    if p >= s.len() || s[p] != 44 {
        return Ok((p, empty_entries));
    }
    match p_result(s, p + 1, t) {
        Err(Fail::Error) => Ok((p, empty_entries)),
        Err(Fail::Incomplete) => Err(Fail::Incomplete),
        Ok((p2, kv)) => match p_many_results(s, p2, t) {
            Err(e) => Err(e),
            Ok((q, rs)) => {
                let ghost first = (kv.0@, kv.1.view());
                let mut r: Vec<(String, MiValue)> = Vec::new();
                r.push(kv);
                let mut rs = rs;
                let ghost rsv = entries_view(rs@);
                r.append(&mut rs);
                assert(entries_view(r@) =~= seq![first] + rsv);
                Ok((q, r))
            },
        },
    }
}

fn p_result_record(s: &[u8], t: &Tables) -> (r: Result<(usize, ResultRecord), Fail>)
    requires
        t.wf(),
        token_fits(s@),
    ensures
        match r {
            Ok((q, rec)) => sp_result_record(s@, 0) == Ok::<(int, ResultRecordView), Fail>(
                (q as int, rec.view()),
            ) && q <= s@.len(),
            Err(e) => sp_result_record(s@, 0) == Err::<(int, ResultRecordView), Fail>(e),
        },
{
    match p_opt_token(s, 0) {
        Err(e) => Err(e),
        Ok((p1, token)) => {
            proof {
                lemma_tag1(s@, p1 as int, 94u8);
            }
            if p1 >= s.len() {
                return Err(Fail::Incomplete);
            }
            if s[p1] != 94 {
                return Err(Fail::Error);
            }
            match p_alt_tags(s, p1 + 1, &t.result_classes) {
                Err(e) => Err(e),
                Ok((p3, i)) => {
                    let class = if i == 0 {
                        ResultClass::Done
                    } else if i == 1 {
                        ResultClass::Running
                    } else if i == 2 {
                        ResultClass::Connected
                    } else if i == 3 {
                        ResultClass::Error
                    } else {
                        ResultClass::Exit
                    };
                    match p_many_results(s, p3, t) {
                        Err(e) => Err(e),
                        Ok((p4, rs)) => {
                            let results = make_object(rs);
                            Ok((p4, ResultRecord { token, class, results }))
                        },
                    }
                },
            }
        },
    }
}

fn p_stream_record(s: &[u8], t: &Tables) -> (r: Result<(usize, OutOfBandRecord), Fail>)
    requires
        t.wf(),
    ensures
        match r {
            Ok((q, rec)) => sp_stream_record(s@, 0) == Ok::<(int, OutOfBandView), Fail>(
                (q as int, rec.view()),
            ) && q <= s@.len(),
            Err(e) => sp_stream_record(s@, 0) == Err::<(int, OutOfBandView), Fail>(e),
        },
{
    match p_alt_tags(s, 0, &t.stream_kinds) {
        Err(e) => Err(e),
        Ok((p1, i)) => {
            let kind = if i == 0 {
                StreamKind::Console
            } else if i == 1 {
                StreamKind::Target
            } else {
                StreamKind::Log
            };
            match p_string(s, p1, &t.escapes) {
                Err(e) => Err(e),
                Ok((p2, data)) => Ok((p2, OutOfBandRecord::StreamRecord { kind, data })),
            }
        },
    }
}

fn p_async_class(s: &[u8], p: usize, t: &Tables) -> (r: Result<(usize, AsyncClass), Fail>)
    requires
        p <= s@.len(),
        t.wf(),
    ensures
        match r {
            Ok((q, c)) => sp_async_class(s@, p as int) == Ok::<(int, AsyncClassView), Fail>(
                (q as int, c.view()),
            ) && p <= q <= s@.len(),
            Err(e) => sp_async_class(s@, p as int) == Err::<(int, AsyncClassView), Fail>(e),
        },
{
    match p_alt_tags(s, p, &t.async_classes) {
        Ok((q, i)) => {
            let c = if i == 0 {
                AsyncClass::Stopped
            } else if i == 1 {
                AsyncClass::Thread(ThreadEvent::Created)
            } else if i == 2 {
                AsyncClass::Thread(ThreadEvent::GroupStarted)
            } else if i == 3 {
                AsyncClass::Thread(ThreadEvent::Exited)
            } else if i == 4 {
                AsyncClass::Thread(ThreadEvent::GroupExited)
            } else if i == 5 {
                AsyncClass::Thread(ThreadEvent::Selected)
            } else if i == 6 {
                AsyncClass::CmdParamChanged
            } else if i == 7 {
                AsyncClass::LibraryLoaded
            } else if i == 8 {
                AsyncClass::BreakPoint(BreakPointEvent::Created)
            } else if i == 9 {
                AsyncClass::BreakPoint(BreakPointEvent::Deleted)
            } else {
                AsyncClass::BreakPoint(BreakPointEvent::Modified)
            };
            Ok((q, c))
        },
        Err(Fail::Incomplete) => Err(Fail::Incomplete),
        Err(Fail::Error) => {
            let mut stops: Vec<u8> = Vec::new();
            stops.push(44u8);
            assert(stops@ =~= comma());
            proof {
                lemma_first_in(s@, p as int, comma());
            }
            match p_is_not(s, p, stops.as_slice()) {
                Err(e) => Err(e),
                Ok((q, text)) => Ok((q, AsyncClass::Other(string_from_utf8_lossy(text.as_slice())))),
            }
        },
    }
}

fn p_async_record(s: &[u8], t: &Tables) -> (r: Result<(usize, OutOfBandRecord), Fail>)
    requires
        t.wf(),
        token_fits(s@),
    ensures
        match r {
            Ok((q, rec)) => sp_async_record(s@, 0) == Ok::<(int, OutOfBandView), Fail>(
                (q as int, rec.view()),
            ) && q <= s@.len(),
            Err(e) => sp_async_record(s@, 0) == Err::<(int, OutOfBandView), Fail>(e),
        },
{
    match p_opt_token(s, 0) {
        Err(e) => Err(e),
        Ok((p1, token)) => match p_alt_tags(s, p1, &t.async_kinds) {
            Err(e) => Err(e),
            Ok((p2, k)) => {
                let kind = if k == 0 {
                    AsyncKind::Exec
                } else if k == 1 {
                    AsyncKind::Status
                } else {
                    AsyncKind::Notify
                };
                match p_async_class(s, p2, t) {
                    Err(e) => Err(e),
                    Ok((p3, class)) => match p_many_results(s, p3, t) {
                        Err(e) => Err(e),
                        Ok((p4, rs)) => {
                            let results = make_object(rs);
                            Ok((p4, OutOfBandRecord::AsyncRecord { token, kind, class, results }))
                        },
                    },
                }
            },
        },
    }
}

fn p_record(s: &[u8], t: &Tables) -> (r: Result<(usize, Output), Fail>)
    requires
        t.wf(),
        token_fits(s@),
    ensures
        match r {
            Ok((q, o)) => sp_record(s@) == Ok::<(int, OutputView), Fail>((q as int, o.view()))
                && q <= s@.len(),
            Err(e) => sp_record(s@) == Err::<(int, OutputView), Fail>(e),
        },
{
    match p_result_record(s, t) {
        Ok((q, r)) => {
            return Ok((q, Output::Result(r)));
        },
        Err(Fail::Incomplete) => {
            return Err(Fail::Incomplete);
        },
        Err(Fail::Error) => {},
    }
    match p_stream_record(s, t) {
        Ok((q, r)) => {
            return Ok((q, Output::OutOfBand(r)));
        },
        Err(Fail::Incomplete) => {
            return Err(Fail::Incomplete);
        },
        Err(Fail::Error) => {},
    }
    match p_async_record(s, t) {
        Ok((q, r)) => {
            return Ok((q, Output::OutOfBand(r)));
        },
        Err(Fail::Incomplete) => {
            return Err(Fail::Incomplete);
        },
        Err(Fail::Error) => {},
    }
    match p_tag(s, 0, t.prompt.as_slice()) {
        Ok(q) => Ok((q, Output::GDBLine)),
        Err(Fail::Incomplete) => Err(Fail::Incomplete),
        Err(Fail::Error) => Ok((0, Output::SomethingElse(string_from_utf8_lossy(s)))),
    }
}

impl Output {
    /// Parses one line of gdb/mi output (see [`sp_output`]).
    pub fn parse(line: &str) -> (r: Result<Output, Fail>)
        requires
            token_fits(line.spec_bytes()),
        ensures
            match r {
                Ok(o) => sp_output(line.spec_bytes()) == Ok::<OutputView, Fail>(o.view()),
                Err(e) => sp_output(line.spec_bytes()) == Err::<OutputView, Fail>(e),
            },
    {
        let s = line.as_bytes();
        let t = Tables::new();
        match p_record(s, &t) {
            Err(e) => Err(e),
            Ok((q, o)) => match p_alt_tags(s, q, &t.newlines) {
                Ok(_) => Ok(o),
                Err(e) => Err(e),
            },
        }
    }
}

/// Where a line of output goes.
pub enum Dispatch {
    /// A result record, for the command that waits for its answer.
    ToResults(ResultRecord),
    /// An out-of-band record, for the user interface.
    ToOutOfBand(OutOfBandRecord),
    /// Nothing to pass on.
    Nothing,
}

/// The mathematical form of a [`Dispatch`].
pub enum DispatchView {
    ToResults(ResultRecordView),
    ToOutOfBand(OutOfBandView),
    Nothing,
}

impl Dispatch {
    pub open spec fn view(&self) -> DispatchView {
        match self {
            Dispatch::ToResults(r) => DispatchView::ToResults(r.view()),
            Dispatch::ToOutOfBand(r) => DispatchView::ToOutOfBand(r.view()),
            Dispatch::Nothing => DispatchView::Nothing,
        }
    }
}

/// How a line of output is passed on, and what it says of whether gdb runs:
/// a result of class running says that it runs, one of class error that it
/// does not (gdb at times claims to run and then stops without notice), a
/// stopped record that it stops; any other line of text goes to the user as
/// target output.
pub open spec fn dispatch_spec(o: OutputView) -> (Option<bool>, DispatchView) {
    match o {
        OutputView::Result(r) => (
            if r.class == ResultClass::Running {
                Some(true)
            } else if r.class == ResultClass::Error {
                Some(false)
            } else {
                None
            },
            DispatchView::ToResults(r),
        ),
        OutputView::OutOfBand(r) => (
            if r matches OutOfBandView::Async { class: AsyncClassView::Stopped, .. } {
                Some(false)
            } else {
                None
            },
            DispatchView::ToOutOfBand(r),
        ),
        OutputView::GDBLine => (None, DispatchView::Nothing),
        OutputView::SomethingElse(t) => (
            None,
            DispatchView::ToOutOfBand(OutOfBandView::Stream { kind: StreamKind::Target, data: t }),
        ),
    }
}

/// Decides where a line of output goes and whether gdb now runs (see
/// [`dispatch_spec`]).
pub fn dispatch_output(o: Output) -> (r: (Option<bool>, Dispatch))
    ensures
        (r.0, r.1.view()) == dispatch_spec(o.view()),
{
    match o {
        Output::Result(record) => {
            let running = match record.class {
                ResultClass::Running => Some(true),
                ResultClass::Error => Some(false),
                _ => None,
            };
            (running, Dispatch::ToResults(record))
        },
        Output::OutOfBand(record) => {
            let running = match &record {
                OutOfBandRecord::AsyncRecord { class: AsyncClass::Stopped, .. } => Some(false),
                _ => None,
            };
            (running, Dispatch::ToOutOfBand(record))
        },
        Output::GDBLine => (None, Dispatch::Nothing),
        Output::SomethingElse(text) => (
            None,
            Dispatch::ToOutOfBand(
                OutOfBandRecord::StreamRecord { kind: StreamKind::Target, data: text },
            ),
        ),
    }
}
proof fn lemma_digits_value_prefix(s: Seq<u8>, i: int, j: int)
    requires
        0 <= i <= j <= s.len(),
        forall|k: int| 0 <= k < j ==> is_digit(#[trigger] s[k]),
    ensures
        digits_value(s.subrange(0, i)) <= digits_value(s.subrange(0, j)),
    decreases j - i,
{
    if i < j {
        lemma_digits_value_prefix(s, i, j - 1);
        assert(s.subrange(0, j).drop_last() =~= s.subrange(0, j - 1));
    }
}

/// Whether the leading token of `line` fits in 64 bits (see
/// [`token_fits`]), which [`Output::parse`] needs.
pub fn line_token_fits(line: &str) -> (r: bool)
    ensures
        r == token_fits(line.spec_bytes()),
{
    let s = line.as_bytes();
    let ghost end = digit_run_end(s@, 0);
    proof {
        lemma_digit_run_end(s@, 0);
        assert(s@.subrange(0, 0) =~= Seq::<u8>::empty());
    }
    let mut i: usize = 0;
    let mut acc: u64 = 0;
    while i < s.len() && 48 <= s[i] && s[i] <= 57
        invariant
            s@ == line.spec_bytes(),
            i <= end <= s@.len(),
            end == digit_run_end(s@, 0),
            digit_run_end(s@, i as int) == end,
            acc == digits_value(s@.subrange(0, i as int)),
            forall|k: int| 0 <= k < end ==> is_digit(#[trigger] s@[k]),
        decreases s@.len() - i,
    {
        proof {
            lemma_digit_run_end(s@, i + 1);
            assert(digit_run_end(s@, i as int) == digit_run_end(s@, i + 1));
            assert(s@.subrange(0, i + 1).drop_last() =~= s@.subrange(0, i as int));
            lemma_digits_value_prefix(s@, i + 1, end);
        }
        let d = (s[i] - 48) as u64;
        assert(digits_value(s@.subrange(0, i + 1)) == acc * 10 + d);
        match acc.checked_mul(10) {
            Some(m) => match m.checked_add(d) {
                Some(a) => {
                    acc = a;
                },
                None => {
                    return false;
                },
            },
            None => {
                return false;
            },
        }
        i += 1;
    }
    true
}


proof fn lemma_tag2(s: Seq<u8>, p: int, a: u8, b: u8)
    requires
        0 <= p,
        p + 2 <= s.len(),
    ensures
        sp_tag(s, p, seq![a, b]) == (if s[p] == a && s[p + 1] == b {
            Ok::<int, Fail>(p + 2)
        } else {
            Err::<int, Fail>(Fail::Error)
        }),
{
    let t = seq![a, b];
    assert(t.subrange(0, 2) =~= t);
    if s[p] == a && s[p + 1] == b {
        assert(s.subrange(p, p + 2) =~= t);
    } else if s[p] != a {
        assert(s.subrange(p, p + 2)[0] != t[0]);
    } else {
        assert(s.subrange(p, p + 2)[1] != t[1]);
    }
}

proof fn lemma_tag_first_differs(s: Seq<u8>, p: int, t: Seq<u8>)
    requires
        0 <= p < s.len(),
        t.len() >= 1,
        s[p] != t[0],
    ensures
        sp_tag(s, p, t) == Err::<int, Fail>(Fail::Error),
{
    let m = if s.len() - p < t.len() {
        s.len() - p
    } else {
        t.len() as int
    };
    assert(s.subrange(p, p + m)[0] != t.subrange(0, m)[0]);
}

proof fn lemma_escape_tags()
    ensures
        escape_tags() == seq![seq![92u8, 110u8], seq![92u8, 114u8], seq![92u8, 116u8], seq![92u8, 34u8], seq![92u8, 92u8]],
{
    reveal_strlit("\\n");
    reveal_strlit("\\r");
    reveal_strlit("\\t");
    reveal_strlit("\\\"");
    reveal_strlit("\\\\");
    assert(bytes_of("\\n"@) =~= seq![92u8, 110u8]);
    assert(bytes_of("\\r"@) =~= seq![92u8, 114u8]);
    assert(bytes_of("\\t"@) =~= seq![92u8, 116u8]);
    assert(bytes_of("\\\""@) =~= seq![92u8, 34u8]);
    assert(bytes_of("\\\\"@) =~= seq![92u8, 92u8]);
    assert(escape_tags() =~= seq![seq![92u8, 110u8], seq![92u8, 114u8], seq![92u8, 116u8], seq![92u8, 34u8], seq![92u8, 92u8]]);
}

/// Escape sequences of a quoted string decode to the C characters they
/// denote, wherever they stand: `\n` to a line feed (10), `\r` to a
/// carriage return (13), `\t` to a tab (9), `\"` to a quote (34) and `\\`
/// to a backslash (92).
pub proof fn lemma_escapes_decode(s: Seq<u8>, p: int)
    requires
        0 <= p,
        p + 2 <= s.len(),
        s[p] == 92u8,
    ensures
        s[p + 1] == 110u8 ==> sp_escaped(s, p) == Ok::<(int, u8), Fail>((p + 2, 10u8)),
        s[p + 1] == 114u8 ==> sp_escaped(s, p) == Ok::<(int, u8), Fail>((p + 2, 13u8)),
        s[p + 1] == 116u8 ==> sp_escaped(s, p) == Ok::<(int, u8), Fail>((p + 2, 9u8)),
        s[p + 1] == 34u8 ==> sp_escaped(s, p) == Ok::<(int, u8), Fail>((p + 2, 34u8)),
        s[p + 1] == 92u8 ==> sp_escaped(s, p) == Ok::<(int, u8), Fail>((p + 2, 92u8)),
{
    lemma_escape_tags();
    let t0 = escape_tags();
    let t1 = t0.drop_first();
    let t2 = t1.drop_first();
    let t3 = t2.drop_first();
    let t4 = t3.drop_first();
    let t5 = t4.drop_first();
    assert(t5.len() == 0);
    lemma_tag2(s, p, 92u8, 110u8);
    lemma_tag2(s, p, 92u8, 114u8);
    lemma_tag2(s, p, 92u8, 116u8);
    lemma_tag2(s, p, 92u8, 34u8);
    lemma_tag2(s, p, 92u8, 92u8);
    assert(t0[0] == seq![92u8, 110u8]);
    assert(t1[0] == seq![92u8, 114u8]);
    assert(t2[0] == seq![92u8, 116u8]);
    assert(t3[0] == seq![92u8, 34u8]);
    assert(t4[0] == seq![92u8, 92u8]);
    let r4 = sp_alt_tags(s, p, t4);
    let r3 = sp_alt_tags(s, p, t3);
    let r2 = sp_alt_tags(s, p, t2);
    let r1 = sp_alt_tags(s, p, t1);
    let r0 = sp_alt_tags(s, p, t0);
    if s[p + 1] == 110u8 {
        assert(r0 == Ok::<(int, int), Fail>((p + 2, 0)));
    } else if s[p + 1] == 114u8 {
        assert(r1 == Ok::<(int, int), Fail>((p + 2, 0)));
        assert(r0 == Ok::<(int, int), Fail>((p + 2, 1)));
    } else if s[p + 1] == 116u8 {
        assert(r2 == Ok::<(int, int), Fail>((p + 2, 0)));
        assert(r1 == Ok::<(int, int), Fail>((p + 2, 1)));
        assert(r0 == Ok::<(int, int), Fail>((p + 2, 2)));
    } else if s[p + 1] == 34u8 {
        assert(r3 == Ok::<(int, int), Fail>((p + 2, 0)));
        assert(r2 == Ok::<(int, int), Fail>((p + 2, 1)));
        assert(r1 == Ok::<(int, int), Fail>((p + 2, 2)));
        assert(r0 == Ok::<(int, int), Fail>((p + 2, 3)));
    } else if s[p + 1] == 92u8 {
        assert(r4 == Ok::<(int, int), Fail>((p + 2, 0)));
        assert(r3 == Ok::<(int, int), Fail>((p + 2, 1)));
        assert(r2 == Ok::<(int, int), Fail>((p + 2, 2)));
        assert(r1 == Ok::<(int, int), Fail>((p + 2, 3)));
        assert(r0 == Ok::<(int, int), Fail>((p + 2, 4)));
    }
}

/// A byte that is neither a quote nor a backslash stands for itself in a
/// quoted string.
pub proof fn lemma_plain_byte_decodes_to_itself(s: Seq<u8>, p: int)
    requires
        0 <= p < s.len(),
        s[p] != 34u8,
        s[p] != 92u8,
    ensures
        sp_escaped(s, p) == Ok::<(int, u8), Fail>((p + 1, s[p])),
{
    lemma_escape_tags();
    let t0 = escape_tags();
    let t1 = t0.drop_first();
    let t2 = t1.drop_first();
    let t3 = t2.drop_first();
    let t4 = t3.drop_first();
    let t5 = t4.drop_first();
    assert(t5.len() == 0);
    lemma_tag_first_differs(s, p, t0[0]);
    lemma_tag_first_differs(s, p, t1[0]);
    lemma_tag_first_differs(s, p, t2[0]);
    lemma_tag_first_differs(s, p, t3[0]);
    lemma_tag_first_differs(s, p, t4[0]);
    assert(sp_alt_tags(s, p, t5) == Err::<(int, int), Fail>(Fail::Error));
    assert(sp_alt_tags(s, p, t4) == Err::<(int, int), Fail>(Fail::Error));
    assert(sp_alt_tags(s, p, t3) == Err::<(int, int), Fail>(Fail::Error));
    assert(sp_alt_tags(s, p, t2) == Err::<(int, int), Fail>(Fail::Error));
    assert(sp_alt_tags(s, p, t1) == Err::<(int, int), Fail>(Fail::Error));
    assert(sp_alt_tags(s, p, t0) == Err::<(int, int), Fail>(Fail::Error));
}

/// What a dispatched line says of whether gdb runs: a result record of
/// class `running` (the answer to `-exec-run`, `-exec-continue`, ...)
/// reports that gdb runs, one of class `error` that it stopped, and an
/// asynchronous `stopped` record that it stopped; nothing else reports a
/// change. Result records go to those waiting for results, other records
/// to the out-of-band handling.
pub proof fn lemma_dispatch_running_state(o: OutputView)
    ensures
        (dispatch_spec(o).0 == Some(true)) <==> (o matches OutputView::Result(r) && r.class == ResultClass::Running),
        (dispatch_spec(o).0 == Some(false)) <==> ((o matches OutputView::Result(r) && r.class == ResultClass::Error)
            || (o matches OutputView::OutOfBand(OutOfBandView::Async { class: AsyncClassView::Stopped, .. }))),
        o matches OutputView::Result(r) ==> dispatch_spec(o).1 == DispatchView::ToResults(r),
        o matches OutputView::OutOfBand(r) ==> dispatch_spec(o).1 == DispatchView::ToOutOfBand(r),
{
}

} // verus!
