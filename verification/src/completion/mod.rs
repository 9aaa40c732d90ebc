//! Tab completion of the command line: the cycling state of offered
//! completions, the choice of candidates, and the analysis of the expression
//! that is being completed.
use vstd::prelude::*;
use vstd::string::StringSliceAdditionalSpecFns;
use vstd::utf8::{encode_utf8, is_char_boundary};
use vstd::arithmetic::div_mod::{lemma_small_mod, lemma_mod_self_0};
use crate::text::{chars_of, string_from_range};


pub mod expression;
pub mod path;
pub mod commands;
pub mod variables;

verus! {

/// A line being completed: the original text, the cursor in it (a byte
/// offset at a character boundary), the offered completions, and which of
/// them is selected. The selection index `completion_options.len()` stands
/// for "no completion", i.e. the original text.
pub struct CompletionState {
    original: String,
    cursor_pos: usize,
    completion_options: Vec<String>,
    current_option: usize,
}

/// The mathematical form of a [`CompletionState`].
pub struct CompletionView {
    pub original: Seq<char>,
    pub cursor: nat,
    pub options: Seq<Seq<char>>,
    pub current: nat,
}

impl CompletionView {
    /// The cursor sits on a character boundary of the original text and the
    /// selection is one of the options or the original text itself.
    pub open spec fn wf(self) -> bool {
        &&& is_char_boundary(encode_utf8(self.original), self.cursor as int)
        &&& self.current <= self.options.len()
        &&& self.options.len() < usize::MAX
    }

    /// The number of states the selection cycles through.
    pub open spec fn num_options(self) -> nat {
        self.options.len() + 1
    }

    /// The text inserted at the cursor by the current selection.
    pub open spec fn option_text(self) -> Seq<char> {
        if self.current < self.options.len() {
            self.options[self.current as int]
        } else {
            Seq::empty()
        }
    }

    /// The original text before the cursor.
    pub open spec fn before_cursor(self) -> Seq<char> {
        vstd::utf8::decode_utf8(encode_utf8(self.original).take(self.cursor as int))
    }

    /// The original text after the cursor.
    pub open spec fn after_cursor(self) -> Seq<char> {
        vstd::utf8::decode_utf8(encode_utf8(self.original).skip(self.cursor as int))
    }

    /// The line as currently completed: the selection inserted at the
    /// cursor.
    pub open spec fn completed_text(self) -> Seq<char> {
        self.before_cursor() + self.option_text() + self.after_cursor()
    }

    /// The state after selecting the next option (cyclically).
    pub open spec fn next(self) -> CompletionView {
        CompletionView { current: ((self.current + 1) % self.num_options()) as nat, ..self }
    }

    /// The state after selecting the previous option (cyclically).
    pub open spec fn prev(self) -> CompletionView {
        CompletionView {
            current: if self.current == 0 {
                (self.num_options() - 1) as nat
            } else {
                (self.current - 1) as nat
            },
            ..self
        }
    }
}

/// The views of a list of strings.
pub open spec fn strings_view(v: Seq<String>) -> Seq<Seq<char>> {
    Seq::new(v.len(), |i: int| v[i]@)
}

impl View for CompletionState {
    type V = CompletionView;

    closed spec fn view(&self) -> CompletionView {
        CompletionView {
            original: self.original@,
            cursor: self.cursor_pos as nat,
            options: strings_view(self.completion_options@),
            current: self.current_option as nat,
        }
    }
}

impl CompletionState {
    #[verifier::type_invariant]
    closed spec fn inv(self) -> bool {
        self@.wf()
    }

    /// A state offering `completion_options` for the text `original` with the
    /// cursor at byte offset `cursor_pos`; the first option is selected.
    pub fn new(original: String, cursor_pos: usize, completion_options: Vec<String>) -> (r: Self)
        requires
            is_char_boundary(encode_utf8(original@), cursor_pos as int),
            completion_options.len() < usize::MAX,
        ensures
            r@ == (CompletionView {
                original: original@,
                cursor: cursor_pos as nat,
                options: strings_view(completion_options@),
                current: 0,
            }),
            r@.wf(),
    {
        CompletionState { original, cursor_pos, completion_options, current_option: 0 }
    }

    /// A state that offers no completion.
    pub fn empty(original: String, cursor_pos: usize) -> (r: Self)
        requires
            is_char_boundary(encode_utf8(original@), cursor_pos as int),
        ensures
            r@ == (CompletionView {
                original: original@,
                cursor: cursor_pos as nat,
                options: Seq::empty(),
                current: 0,
            }),
            r@.wf(),
    {
        let r = Self::new(original, cursor_pos, Vec::new());
        assert(strings_view(Seq::<String>::empty()) =~= Seq::empty());
        r
    }

    /// The text before the cursor, the selected option, and the text after
    /// the cursor; together they form the line as currently completed.
    pub fn current_line_parts(&self) -> (r: (&str, &str, &str))
        ensures
            self@.wf(),
            r.0.spec_bytes() == encode_utf8(self@.original).take(self@.cursor as int),
            r.1@ == self@.option_text(),
            r.2.spec_bytes() == encode_utf8(self@.original).skip(self@.cursor as int),
            r.0@ == self@.before_cursor(),
            r.2@ == self@.after_cursor(),
    {
        broadcast use vstd::utf8::encode_utf8_decode_utf8;

        proof {
            use_type_invariant(self);
        }
        let (before, after) = self.original.as_str().split_at(self.cursor_pos);
        (before, self.current_option(), after)
    }

    /// The selected option; empty if the original text is selected.
    pub fn current_option(&self) -> (r: &str)
        ensures
            self@.wf(),
            r@ == self@.option_text(),
    {
        proof {
            use_type_invariant(self);
        }
        if self.current_option < self.completion_options.len() {
            self.completion_options[self.current_option].as_str()
        } else {
            proof {
                reveal_strlit("");
            }
            ""
        }
    }

    /// Selects the next option; after the last option the original text is
    /// selected, and after that the first option again.
    pub fn select_next_option(&mut self)
        ensures
            old(self)@.wf(),
            final(self)@ == old(self)@.next(),
            final(self)@.wf(),
    {
        proof {
            use_type_invariant(&*self);
        }
        let n = self.completion_options.len() + 1;
        self.current_option = (self.current_option + 1) % n;
    }

    /// Selects the previous option, cyclically.
    pub fn select_prev_option(&mut self)
        ensures
            old(self)@.wf(),
            final(self)@ == old(self)@.prev(),
            final(self)@.wf(),
    {
        proof {
            use_type_invariant(&*self);
        }
        let n = self.completion_options.len() + 1;
        self.current_option = if self.current_option == 0 {
            n - 1
        } else {
            self.current_option - 1
        };
    }
}

/// Selecting the previous option undoes selecting the next one.
pub proof fn lemma_prev_undoes_next(v: CompletionView)
    requires
        v.wf(),
    ensures
        v.next().prev() == v,
        v.next().wf(),
{
    lemma_next_index(v);
}

/// The selection index after selecting the next option.
proof fn lemma_next_index(v: CompletionView)
    requires
        v.wf(),
    ensures
        v.current < v.options.len() ==> v.next().current == v.current + 1,
        v.current == v.options.len() ==> v.next().current == 0,
{
    if v.current < v.options.len() {
        lemma_small_mod((v.current + 1) as nat, v.num_options());
    } else {
        lemma_mod_self_0(v.num_options() as int);
    }
}

/// Selecting the next option undoes selecting the previous one.
pub proof fn lemma_next_undoes_prev(v: CompletionView)
    requires
        v.wf(),
    ensures
        v.prev().next() == v,
        v.prev().wf(),
{
    lemma_next_index(v.prev());
}

/// When the original text is selected, the parts of the line are exactly
/// the original text, split at the cursor.
pub proof fn lemma_unselected_line_is_original(v: CompletionView)
    requires
        v.wf(),
        v.current == v.options.len(),
    ensures
        v.option_text() == Seq::<char>::empty(),
        encode_utf8(v.original).take(v.cursor as int) + encode_utf8(v.original).skip(
            v.cursor as int,
        ) == encode_utf8(v.original),
{
    broadcast use vstd::utf8::encode_utf8_valid_utf8;

    assert(v.cursor <= encode_utf8(v.original).len());
    assert(encode_utf8(v.original).take(v.cursor as int) + encode_utf8(v.original).skip(
        v.cursor as int,
    ) =~= encode_utf8(v.original));
}

/// A source of completions: produces the completion state for a line and a
/// cursor position in it (a byte offset). Completing needs what only gdb
/// knows; an implementation asks it, and builds the state with
/// [`command_completion`] or, after [`identifier_completion_request`], with
/// [`complete_with`].
pub trait Completer {
    fn complete(&mut self, original: &str, cursor_pos: usize) -> CompletionState;
}

/// The completions of `prefix` among `candidates`: for each candidate that
/// starts with `prefix`, in order, the rest of it after the prefix.
pub open spec fn candidates_spec(prefix: Seq<char>, candidates: Seq<Seq<char>>) -> Seq<Seq<char>>
    decreases candidates.len(),
{
    if candidates.len() == 0 {
        Seq::empty()
    } else {
        let rest = candidates_spec(prefix, candidates.drop_last());
        let c = candidates.last();
        if prefix.is_prefix_of(c) {
            rest.push(c.skip(prefix.len() as int))
        } else {
            rest
        }
    }
}

/// Whether `p` is a prefix of `c`, computed on characters.
fn starts_with(c: &[char], p: &[char]) -> (r: bool)
    ensures
        r == p@.is_prefix_of(c@),
{
    if p.len() > c.len() {
        return false;
    }
    let mut i: usize = 0;
    while i < p.len()
        invariant
            p@.len() <= c@.len(),
            i <= p@.len(),
            forall|j: int| 0 <= j < i ==> p@[j] == c@[j],
        decreases p@.len() - i,
    {
        if p[i] != c[i] {
            return false;
        }
        i += 1;
    }
    assert(p@ =~= c@.take(p@.len() as int));
    true
}

/// The completions of `prefix` among `candidates` (see [`candidates_spec`]).
pub fn find_candidates(prefix: &str, candidates: &[String]) -> (r: Vec<String>)
    ensures
        strings_view(r@) == candidates_spec(prefix@, strings_view(candidates@)),
{
    let p = chars_of(prefix);
    let mut out: Vec<String> = Vec::new();
    let mut i: usize = 0;
    while i < candidates.len()
        invariant
            i <= candidates@.len(),
            p@ == prefix@,
            strings_view(out@) == candidates_spec(
                prefix@,
                strings_view(candidates@).take(i as int),
            ),
        decreases candidates@.len() - i,
    {
        let c = chars_of(candidates[i].as_str());
        proof {
            assert(strings_view(candidates@).take(i + 1).drop_last() =~= strings_view(
                candidates@,
            ).take(i as int));
        }
        if starts_with(c.as_slice(), p.as_slice()) {
            let rest = string_from_range(c.as_slice(), p.len(), c.len());
            let ghost before = out@;
            out.push(rest);
            proof {
                assert(c@.subrange(p@.len() as int, c@.len() as int) =~= c@.skip(
                    p@.len() as int,
                ));
                assert(strings_view(out@) =~= strings_view(before).push(rest@));
            }
        }
        i += 1;
    }
    assert(strings_view(candidates@).take(candidates@.len() as int) =~= strings_view(
        candidates@,
    ));
    out
}

/// There are no more completions than candidates.
proof fn lemma_candidates_len(prefix: Seq<char>, candidates: Seq<Seq<char>>)
    ensures
        candidates_spec(prefix, candidates).len() <= candidates.len(),
    decreases candidates.len(),
{
    if candidates.len() > 0 {
        lemma_candidates_len(prefix, candidates.drop_last());
    }
}

/// The completion state of `original`, with the cursor at byte
/// `cursor_pos`, that offers the completions of `prefix` among `candidates`
/// (see [`candidates_spec`]), the first one selected.
pub fn complete_with(original: String, cursor_pos: usize, prefix: &str, candidates: &[String]) -> (r: CompletionState)
    requires
        is_char_boundary(encode_utf8(original@), cursor_pos as int),
        candidates@.len() < usize::MAX,
    ensures
        r@ == (CompletionView {
            original: original@,
            cursor: cursor_pos as nat,
            options: candidates_spec(prefix@, strings_view(candidates@)),
            current: 0,
        }),
{
    proof {
        lemma_candidates_len(prefix@, strings_view(candidates@));
    }
    let options = find_candidates(prefix, candidates);
    CompletionState::new(original, cursor_pos, options)
}

/// The completion of a gdb command: the commands that begin with the text
/// before the cursor (byte `cursor_pos`), completed from there.
pub fn command_completion(original: &str, cursor_pos: usize, commands: &[String]) -> (r: CompletionState)
    requires
        is_char_boundary(encode_utf8(original@), cursor_pos as int),
        commands@.len() < usize::MAX,
    ensures
        r@ == (CompletionView {
            original: original@,
            cursor: cursor_pos as nat,
            options: candidates_spec(
                vstd::utf8::decode_utf8(encode_utf8(original@).take(cursor_pos as int)),
                strings_view(commands@),
            ),
            current: 0,
        }),
{
    broadcast use vstd::utf8::encode_utf8_decode_utf8;

    let (before, _) = original.split_at(cursor_pos);
    complete_with(original.to_owned(), cursor_pos, before, commands)
}

/// What the completion of an identifier before the cursor (byte
/// `cursor_pos`) of `line` works on: the parent expression whose members
/// are the candidates (empty for the local variables) and the prefix typed,
/// as [`CompletableExpression::from_str_checked`] splits the text before the
/// cursor; `None` where it gives no split, and so nothing is completed.
pub fn identifier_completion_request(line: &str, cursor_pos: usize) -> (r: Option<expression::CompletableExpression>)
    requires
        is_char_boundary(encode_utf8(line@), cursor_pos as int),
    ensures
        ({
            let before = vstd::utf8::decode_utf8(encode_utf8(line@).take(cursor_pos as int));
            match r {
                Some(e) => expression::completable_defined(before) && expression::completable_expression_spec(before)
                    == Ok::<(Seq<char>, Seq<char>), expression::TokenizeError>((e.parent@, e.prefix@)),
                None => !expression::completable_defined(before) || expression::completable_expression_spec(before) is Err,
            }
        }),
{
    broadcast use vstd::utf8::encode_utf8_decode_utf8;

    let (before, _) = line.split_at(cursor_pos);
    match expression::CompletableExpression::from_str_checked(before) {
        Some(Ok(e)) => Some(e),
        _ => None,
    }
}

} // verus!
