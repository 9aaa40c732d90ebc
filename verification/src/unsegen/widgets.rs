//! The state of the line-editing widgets: a label, an editable line with a
//! cursor counted in grapheme clusters, a prompt with a history, and a
//! growing text area.
use vstd::prelude::*;
use crate::completion::path::{flat, grapheme_clusters, graphemes, strs_view};
use crate::completion::strings_view;
use crate::text::{chars_of, push_str, string_from_range};
use crate::completion::commands::{lemma_next_index_skip, next_index, next_index_exec};
use crate::unsegen::textattribute::Style;
use crate::unsegen::widget::{Demand, Widget};

verus! {

/// A fixed line of text.
pub struct LineLabel {
    pub text: String,
}

impl LineLabel {
    pub fn new(text: String) -> (r: Self)
        ensures
            r.text@ == text@,
    {
        LineLabel { text }
    }
}

/// An editable line: its text, and the cursor as an index of a grapheme
/// cluster.
pub struct LineEdit {
    text: String,
    cursor_pos: usize,
    cursor_style: Style,
}

/// The mathematical form of a [`LineEdit`].
pub struct LineEditView {
    pub text: Seq<char>,
    pub cursor: nat,
}

impl View for LineEdit {
    type V = LineEditView;

    closed spec fn view(&self) -> LineEditView {
        LineEditView { text: self.text@, cursor: self.cursor_pos as nat }
    }
}

/// The cursor moved right by one cluster, but not past the end of `text`.
pub open spec fn cursor_right(cursor: nat, text: Seq<char>) -> nat {
    let n = grapheme_clusters(text).len();
    if cursor + 1 <= n {
        cursor + 1
    } else {
        n
    }
}

/// `text` with `ins` inserted before the cluster at `cursor` (at the end if
/// the cursor is past it).
pub open spec fn inserted(text: Seq<char>, cursor: nat, ins: Seq<char>) -> Seq<char> {
    let cl = grapheme_clusters(text);
    let k = if cursor <= cl.len() {
        cursor as int
    } else {
        cl.len() as int
    };
    flat(cl.take(k)) + ins + flat(cl.skip(k))
}

/// `text` without its cluster at index `pos` (unchanged if there is none).
pub open spec fn erased(text: Seq<char>, pos: int) -> Seq<char> {
    let cl = grapheme_clusters(text);
    if 0 <= pos < cl.len() {
        flat(cl.take(pos)) + flat(cl.skip(pos + 1))
    } else {
        flat(cl)
    }
}

/// The concatenation of `v[from..to]`, appended to `s`.
fn push_all(s: &mut String, v: &Vec<&str>, from: usize, to: usize)
    requires
        from <= to <= v@.len(),
    ensures
        final(s)@ == old(s)@ + flat(strs_view(v@).subrange(from as int, to as int)),
{
    let mut i = from;
    assert(strs_view(v@).subrange(from as int, from as int) =~= Seq::<Seq<char>>::empty());
    assert(old(s)@ + Seq::<char>::empty() =~= old(s)@);
    while i < to
        invariant
            from <= i <= to <= v@.len(),
            s@ == old(s)@ + flat(strs_view(v@).subrange(from as int, i as int)),
        decreases to - i,
    {
        push_str(s, v[i]);
        proof {
            let w = strs_view(v@);
            assert(w.subrange(from as int, i + 1).drop_last() =~= w.subrange(from as int, i as int));
            assert(w.subrange(from as int, i + 1).last() == v@[i as int]@);
            assert(old(s)@ + flat(w.subrange(from as int, i as int)) + v@[i as int]@ =~= old(s)@
                + flat(w.subrange(from as int, i + 1)));
        }
        i += 1;
    }
}

/// The number of grapheme clusters of `text`.
pub(crate) fn count_grapheme_clusters(text: &str) -> (r: usize)
    ensures
        r == grapheme_clusters(text@).len(),
{
    graphemes(text).len()
}

impl LineEdit {
    /// The style in which the cursor is drawn.
    pub closed spec fn cursor_style_spec(&self) -> Style {
        self.cursor_style
    }

    /// An empty line with the cursor at its start, drawn inverted.
    pub fn new() -> (r: Self)
        ensures
            r@ == (LineEditView { text: Seq::empty(), cursor: 0 }),
            r.cursor_style_spec() == (Style { invert: true, ..crate::unsegen::textattribute::plain_style() }),
    {
        LineEdit { text: String::new(), cursor_pos: 0, cursor_style: Style::new().invert() }
    }

    /// The text of the line.
    pub fn get(&self) -> (r: &str)
        ensures
            r@ == self@.text,
    {
        self.text.as_str()
    }

    /// Replaces the text by `text`, with the cursor after its end.
    pub fn set(&mut self, text: &str)
        ensures
            final(self).cursor_style_spec() == old(self).cursor_style_spec(),
            final(self)@ == (LineEditView { text: text@, cursor: grapheme_clusters(text@).len() }),
    {
        self.text = text.to_owned();
        self.cursor_pos = count_grapheme_clusters(text);
    }

    /// The cursor, as the index of a grapheme cluster.
    pub fn cursor_pos(&self) -> (r: usize)
        ensures
            r == self@.cursor,
    {
        self.cursor_pos
    }

    /// Moves the cursor to the cluster `pos`; a position past the end of
    /// the text is refused, and the cursor stays.
    pub fn set_cursor_pos(&mut self, pos: usize) -> (r: Result<(), ()>)
        ensures
            final(self).cursor_style_spec() == old(self).cursor_style_spec(),
            r is Ok <==> pos <= grapheme_clusters(old(self)@.text).len(),
            final(self)@ == (if r is Ok {
                LineEditView { text: old(self)@.text, cursor: pos as nat }
            } else {
                old(self)@
            }),
    {
        if pos <= count_grapheme_clusters(self.text.as_str()) {
            self.cursor_pos = pos;
            Ok(())
        } else {
            Err(())
        }
    }

    /// Empties the line.
    pub fn clear(&mut self)
        ensures
            final(self).cursor_style_spec() == old(self).cursor_style_spec(),
            final(self)@ == (LineEditView { text: Seq::empty(), cursor: 0 }),
    {
        self.text = String::new();
        self.cursor_pos = 0;
    }

    /// Moves the cursor right by one cluster, but not past the end.
    pub fn move_cursor_right(&mut self)
        ensures
            final(self).cursor_style_spec() == old(self).cursor_style_spec(),
            final(self)@ == (LineEditView {
                cursor: cursor_right(old(self)@.cursor, old(self)@.text),
                ..old(self)@
            }),
    {
        let n = count_grapheme_clusters(self.text.as_str());
        self.cursor_pos = if self.cursor_pos < n {
            self.cursor_pos + 1
        } else {
            n
        };
    }

    /// Moves the cursor left by one cluster, unless it is at the start.
    pub fn move_cursor_left(&mut self)
        ensures
            final(self).cursor_style_spec() == old(self).cursor_style_spec(),
            final(self)@ == (LineEditView {
                cursor: if old(self)@.cursor > 0 {
                    (old(self)@.cursor - 1) as nat
                } else {
                    0
                },
                ..old(self)@
            }),
    {
        if self.cursor_pos > 0 {
            self.cursor_pos -= 1;
        }
    }

    /// Inserts `text` at the cursor and moves the cursor right by one
    /// cluster.
    pub fn insert(&mut self, text: &str)
        ensures
            final(self).cursor_style_spec() == old(self).cursor_style_spec(),
            final(self)@.text == inserted(old(self)@.text, old(self)@.cursor, text@),
            final(self)@.cursor == cursor_right(old(self)@.cursor, final(self)@.text),
    {
        let cl = graphemes(self.text.as_str());
        let k = if self.cursor_pos <= cl.len() {
            self.cursor_pos
        } else {
            cl.len()
        };
        let mut new_text = String::new();
        push_all(&mut new_text, &cl, 0, k);
        push_str(&mut new_text, text);
        push_all(&mut new_text, &cl, k, cl.len());
        proof {
            let w = strs_view(cl@);
            assert(w.subrange(0, k as int) =~= w.take(k as int));
            assert(w.subrange(k as int, w.len() as int) =~= w.skip(k as int));
            assert(Seq::<char>::empty() + flat(w.take(k as int)) =~= flat(w.take(k as int)));
        }
        self.text = new_text;
        self.move_cursor_right();
    }

    fn erase_symbol_at(&mut self, pos: usize)
        ensures
            final(self).cursor_style_spec() == old(self).cursor_style_spec(),
            final(self)@ == (LineEditView { text: erased(old(self)@.text, pos as int), ..old(self)@ }),
    {
        let cl = graphemes(self.text.as_str());
        let mut new_text = String::new();
        if pos < cl.len() {
            push_all(&mut new_text, &cl, 0, pos);
            push_all(&mut new_text, &cl, pos + 1, cl.len());
            proof {
                let w = strs_view(cl@);
                assert(w.subrange(0, pos as int) =~= w.take(pos as int));
                assert(w.subrange(pos + 1, w.len() as int) =~= w.skip(pos + 1));
                assert(Seq::<char>::empty() + flat(w.take(pos as int)) =~= flat(w.take(pos as int)));
            }
        } else {
            push_all(&mut new_text, &cl, 0, cl.len());
            proof {
                let w = strs_view(cl@);
                assert(w.subrange(0, w.len() as int) =~= w);
                assert(Seq::<char>::empty() + flat(w) =~= flat(w));
            }
        }
        self.text = new_text;
    }

    /// Removes the cluster before the cursor and moves the cursor left
    /// ("backspace"); nothing at the start of the line.
    pub fn remove_symbol(&mut self)
        ensures
            final(self).cursor_style_spec() == old(self).cursor_style_spec(),
            old(self)@.cursor > 0 ==> final(self)@ == (LineEditView {
                text: erased(old(self)@.text, old(self)@.cursor - 1),
                cursor: (old(self)@.cursor - 1) as nat,
            }),
            old(self)@.cursor == 0 ==> final(self)@ == old(self)@,
    {
        if self.cursor_pos > 0 {
            let to_erase = self.cursor_pos - 1;
            self.erase_symbol_at(to_erase);
            self.move_cursor_left();
        }
    }

    /// Removes the cluster at the cursor ("delete").
    pub fn delete_symbol(&mut self)
        ensures
            final(self).cursor_style_spec() == old(self).cursor_style_spec(),
            final(self)@ == (LineEditView {
                text: erased(old(self)@.text, old(self)@.cursor as int),
                ..old(self)@
            }),
    {
        let to_erase = self.cursor_pos;
        self.erase_symbol_at(to_erase);
    }
}

/// A prompt, the line being typed, and the history of finished lines with
/// an optional position of the line shown from it.
pub struct PromptLine {
    prompt: LineLabel,
    line: LineEdit,
    history: Vec<String>,
    history_scroll_position: Option<usize>,
}

impl PromptLine {
    /// The prompt label.
    pub closed spec fn prompt_spec(&self) -> Seq<char> {
        self.prompt.text@
    }

    /// The line being typed.
    pub closed spec fn line_spec(&self) -> LineEditView {
        self.line@
    }

    /// The line being typed.
    pub fn line(&self) -> (r: &LineEdit)
        ensures
            r@ == self.line_spec(),
    {
        &self.line
    }

    /// The finished lines, oldest first.
    pub closed spec fn history_spec(&self) -> Seq<Seq<char>> {
        strings_view(self.history@)
    }

    /// The position in the history that is shown, if any.
    pub closed spec fn scroll_spec(&self) -> Option<usize> {
        self.history_scroll_position
    }

    /// An empty prompt line with the prompt `prompt`.
    pub fn with_prompt(prompt: String) -> (r: Self)
        ensures
            r.prompt_spec() == prompt@,
            r.line_spec() == (LineEditView { text: Seq::empty(), cursor: 0 }),
            r.history_spec() == Seq::<Seq<char>>::empty(),
            r.scroll_spec() is None,
    {
        let r = PromptLine {
            prompt: LineLabel::new(prompt),
            line: LineEdit::new(),
            history: Vec::new(),
            history_scroll_position: None,
        };
        assert(r.history_spec() =~= Seq::<Seq<char>>::empty());
        r
    }

    /// Shows `prompt` in front of the line.
    pub fn set_prompt(&mut self, prompt: String)
        ensures
            final(self).prompt_spec() == prompt@,
            final(self).line_spec() == old(self).line_spec(),
            final(self).history_spec() == old(self).history_spec(),
            final(self).scroll_spec() == old(self).scroll_spec(),
    {
        self.prompt = LineLabel::new(prompt);
    }

    /// The prompt.
    pub fn prompt(&self) -> (r: &str)
        ensures
            r@ == self.prompt_spec(),
    {
        self.prompt.text.as_str()
    }

    /// The `n`-th latest finished line (the latest for 1), if there is one.
    pub fn previous_line(&self, n: usize) -> (r: Option<&str>)
        ensures
            match r {
                Some(l) => 1 <= n <= self.history_spec().len() && l@ == self.history_spec()[self.history_spec().len() - n],
                None => n < 1 || n > self.history_spec().len(),
            },
    {
        if n >= 1 && n <= self.history.len() {
            Some(self.history[self.history.len() - n].as_str())
        } else {
            None
        }
    }

    /// Moves the line into the history, empties it and returns it.
    pub fn finish_line(&mut self) -> (r: String)
        ensures
            r@ == old(self).line_spec().text,
            final(self).history_spec() == old(self).history_spec().push(old(self).line_spec().text),
            final(self).line_spec() == (LineEditView { text: Seq::empty(), cursor: 0 }),
            final(self).prompt_spec() == old(self).prompt_spec(),
            final(self).scroll_spec() == old(self).scroll_spec(),
    {
        let finished = self.line.get().to_owned();
        let r = self.line.get().to_owned();
        self.history.push(finished);
        self.line.clear();
        assert(self.history_spec() =~= old(self).history_spec().push(old(self).line_spec().text));
        r
    }

    /// Shows the next newer line of the history, if one is shown and there
    /// is a newer one.
    pub fn scroll_forwards(&mut self)
        ensures
            final(self).scroll_spec() == (match old(self).scroll_spec() {
                Some(pos) => Some(
                    if pos + 1 < old(self).history_spec().len() {
                        (pos + 1) as usize
                    } else {
                        pos
                    },
                ),
                None => None,
            }),
            final(self).history_spec() == old(self).history_spec(),
            final(self).line_spec() == old(self).line_spec(),
    {
        self.history_scroll_position = match self.history_scroll_position {
            Some(pos) => Some(
                if pos < self.history.len() && pos + 1 < self.history.len() {
                    pos + 1
                } else {
                    pos
                },
            ),
            None => None,
        };
    }

    /// Shows the next older line of the history; without one shown, the
    /// newest.
    pub fn scroll_backwards(&mut self)
        requires
            old(self).scroll_spec() is Some || old(self).history_spec().len() > 0,
        ensures
            final(self).scroll_spec() == (match old(self).scroll_spec() {
                Some(pos) => Some(
                    if pos > 0 {
                        (pos - 1) as usize
                    } else {
                        pos
                    },
                ),
                None => Some((old(self).history_spec().len() - 1) as usize),
            }),
            final(self).history_spec() == old(self).history_spec(),
            final(self).line_spec() == old(self).line_spec(),
    {
        self.history_scroll_position = match self.history_scroll_position {
            Some(pos) => Some(
                if pos > 0 {
                    pos - 1
                } else {
                    pos
                },
            ),
            None => Some(self.history.len() - 1),
        };
    }

    /// Replaces the line by `text`, with the cursor after its end; the line
    /// is no longer taken from the history.
    pub fn set(&mut self, text: &str)
        ensures
            final(self).line_spec() == (LineEditView { text: text@, cursor: grapheme_clusters(text@).len() }),
            final(self).scroll_spec() is None,
            final(self).history_spec() == old(self).history_spec(),
            final(self).prompt_spec() == old(self).prompt_spec(),
    {
        self.line.set(text);
        self.history_scroll_position = None;
    }

    /// Moves the cursor of the line to the cluster `pos` (see
    /// [`LineEdit::set_cursor_pos`]).
    pub fn set_cursor_pos(&mut self, pos: usize) -> (r: Result<(), ()>)
        ensures
            r is Ok <==> pos <= grapheme_clusters(old(self).line_spec().text).len(),
            final(self).line_spec() == (if r is Ok {
                LineEditView { text: old(self).line_spec().text, cursor: pos as nat }
            } else {
                old(self).line_spec()
            }),
            final(self).scroll_spec() == old(self).scroll_spec(),
            final(self).history_spec() == old(self).history_spec(),
            final(self).prompt_spec() == old(self).prompt_spec(),
    {
        self.line.set_cursor_pos(pos)
    }

    /// Types the character `c` at the cursor; the line is no longer taken
    /// from the history.
    pub fn write(&mut self, c: char)
        ensures
            final(self).line_spec().text == inserted(old(self).line_spec().text, old(self).line_spec().cursor, seq![c]),
            final(self).line_spec().cursor == cursor_right(old(self).line_spec().cursor, final(self).line_spec().text),
            final(self).scroll_spec() is None,
            final(self).history_spec() == old(self).history_spec(),
            final(self).prompt_spec() == old(self).prompt_spec(),
    {
        let mut s = String::new();
        crate::text::push_char(&mut s, c);
        self.line.insert(s.as_str());
        self.history_scroll_position = None;
    }
}

/// Lines of text that grow at the end; the last line is the one being
/// written.
pub struct TextArea {
    lines: Vec<String>,
}

impl View for TextArea {
    type V = Seq<Seq<char>>;

    closed spec fn view(&self) -> Seq<Seq<char>> {
        strings_view(self.lines@)
    }
}

/// The lines after writing `s` to `lines`: the text before each line feed
/// completes the current line, and the rest starts a new one.
pub open spec fn write_lines(lines: Seq<Seq<char>>, s: Seq<char>) -> Seq<Seq<char>>
    decreases s.len(),
{
    let cur = if lines.len() == 0 {
        seq![Seq::<char>::empty()]
    } else {
        lines
    };
    let nl = next_index(s, 0, '\n');
    if nl >= s.len() || nl < 0 {
        cur.update(cur.len() - 1, cur.last() + s)
    } else {
        write_lines(cur.update(cur.len() - 1, cur.last() + s.take(nl)).push(Seq::empty()), s.skip(nl + 1))
    }
}

proof fn lemma_next_index_shift(a: Seq<char>, b: Seq<char>, k: int, c: char)
    requires
        0 <= k <= b.len(),
    ensures
        next_index(a + b, a.len() + k, c) == a.len() + next_index(b, k, c),
    decreases b.len() - k,
{
    if k < b.len() {
        assert((a + b)[a.len() + k] == b[k]);
        lemma_next_index_shift(a, b, k + 1, c);
    }
}

proof fn lemma_next_index_concat(a: Seq<char>, b: Seq<char>, i: int, c: char)
    requires
        0 <= i <= a.len(),
    ensures
        next_index(a + b, i, c) == (if next_index(a, i, c) < a.len() {
            next_index(a, i, c)
        } else {
            a.len() + next_index(b, 0, c)
        }),
    decreases a.len() - i,
{
    if i < a.len() {
        assert((a + b)[i] == a[i]);
        lemma_next_index_concat(a, b, i + 1, c);
    } else {
        lemma_next_index_shift(a, b, 0, c);
    }
}

proof fn lemma_next_index_bounds(s: Seq<char>, i: int, c: char)
    requires
        0 <= i <= s.len(),
    ensures
        i <= next_index(s, i, c) <= s.len(),
        next_index(s, i, c) < s.len() ==> s[next_index(s, i, c)] == c,
    decreases s.len() - i,
{
    if i < s.len() && s[i] != c {
        lemma_next_index_bounds(s, i + 1, c);
    }
}

/// Writing `a` and then `b` gives the lines that writing `a + b` gives:
/// text can be written in pieces of any size.
pub proof fn lemma_write_lines_concat(lines: Seq<Seq<char>>, a: Seq<char>, b: Seq<char>)
    ensures
        write_lines(write_lines(lines, a), b) == write_lines(lines, a + b),
    decreases a.len(),
{
    let cur = if lines.len() == 0 {
        seq![Seq::<char>::empty()]
    } else {
        lines
    };
    let na = next_index(a, 0, '\n');
    lemma_next_index_bounds(a, 0, '\n');
    lemma_next_index_concat(a, b, 0, '\n');
    if na >= a.len() {
        let w1 = cur.update(cur.len() - 1, cur.last() + a);
        assert(write_lines(lines, a) == w1);
        let nb = next_index(b, 0, '\n');
        lemma_next_index_bounds(b, 0, '\n');
        if nb >= b.len() {
            assert(cur.last() + a + b =~= cur.last() + (a + b));
            assert(w1.update(w1.len() - 1, w1.last() + b) =~= cur.update(cur.len() - 1, cur.last() + (a + b)));
        } else {
            assert((a + b).take(a.len() + nb) =~= a + b.take(nb));
            assert((a + b).skip(a.len() + nb + 1) =~= b.skip(nb + 1));
            assert(cur.last() + a + b.take(nb) =~= cur.last() + (a + b.take(nb)));
            assert(w1.update(w1.len() - 1, w1.last() + b.take(nb)).push(Seq::empty()) =~= cur.update(
                cur.len() - 1,
                cur.last() + (a + b).take(a.len() + nb),
            ).push(Seq::empty()));
        }
    } else {
        let m = cur.update(cur.len() - 1, cur.last() + a.take(na)).push(Seq::empty());
        lemma_write_lines_concat(m, a.skip(na + 1), b);
        assert((a + b).take(na) =~= a.take(na));
        assert((a + b).skip(na + 1) =~= a.skip(na + 1) + b);
    }
}

impl TextArea {
    /// No lines.
    pub fn new() -> (r: Self)
        ensures
            r@ == Seq::<Seq<char>>::empty(),
    {
        let r = TextArea { lines: Vec::new() };
        assert(r@ =~= Seq::<Seq<char>>::empty());
        r
    }

    /// The line being written (a first, empty one if there are none).
    pub fn active_line_mut(&mut self) -> (r: &mut String)
        ensures
            old(self)@.len() > 0 ==> r@ == old(self)@.last(),
            old(self)@.len() == 0 ==> r@ == Seq::<char>::empty(),
            final(self)@ == (if old(self)@.len() == 0 {
                seq![final(r)@]
            } else {
                old(self)@.update(old(self)@.len() - 1, final(r)@)
            }),
    {
        if self.lines.len() == 0 {
            self.lines.push(String::new());
        }
        let n = self.lines.len();
        &mut self.lines[n - 1]
    }

    /// Writes `s`: the text before each line feed completes the current
    /// line, and the rest starts a new one (see [`write_lines`]).
    pub fn write_str(&mut self, s: &str)
        ensures
            final(self)@ == write_lines(old(self)@, s@),
    {
        let cs = chars_of(s);
        let n = cs.len();
        let mut start: usize = 0;
        assert(s@.skip(0) =~= s@);
        loop
            invariant
                cs@ == s@,
                n == cs@.len(),
                start <= n,
                write_lines(old(self)@, s@) == write_lines(self@, s@.skip(start as int)),
            decreases n - start,
        {
            let nl = next_index_exec(&cs, start, '\n');
            let seg = string_from_range(cs.as_slice(), start, nl);
            let ghost u = s@.skip(start as int);
            proof {
                lemma_next_index_skip(s@, start as int, 0, '\n');
                assert(seg@ =~= u.take(nl - start));
            }
            let ghost before = self@;
            {
                let line = self.active_line_mut();
                push_str(line, seg.as_str());
            }
            if nl >= n {
                assert(u.take(nl - start) =~= u);
                return;
            }
            let ghost mid = self@;
            proof {
                assert(mid =~= (if before.len() == 0 {
                    seq![Seq::<char>::empty()]
                } else {
                    before
                }).update(
                    (if before.len() == 0 { 1int } else { before.len() as int }) - 1,
                    (if before.len() == 0 { Seq::<char>::empty() } else { before.last() }) + u.take(nl - start),
                ));
            }
            let e = String::new();
            self.lines.push(e);
            proof {
                assert(u.skip(nl - start + 1) =~= s@.skip(nl + 1));
                assert(self@ =~= mid.push(Seq::empty()));
            }
            start = nl + 1;
        }
    }
}

impl Widget for LineLabel {
    /// As many columns as the text has grapheme clusters, and one row.
    fn space_demand(&self) -> (r: (Demand, Demand))
        ensures
            r.0 == (Demand { min: #[verifier::truncate] (grapheme_clusters(self.text@).len() as u32), max: Some(#[verifier::truncate] (grapheme_clusters(self.text@).len() as u32)) }),
            r.1 == (Demand { min: 1, max: Some(1) }),
    {
        let n = count_grapheme_clusters(self.text.as_str());
        let c: u32 = #[verifier::truncate] (n as u32);
        (Demand::exact(c), Demand::exact(1))
    }
}

/// `n + 1`, wrapping to zero past the largest `u32`.
pub open spec fn wrapping_succ(n: u32) -> u32 {
    if n == u32::MAX {
        0
    } else {
        (n + 1) as u32
    }
}

impl Widget for LineEdit {
    /// One column more than the text has grapheme clusters (for the cursor
    /// after it; the count taken as a `u32`, wrapping), and exactly one row.
    fn space_demand(&self) -> (r: (Demand, Demand))
        ensures
            r.0 == (Demand { min: wrapping_succ(#[verifier::truncate] (grapheme_clusters(self@.text).len() as u32)), max: None }),
            r.1 == (Demand { min: 1, max: Some(1) }),
    {
        let n = count_grapheme_clusters(self.text.as_str());
        let c: u32 = #[verifier::truncate] (n as u32);
        let m: u32 = if c == u32::MAX {
            0
        } else {
            c + 1
        };
        (Demand::at_least(m), Demand::exact(1))
    }
}

/// A log: lines of text that grow at the bottom.
pub struct LogViewer {
    area: TextArea,
}

impl View for LogViewer {
    type V = Seq<Seq<char>>;

    closed spec fn view(&self) -> Seq<Seq<char>> {
        self.area@
    }
}

impl LogViewer {
    /// No lines.
    pub fn new() -> (r: Self)
        ensures
            r@ == Seq::<Seq<char>>::empty(),
    {
        LogViewer { area: TextArea::new() }
    }

    /// The line being written (a first, empty one if there are none).
    pub fn active_line_mut(&mut self) -> (r: &mut String)
        ensures
            old(self)@.len() > 0 ==> r@ == old(self)@.last(),
            old(self)@.len() == 0 ==> r@ == Seq::<char>::empty(),
            final(self)@ == (if old(self)@.len() == 0 {
                seq![final(r)@]
            } else {
                old(self)@.update(old(self)@.len() - 1, final(r)@)
            }),
    {
        self.area.active_line_mut()
    }

    /// Writes `s`: the text before each line feed completes the current
    /// line, and the rest starts a new one (see [`write_lines`]).
    pub fn write_str(&mut self, s: &str)
        ensures
            final(self)@ == write_lines(old(self)@, s@),
    {
        self.area.write_str(s)
    }
}

impl Widget for LogViewer {
    /// At least one column and one row.
    fn space_demand(&self) -> (r: (Demand, Demand))
        ensures
            r.0 == (Demand { min: 1, max: None }),
            r.1 == (Demand { min: 1, max: None }),
    {
        (Demand::at_least(1), Demand::at_least(1))
    }
}

} // verus!
