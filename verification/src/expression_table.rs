//! The table of watched expressions: one row per expression, with the
//! format its value is shown in, and always exactly one empty row at the
//! end to type a new expression into.
use vstd::prelude::*;
use crate::gdb_expression_parsing::format::{next_format, next_format_spec, Format};
use crate::mi::ExecuteError;
use crate::text::push_str;
use crate::unsegen::widgets::{LineEdit, LineEditView};

verus! {

/// A row of the table: the expression as it is edited, and the format of
/// its value (`None`: as gdb prints it).
pub struct ExpressionRow {
    pub expression: LineEdit,
    pub format: Option<Format>,
}

impl ExpressionRow {
    /// An empty row.
    pub fn new() -> (r: Self)
        ensures
            r.expression@ == (LineEditView { text: Seq::empty(), cursor: 0 }),
            r.format is None,
    {
        ExpressionRow { expression: LineEdit::new(), format: None }
    }

    /// Whether the row holds no expression.
    pub fn is_empty(&self) -> (r: bool)
        ensures
            r == (self.expression@.text.len() == 0),
    {
        self.expression.get().is_empty()
    }

    /// Shows the value in the next format (see [`next_format_spec`]).
    pub fn cycle_format(&mut self)
        ensures
            final(self).format == next_format_spec(old(self).format),
            final(self).expression@ == old(self).expression@,
    {
        self.format = next_format(self.format);
    }
}

/// The rows of `s` without the empty ones at its end.
pub open spec fn without_trailing_empty(s: Seq<Seq<char>>) -> Seq<Seq<char>>
    decreases s.len(),
{
    if s.len() > 0 && s.last().len() == 0 {
        without_trailing_empty(s.drop_last())
    } else {
        s
    }
}

/// The rows of `s` with exactly one empty row at the end.
pub open spec fn shrunk(s: Seq<Seq<char>>) -> Seq<Seq<char>> {
    without_trailing_empty(s).push(Seq::empty())
}

/// The table ends with exactly one empty row.
pub open spec fn well_shaped(s: Seq<Seq<char>>) -> bool {
    &&& s.len() >= 1
    &&& s.last().len() == 0
    &&& s.len() >= 2 ==> s[s.len() - 2].len() > 0
}

/// The rows after adding `entry`: it takes the place of an empty last row,
/// or becomes a new row; then the table is shrunk (see [`shrunk`]).
pub open spec fn added(s: Seq<Seq<char>>, entry: Seq<char>) -> Seq<Seq<char>> {
    if s.len() > 0 && s.last().len() == 0 {
        shrunk(s.update(s.len() - 1, entry))
    } else {
        shrunk(s.push(entry))
    }
}

/// The formats after shrinking rows with the expressions `s` and the
/// formats `f` (see [`shrunk`]): the rows that stay keep their formats, and
/// the empty row put at the end has none.
pub open spec fn shrunk_formats(s: Seq<Seq<char>>, f: Seq<Option<Format>>) -> Seq<Option<Format>> {
    f.take(without_trailing_empty(s).len() as int).push(None)
}

/// The formats after adding `entry` to rows with the expressions `s` and
/// the formats `f` (see [`added`]): an empty last row that takes the entry
/// keeps its format, and a new row has none.
pub open spec fn added_formats(s: Seq<Seq<char>>, f: Seq<Option<Format>>, entry: Seq<char>) -> Seq<Option<Format>> {
    if s.len() > 0 && s.last().len() == 0 {
        shrunk_formats(s.update(s.len() - 1, entry), f)
    } else {
        shrunk_formats(s.push(entry), f.push(None))
    }
}

/// The table of watched expressions.
pub struct ExpressionTable {
    rows: Vec<ExpressionRow>,
}

/// The expressions of a list of rows.
pub open spec fn rows_view(rows: Seq<ExpressionRow>) -> Seq<Seq<char>> {
    rows.map_values(|r: ExpressionRow| r.expression@.text)
}

/// The formats of a list of rows.
pub open spec fn formats_of(rows: Seq<ExpressionRow>) -> Seq<Option<Format>> {
    rows.map_values(|r: ExpressionRow| r.format)
}

impl View for ExpressionTable {
    type V = Seq<Seq<char>>;

    closed spec fn view(&self) -> Seq<Seq<char>> {
        rows_view(self.rows@)
    }
}

proof fn lemma_without_trailing_empty(s: Seq<Seq<char>>)
    ensures
        without_trailing_empty(s).len() <= s.len(),
        without_trailing_empty(s) == s.take(without_trailing_empty(s).len() as int),
        without_trailing_empty(s).len() > 0 ==> without_trailing_empty(s).last().len() > 0,
        forall|i: int| without_trailing_empty(s).len() <= i < s.len() ==> (#[trigger] s[i]).len() == 0,
    decreases s.len(),
{
    if s.len() > 0 && s.last().len() == 0 {
        lemma_without_trailing_empty(s.drop_last());
        let w = without_trailing_empty(s.drop_last());
        assert(s.drop_last().take(w.len() as int) =~= s.take(w.len() as int));
        assert forall|i: int| w.len() <= i < s.len() implies (#[trigger] s[i]).len() == 0 by {
            if i < s.len() - 1 {
                assert(s.drop_last()[i] == s[i]);
            }
        }
    } else {
        assert(s.take(s.len() as int) =~= s);
    }
}

/// A shrunk table is well shaped.
pub proof fn lemma_shrunk_well_shaped(s: Seq<Seq<char>>)
    ensures
        well_shaped(shrunk(s)),
{
    lemma_without_trailing_empty(s);
}

/// Shrinking a well-shaped table changes nothing.
pub proof fn lemma_shrunk_well_shaped_unchanged(s: Seq<Seq<char>>)
    requires
        well_shaped(s),
    ensures
        shrunk(s) == s,
{
    let d = s.drop_last();
    assert(without_trailing_empty(s) == without_trailing_empty(d));
    if d.len() > 0 {
        assert(d.last() == s[s.len() - 2]);
    }
    assert(without_trailing_empty(d) == d);
    assert(s.last() =~= Seq::<char>::empty());
    assert(d.push(Seq::empty()) =~= s);
}

/// Adding a non-empty expression to a well-shaped table puts it before the
/// empty last row; adding an empty one changes nothing.
pub proof fn lemma_add_entry(s: Seq<Seq<char>>, entry: Seq<char>)
    requires
        well_shaped(s),
    ensures
        entry.len() > 0 ==> added(s, entry) == s.drop_last().push(entry).push(Seq::empty()),
        entry.len() == 0 ==> added(s, entry) == s,
{
    let u = s.update(s.len() - 1, entry);
    if entry.len() > 0 {
        assert(without_trailing_empty(u) == u);
        assert(u =~= s.drop_last().push(entry));
    } else {
        assert(entry =~= s.last());
        assert(u =~= s);
        lemma_shrunk_well_shaped_unchanged(s);
    }
}

impl ExpressionTable {
    #[verifier::type_invariant]
    closed spec fn inv(self) -> bool {
        well_shaped(rows_view(self.rows@))
    }

    /// A table with one empty row.
    pub fn new() -> (r: Self)
        ensures
            r@ == seq![Seq::<char>::empty()],
    {
        let mut rows = Vec::new();
        rows.push(ExpressionRow::new());
        let r = ExpressionTable { rows };
        assert(rows_view(r.rows@) =~= seq![Seq::<char>::empty()]);
        r
    }

    /// The number of rows; the table ends with exactly one empty row.
    pub fn len(&self) -> (r: usize)
        ensures
            r == self@.len(),
            well_shaped(self@),
    {
        proof {
            use_type_invariant(self);
        }
        self.rows.len()
    }

    /// The formats of the rows, in order.
    pub closed spec fn formats(&self) -> Seq<Option<Format>> {
        formats_of(self.rows@)
    }

    /// The row at `i`.
    pub fn row(&self, i: usize) -> (r: &ExpressionRow)
        requires
            i < self@.len(),
        ensures
            r.expression@.text == self@[i as int],
            r.format == self.formats()[i as int],
    {
        &self.rows[i]
    }

    fn placeholder() -> (r: Vec<ExpressionRow>)
        ensures
            well_shaped(rows_view(r@)),
    {
        let mut rows = Vec::new();
        rows.push(ExpressionRow::new());
        assert(rows_view(rows@) =~= seq![Seq::<char>::empty()]);
        rows
    }

    fn shrink(rows: &mut Vec<ExpressionRow>)
        ensures
            rows_view(final(rows)@) == shrunk(rows_view(old(rows)@)),
            formats_of(final(rows)@) == shrunk_formats(rows_view(old(rows)@), formats_of(old(rows)@)),
    {
        let ghost s = rows_view(rows@);
        proof {
            lemma_without_trailing_empty(s);
        }
        let mut n = rows.len();
        assert(s.take(n as int) =~= s);
        while n > 0 && rows[n - 1].is_empty()
            invariant
                n <= rows@.len(),
                rows@ == old(rows)@,
                s == rows_view(rows@),
                without_trailing_empty(s) == without_trailing_empty(s.take(n as int)),
            decreases n,
        {
            assert(s.take(n as int).drop_last() =~= s.take(n - 1));
            n -= 1;
        }
        proof {
            if n > 0 {
                assert(s.take(n as int).last() == s[n - 1]);
            }
            assert(without_trailing_empty(s.take(n as int)) == s.take(n as int));
        }
        let ghost f = formats_of(rows@);
        rows.truncate(n);
        rows.push(ExpressionRow::new());
        assert(rows_view(rows@) =~= s.take(n as int).push(Seq::empty()));
        assert(formats_of(rows@) =~= f.take(n as int).push(None));
    }

    /// Adds `entry` (see [`added`]).
    pub fn add_entry(&mut self, entry: &str)
        ensures
            final(self)@ == added(old(self)@, entry@),
            final(self).formats() == added_formats(old(self)@, old(self).formats(), entry@),
            well_shaped(final(self)@),
    {
        proof {
            use_type_invariant(&*self);
        }
        let mut rows = Self::placeholder();
        std::mem::swap(&mut rows, &mut self.rows);
        let ghost s = rows_view(rows@);
        let ghost f = formats_of(rows@);
        let n = rows.len();
        if n > 0 && rows[n - 1].is_empty() {
            let mut row = rows.pop().unwrap();
            row.expression.set(entry);
            rows.push(row);
            assert(rows_view(rows@) =~= s.update(s.len() - 1, entry@));
            assert(formats_of(rows@) =~= f);
        } else {
            let mut row = ExpressionRow::new();
            row.expression.set(entry);
            rows.push(row);
            assert(rows_view(rows@) =~= s.push(entry@));
            assert(formats_of(rows@) =~= f.push(None));
        }
        Self::shrink(&mut rows);
        proof {
            lemma_shrunk_well_shaped(if s.len() > 0 && s.last().len() == 0 {
                s.update(s.len() - 1, entry@)
            } else {
                s.push(entry@)
            });
        }
        self.rows = rows;
    }

    /// Sets the expression of the row at `i` to `text`, then shrinks the
    /// table (see [`shrunk`]): the rows emptied at its end go, and one empty
    /// row stays.
    pub fn edit_row(&mut self, i: usize, text: &str)
        requires
            i < old(self)@.len(),
        ensures
            final(self)@ == shrunk(old(self)@.update(i as int, text@)),
            final(self).formats() == shrunk_formats(old(self)@.update(i as int, text@), old(self).formats()),
            well_shaped(final(self)@),
    {
        let mut rows = Self::placeholder();
        std::mem::swap(&mut rows, &mut self.rows);
        let ghost s = rows_view(rows@);
        let ghost f = formats_of(rows@);
        let mut row = ExpressionRow::new();
        std::mem::swap(&mut row, &mut rows[i]);
        row.expression.set(text);
        rows.set(i, row);
        assert(rows_view(rows@) =~= s.update(i as int, text@));
        assert(formats_of(rows@) =~= f);
        Self::shrink(&mut rows);
        proof {
            lemma_shrunk_well_shaped(s.update(i as int, text@));
        }
        self.rows = rows;
    }

    /// Shows the value of the row at `i` in the next format (see
    /// [`next_format_spec`]); the other rows and all expressions stay.
    pub fn cycle_format(&mut self, i: usize)
        requires
            i < old(self)@.len(),
        ensures
            final(self)@ == old(self)@,
            final(self).formats() == old(self).formats().update(i as int, next_format_spec(old(self).formats()[i as int])),
    {
        proof {
            use_type_invariant(&*self);
        }
        let mut rows = Self::placeholder();
        std::mem::swap(&mut rows, &mut self.rows);
        let ghost s = rows_view(rows@);
        let ghost f = formats_of(rows@);
        let mut row = ExpressionRow::new();
        std::mem::swap(&mut row, &mut rows[i]);
        row.cycle_format();
        rows.set(i, row);
        assert(rows_view(rows@) =~= s);
        assert(formats_of(rows@) =~= f.update(i as int, next_format_spec(f[i as int])));
        self.rows = rows;
    }
}

/// What the table logs after a request to watch `expr`: success, or
/// failure with gdb's message or why the command was not executed.
pub enum WatchOutcome {
    Inserted,
    Failed(String),
    NotExecuted(ExecuteError),
}

/// The log line after a request to watch `expr`.
pub fn watchpoint_message(expr: &str, outcome: WatchOutcome) -> (r: String)
    ensures
        r@ == (match outcome {
            WatchOutcome::Inserted => "Inserted watchpoint for expression \""@ + expr@ + "\""@,
            WatchOutcome::Failed(m) => "Failed to set watchpoint: "@ + m@,
            WatchOutcome::NotExecuted(ExecuteError::Busy) => "Failed to set watchpoint: Busy"@,
            WatchOutcome::NotExecuted(ExecuteError::Quit) => "Failed to set watchpoint: Quit"@,
        }),
{
    match outcome {
        WatchOutcome::Inserted => {
            let mut r = "Inserted watchpoint for expression \"".to_owned();
            push_str(&mut r, expr);
            push_str(&mut r, "\"");
            r
        },
        WatchOutcome::Failed(m) => {
            let mut r = "Failed to set watchpoint: ".to_owned();
            push_str(&mut r, m.as_str());
            r
        },
        WatchOutcome::NotExecuted(ExecuteError::Busy) => "Failed to set watchpoint: Busy".to_owned(),
        WatchOutcome::NotExecuted(ExecuteError::Quit) => "Failed to set watchpoint: Quit".to_owned(),
    }
}

/// The text shown where gdb's value `value` could not be parsed.
pub fn parse_failure_text(value: &str) -> (r: String)
    ensures
        r@ == "*Error parsing*: "@ + value@,
{
    let mut r = "*Error parsing*: ".to_owned();
    push_str(&mut r, value);
    r
}

} // verus!
