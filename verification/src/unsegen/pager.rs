//! A pager over numbered lines: which line is active, and how it moves.
//! The lines come from a storage and are coloured by a highlighter; both
//! are the user's to provide.
use vstd::prelude::*;
use std::ops::Range;
use crate::unsegen::textattribute::{plain_attribute, TextAttribute};
use crate::unsegen::widget::{Demand, Widget};

verus! {

/// A source of numbered lines, such as a file.
pub trait LineStorage {
    /// The lines numbered `range.start` up to `range.end`, in order, as far
    /// as there are any.
    fn view(&mut self, range: Range<usize>) -> Vec<String>;
}

/// Something that splits a line into regions with text attributes.
pub trait HighLighter {
    fn highlight<'a>(&mut self, line: &'a str) -> Vec<(TextAttribute, &'a str)>;
}

/// The highlighter that leaves a line plain.
pub struct NoHighLighter;

impl HighLighter for NoHighLighter {
    /// The whole line as one plain region.
    fn highlight<'a>(&mut self, line: &'a str) -> (r: Vec<(TextAttribute, &'a str)>)
        ensures
            r@.len() == 1,
            r@[0].0 == plain_attribute(),
            r@[0].1@ == line@,
    {
        let mut r = Vec::new();
        r.push((TextAttribute::plain(), line));
        r
    }
}

/// Something whose view can be moved forwards and backwards.
pub trait Scrollable {
    fn scroll_forwards(&mut self);

    fn scroll_backwards(&mut self);
}

struct PagerContent<S: LineStorage, H: HighLighter> {
    storage: S,
    highlighter: H,
}

/// A pager: the content, once loaded, and the number of the active line.
pub struct Pager<S: LineStorage, H: HighLighter> {
    content: Option<PagerContent<S, H>>,
    active_line: usize,
}

/// The range of the one line after `active`: what the pager asks its storage
/// for when it moves forwards.
pub fn next_line_range(active: usize) -> (r: Range<usize>)
    requires
        active + 2 <= usize::MAX,
    ensures
        r.start == active + 1,
        r.end == active + 2,
{
    (active + 1)..(active + 2)
}

impl<S: LineStorage, H: HighLighter> Pager<S, H> {
    /// The number of the active line.
    pub closed spec fn active_line_spec(&self) -> usize {
        self.active_line
    }

    /// Whether content was loaded.
    pub closed spec fn loaded(&self) -> bool {
        self.content is Some
    }

    /// The storage and the highlighter that were loaded, if any.
    pub closed spec fn content_spec(&self) -> Option<(S, H)> {
        match self.content {
            Some(c) => Some((c.storage, c.highlighter)),
            None => None,
        }
    }

    /// A pager without content, at the first line.
    pub fn new() -> (r: Self)
        ensures
            !r.loaded(),
            r.content_spec() is None,
            r.active_line_spec() == 0,
    {
        Pager { content: None, active_line: 0 }
    }

    /// The number of the active line.
    pub fn active_line(&self) -> (r: usize)
        ensures
            r == self.active_line_spec(),
    {
        self.active_line
    }

    /// Shows the lines of `storage`, coloured by `highlighter`, in place of
    /// any content loaded before; the active line stays.
    pub fn load(&mut self, storage: S, highlighter: H)
        ensures
            final(self).loaded(),
            final(self).content_spec() == Some((storage, highlighter)),
            final(self).active_line_spec() == old(self).active_line_spec(),
    {
        self.content = Some(PagerContent { storage, highlighter });
    }

    /// Moves to the previous line, if there is one.
    pub fn scroll_backwards(&mut self)
        ensures
            final(self).loaded() == old(self).loaded(),
            final(self).content_spec() == old(self).content_spec(),
            final(self).active_line_spec() == (if old(self).active_line_spec() > 0 {
                old(self).active_line_spec() - 1
            } else {
                0
            }),
    {
        if self.active_line > 0 {
            self.active_line -= 1;
        }
    }

    /// Moves to the next line where content is loaded and `next_exists`,
    /// the storage's answer whether it holds a next line, says so.
    pub fn advance(&mut self, next_exists: bool)
        requires
            old(self).active_line_spec() + 1 <= usize::MAX,
        ensures
            final(self).loaded() == old(self).loaded(),
            final(self).content_spec() == old(self).content_spec(),
            final(self).active_line_spec() == (if old(self).loaded() && next_exists {
                (old(self).active_line_spec() + 1) as usize
            } else {
                old(self).active_line_spec()
            }),
    {
        if next_exists && self.content.is_some() {
            self.active_line = self.active_line + 1;
        }
    }

    /// Moves to the next line if the storage has one: it is asked for
    /// [`next_line_range`] of the active line, and the pager [`advance`]s
    /// by whether it answered with a line. Without content, nothing moves.
    ///
    /// [`advance`]: Pager::advance
    pub fn scroll_forwards(&mut self)
        requires
            old(self).active_line_spec() + 2 <= usize::MAX,
        ensures
            final(self).loaded() == old(self).loaded(),
            final(self).active_line_spec() == old(self).active_line_spec() || (old(self).loaded()
                && final(self).active_line_spec() == old(self).active_line_spec() + 1),
    {
        let has_next = match &mut self.content {
            Some(content) => content.storage.view(next_line_range(self.active_line)).len() > 0,
            None => false,
        };
        self.advance(has_next);
    }
}

impl<S: LineStorage, H: HighLighter> Widget for Pager<S, H> {
    /// At least one column and one row.
    fn space_demand(&self) -> (r: (Demand, Demand))
        ensures
            r.0 == (Demand { min: 1, max: None }),
            r.1 == (Demand { min: 1, max: None }),
    {
        (Demand::at_least(1), Demand::at_least(1))
    }
}

/// A viewer of the first lines of a storage.
pub struct FileViewer<S: LineStorage, H: HighLighter> {
    pub storage: S,
    pub highlighter: H,
}

impl<S: LineStorage, H: HighLighter> FileViewer<S, H> {
    pub fn new(storage: S, highlighter: H) -> (r: Self)
        ensures
            r.storage == storage,
            r.highlighter == highlighter,
    {
        FileViewer { storage, highlighter }
    }
}

} // verus!
