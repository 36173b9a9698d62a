//! The history of entered lines, with a cursor that moves through it.
use vstd::prelude::*;

use crate::builtins::strings_view;

verus! {

/// The lines entered so far, oldest first, and the position of the cursor:
/// a line's index, or the number of lines when it stands past the newest.
pub struct History {
    history: Vec<String>,
    pos: usize,
}

/// The mathematical form of a `History`.
pub struct HistoryView {
    pub lines: Seq<Seq<char>>,
    pub pos: int,
}

/// The history after the cursor moves to the next older line, if there is one.
pub open spec fn previous_view(h: HistoryView) -> HistoryView {
    HistoryView {
        lines: h.lines,
        pos: if h.pos == 0 {
            0
        } else {
            h.pos - 1
        },
    }
}

/// The history after the cursor moves to the next newer line, or past the newest.
pub open spec fn next_view(h: HistoryView) -> HistoryView {
    HistoryView {
        lines: h.lines,
        pos: if h.pos == h.lines.len() {
            h.pos
        } else {
            h.pos + 1
        },
    }
}

/// The line under the cursor, if it stands on one.
pub open spec fn line_under_cursor(h: HistoryView) -> Option<Seq<char>> {
    if 0 <= h.pos < h.lines.len() {
        Some(h.lines[h.pos])
    } else {
        None
    }
}

impl View for History {
    type V = HistoryView;

    closed spec fn view(&self) -> HistoryView {
        HistoryView { lines: strings_view(self.history@), pos: self.pos as int }
    }
}

impl History {
    /// The cursor stands on a line or just past the newest.
    pub open spec fn well_formed(&self) -> bool {
        0 <= self@.pos <= self@.lines.len()
    }

    /// An empty history.
    pub fn new() -> (r: History)
        ensures
            r@.lines.len() == 0,
            r@.pos == 0,
            r.well_formed(),
    {
        History { history: Vec::new(), pos: 0 }
    }

    /// Adds `line` as the newest line and moves the cursor past it.
    pub fn push(&mut self, line: String)
        requires
            old(self).well_formed(),
        ensures
            final(self).well_formed(),
            final(self)@.lines == old(self)@.lines.push(line@),
            final(self)@.pos == final(self)@.lines.len(),
    {
        self.history.push(line);
        self.pos = self.history.len();
        proof {
            assert(strings_view(self.history@) =~= old(self)@.lines.push(line@));
        }
    }

    /// Moves the cursor to the next older line, if there is one.
    pub fn previous(&mut self)
        requires
            old(self).well_formed(),
        ensures
            final(self).well_formed(),
            final(self)@ == previous_view(old(self)@),
    {
        if self.pos != 0 {
            self.pos = self.pos - 1;
        }
    }

    /// Moves the cursor to the next newer line, or past the newest.
    pub fn next(&mut self)
        requires
            old(self).well_formed(),
        ensures
            final(self).well_formed(),
            final(self)@ == next_view(old(self)@),
    {
        if self.pos != self.history.len() {
            self.pos = self.pos + 1;
        }
    }

    /// The line under the cursor; none when the cursor stands past the newest.
    pub fn get_line(&self) -> (r: Option<&str>)
        requires
            self.well_formed(),
        ensures
            match r {
                Some(s) => line_under_cursor(self@) == Some(s@),
                None => line_under_cursor(self@) is None,
            },
    {
        if self.pos == self.history.len() {
            None
        } else {
            Some(self.history[self.pos].as_str())
        }
    }
}

} // verus!
