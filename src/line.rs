//! The line editor: the line being typed, the cursor in it, and what the
//! terminal must be sent so that it shows them.
//!
//! Every edit returns the characters to write to the terminal (echoed text,
//! backspaces, escape sequences); the program around the library writes them.
use vstd::prelude::*;

use crate::builtins::{digit_value, is_digit};
use crate::history::{History, HistoryView, line_under_cursor, next_view, previous_view};
use crate::text::chars_of;

verus! {

/// Where the editor stands in reading an escape sequence.
#[derive(Debug, PartialEq, Eq, Clone, Copy, Structural)]
pub enum LineState {
    /// Plain input.
    Start,
    /// After an escape character.
    Escape,
    /// After the introducer of a control sequence.
    CsiComplete,
    /// Reading the number of a control sequence; the value read so far.
    CollectNum(usize),
}

/// The line being typed, with the history of earlier lines.
pub struct Line {
    pub line: Vec<char>,
    cursor_pos: usize,
    state: LineState,
    pub history: History,
}

/// The mathematical form of a `Line`.
pub struct LineView {
    pub line: Seq<char>,
    pub cursor: int,
    pub state: LineState,
    pub history: HistoryView,
}

impl View for Line {
    type V = LineView;

    closed spec fn view(&self) -> LineView {
        LineView {
            line: self.line@,
            cursor: self.cursor_pos as int,
            state: self.state,
            history: self.history@,
        }
    }
}

/// The backspace character, which moves the terminal's cursor one column left.
pub open spec fn backspace() -> char {
    '\u{8}'
}

/// `n` backspaces.
pub open spec fn backspaces(n: int) -> Seq<char> {
    Seq::new(n as nat, |_i: int| backspace())
}

/// The character of the decimal digit `d`.
pub open spec fn digit_char(d: nat) -> char {
    ((d + 48) as u8) as char
}

/// The decimal digits of `n`.
pub open spec fn decimal_chars(n: nat) -> Seq<char>
    decreases n,
{
    if n < 10 {
        seq![digit_char(n)]
    } else {
        decimal_chars(n / 10).push(digit_char(n % 10))
    }
}

/// The control sequence that moves the terminal's cursor `n` columns in the
/// direction `dir` (`C` right, `D` left).
pub open spec fn cursor_move(n: nat, dir: char) -> Seq<char> {
    seq!['\u{1b}', '['] + decimal_chars(n) + seq![dir]
}

/// The prompt shown before each line.
pub open spec fn prompt_text() -> Seq<char> {
    seq!['>', ' ']
}

/// What redraws the terminal's line: erase it, go to its start, then the
/// prompt and the text `line`.
pub open spec fn redraw_text(line: Seq<char>) -> Seq<char> {
    seq!['\u{1b}', '[', '2', 'K', '\r'] + prompt_text() + line
}

/// The line `v` with the text `line`, the cursor at `cursor` and the history `h`.
pub open spec fn with_text(v: LineView, line: Seq<char>, cursor: int, h: HistoryView) -> LineView {
    LineView { line, cursor, state: v.state, history: h }
}

/// Typing `c`: it is inserted at the cursor, which moves past it; the
/// terminal shows it and what follows it, and its cursor goes back after it.
pub open spec fn push_spec(v: LineView, c: char) -> (LineView, Seq<char>) {
    let line = v.line.insert(v.cursor, c);
    let cursor = v.cursor + 1;
    (
        with_text(v, line, cursor, v.history),
        seq![c] + line.subrange(cursor, line.len() as int) + backspaces(line.len() - cursor),
    )
}

/// Deleting the character before the cursor, if there is one.
pub open spec fn delete_spec(v: LineView) -> (LineView, Seq<char>) {
    if v.cursor == 0 {
        (v, seq![])
    } else if v.cursor == v.line.len() {
        (
            with_text(v, v.line.drop_last(), v.cursor - 1, v.history),
            seq![backspace(), ' ', backspace()],
        )
    } else {
        let cursor = v.cursor - 1;
        let line = v.line.remove(cursor);
        (
            with_text(v, line, cursor, v.history),
            seq![backspace()] + line.subrange(cursor, line.len() as int) + seq![' '] + backspaces(
                line.len() - cursor + 1,
            ),
        )
    }
}

/// Moving the cursor `step` characters left, if the line has them.
pub open spec fn left_spec(v: LineView, step: int) -> (LineView, Seq<char>) {
    if 0 <= step <= v.cursor {
        (with_text(v, v.line, v.cursor - step, v.history), cursor_move(step as nat, 'D'))
    } else {
        (v, seq![])
    }
}

/// Moving the cursor `step` characters right, if the line has them.
pub open spec fn right_spec(v: LineView, step: int) -> (LineView, Seq<char>) {
    if 0 <= step <= v.line.len() - v.cursor {
        (with_text(v, v.line, v.cursor + step, v.history), cursor_move(step as nat, 'C'))
    } else {
        (v, seq![])
    }
}

/// The control sequence with the number `n` and the final character `c`:
/// `A` recalls the older history line, `B` the newer one (or an empty line
/// past the newest), `C` and `D` move the cursor right and left, `H` and `F`
/// to the start and the end of the line. Reading goes back to plain input.
pub open spec fn sequence_spec(v: LineView, n: int, c: char) -> (LineView, Seq<char>) {
    let (w, out) = if c == 'A' {
        let h = previous_view(v.history);
        match line_under_cursor(h) {
            Some(l) => (with_text(v, l, l.len() as int, h), redraw_text(l)),
            None => (with_text(v, v.line, v.cursor, h), seq![]),
        }
    } else if c == 'B' {
        let h = next_view(v.history);
        match line_under_cursor(h) {
            Some(l) => (with_text(v, l, l.len() as int, h), redraw_text(l)),
            None => (with_text(v, seq![], 0, h), redraw_text(seq![])),
        }
    } else if c == 'C' {
        right_spec(v, n)
    } else if c == 'D' {
        left_spec(v, n)
    } else if c == 'H' {
        left_spec(v, v.cursor)
    } else if c == 'F' {
        right_spec(v, v.line.len() - v.cursor)
    } else {
        (v, seq![])
    };
    (LineView { line: w.line, cursor: w.cursor, state: LineState::Start, history: w.history }, out)
}

/// The number `n` followed by the digit `d`, kept at most `usize::MAX`.
pub open spec fn number_step(n: usize, d: nat) -> usize {
    if n * 10 + d <= usize::MAX {
        (n * 10 + d) as usize
    } else {
        usize::MAX
    }
}

/// The line `v` in the reading state `st`.
pub open spec fn with_state(v: LineView, st: LineState) -> LineView {
    LineView { line: v.line, cursor: v.cursor, state: st, history: v.history }
}

/// Receiving the character `c` from the terminal: plain characters are
/// typed, DEL deletes, and escape sequences move the cursor or recall
/// history lines.
pub open spec fn append_spec(v: LineView, c: char) -> (LineView, Seq<char>) {
    match v.state {
        LineState::Start => {
            if c == '\u{1b}' {
                (with_state(v, LineState::Escape), seq![])
            } else if c == '\u{9b}' {
                (with_state(v, LineState::CsiComplete), seq![])
            } else if c == '\u{7f}' {
                delete_spec(v)
            } else {
                push_spec(v, c)
            }
        },
        LineState::Escape => {
            if c == '[' || c == 'O' {
                (with_state(v, LineState::CsiComplete), seq![])
            } else {
                (with_state(v, LineState::Start), seq![])
            }
        },
        LineState::CsiComplete => {
            if is_digit(c) {
                (with_state(v, LineState::CollectNum(digit_value(c) as usize)), seq![])
            } else {
                sequence_spec(v, 1, c)
            }
        },
        LineState::CollectNum(n) => {
            if is_digit(c) {
                (with_state(v, LineState::CollectNum(number_step(n, digit_value(c)))), seq![])
            } else {
                sequence_spec(v, n as int, c)
            }
        },
    }
}

/// Appends `src[from..to]` to `out`.
fn push_range(out: &mut Vec<char>, src: &Vec<char>, from: usize, to: usize)
    requires
        from <= to <= src.len(),
    ensures
        final(out)@ == old(out)@ + src@.subrange(from as int, to as int),
{
    let mut k: usize = from;
    while k < to
        invariant
            from <= k <= to <= src.len(),
            out@ == old(out)@ + src@.subrange(from as int, k as int),
        decreases to - k,
    {
        out.push(src[k]);
        assert(src@.subrange(from as int, k + 1) =~= src@.subrange(from as int, k as int).push(src@[k as int]));
        k = k + 1;
    }
}

/// Appends `n` backspaces to `out`.
fn push_backspaces(out: &mut Vec<char>, n: usize)
    ensures
        final(out)@ == old(out)@ + backspaces(n as int),
{
    let mut k: usize = 0;
    while k < n
        invariant
            k <= n,
            out@ == old(out)@ + backspaces(k as int),
        decreases n - k,
    {
        out.push('\u{8}');
        assert(backspaces(k + 1) =~= backspaces(k as int).push(backspace()));
        k = k + 1;
    }
}

/// Appends the decimal digits of `n` to `out`.
fn push_decimal(out: &mut Vec<char>, n: usize)
    ensures
        final(out)@ == old(out)@ + decimal_chars(n as nat),
    decreases n,
{
    if n >= 10 {
        push_decimal(out, n / 10);
    }
    let d: u8 = (n % 10) as u8;
    let c = (d + 48) as char;
    out.push(c);
    proof {
        if n >= 10 {
            assert(old(out)@ + decimal_chars(n as nat) =~= old(out)@ + decimal_chars((n / 10) as nat)
                + seq![c]);
        } else {
            assert(old(out)@ + decimal_chars(n as nat) =~= old(out)@ + seq![c]);
        }
    }
}

/// Appends the control sequence that moves the cursor `n` columns in the
/// direction `dir`.
fn push_cursor_move(out: &mut Vec<char>, n: usize, dir: char)
    ensures
        final(out)@ == old(out)@ + cursor_move(n as nat, dir),
{
    out.push('\u{1b}');
    out.push('[');
    push_decimal(out, n);
    out.push(dir);
    assert(final(out)@ =~= old(out)@ + cursor_move(n as nat, dir));
}

/// The text that shows the prompt.
pub fn print_prompt() -> (r: Vec<char>)
    ensures
        r@ == prompt_text(),
{
    let mut r: Vec<char> = Vec::new();
    r.push('>');
    r.push(' ');
    assert(r@ =~= prompt_text());
    r
}

/// The caret notation of a control character: `^` and the character whose
/// code differs from it in the bit of value 64 (`^D` for end of transmission).
pub fn get_caret_notation(ctrl_char: char) -> (r: Vec<char>)
    requires
        (ctrl_char as u32) < 128,
    ensures
        r@ == seq!['^', (((ctrl_char as u32) as u8) ^ 64u8) as char],
{
    let code: u8 = (ctrl_char as u32) as u8;
    let mut r: Vec<char> = Vec::new();
    r.push('^');
    r.push((code ^ 64u8) as char);
    assert(r@ =~= seq!['^', (((ctrl_char as u32) as u8) ^ 64u8) as char]);
    r
}

impl Line {
    /// The cursor stands within the line, and the history is well formed.
    pub open spec fn well_formed(&self) -> bool {
        &&& 0 <= self@.cursor <= self@.line.len()
        &&& 0 <= self@.history.pos <= self@.history.lines.len()
    }

    /// An empty line, with an empty history.
    pub fn new() -> (r: Line)
        ensures
            r@.line.len() == 0,
            r@.cursor == 0,
            r@.state == LineState::Start,
            r@.history.lines.len() == 0,
            r.well_formed(),
    {
        Line { line: Vec::new(), cursor_pos: 0, state: LineState::Start, history: History::new() }
    }

    /// Types `chara` at the cursor.
    fn push(&mut self, chara: char) -> (r: Vec<char>)
        requires
            old(self).well_formed(),
        ensures
            final(self).well_formed(),
            (final(self)@, r@) == push_spec(old(self)@, chara),
    {
        self.line.insert(self.cursor_pos, chara);
        let len = self.line.len();
        assert(self.cursor_pos < len);
        self.cursor_pos = self.cursor_pos + 1;
        let mut out: Vec<char> = Vec::new();
        out.push(chara);
        push_range(&mut out, &self.line, self.cursor_pos, self.line.len());
        push_backspaces(&mut out, self.line.len() - self.cursor_pos);
        assert(out@ =~= push_spec(old(self)@, chara).1);
        out
    }

    /// Deletes the character before the cursor.
    fn del_prev_char(&mut self) -> (r: Vec<char>)
        requires
            old(self).well_formed(),
        ensures
            final(self).well_formed(),
            (final(self)@, r@) == delete_spec(old(self)@),
    {
        let mut out: Vec<char> = Vec::new();
        if self.cursor_pos != 0 {
            self.cursor_pos = self.cursor_pos - 1;
            if self.cursor_pos == self.line.len() - 1 {
                out.push('\u{8}');
                out.push(' ');
                out.push('\u{8}');
                self.line.pop();
                assert(out@ =~= delete_spec(old(self)@).1);
            } else {
                self.line.remove(self.cursor_pos);
                out.push('\u{8}');
                push_range(&mut out, &self.line, self.cursor_pos, self.line.len());
                out.push(' ');
                push_backspaces(&mut out, self.line.len() - self.cursor_pos + 1);
                assert(out@ =~= delete_spec(old(self)@).1);
            }
        } else {
            assert(out@ =~= Seq::<char>::empty());
        }
        out
    }

    /// Empties the line.
    pub fn clear(&mut self)
        requires
            old(self).well_formed(),
        ensures
            final(self).well_formed(),
            final(self)@ == with_text(old(self)@, seq![], 0, old(self)@.history),
    {
        self.line.clear();
        self.cursor_pos = 0;
    }

    /// Moves the cursor `step` characters left.
    fn move_cursor_left(&mut self, step: usize) -> (r: Vec<char>)
        requires
            old(self).well_formed(),
        ensures
            final(self).well_formed(),
            (final(self)@, r@) == left_spec(old(self)@, step as int),
    {
        let mut out: Vec<char> = Vec::new();
        if step <= self.cursor_pos {
            push_cursor_move(&mut out, step, 'D');
            assert(out@ =~= cursor_move(step as nat, 'D'));
            self.cursor_pos = self.cursor_pos - step;
        } else {
            assert(out@ =~= Seq::<char>::empty());
        }
        out
    }

    /// Moves the cursor `step` characters right.
    fn move_cursor_right(&mut self, step: usize) -> (r: Vec<char>)
        requires
            old(self).well_formed(),
        ensures
            final(self).well_formed(),
            (final(self)@, r@) == right_spec(old(self)@, step as int),
    {
        let mut out: Vec<char> = Vec::new();
        if step <= self.line.len() - self.cursor_pos {
            push_cursor_move(&mut out, step, 'C');
            assert(out@ =~= cursor_move(step as nat, 'C'));
            self.cursor_pos = self.cursor_pos + step;
        } else {
            assert(out@ =~= Seq::<char>::empty());
        }
        out
    }

    /// The text that redraws the whole line.
    fn redraw(&self) -> (r: Vec<char>)
        ensures
            r@ == redraw_text(self@.line),
    {
        let mut out: Vec<char> = Vec::new();
        out.push('\u{1b}');
        out.push('[');
        out.push('2');
        out.push('K');
        out.push('\r');
        out.push('>');
        out.push(' ');
        push_range(&mut out, &self.line, 0, self.line.len());
        assert(self.line@.subrange(0, self.line@.len() as int) =~= self.line@);
        assert(out@ =~= redraw_text(self@.line));
        out
    }

    /// Carries out the control sequence with the number `n` and the final
    /// character `chara`.
    fn interpret_seq(&mut self, n: usize, chara: char) -> (r: Vec<char>)
        requires
            old(self).well_formed(),
        ensures
            final(self).well_formed(),
            (final(self)@, r@) == sequence_spec(old(self)@, n as int, chara),
    {
        let out = if chara == 'A' {
            self.history.previous();
            match self.history.get_line() {
                Some(hist_line) => {
                    self.line = chars_of(hist_line);
                    self.cursor_pos = self.line.len();
                    self.redraw()
                },
                None => {
                    let out: Vec<char> = Vec::new();
                    assert(out@ =~= Seq::<char>::empty());
                    out
                },
            }
        } else if chara == 'B' {
            self.history.next();
            match self.history.get_line() {
                Some(hist_line) => {
                    self.line = chars_of(hist_line);
                    self.cursor_pos = self.line.len();
                },
                None => {
                    self.line.clear();
                    self.cursor_pos = 0;
                    assert(self.line@ =~= Seq::<char>::empty());
                },
            }
            self.redraw()
        } else if chara == 'C' {
            self.move_cursor_right(n)
        } else if chara == 'D' {
            self.move_cursor_left(n)
        } else if chara == 'H' {
            let step = self.cursor_pos;
            self.move_cursor_left(step)
        } else if chara == 'F' {
            let step = self.line.len() - self.cursor_pos;
            self.move_cursor_right(step)
        } else {
            let out: Vec<char> = Vec::new();
            assert(out@ =~= Seq::<char>::empty());
            out
        };
        self.state = LineState::Start;
        out
    }

    /// Receives the character `chara` from the terminal, and returns what the
    /// terminal must be sent to show the result.
    pub fn append(&mut self, chara: char) -> (r: Vec<char>)
        requires
            old(self).well_formed(),
        ensures
            final(self).well_formed(),
            (final(self)@, r@) == append_spec(old(self)@, chara),
    {
        let none: Vec<char> = Vec::new();
        assert(none@ =~= Seq::<char>::empty());
        match self.state {
            LineState::Start => {
                if chara == '\u{1b}' {
                    self.state = LineState::Escape;
                    none
                } else if chara == '\u{9b}' {
                    self.state = LineState::CsiComplete;
                    none
                } else if chara == '\u{7f}' {
                    self.del_prev_char()
                } else {
                    self.push(chara)
                }
            },
            LineState::Escape => {
                if chara == '[' || chara == 'O' {
                    self.state = LineState::CsiComplete;
                } else {
                    self.state = LineState::Start;
                }
                none
            },
            LineState::CsiComplete => {
                if '0' <= chara && chara <= '9' {
                    let d: usize = ((chara as u32) - ('0' as u32)) as usize;
                    self.state = LineState::CollectNum(d);
                    none
                } else {
                    self.interpret_seq(1, chara)
                }
            },
            LineState::CollectNum(n) => {
                if '0' <= chara && chara <= '9' {
                    let d: usize = ((chara as u32) - ('0' as u32)) as usize;
                    let next: u128 = (n as u128) * 10 + (d as u128);
                    let value: usize = if next > usize::MAX as u128 {
                        usize::MAX
                    } else {
                        next as usize
                    };
                    self.state = LineState::CollectNum(value);
                    none
                } else {
                    self.interpret_seq(n, chara)
                }
            },
        }
    }
}

} // verus!
