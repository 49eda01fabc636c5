//! The input accumulation state machine: classifies each submitted line as a
//! meta-command, a comment or a SQL fragment, and decides when the
//! accumulated fragments form one complete logical input.

use vstd::prelude::*;
use crate::text::{first_char_is, trim_end, trim_end_spec};

verus! {

/// One complete logical input, ready for execution.
pub enum Input {
    /// A single `.`-prefixed line, carried verbatim.
    DotCommand(String),
    /// The accumulated statement text, fragments concatenated in order with
    /// no separator, each ordinary fragment trimmed of trailing whitespace.
    Sql(String),
}

/// The ghost image of an `Input`: the same two cases over character
/// sequences.
pub enum InputView {
    DotCommand(Seq<char>),
    Sql(Seq<char>),
}

impl View for Input {
    type V = InputView;

    open spec fn view(&self) -> InputView {
        match self {
            Input::DotCommand(s) => InputView::DotCommand(s@),
            Input::Sql(s) => InputView::Sql(s@),
        }
    }
}

impl DeepView for Input {
    type V = InputView;

    open spec fn deep_view(&self) -> InputView {
        self.view()
    }
}

/// A trimmed fragment completes the statement when it ends in `;`, or is
/// exactly `go` or exactly `/`.
pub open spec fn terminates(s: Seq<char>) -> bool {
    ||| (s.len() > 0 && s.last() == ';')
    ||| (s.len() == 2 && s[0] == 'g' && s[1] == 'o')
    ||| (s.len() == 1 && s[0] == '/')
}

/// What one submitted line does to the machine: the buffer afterwards, and
/// the logical input emitted, if any.
///
/// - A `.`-line on an empty buffer is a meta-command, emitted verbatim.
/// - A `.`-line on a non-empty buffer is literal fragment text: it is
///   appended verbatim, and the statement completes when the line, trimmed,
///   carries a termination token.
/// - A `#`-line is a comment: discarded, whatever the buffer holds.
/// - Any other line is trimmed of trailing whitespace and appended, and the
///   statement completes when the trimmed line carries a termination token.
pub open spec fn step(buf: Seq<char>, line: Seq<char>) -> (Seq<char>, Option<InputView>) {
    if line.len() > 0 && line[0] == '.' {
        if buf.len() == 0 {
            (buf, Some(InputView::DotCommand(line)))
        } else {
            if terminates(trim_end_spec(line)) {
                (Seq::empty(), Some(InputView::Sql(buf + line)))
            } else {
                (buf + line, None)
            }
        }
    } else if line.len() > 0 && line[0] == '#' {
        (buf, None)
    } else {
        if terminates(trim_end_spec(line)) {
            (Seq::empty(), Some(InputView::Sql(buf + trim_end_spec(line))))
        } else {
            (buf + trim_end_spec(line), None)
        }
    }
}

/// `step` folded over a whole sequence of lines from a starting buffer:
/// the buffer afterwards, and every logical input emitted, in order.
pub open spec fn run(buf: Seq<char>, lines: Seq<Seq<char>>) -> (Seq<char>, Seq<InputView>)
    decreases lines.len(),
{
    if lines.len() == 0 {
        (buf, Seq::empty())
    } else {
        let stepped = step(buf, lines[0]);
        let rest = run(stepped.0, lines.drop_first());
        (
            rest.0,
            match stepped.1 {
                Some(emitted) => seq![emitted] + rest.1,
                None => rest.1,
            },
        )
    }
}

/// Classification is deterministic: what a line does to the machine depends
/// on the buffer and the line alone, so equal inputs give equal outcomes.
pub proof fn lemma_step_deterministic(
    buf1: Seq<char>,
    line1: Seq<char>,
    buf2: Seq<char>,
    line2: Seq<char>,
)
    requires
        buf1 == buf2,
        line1 == line2,
    ensures
        step(buf1, line1) == step(buf2, line2),
{
}

/// Classifying a sequence of lines is repeatable: two runs over equal lines
/// from equal buffers emit equal logical inputs and leave equal buffers.
pub proof fn lemma_run_deterministic(
    buf1: Seq<char>,
    lines1: Seq<Seq<char>>,
    buf2: Seq<char>,
    lines2: Seq<Seq<char>>,
)
    requires
        buf1 == buf2,
        lines1 == lines2,
    ensures
        run(buf1, lines1) == run(buf2, lines2),
{
}

/// A comment line is discarded entirely: it never changes the buffer and
/// never emits a logical input.
pub proof fn lemma_comment_line_ignored(buf: Seq<char>, line: Seq<char>)
    requires
        line.len() > 0,
        line[0] == '#',
    ensures
        step(buf, line) == (buf, None::<InputView>),
{
}

/// A `.`-line at a statement boundary is a meta-command: it is emitted
/// verbatim and the buffer stays empty.
pub proof fn lemma_dot_command_at_boundary(buf: Seq<char>, line: Seq<char>)
    requires
        buf.len() == 0,
        line.len() > 0,
        line[0] == '.',
    ensures
        step(buf, line) == (buf, Some(InputView::DotCommand(line))),
{
}

/// An emitted statement resets the buffer: whenever `step` emits a logical
/// input, the buffer afterwards is empty.
pub proof fn lemma_emit_resets_buffer(buf: Seq<char>, line: Seq<char>)
    requires
        step(buf, line).1 is Some,
    ensures
        step(buf, line).0 == Seq::<char>::empty(),
{
    if line.len() > 0 && line[0] == '.' && buf.len() == 0 {
        assert(buf =~= Seq::<char>::empty());
    }
}

/// The prompt shown at a statement boundary.
pub open spec fn main_prompt() -> Seq<char> {
    "libsql> "@
}

/// The prompt shown while a statement is still accumulating.
pub open spec fn continuation_prompt() -> Seq<char> {
    "   ...> "@
}

/// The input accumulator: owns the buffer of statement fragments read so
/// far, and classifies each submitted line. Its view is the buffer's text.
pub struct InputAccumulator {
    buffer: String,
}

impl View for InputAccumulator {
    type V = Seq<char>;

    closed spec fn view(&self) -> Seq<char> {
        self.buffer@
    }
}

impl InputAccumulator {
    /// A fresh accumulator with an empty buffer.
    pub fn new() -> (r: InputAccumulator)
        ensures
            r@ == Seq::<char>::empty(),
    {
        InputAccumulator { buffer: String::new() }
    }

    /// True while a statement is accumulating, when the next line is read
    /// under the continuation prompt.
    pub fn is_accumulating(&self) -> (r: bool)
        ensures
            r == (self@.len() > 0),
    {
        !self.buffer.as_str().is_empty()
    }

    /// The prompt under which the next line is requested: the main prompt
    /// at a statement boundary, the continuation prompt mid-statement.
    pub fn prompt(&self) -> (r: &'static str)
        ensures
            self@.len() == 0 ==> r@ == main_prompt(),
            self@.len() > 0 ==> r@ == continuation_prompt(),
    {
        if self.buffer.as_str().is_empty() {
            "libsql> "
        } else {
            "   ...> "
        }
    }

    /// Classifies one submitted line, exactly as `step` says: returns the
    /// emitted logical input if the line completes one, and leaves the
    /// buffer as `step` leaves it.
    pub fn push_line(&mut self, line: &str) -> (r: Option<Input>)
        ensures
            final(self)@ == step(old(self)@, line@).0,
            match r {
                Some(emitted) => step(old(self)@, line@).1 == Some(emitted@),
                None => step(old(self)@, line@).1 is None,
            },
    {
        if first_char_is(line, '.') {
            if self.buffer.as_str().is_empty() {
                return Some(Input::DotCommand(String::from_str(line)));
            }
            self.buffer.append(line);
            let trimmed = trim_end(line);
            if Self::line_terminates(trimmed.as_str()) {
                return Some(Input::Sql(self.take_buffer()));
            }
            return None;
        }
        if first_char_is(line, '#') {
            return None;
        }
        let trimmed = trim_end(line);
        self.buffer.append(trimmed.as_str());
        if Self::line_terminates(trimmed.as_str()) {
            return Some(Input::Sql(self.take_buffer()));
        }
        None
    }

    /// Classifies a whole sequence of lines, returning every logical input
    /// emitted, in order, exactly as `run` says.
    pub fn push_lines(&mut self, lines: &Vec<String>) -> (r: Vec<Input>)
        ensures
            final(self)@ == run(old(self)@, lines.deep_view()).0,
            r.deep_view() == run(old(self)@, lines.deep_view()).1,
    {
        let ghost all = lines.deep_view();
        let ghost buf0 = self@;
        let mut emitted: Vec<Input> = Vec::new();
        let mut i: usize = 0;
        proof {
            assert(all.skip(0) =~= all);
            assert(emitted.deep_view() + run(self@, all.skip(0)).1 =~= run(buf0, all).1);
        }
        while i < lines.len()
        invariant
            i <= lines.len(),
            all == lines.deep_view(),
            all.len() == lines.len(),
            run(buf0, all).0 == run(self@, all.skip(i as int)).0,
            run(buf0, all).1 == emitted.deep_view() + run(self@, all.skip(i as int)).1,
        decreases lines.len() - i,
        {
            let ghost pre = self@;
            let ghost remaining = all.skip(i as int);
            proof {
                assert(remaining[0] == all[i as int]);
                assert(remaining.drop_first() =~= all.skip(i + 1));
            }
            let line = &lines[i];
            let out = self.push_line(line.as_str());
            proof {
                assert(line@ == all[i as int]);
                assert(self@ == step(pre, remaining[0]).0);
            }
            match out {
                Some(input) => {
                    let ghost before = emitted.deep_view();
                    emitted.push(input);
                    proof {
                        assert(emitted.deep_view() =~= before.push(input@));
                        assert(seq![input@] + run(self@, all.skip(i + 1)).1 =~= run(
                            pre,
                            remaining,
                        ).1);
                        assert(before.push(input@) + run(self@, all.skip(i + 1)).1 =~= before + (
                        seq![input@] + run(self@, all.skip(i + 1)).1));
                    }
                },
                None => {
                    proof {
                        assert(run(self@, all.skip(i + 1)).1 =~= run(pre, remaining).1);
                    }
                },
            }
            i = i + 1;
        }
        proof {
            assert(all.skip(i as int) =~= Seq::<Seq<char>>::empty());
            assert(emitted.deep_view() + Seq::<InputView>::empty() =~= emitted.deep_view());
        }
        emitted
    }

    /// Decides `terminates` on an already trimmed fragment.
    fn line_terminates(s: &str) -> (r: bool)
        ensures
            r == terminates(s@),
    {
        let n = s.unicode_len();
        if n > 0 && s.get_char(n - 1) == ';' {
            true
        } else if n == 2 && s.get_char(0) == 'g' && s.get_char(1) == 'o' {
            true
        } else if n == 1 && s.get_char(0) == '/' {
            true
        } else {
            false
        }
    }

    /// Hands the accumulated statement out and resets the buffer.
    fn take_buffer(&mut self) -> (r: String)
        ensures
            r@ == old(self)@,
            final(self)@ == Seq::<char>::empty(),
    {
        let out = self.buffer.clone();
        self.buffer = String::new();
        out
    }
}

} // verus!
