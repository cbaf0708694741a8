//! Cursor movements that are worked out when they are applied: a line up,
//! a line down, the end of the line.

use vstd::prelude::*;
use crate::textedit::gap::GapBuffer;
use crate::sorted::rank;
use crate::textedit::metrics::Metrics;
use crate::textedit::model::{lemma_lines, OpView};
use crate::textedit::operation::{
    _cursor_left, _cursor_right, CursorLeft, CursorRight, TBOperationError, TextBufferOperation,
};

verus! {

/// The number of the line that a cursor at raw index `cursor` is on: the
/// count of linebreaks that `metrics` lists below it.
pub fn current_line(cursor: usize, metrics: &Metrics) -> (line: usize)
    requires
        metrics.wf(),
    ensures
        line == rank(metrics@, cursor),
{
    metrics.position_of(cursor)
}

/// Move the cursor some lines down, keeping its column as far as the line
/// it comes to reaches. The second field keeps the movement that was made.
pub struct DownLine(pub usize, Option<CursorRight>);

impl DownLine {
    /// The movement of `count` lines down, not yet applied.
    pub fn new(count: usize) -> (op: Self)
        ensures
            op.op_view() == (OpView::DownLine { count: count as nat, moved: None }),
    {
        Self(count, None)
    }
}

/// Move the cursor some lines up, keeping its column as far as the line it
/// comes to reaches. The second field keeps the movement that was made.
pub struct UpLine(pub usize, Option<CursorLeft>);

impl UpLine {
    /// The movement of `count` lines up, not yet applied.
    pub fn new(count: usize) -> (op: Self)
        ensures
            op.op_view() == (OpView::UpLine { count: count as nat, moved: None }),
    {
        Self(count, None)
    }
}

impl TextBufferOperation for DownLine {
    closed spec fn op_view(&self) -> OpView {
        OpView::DownLine {
            count: self.0 as nat,
            moved: match self.1 {
                Some(step) => Some(step.0 as nat),
                None => None,
            },
        }
    }

    fn modifies(&self) -> (m: bool) {
        false
    }

    fn apply(&mut self, buffer: &mut GapBuffer) -> (res: Result<(), TBOperationError>) {
        proof {
            buffer.lemma_gap_invariant();
            lemma_lines(buffer.state().text, buffer.state().cursor);
        }
        let line = buffer.line();
        if self.0 > buffer.break_count() - line {
            return Err(TBOperationError::MovesOutOfBounds);
        }
        let target = buffer.column_on(line + self.0);
        let delta = target - buffer.get_cursor();
        self.1 = Some(CursorRight(delta));
        _cursor_right(delta, buffer)
    }

    fn undo(&mut self, buffer: &mut GapBuffer) -> (res: Result<(), TBOperationError>) {
        match &self.1 {
            None => Err(TBOperationError::LogicError(None)),
            Some(step) => _cursor_left(step.0, buffer),
        }
    }
}

impl TextBufferOperation for UpLine {
    closed spec fn op_view(&self) -> OpView {
        OpView::UpLine {
            count: self.0 as nat,
            moved: match self.1 {
                Some(step) => Some(step.0 as nat),
                None => None,
            },
        }
    }

    fn modifies(&self) -> (m: bool) {
        false
    }

    fn apply(&mut self, buffer: &mut GapBuffer) -> (res: Result<(), TBOperationError>) {
        proof {
            buffer.lemma_gap_invariant();
            lemma_lines(buffer.state().text, buffer.state().cursor);
        }
        let line = buffer.line();
        if line < self.0 {
            return Err(TBOperationError::MovesOutOfBounds);
        }
        let target = buffer.column_on(line - self.0);
        let delta = buffer.get_cursor() - target;
        self.1 = Some(CursorLeft(delta));
        _cursor_left(delta, buffer)
    }

    fn undo(&mut self, buffer: &mut GapBuffer) -> (res: Result<(), TBOperationError>) {
        match &self.1 {
            None => Err(TBOperationError::LogicError(None)),
            Some(step) => _cursor_right(step.0, buffer),
        }
    }
}

/// Move the cursor to the end of its line: before the linebreak, or to the
/// end of the text. The field keeps the movement that was made.
pub struct EndOfLine(Option<CursorRight>);

impl EndOfLine {
    /// The movement to the end of the line, not yet applied.
    pub fn new() -> (op: Self)
        ensures
            op.op_view() == (OpView::EndOfLine { moved: None }),
    {
        Self(None)
    }
}

impl TextBufferOperation for EndOfLine {
    closed spec fn op_view(&self) -> OpView {
        OpView::EndOfLine {
            moved: match self.0 {
                Some(step) => Some(step.0 as nat),
                None => None,
            },
        }
    }

    fn modifies(&self) -> (m: bool) {
        false
    }

    fn apply(&mut self, buffer: &mut GapBuffer) -> (res: Result<(), TBOperationError>) {
        proof {
            buffer.lemma_gap_invariant();
            lemma_lines(buffer.state().text, buffer.state().cursor);
        }
        let line = buffer.line();
        let target = buffer.line_end_of(line);
        let delta = target - buffer.get_cursor();
        self.0 = Some(CursorRight(delta));
        _cursor_right(delta, buffer)
    }

    fn undo(&mut self, buffer: &mut GapBuffer) -> (res: Result<(), TBOperationError>) {
        match &self.0 {
            None => Err(TBOperationError::LogicError(None)),
            Some(step) => _cursor_left(step.0, buffer),
        }
    }
}

} // verus!
