//! The text buffer: the stored text and the log of what was done to it.

use vstd::prelude::*;
use crate::text::as_chars;
use crate::textedit::gap::{as_ints, blanks, is_linebreak_index, GapBuffer};
use crate::sorted::rank;
use crate::textedit::model::{
    grow_size, lemma_apply_then_undo, lemma_lines, line_start, op_apply, op_undo, replayable,
    BufferModel, FixedChar, GapText, OpFailure, OpView, DEFAULT_GAP_SIZE,
};
use crate::textedit::operation::{
    CursorLeft, CursorRight, DeleteBack, InsertChar, InsertLinebreak, InsertString,
    TBOperationError, TextBufferOperation,
};
use crate::textedit::traverse_ops::{DownLine, EndOfLine, UpLine};

verus! {

/// Any of the operations: what the buffer is handed and what it logs.
pub enum Operation {
    InsertChar(InsertChar),
    InsertLinebreak(InsertLinebreak),
    InsertString(InsertString),
    DeleteBack(DeleteBack),
    CursorLeft(CursorLeft),
    CursorRight(CursorRight),
    DownLine(DownLine),
    UpLine(UpLine),
    EndOfLine(EndOfLine),
}

impl TextBufferOperation for Operation {
    open spec fn op_view(&self) -> OpView {
        match self {
            Operation::InsertChar(op) => op.op_view(),
            Operation::InsertLinebreak(op) => op.op_view(),
            Operation::InsertString(op) => op.op_view(),
            Operation::DeleteBack(op) => op.op_view(),
            Operation::CursorLeft(op) => op.op_view(),
            Operation::CursorRight(op) => op.op_view(),
            Operation::DownLine(op) => op.op_view(),
            Operation::UpLine(op) => op.op_view(),
            Operation::EndOfLine(op) => op.op_view(),
        }
    }

    fn modifies(&self) -> (m: bool) {
        match self {
            Operation::InsertChar(op) => op.modifies(),
            Operation::InsertLinebreak(op) => op.modifies(),
            Operation::InsertString(op) => op.modifies(),
            Operation::DeleteBack(op) => op.modifies(),
            Operation::CursorLeft(op) => op.modifies(),
            Operation::CursorRight(op) => op.modifies(),
            Operation::DownLine(op) => op.modifies(),
            Operation::UpLine(op) => op.modifies(),
            Operation::EndOfLine(op) => op.modifies(),
        }
    }

    fn apply(&mut self, buffer: &mut GapBuffer) -> (res: Result<(), TBOperationError>) {
        match self {
            Operation::InsertChar(op) => op.apply(buffer),
            Operation::InsertLinebreak(op) => op.apply(buffer),
            Operation::InsertString(op) => op.apply(buffer),
            Operation::DeleteBack(op) => op.apply(buffer),
            Operation::CursorLeft(op) => op.apply(buffer),
            Operation::CursorRight(op) => op.apply(buffer),
            Operation::DownLine(op) => op.apply(buffer),
            Operation::UpLine(op) => op.apply(buffer),
            Operation::EndOfLine(op) => op.apply(buffer),
        }
    }

    fn undo(&mut self, buffer: &mut GapBuffer) -> (res: Result<(), TBOperationError>) {
        match self {
            Operation::InsertChar(op) => op.undo(buffer),
            Operation::InsertLinebreak(op) => op.undo(buffer),
            Operation::InsertString(op) => op.undo(buffer),
            Operation::DeleteBack(op) => op.undo(buffer),
            Operation::CursorLeft(op) => op.undo(buffer),
            Operation::CursorRight(op) => op.undo(buffer),
            Operation::DownLine(op) => op.undo(buffer),
            Operation::UpLine(op) => op.undo(buffer),
            Operation::EndOfLine(op) => op.undo(buffer),
        }
    }
}

/// A text with an edit cursor and the log of the operations applied to it.
pub struct TextBuffer {
    gap: GapBuffer,
    operations: Vec<Operation>,
}

/// The cells that applying `op` to `state` may ask the gap to be grown to:
/// none where it needs no growth.
pub open spec fn growth_for(op: OpView, state: GapText) -> nat {
    match op_apply(op, state) {
        Err(OpFailure::GapTooSmall { required }) => grow_size(required),
        _ => 0,
    }
}

impl TextBuffer {
    /// The stored text.
    pub closed spec fn store(&self) -> GapBuffer {
        self.gap
    }

    /// The text, the cursor and the size of the gap.
    pub open spec fn state(&self) -> GapText {
        self.store().state()
    }

    /// The operations that were applied and not undone, oldest first.
    pub closed spec fn log(&self) -> Seq<OpView> {
        Seq::new(self.operations@.len(), |i: int| self.operations@[i].op_view())
    }

    /// The buffer as the operations see it.
    pub open spec fn model(&self) -> BufferModel {
        BufferModel { state: self.state(), log: self.log() }
    }

    /// The storage is sound and every logged operation can be undone.
    pub open spec fn wf(&self) -> bool {
        self.store().inv() && replayable(self.state(), self.log())
    }

    /// The gap invariant: the cursor, the end of the gap and the number of
    /// cells stand in this order, and the length is that of the text, which
    /// is what lies outside the gap.
    pub proof fn lemma_gap_invariant(&self)
        requires
            self.wf(),
        ensures
            0 <= self.state().cursor <= self.state().gap_end() <= self.store().raw().len(),
            self.store().kept_length() == self.state().cursor + (self.store().raw().len()
                - self.state().gap_end()),
            self.store().kept_length() == self.state().text.len(),
            self.state().text == self.store().raw().take(self.state().cursor)
                + self.store().raw().skip(self.state().gap_end()),
            self.model().wf(),
    {
        self.store().lemma_gap_invariant();
    }

    /// The index of the linebreaks is consistent: it lists, in rising
    /// order, the raw indices of the linebreaks outside the gap, and
    /// nothing else.
    pub proof fn lemma_linebreak_index(&self)
        requires
            self.wf(),
        ensures
            is_linebreak_index(
                self.store().index(),
                self.store().raw(),
                self.state().cursor,
                self.state().gap_end(),
            ),
    {
        self.store().lemma_linebreak_index();
    }

    /// An empty buffer with a gap of the default size and no history.
    pub fn new() -> (tb: TextBuffer)
        ensures
            tb.wf(),
            tb.model() == BufferModel::empty(),
            tb.store().raw() == blanks(DEFAULT_GAP_SIZE as nat),
    {
        let tb = TextBuffer { gap: GapBuffer::new(), operations: Vec::new() };
        proof {
            assert(tb.log() =~= Seq::<OpView>::empty());
        }
        tb
    }

    /// Hand `operation` to the buffer. Where it applies it is logged. Where
    /// the gap is too small for it the gap is grown, by the default size or
    /// by what the operation asks for, whichever is larger, and the
    /// operation is tried once more. One that would move the cursor out of
    /// the text is left out.
    pub fn apply(&mut self, operation: Operation)
        requires
            old(self).wf(),
            old(self).state().total() + growth_for(operation.op_view(), old(self).state())
                <= usize::MAX,
        ensures
            final(self).wf(),
            final(self).model() == old(self).model().apply(operation.op_view()),
    {
        let ghost before = self.model();
        let ghost asked = operation.op_view();
        proof {
            self.store().lemma_gap_invariant();
            lemma_apply_then_undo(before, asked);
        }
        let mut operation = operation;
        let result = operation.apply(&mut self.gap);
        match result {
            Ok(()) => {
                self.operations.push(operation);
                assert(self.log() =~= before.log.push(op_apply(asked, before.state)->Ok_0.0));
            },
            Err(error) => {
                if self.handle_operation_error(error).is_ok() {
                    let retry = operation.apply(&mut self.gap);
                    if retry.is_ok() {
                        let ghost grown = before.state.more_gap(
                            grow_size(op_apply(asked, before.state)->Err_0->required),
                        );
                        self.operations.push(operation);
                        assert(self.log() =~= before.log.push(op_apply(asked, grown)->Ok_0.0));
                    } else {
                        assert(self.log() =~= before.log);
                    }
                } else {
                    assert(self.log() =~= before.log);
                }
            },
        }
    }

    /// Take the newest operation from the log and undo it. With an empty
    /// log nothing happens.
    pub fn undo(&mut self)
        requires
            old(self).wf(),
        ensures
            final(self).wf(),
            final(self).model() == old(self).model().undo(),
    {
        let ghost before = self.model();
        let operation = self.operations.pop();
        match operation {
            Some(operation) => {
                let mut operation = operation;
                assert(operation.op_view() == before.log.last());
                assert(self.log() =~= before.log.drop_last());
                let _ = operation.undo(&mut self.gap);
            },
            None => {
                assert(self.log() =~= before.log);
            },
        }
    }

    /// Recover from `error` where that is possible: a gap that is too small
    /// is grown, and `Ok` says that the operation can be tried again. The
    /// error is handed back where the operation has to be left out.
    fn handle_operation_error(&mut self, error: TBOperationError) -> (res: Result<
        (),
        TBOperationError,
    >)
        requires
            old(self).store().inv(),
            !(error is LogicError),
            error matches TBOperationError::GapTooSmall { required } ==> old(self).state().total()
                + grow_size(required as nat) <= usize::MAX,
        ensures
            final(self).store().inv(),
            final(self).log() == old(self).log(),
            match error {
                TBOperationError::GapTooSmall { required } => res is Ok && final(self).state()
                    == old(self).state().more_gap(grow_size(required as nat)),
                _ => res == Err::<(), TBOperationError>(error) && final(self).state() == old(
                    self,
                ).state(),
            },
    {
        match error {
            TBOperationError::GapTooSmall { required } => {
                let size = if required > DEFAULT_GAP_SIZE {
                    required
                } else {
                    DEFAULT_GAP_SIZE
                };
                self.realloc_gap(size);
                Ok(())
            },
            other => Err(other),
        }
    }

    /// The number of bytes before the cursor.
    pub fn get_cursor(&self) -> (cursor: usize)
        ensures
            cursor == self.state().cursor,
    {
        self.gap.get_cursor()
    }

    /// The raw index of the first byte behind the gap.
    pub fn get_gap_end(&self) -> (gap_end: usize)
        requires
            self.wf(),
        ensures
            gap_end == self.state().gap_end(),
    {
        self.gap.get_gap_end()
    }

    /// The cells of the buffer, those of the gap included.
    pub fn get_content(&self) -> (content: &Vec<FixedChar>)
        ensures
            content@ == self.store().raw(),
    {
        self.gap.get_content()
    }

    /// The number of bytes of the text.
    pub fn get_length(&self) -> (length: usize)
        requires
            self.wf(),
        ensures
            length == self.state().text.len(),
    {
        self.gap.get_length()
    }

    /// The number of cells, those of the gap included.
    pub fn get_length_raw(&self) -> (length: usize)
        requires
            self.wf(),
        ensures
            length == self.state().total(),
    {
        self.gap.get_length_raw()
    }

    /// The raw indices of the linebreaks, in rising order.
    pub fn get_new_lines(&self) -> (lines: &Vec<usize>)
        requires
            self.wf(),
        ensures
            lines@ == self.store().index(),
            as_ints(lines@) == self.state().raw_breaks(),
    {
        self.gap.get_new_lines()
    }

    /// The place in the index at which the linebreak at raw index
    /// `gap_index` stands, or would stand: the count of linebreaks below it.
    pub fn linebreak_order(&self, gap_index: usize) -> (order: usize)
        requires
            self.wf(),
        ensures
            order == rank(self.store().index(), gap_index),
    {
        self.gap.get_metrics().position_of(gap_index)
    }

    /// The bytes of the text.
    pub fn text_bytes(&self) -> (bytes: Vec<FixedChar>)
        requires
            self.wf(),
        ensures
            bytes@ == self.state().text,
    {
        self.gap.text_bytes()
    }

    /// The number of operations in the log.
    pub fn operation_count(&self) -> (count: usize)
        ensures
            count == self.log().len(),
    {
        self.operations.len()
    }

    /// Whether the gap can be grown for an operation that asks for
    /// `required` cells: whether what it is grown by still fits the machine.
    pub fn can_grow(&self, required: usize) -> (b: bool)
        requires
            self.wf(),
        ensures
            b == (self.state().total() + grow_size(required as nat) <= usize::MAX),
    {
        let size = if required > DEFAULT_GAP_SIZE {
            required
        } else {
            DEFAULT_GAP_SIZE
        };
        let cells = self.gap.get_length_raw();
        size <= usize::MAX - cells
    }

    /// The number of the line the cursor is on.
    pub fn get_cursor_row(&self) -> (row: usize)
        requires
            self.wf(),
        ensures
            row == self.state().line(),
    {
        self.gap.line()
    }

    /// The number of bytes between the start of its line and the cursor.
    pub fn get_cursor_col(&self) -> (col: usize)
        requires
            self.wf(),
        ensures
            col == self.state().cursor - line_start(self.state().text, self.state().line()),
    {
        proof {
            self.store().lemma_gap_invariant();
            lemma_lines(self.state().text, self.state().cursor);
        }
        let line = self.gap.line();
        self.gap.get_cursor() - self.gap.line_start_of(line)
    }

    /// Every cell as a character, those of the gap included.
    pub fn string_raw(&self) -> (s: String)
        ensures
            s@ == as_chars(self.store().raw()),
    {
        self.gap.string_raw()
    }

    /// The text: what stands before the gap, then what stands behind it.
    pub fn string(&self) -> (s: String)
        requires
            self.wf(),
        ensures
            s@ == as_chars(self.state().text),
    {
        self.gap.string()
    }

    /// Widen the gap by `by` cells, which are blanks put in at the cursor.
    /// The text, the cursor and the log stay; the end of the gap moves by
    /// as much.
    pub fn realloc_gap(&mut self, by: usize)
        requires
            old(self).store().inv(),
            old(self).state().total() + by <= usize::MAX,
        ensures
            final(self).store().inv(),
            final(self).state() == old(self).state().more_gap(by as nat),
            final(self).log() == old(self).log(),
            final(self).store().raw() == old(self).store().raw().take(old(self).state().cursor)
                + blanks(by as nat) + old(self).store().raw().skip(old(self).state().cursor),
    {
        self.gap.realloc_gap(by);
    }
}

} // verus!
