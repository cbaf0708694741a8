//! The reversible operations on a text buffer.

use vstd::prelude::*;
use vstd::string::{StrSliceExecFns, StringSliceAdditionalSpecFns};
use vstd::utf8::encode_utf8;
use crate::textedit::gap::GapBuffer;
use crate::textedit::model::{op_apply, op_undo, FixedChar, OpFailure, OpView, LINE_BREAK};

verus! {

/// Why an operation could not be applied or undone.
#[derive(Debug)]
pub enum TBOperationError {
    /// The gap has fewer than `required` cells.
    GapTooSmall { required: usize },
    /// The cursor would leave the text.
    MovesOutOfBounds,
    /// The operation was used against its order, with a message where there is one.
    LogicError(Option<String>),
}

impl TBOperationError {
    /// The failure this error reports.
    pub open spec fn failure(&self) -> OpFailure {
        match self {
            TBOperationError::GapTooSmall { required } => OpFailure::GapTooSmall {
                required: *required as nat,
            },
            TBOperationError::MovesOutOfBounds => OpFailure::MovesOutOfBounds,
            TBOperationError::LogicError(_) => OpFailure::LogicError,
        }
    }
}

/// Whether `res` with the buffer's text `after` is what applying the
/// operation `op` to the text `before` gives, the operation being `done`
/// afterwards.
pub open spec fn applied_as(
    op: OpView,
    before: crate::textedit::model::GapText,
    res: Result<(), TBOperationError>,
    done: OpView,
    after: crate::textedit::model::GapText,
) -> bool {
    match op_apply(op, before) {
        Ok((logged, next)) => res is Ok && done == logged && after == next,
        Err(failure) => res is Err && res->Err_0.failure() == failure && done == op && after
            == before,
    }
}

/// Whether `res` with the buffer's text `after` is what undoing the
/// operation `op` on the text `before` gives.
pub open spec fn undone_as(
    op: OpView,
    before: crate::textedit::model::GapText,
    res: Result<(), TBOperationError>,
    after: crate::textedit::model::GapText,
) -> bool {
    match op_undo(op, before) {
        Ok(previous) => res is Ok && after == previous,
        Err(failure) => res is Err && res->Err_0.failure() == failure && after == before,
    }
}

/// An edit or a cursor movement that can be applied to a buffer and taken
/// back again.
pub trait TextBufferOperation {
    /// What the operation is.
    spec fn op_view(&self) -> OpView;

    /// Whether the operation counts as one that modifies the buffer.
    fn modifies(&self) -> (m: bool)
        ensures
            m == self.op_view().modifies(),
    ;

    /// Apply the operation to `buffer`. On an error the text is as before.
    fn apply(&mut self, buffer: &mut GapBuffer) -> (res: Result<(), TBOperationError>)
        requires
            old(buffer).inv(),
        ensures
            final(buffer).inv(),
            applied_as(
                old(self).op_view(),
                old(buffer).state(),
                res,
                final(self).op_view(),
                final(buffer).state(),
            ),
    ;

    /// Take the operation back. On an error the text is as before.
    fn undo(&mut self, buffer: &mut GapBuffer) -> (res: Result<(), TBOperationError>)
        requires
            old(buffer).inv(),
        ensures
            final(buffer).inv(),
            final(self).op_view() == old(self).op_view(),
            undone_as(old(self).op_view(), old(buffer).state(), res, final(buffer).state()),
    ;
}

/// The byte a character is stored as: its code, cut to eight bits.
pub open spec fn byte_of(c: char) -> u8 {
    (c as u32 % 256) as u8
}

/// The byte a character is stored as.
pub fn char_to_byte(c: char) -> (b: FixedChar)
    ensures
        b == byte_of(c),
{
    ((c as u32) % 256) as u8
}


/// Insert one character at the cursor.
pub struct InsertChar(pub char);

impl TextBufferOperation for InsertChar {
    open spec fn op_view(&self) -> OpView {
        OpView::InsertChar(byte_of(self.0))
    }

    fn modifies(&self) -> (m: bool) {
        true
    }

    fn apply(&mut self, buffer: &mut GapBuffer) -> (res: Result<(), TBOperationError>) {
        if buffer.gap_size() < 1 {
            return Err(TBOperationError::GapTooSmall { required: 1 });
        }
        buffer.put(char_to_byte(self.0));
        Ok(())
    }

    fn undo(&mut self, buffer: &mut GapBuffer) -> (res: Result<(), TBOperationError>) {
        if buffer.get_cursor() == 0 {
            return Err(TBOperationError::MovesOutOfBounds);
        }
        buffer.take_back();
        Ok(())
    }
}

/// Insert a linebreak at the cursor.
pub struct InsertLinebreak;

impl TextBufferOperation for InsertLinebreak {
    open spec fn op_view(&self) -> OpView {
        OpView::InsertLinebreak
    }

    fn modifies(&self) -> (m: bool) {
        true
    }

    fn apply(&mut self, buffer: &mut GapBuffer) -> (res: Result<(), TBOperationError>) {
        if buffer.gap_size() < 1 {
            return Err(TBOperationError::GapTooSmall { required: 1 });
        }
        buffer.put(LINE_BREAK);
        Ok(())
    }

    fn undo(&mut self, buffer: &mut GapBuffer) -> (res: Result<(), TBOperationError>) {
        if buffer.get_cursor() == 0 {
            return Err(TBOperationError::MovesOutOfBounds);
        }
        buffer.take_back();
        Ok(())
    }
}

/// Delete the bytes before the cursor. The second field keeps what was
/// deleted, from the time the operation is applied.
pub struct DeleteBack(pub usize, Option<Vec<FixedChar>>);

impl DeleteBack {
    /// The deletion of `count` bytes, not yet applied.
    pub fn new(count: usize) -> (op: Self)
        ensures
            op.op_view() == (OpView::DeleteBack { count: count as nat, removed: None }),
    {
        Self(count, None)
    }
}

impl TextBufferOperation for DeleteBack {
    closed spec fn op_view(&self) -> OpView {
        OpView::DeleteBack {
            count: self.0 as nat,
            removed: match self.1 {
                Some(bytes) => Some(bytes@),
                None => None,
            },
        }
    }

    fn modifies(&self) -> (m: bool) {
        true
    }

    fn apply(&mut self, buffer: &mut GapBuffer) -> (res: Result<(), TBOperationError>) {
        let count = self.0;
        if buffer.get_cursor() < count {
            return Err(TBOperationError::MovesOutOfBounds);
        }
        let removed = buffer.remove_back(count);
        self.1 = Some(removed);
        Ok(())
    }

    fn undo(&mut self, buffer: &mut GapBuffer) -> (res: Result<(), TBOperationError>) {
        let count = self.0;
        if buffer.gap_size() < count {
            return Err(TBOperationError::GapTooSmall { required: count });
        }
        match &self.1 {
            None => Err(
                TBOperationError::LogicError(
                    Some("no string found, operation hasn't been applied".to_string()),
                ),
            ),
            Some(bytes) => {
                if bytes.len() != count {
                    return Err(TBOperationError::LogicError(None));
                }
                buffer.insert_bytes(bytes);
                Ok(())
            },
        }
    }
}

/// Insert a string of bytes at the cursor.
pub struct InsertString(pub Vec<FixedChar>);

impl InsertString {
    /// The insertion of the bytes of `string`.
    pub fn new(string: String) -> (op: Self)
        ensures
            op.0@ == encode_utf8(string@),
            op.op_view() == OpView::InsertString(encode_utf8(string@)),
    {
        Self(string.as_str().as_bytes_vec())
    }
}

impl TextBufferOperation for InsertString {
    open spec fn op_view(&self) -> OpView {
        OpView::InsertString(self.0@)
    }

    fn modifies(&self) -> (m: bool) {
        true
    }

    fn apply(&mut self, buffer: &mut GapBuffer) -> (res: Result<(), TBOperationError>) {
        let count = self.0.len();
        if buffer.gap_size() < count {
            return Err(TBOperationError::GapTooSmall { required: count });
        }
        buffer.insert_bytes(&self.0);
        Ok(())
    }

    fn undo(&mut self, buffer: &mut GapBuffer) -> (res: Result<(), TBOperationError>) {
        let count = self.0.len();
        if buffer.get_cursor() < count {
            return Err(TBOperationError::MovesOutOfBounds);
        }
        let _ = buffer.remove_back(count);
        Ok(())
    }
}

/// Move the cursor to the right.
pub struct CursorRight(pub usize);

/// Move the cursor to the left.
pub struct CursorLeft(pub usize);

/// Move the cursor of `buffer` by `count` bytes to the right, where the
/// text reaches that far.
pub fn _cursor_right(count: usize, buffer: &mut GapBuffer) -> (res: Result<(), TBOperationError>)
    requires
        old(buffer).inv(),
    ensures
        final(buffer).inv(),
        applied_as(
            OpView::CursorRight(count as nat),
            old(buffer).state(),
            res,
            OpView::CursorRight(count as nat),
            final(buffer).state(),
        ),
{
    proof {
        buffer.lemma_gap_invariant();
    }
    if count > buffer.get_length() - buffer.get_cursor() {
        return Err(TBOperationError::MovesOutOfBounds);
    }
    buffer.move_right(count);
    Ok(())
}

/// Move the cursor of `buffer` by `count` bytes to the left, where the
/// text reaches that far.
pub fn _cursor_left(count: usize, buffer: &mut GapBuffer) -> (res: Result<(), TBOperationError>)
    requires
        old(buffer).inv(),
    ensures
        final(buffer).inv(),
        applied_as(
            OpView::CursorLeft(count as nat),
            old(buffer).state(),
            res,
            OpView::CursorLeft(count as nat),
            final(buffer).state(),
        ),
{
    if buffer.get_cursor() < count {
        return Err(TBOperationError::MovesOutOfBounds);
    }
    buffer.move_left(count);
    Ok(())
}

impl TextBufferOperation for CursorRight {
    open spec fn op_view(&self) -> OpView {
        OpView::CursorRight(self.0 as nat)
    }

    fn modifies(&self) -> (m: bool) {
        true
    }

    fn apply(&mut self, buffer: &mut GapBuffer) -> (res: Result<(), TBOperationError>) {
        _cursor_right(self.0, buffer)
    }

    fn undo(&mut self, buffer: &mut GapBuffer) -> (res: Result<(), TBOperationError>) {
        _cursor_left(self.0, buffer)
    }
}

impl TextBufferOperation for CursorLeft {
    open spec fn op_view(&self) -> OpView {
        OpView::CursorLeft(self.0 as nat)
    }

    fn modifies(&self) -> (m: bool) {
        true
    }

    fn apply(&mut self, buffer: &mut GapBuffer) -> (res: Result<(), TBOperationError>) {
        _cursor_left(self.0, buffer)
    }

    fn undo(&mut self, buffer: &mut GapBuffer) -> (res: Result<(), TBOperationError>) {
        _cursor_right(self.0, buffer)
    }
}

} // verus!
