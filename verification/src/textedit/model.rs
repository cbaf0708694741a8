//! The mathematical model of the gap buffer: the logical text, the cursor,
//! the size of the gap, the positions of the linebreaks, and what each
//! operation does to them.

use vstd::prelude::*;

verus! {

/// One cell of text.
pub type FixedChar = u8;

/// The byte that ends a line.
pub const LINE_BREAK: u8 = 10;

/// The smallest gap that a reallocation leaves.
pub const DEFAULT_GAP_SIZE: usize = 200;

/// The positions of the linebreaks of `s`, in rising order, where the first
/// byte of `s` stands at position `base`.
pub open spec fn newlines_in(s: Seq<u8>, base: int) -> Seq<int>
    decreases s.len(),
{
    if s.len() == 0 {
        Seq::empty()
    } else {
        let rest = newlines_in(s.drop_last(), base);
        if s.last() == LINE_BREAK {
            rest.push(base + s.len() - 1)
        } else {
            rest
        }
    }
}

/// Every position that `newlines_in` lists holds a linebreak, the list rises
/// strictly, and it misses no linebreak.
pub proof fn lemma_newlines_sound(s: Seq<u8>, base: int)
    ensures
        newlines_in(s, base).len() <= s.len(),
        forall|i: int|
            0 <= i < newlines_in(s, base).len() ==> base <= #[trigger] newlines_in(s, base)[i]
                < base + s.len() && s[newlines_in(s, base)[i] - base] == LINE_BREAK,
        forall|i: int, j: int|
            0 <= i < j < newlines_in(s, base).len() ==> #[trigger] newlines_in(s, base)[i]
                < #[trigger] newlines_in(s, base)[j],
        forall|k: int|
            0 <= k < s.len() && #[trigger] s[k] == LINE_BREAK ==> newlines_in(s, base).contains(
                base + k,
            ),
    decreases s.len(),
{
    if s.len() > 0 {
        let front = s.drop_last();
        lemma_newlines_sound(front, base);
        let rest = newlines_in(front, base);
        let all = newlines_in(s, base);
        assert forall|k: int| 0 <= k < s.len() && #[trigger] s[k] == LINE_BREAK implies all.contains(
            base + k,
        ) by {
            if k < s.len() - 1 {
                assert(front[k] == LINE_BREAK);
                assert(rest.contains(base + k));
                let w = choose|w: int| 0 <= w < rest.len() && rest[w] == base + k;
                assert(all[w] == base + k);
            } else {
                assert(all[all.len() - 1] == base + k);
            }
        }
    }
}

/// The linebreaks of a concatenation are those of its parts.
pub proof fn lemma_newlines_concat(a: Seq<u8>, b: Seq<u8>, base: int)
    ensures
        newlines_in(a + b, base) == newlines_in(a, base) + newlines_in(b, base + a.len()),
    decreases b.len(),
{
    if b.len() == 0 {
        assert(a + b == a);
        assert(newlines_in(b, base + a.len()) == Seq::<int>::empty());
        assert(newlines_in(a, base) + Seq::<int>::empty() == newlines_in(a, base));
    } else {
        let whole = a + b;
        assert(whole.drop_last() == a + b.drop_last());
        assert(whole.last() == b.last());
        lemma_newlines_concat(a, b.drop_last(), base);
        let left = newlines_in(a, base);
        let right = newlines_in(b.drop_last(), base + a.len());
        if b.last() == LINE_BREAK {
            assert((left + right).push(base + whole.len() - 1) == left + right.push(
                base + a.len() + b.len() - 1,
            ));
        }
    }
}

/// Moving the base moves every position by as much.
pub proof fn lemma_newlines_shift(s: Seq<u8>, base: int, delta: int)
    ensures
        newlines_in(s, base + delta).len() == newlines_in(s, base).len(),
        forall|i: int|
            0 <= i < newlines_in(s, base).len() ==> #[trigger] newlines_in(s, base + delta)[i]
                == newlines_in(s, base)[i] + delta,
    decreases s.len(),
{
    if s.len() > 0 {
        lemma_newlines_shift(s.drop_last(), base, delta);
    }
}

/// The linebreaks of a single byte.
pub proof fn lemma_newlines_single(b: u8, base: int)
    ensures
        newlines_in(seq![b], base) == if b == LINE_BREAK {
            seq![base]
        } else {
            Seq::<int>::empty()
        },
{
    let s = seq![b];
    assert(s.drop_last() == Seq::<u8>::empty());
    assert(newlines_in(s.drop_last(), base) == Seq::<int>::empty());
    if b == LINE_BREAK {
        assert(Seq::<int>::empty().push(base + s.len() - 1) == seq![base]);
    }
}

/// The positions of all linebreaks of a text.
pub open spec fn breaks(text: Seq<u8>) -> Seq<int> {
    newlines_in(text, 0)
}

/// The number of the line that position `pos` of `text` lies on: the count
/// of linebreaks before it.
pub open spec fn line_of(text: Seq<u8>, pos: int) -> int {
    newlines_in(text.take(pos), 0).len() as int
}

/// The position of the first byte of line `line`.
pub open spec fn line_start(text: Seq<u8>, line: int) -> int {
    if line <= 0 {
        0
    } else {
        breaks(text)[line - 1] + 1
    }
}

/// The position just behind the last byte of line `line`: that of its
/// linebreak, or the end of the text.
pub open spec fn line_end(text: Seq<u8>, line: int) -> int {
    if line < breaks(text).len() {
        breaks(text)[line]
    } else {
        text.len() as int
    }
}

/// Where the cursor lands on line `target` when it keeps its column as far
/// as that line reaches.
pub open spec fn vertical_target(text: Seq<u8>, cursor: int, target: int) -> int {
    let column = cursor - line_start(text, line_of(text, cursor));
    let start = line_start(text, target);
    let reach = line_end(text, target) - start;
    start + if column < reach {
        column
    } else {
        reach
    }
}

/// The line of the cursor starts at or before it and ends at or behind it,
/// and every line lies within the text.
pub proof fn lemma_lines(text: Seq<u8>, cursor: int)
    requires
        0 <= cursor <= text.len(),
    ensures
        0 <= line_of(text, cursor) <= breaks(text).len(),
        breaks(text) == newlines_in(text.take(cursor), 0) + newlines_in(text.skip(cursor), cursor),
        line_start(text, line_of(text, cursor)) <= cursor <= line_end(
            text,
            line_of(text, cursor),
        ),
        forall|line: int|
            0 <= line <= breaks(text).len() ==> 0 <= #[trigger] line_start(text, line) <= line_end(
                text,
                line,
            ) <= text.len(),
        forall|a: int, b: int|
            0 <= a < b <= breaks(text).len() ==> #[trigger] line_end(text, a) < #[trigger] line_start(
                text,
                b,
            ),
{
    let pre = text.take(cursor);
    let post = text.skip(cursor);
    assert(text == pre + post);
    lemma_newlines_concat(pre, post, 0);
    lemma_newlines_sound(pre, 0);
    lemma_newlines_sound(post, cursor);
    lemma_newlines_sound(text, 0);
    let all = breaks(text);
    let left = newlines_in(pre, 0);
    let right = newlines_in(post, cursor);
    let line = line_of(text, cursor);
    assert(all == left + right);
    if line > 0 {
        assert(all[line - 1] == left[line - 1]);
    }
    if line < all.len() {
        assert(all[line] == right[0]);
    }
    assert forall|k: int| 0 <= k <= all.len() implies 0 <= #[trigger] line_start(text, k)
        <= line_end(text, k) <= text.len() by {
        if k > 0 && k < all.len() {
            assert(all[k - 1] < all[k]);
        }
    }
    assert forall|a: int, b: int| 0 <= a < b <= all.len() implies #[trigger] line_end(text, a)
        < #[trigger] line_start(text, b) by {
        if a < b - 1 {
            assert(all[a] < all[b - 1]);
        }
    }
}

/// A text with a cursor and a gap of unused cells at the cursor.
pub struct GapText {
    /// The logical text: what stands before the gap, then what stands behind it.
    pub text: Seq<u8>,
    /// The number of bytes before the gap.
    pub cursor: int,
    /// The number of unused cells.
    pub gap: int,
}

impl GapText {
    /// The cursor lies within the text and the gap is no less than empty.
    pub open spec fn wf(self) -> bool {
        0 <= self.cursor <= self.text.len() && 0 <= self.gap
    }

    /// The raw index of the first byte behind the gap.
    pub open spec fn gap_end(self) -> int {
        self.cursor + self.gap
    }

    /// The number of cells, used or not.
    pub open spec fn total(self) -> int {
        self.text.len() + self.gap
    }

    /// The text with `bytes` put in at the cursor, the cursor behind them.
    pub open spec fn insert(self, bytes: Seq<u8>) -> GapText {
        GapText {
            text: self.text.take(self.cursor) + bytes + self.text.skip(self.cursor),
            cursor: self.cursor + bytes.len(),
            gap: self.gap - bytes.len(),
        }
    }

    /// The text without the `count` bytes before the cursor; they fall into
    /// the gap.
    pub open spec fn delete_back(self, count: int) -> GapText {
        GapText {
            text: self.text.take(self.cursor - count) + self.text.skip(self.cursor),
            cursor: self.cursor - count,
            gap: self.gap + count,
        }
    }

    /// The same text with the cursor moved by `delta`.
    pub open spec fn shift(self, delta: int) -> GapText {
        GapText { text: self.text, cursor: self.cursor + delta, gap: self.gap }
    }

    /// The raw indices of the linebreaks: those before the gap as they are,
    /// those behind it moved by its size.
    pub open spec fn raw_breaks(self) -> Seq<int> {
        newlines_in(self.text.take(self.cursor), 0) + newlines_in(
            self.text.skip(self.cursor),
            self.gap_end(),
        )
    }

    /// The number of the line the cursor is on.
    pub open spec fn line(self) -> int {
        line_of(self.text, self.cursor)
    }
}

/// Why an operation could not be applied or undone.
pub enum OpFailure {
    /// The gap has fewer than `required` cells.
    GapTooSmall { required: nat },
    /// The cursor would leave the text.
    MovesOutOfBounds,
    /// The operation was undone before it was applied.
    LogicError,
}

/// What an operation is, without how it is stored.
pub enum OpView {
    InsertChar(u8),
    InsertLinebreak,
    InsertString(Seq<u8>),
    DeleteBack { count: nat, removed: Option<Seq<u8>> },
    CursorLeft(nat),
    CursorRight(nat),
    DownLine { count: nat, moved: Option<nat> },
    UpLine { count: nat, moved: Option<nat> },
    EndOfLine { moved: Option<nat> },
}

impl OpView {
    /// Whether an operation of this kind counts as one that modifies the
    /// buffer: every operation does but the moves by lines and to the end
    /// of the line, which are carried out as a move by cells.
    pub open spec fn modifies(self) -> bool {
        match self {
            OpView::DownLine { .. } => false,
            OpView::UpLine { .. } => false,
            OpView::EndOfLine { .. } => false,
            _ => true,
        }
    }
}

/// What applying `op` to `s` gives: the operation as it is logged, with
/// what it captured, and the text after it; or why it fails.
pub open spec fn op_apply(op: OpView, s: GapText) -> Result<(OpView, GapText), OpFailure> {
    match op {
        OpView::InsertChar(b) => if s.gap < 1 {
            Err(OpFailure::GapTooSmall { required: 1 })
        } else {
            Ok((op, s.insert(seq![b])))
        },
        OpView::InsertLinebreak => if s.gap < 1 {
            Err(OpFailure::GapTooSmall { required: 1 })
        } else {
            Ok((op, s.insert(seq![LINE_BREAK])))
        },
        OpView::InsertString(bytes) => if s.gap < bytes.len() {
            Err(OpFailure::GapTooSmall { required: bytes.len() })
        } else {
            Ok((op, s.insert(bytes)))
        },
        OpView::DeleteBack { count, removed } => if s.cursor < count {
            Err(OpFailure::MovesOutOfBounds)
        } else {
            Ok(
                (
                    OpView::DeleteBack {
                        count,
                        removed: Some(s.text.subrange(s.cursor - count, s.cursor)),
                    },
                    s.delete_back(count as int),
                ),
            )
        },
        OpView::CursorLeft(count) => if s.cursor < count {
            Err(OpFailure::MovesOutOfBounds)
        } else {
            Ok((op, s.shift(-(count as int))))
        },
        OpView::CursorRight(count) => if s.cursor + count > s.text.len() {
            Err(OpFailure::MovesOutOfBounds)
        } else {
            Ok((op, s.shift(count as int)))
        },
        OpView::DownLine { count, moved } => if s.line() + count > breaks(s.text).len() {
            Err(OpFailure::MovesOutOfBounds)
        } else {
            let delta = vertical_target(s.text, s.cursor, s.line() + count) - s.cursor;
            Ok((OpView::DownLine { count, moved: Some(delta as nat) }, s.shift(delta)))
        },
        OpView::UpLine { count, moved } => if s.line() < count {
            Err(OpFailure::MovesOutOfBounds)
        } else {
            let delta = s.cursor - vertical_target(s.text, s.cursor, s.line() - count);
            Ok((OpView::UpLine { count, moved: Some(delta as nat) }, s.shift(-delta)))
        },
        OpView::EndOfLine { moved } => {
            let delta = line_end(s.text, s.line()) - s.cursor;
            Ok((OpView::EndOfLine { moved: Some(delta as nat) }, s.shift(delta)))
        },
    }
}

/// What undoing the logged operation `op` on `s` gives.
pub open spec fn op_undo(op: OpView, s: GapText) -> Result<GapText, OpFailure> {
    match op {
        OpView::InsertChar(_) | OpView::InsertLinebreak => if s.cursor < 1 {
            Err(OpFailure::MovesOutOfBounds)
        } else {
            Ok(s.delete_back(1))
        },
        OpView::InsertString(bytes) => if s.cursor < bytes.len() {
            Err(OpFailure::MovesOutOfBounds)
        } else {
            Ok(s.delete_back(bytes.len() as int))
        },
        OpView::DeleteBack { count, removed } => if s.gap < count {
            Err(OpFailure::GapTooSmall { required: count })
        } else {
            match removed {
                Some(bytes) => if bytes.len() == count {
                    Ok(s.insert(bytes))
                } else {
                    Err(OpFailure::LogicError)
                },
                None => Err(OpFailure::LogicError),
            }
        },
        OpView::CursorLeft(count) => if s.cursor + count > s.text.len() {
            Err(OpFailure::MovesOutOfBounds)
        } else {
            Ok(s.shift(count as int))
        },
        OpView::CursorRight(count) => if s.cursor < count {
            Err(OpFailure::MovesOutOfBounds)
        } else {
            Ok(s.shift(-(count as int)))
        },
        OpView::DownLine { moved, .. } | OpView::EndOfLine { moved } => match moved {
            Some(delta) => if s.cursor < delta {
                Err(OpFailure::MovesOutOfBounds)
            } else {
                Ok(s.shift(-(delta as int)))
            },
            None => Err(OpFailure::LogicError),
        },
        OpView::UpLine { moved, .. } => match moved {
            Some(delta) => if s.cursor + delta > s.text.len() {
                Err(OpFailure::MovesOutOfBounds)
            } else {
                Ok(s.shift(delta as int))
            },
            None => Err(OpFailure::LogicError),
        },
    }
}

/// An operation that was applied leaves a well-formed text, and undoing it
/// there gives back the text it was applied to.
pub proof fn lemma_undo_inverts_apply(op: OpView, s: GapText)
    requires
        s.wf(),
        op_apply(op, s) is Ok,
    ensures
        op_apply(op, s)->Ok_0.1.wf(),
        op_undo(op_apply(op, s)->Ok_0.0, op_apply(op, s)->Ok_0.1) == Ok::<GapText, OpFailure>(s),
{
    let done = op_apply(op, s)->Ok_0.0;
    let next = op_apply(op, s)->Ok_0.1;
    lemma_lines(s.text, s.cursor);
    match op {
        OpView::InsertChar(_) | OpView::InsertLinebreak | OpView::InsertString(_) => {
            assert(next.delete_back(next.cursor - s.cursor).text =~= s.text);
        },
        OpView::DeleteBack { count, .. } => {
            let bytes = s.text.subrange(s.cursor - count, s.cursor);
            assert(next.insert(bytes).text =~= s.text);
        },
        OpView::DownLine { count, .. } => {
            let target = s.line() + count;
            if count > 0 {
                assert(line_end(s.text, s.line()) < line_start(s.text, target));
            }
        },
        OpView::UpLine { count, .. } => {
            let target = s.line() - count;
            if count > 0 {
                assert(line_end(s.text, target) < line_start(s.text, s.line()));
            }
        },
        _ => {},
    }
}


impl GapText {
    /// The same text and cursor with `extra` more unused cells.
    pub open spec fn more_gap(self, extra: nat) -> GapText {
        GapText { text: self.text, cursor: self.cursor, gap: self.gap + extra }
    }
}

/// Undoing goes the same way in a wider gap, and leaves it as much wider.
pub proof fn lemma_undo_more_gap(op: OpView, s: GapText, extra: nat)
    requires
        s.wf(),
        op_undo(op, s) is Ok,
    ensures
        op_undo(op, s.more_gap(extra)) == Ok::<GapText, OpFailure>(
            op_undo(op, s)->Ok_0.more_gap(extra),
        ),
{
}

/// Whether every operation of `log`, newest first, can be undone from `s`.
pub open spec fn replayable(s: GapText, log: Seq<OpView>) -> bool
    decreases log.len(),
{
    log.len() == 0 || {
        &&& op_undo(log.last(), s) is Ok
        &&& op_undo(log.last(), s)->Ok_0.wf()
        &&& replayable(op_undo(log.last(), s)->Ok_0, log.drop_last())
    }
}

/// A log that can be undone from a text can be undone from the same text
/// in a wider gap.
pub proof fn lemma_replayable_more_gap(s: GapText, log: Seq<OpView>, extra: nat)
    requires
        s.wf(),
        replayable(s, log),
    ensures
        replayable(s.more_gap(extra), log),
    decreases log.len(),
{
    if log.len() > 0 {
        lemma_undo_more_gap(log.last(), s, extra);
        lemma_replayable_more_gap(op_undo(log.last(), s)->Ok_0, log.drop_last(), extra);
    }
}

/// The cells a gap is grown by when an operation asks for `required` cells:
/// as many as it asks for, and the default size of a gap at least.
pub open spec fn grow_size(required: nat) -> nat {
    if required > DEFAULT_GAP_SIZE {
        required
    } else {
        DEFAULT_GAP_SIZE as nat
    }
}

/// A buffer as the operations see it: the text with its cursor and gap, and
/// the log of the operations that were applied, oldest first.
pub struct BufferModel {
    pub state: GapText,
    pub log: Seq<OpView>,
}

impl BufferModel {
    /// The buffer that holds no text and has no history.
    pub open spec fn empty() -> BufferModel {
        BufferModel {
            state: GapText { text: Seq::empty(), cursor: 0, gap: DEFAULT_GAP_SIZE as int },
            log: Seq::empty(),
        }
    }

    /// The text is well formed and the whole log can be undone.
    pub open spec fn wf(self) -> bool {
        self.state.wf() && replayable(self.state, self.log)
    }

    /// The buffer after `op` is handed to it: applied and logged; applied
    /// and logged after the gap was grown once; or left out.
    pub open spec fn apply(self, op: OpView) -> BufferModel {
        match op_apply(op, self.state) {
            Ok((done, next)) => BufferModel { state: next, log: self.log.push(done) },
            Err(OpFailure::GapTooSmall { required }) => {
                let grown = self.state.more_gap(grow_size(required));
                match op_apply(op, grown) {
                    Ok((done, next)) => BufferModel { state: next, log: self.log.push(done) },
                    Err(_) => BufferModel { state: grown, log: self.log },
                }
            },
            Err(_) => self,
        }
    }

    /// The buffer after its newest operation is taken from the log and undone.
    pub open spec fn undo(self) -> BufferModel {
        if self.log.len() == 0 {
            self
        } else {
            match op_undo(self.log.last(), self.state) {
                Ok(before) => BufferModel { state: before, log: self.log.drop_last() },
                Err(_) => BufferModel { state: self.state, log: self.log.drop_last() },
            }
        }
    }

    /// The buffer after each of `ops` is handed to it in turn.
    pub open spec fn apply_all(self, ops: Seq<OpView>) -> BufferModel
        decreases ops.len(),
    {
        if ops.len() == 0 {
            self
        } else {
            self.apply_all(ops.drop_last()).apply(ops.last())
        }
    }

    /// The buffer after `count` undos.
    pub open spec fn undo_times(self, count: nat) -> BufferModel
        decreases count,
    {
        if count == 0 {
            self
        } else {
            self.undo().undo_times((count - 1) as nat)
        }
    }

    /// Whether `self` is `other` but for a gap that may be wider.
    pub open spec fn matches_but_gap(self, other: BufferModel) -> bool {
        &&& self.state.text == other.state.text
        &&& self.state.cursor == other.state.cursor
        &&& self.log == other.log
        &&& self.state.gap >= other.state.gap
    }
}

/// Handing an operation to a well-formed buffer leaves it well formed. Where
/// the operation was logged, one undo gives back the text, the cursor and
/// the log; where it was left out, they did not change.
pub proof fn lemma_apply_then_undo(m: BufferModel, op: OpView)
    requires
        m.wf(),
    ensures
        m.apply(op).wf(),
        m.apply(op).log.len() == m.log.len() || m.apply(op).log.len() == m.log.len() + 1,
        m.apply(op).log.len() == m.log.len() + 1 ==> m.apply(op).undo().matches_but_gap(m)
            && m.apply(op).undo().wf(),
        m.apply(op).log.len() == m.log.len() ==> m.apply(op).matches_but_gap(m),
{
    let after = m.apply(op);
    match op_apply(op, m.state) {
        Ok((done, next)) => {
            lemma_undo_inverts_apply(op, m.state);
            assert(after.log.drop_last() == m.log);
        },
        Err(OpFailure::GapTooSmall { required }) => {
            let grown = m.state.more_gap(grow_size(required));
            lemma_replayable_more_gap(m.state, m.log, grow_size(required));
            if op_apply(op, grown) is Ok {
                lemma_undo_inverts_apply(op, grown);
                assert(after.log.drop_last() == m.log);
            }
        },
        Err(_) => {},
    }
}

/// Undoing keeps two buffers alike that differ only in the width of the gap.
pub proof fn lemma_undo_keeps_match(a: BufferModel, b: BufferModel)
    requires
        a.wf(),
        b.wf(),
        a.matches_but_gap(b),
    ensures
        a.undo().wf(),
        b.undo().wf(),
        a.undo().matches_but_gap(b.undo()),
{
    if b.log.len() > 0 {
        let extra = (a.state.gap - b.state.gap) as nat;
        assert(a.state == b.state.more_gap(extra));
        lemma_undo_more_gap(b.log.last(), b.state, extra);
    }
}

/// So do any number of undos.
pub proof fn lemma_undo_times_keeps_match(a: BufferModel, b: BufferModel, count: nat)
    requires
        a.wf(),
        b.wf(),
        a.matches_but_gap(b),
    ensures
        a.undo_times(count).wf(),
        b.undo_times(count).wf(),
        a.undo_times(count).matches_but_gap(b.undo_times(count)),
    decreases count,
{
    if count > 0 {
        lemma_undo_keeps_match(a, b);
        lemma_undo_times_keeps_match(a.undo(), b.undo(), (count - 1) as nat);
    }
}

/// A buffer without history stays as it is under any number of undos.
pub proof fn lemma_undo_times_of_empty_log(m: BufferModel, count: nat)
    requires
        m.log.len() == 0,
    ensures
        m.undo_times(count) == m,
    decreases count,
{
    if count > 0 {
        lemma_undo_times_of_empty_log(m, (count - 1) as nat);
    }
}

/// Undoing `first + second` times is undoing `first` times, then `second` times.
pub proof fn lemma_undo_times_split(m: BufferModel, first: nat, second: nat)
    ensures
        m.undo_times(first + second) == m.undo_times(first).undo_times(second),
    decreases first,
{
    if first > 0 {
        lemma_undo_times_split(m.undo(), (first - 1) as nat, second);
    }
}

/// After any operations are handed to a well-formed buffer, as many undos
/// as operations were logged give back its text, its cursor and its log.
pub proof fn lemma_undo_reverts_applied(m: BufferModel, ops: Seq<OpView>)
    requires
        m.wf(),
    ensures
        m.apply_all(ops).wf(),
        m.log.len() <= m.apply_all(ops).log.len() <= m.log.len() + ops.len(),
        m.apply_all(ops).undo_times(
            (m.apply_all(ops).log.len() - m.log.len()) as nat,
        ).matches_but_gap(m),
    decreases ops.len(),
{
    if ops.len() > 0 {
        let before = m.apply_all(ops.drop_last());
        lemma_undo_reverts_applied(m, ops.drop_last());
        lemma_apply_then_undo(before, ops.last());
        let after = before.apply(ops.last());
        let depth = (before.log.len() - m.log.len()) as nat;
        if after.log.len() == before.log.len() + 1 {
            lemma_undo_times_keeps_match(after.undo(), before, depth);
        } else {
            lemma_undo_times_keeps_match(after, before, depth);
        }
    }
}

/// The round trip: whatever operations an empty buffer is handed, as many
/// undos as there were operations leave it with no text, the cursor at the
/// start, no linebreak in its index and no history.
pub proof fn lemma_round_trip(ops: Seq<OpView>)
    ensures
        BufferModel::empty().apply_all(ops).undo_times(ops.len()).state.text == Seq::<u8>::empty(),
        BufferModel::empty().apply_all(ops).undo_times(ops.len()).state.cursor == 0,
        BufferModel::empty().apply_all(ops).undo_times(ops.len()).state.raw_breaks()
            == Seq::<int>::empty(),
        BufferModel::empty().apply_all(ops).undo_times(ops.len()).log == Seq::<OpView>::empty(),
{
    let start = BufferModel::empty();
    let after = start.apply_all(ops);
    lemma_undo_reverts_applied(start, ops);
    let logged = after.log.len();
    let rest = (ops.len() - logged) as nat;
    lemma_undo_times_split(after, logged, rest);
    lemma_undo_times_of_empty_log(after.undo_times(logged), rest);
    let back = after.undo_times(ops.len());
    assert(back.state.text.take(0) == Seq::<u8>::empty());
    assert(back.state.text.skip(0) == Seq::<u8>::empty());
    assert(back.state.raw_breaks() == Seq::<int>::empty());
}

} // verus!
