//! The storage of the text: a byte vector with a hole at the cursor, and
//! the index of its linebreaks.

use vstd::prelude::*;
use crate::sorted::{lemma_rank_is_split, rank, rising};
use crate::text::{as_chars, push_char};
use crate::textedit::metrics::Metrics;
use crate::textedit::model::{
    breaks, lemma_lines, lemma_newlines_concat, lemma_newlines_shift, lemma_newlines_single,
    lemma_newlines_sound, line_end, line_start, newlines_in, vertical_target, BufferModel,
    FixedChar, GapText, DEFAULT_GAP_SIZE, LINE_BREAK,
};

verus! {

/// The entries of `s` as integers.
pub open spec fn as_ints(s: Seq<usize>) -> Seq<int> {
    Seq::new(s.len(), |i: int| s[i] as int)
}

/// Whether `index` lists, in rising order, just the raw indices at which
/// `content` holds a linebreak outside the gap from `cursor` to `gap_end`.
pub open spec fn is_linebreak_index(
    index: Seq<usize>,
    content: Seq<u8>,
    cursor: int,
    gap_end: int,
) -> bool {
    &&& rising(index)
    &&& forall|raw: usize|
        index.contains(raw) <==> (0 <= raw < cursor || gap_end <= raw < content.len())
            && content[raw as int] == LINE_BREAK
}

/// As many blanks as `count` says: what unused cells hold when they are made.
pub open spec fn blanks(count: nat) -> Seq<u8> {
    Seq::new(count, |i: int| 32u8)
}

/// A vector of `count` blanks.
fn blank(count: usize) -> (v: Vec<FixedChar>)
    ensures
        v@ == blanks(count as nat),
{
    let mut v: Vec<FixedChar> = Vec::new();
    let mut i: usize = 0;
    while i < count
        invariant
            i <= count,
            v@ =~= blanks(i as nat),
        decreases count - i,
    {
        v.push(32u8);
        i += 1;
    }
    v
}

/// A text with an edit cursor, stored with a gap at the cursor.
pub struct GapBuffer {
    content: Vec<FixedChar>,
    cursor: usize,
    gap_end: usize,
    metrics: Metrics,
}

impl GapBuffer {
    /// The text, the cursor and the size of the gap.
    pub closed spec fn state(&self) -> GapText {
        GapText {
            text: self.content@.take(self.cursor as int) + self.content@.skip(self.gap_end as int),
            cursor: self.cursor as int,
            gap: self.gap_end - self.cursor,
        }
    }

    /// The cells of the buffer, those of the gap included.
    pub closed spec fn raw(&self) -> Seq<u8> {
        self.content@
    }

    /// The index of the linebreaks as it is kept.
    pub closed spec fn index(&self) -> Seq<usize> {
        self.metrics@
    }

    /// The length that is kept beside the text.
    pub closed spec fn kept_length(&self) -> usize {
        self.metrics.length()
    }

    /// The invariant of the storage: the gap lies within the cells, the
    /// length is that of the text, and the index lists the raw indices of
    /// the linebreaks.
    pub closed spec fn inv(&self) -> bool {
        &&& self.cursor <= self.gap_end <= self.content@.len()
        &&& self.metrics.wf()
        &&& self.metrics.length() == self.cursor + (self.content@.len() - self.gap_end)
        &&& as_ints(self.metrics@) == self.state().raw_breaks()
    }

    /// The gap invariant: the cursor, the end of the gap and the number of
    /// cells stand in this order, the text is what lies outside the gap,
    /// and the length is kept true.
    pub proof fn lemma_gap_invariant(&self)
        requires
            self.inv(),
        ensures
            self.state().wf(),
            0 <= self.state().cursor <= self.state().gap_end() <= self.raw().len(),
            self.raw().len() == self.state().total(),
            self.kept_length() == self.state().cursor + (self.raw().len() - self.state().gap_end()),
            self.kept_length() == self.state().text.len(),
            self.state().text == self.raw().take(self.state().cursor) + self.raw().skip(
                self.state().gap_end(),
            ),
    {
    }

    /// The index of the linebreaks is consistent: it lists, in rising
    /// order, the raw indices of the linebreaks outside the gap, and
    /// nothing else.
    pub proof fn lemma_linebreak_index(&self)
        requires
            self.inv(),
        ensures
            is_linebreak_index(
                self.index(),
                self.raw(),
                self.state().cursor,
                self.state().gap_end(),
            ),
            as_ints(self.index()) == self.state().raw_breaks(),
    {
        let pre = self.content@.take(self.cursor as int);
        let post = self.content@.skip(self.gap_end as int);
        let text = self.state().text;
        assert(text.take(self.cursor as int) == pre);
        assert(text.skip(self.cursor as int) == post);
        lemma_newlines_sound(pre, 0);
        lemma_newlines_sound(post, self.gap_end as int);
        let left = newlines_in(pre, 0);
        let right = newlines_in(post, self.gap_end as int);
        let index = self.metrics@;
        let ints = as_ints(index);
        assert(ints == left + right);
        assert(ints.len() == index.len());
        assert forall|w: int| 0 <= w < index.len() implies #[trigger] ints[w] == index[w] as int by {}
        assert forall|raw: usize|
            index.contains(raw) <==> (0 <= raw < self.cursor || self.gap_end <= raw
                < self.content@.len()) && self.content@[raw as int] == LINE_BREAK by {
            if index.contains(raw) {
                let w = choose|w: int| 0 <= w < index.len() && index[w] == raw;
                assert(ints[w] == raw);
                if w < left.len() {
                    assert(left[w] == raw);
                    assert(pre[raw as int] == LINE_BREAK);
                } else {
                    assert(right[w - left.len()] == raw);
                    assert(post[raw - self.gap_end] == LINE_BREAK);
                }
            }
            if (0 <= raw < self.cursor || self.gap_end <= raw < self.content@.len())
                && self.content@[raw as int] == LINE_BREAK {
                if raw < self.cursor {
                    assert(pre[raw as int] == LINE_BREAK);
                    assert(left.contains(0 + raw as int));
                    let w = choose|w: int| 0 <= w < left.len() && left[w] == raw;
                    assert(ints[w] == raw);
                    assert(index[w] == raw);
                } else {
                    assert(post[raw - self.gap_end] == LINE_BREAK);
                    assert(right.contains(self.gap_end + (raw - self.gap_end)));
                    let w = choose|w: int| 0 <= w < right.len() && right[w] == raw;
                    assert(ints[left.len() + w] == raw);
                    assert(index[left.len() + w] == raw);
                }
            }
        }
    }

    /// An empty text with a gap of the default size.
    pub fn new() -> (tb: GapBuffer)
        ensures
            tb.inv(),
            tb.state() == BufferModel::empty().state,
            tb.raw() == blanks(DEFAULT_GAP_SIZE as nat),
    {
        let tb = GapBuffer {
            content: blank(DEFAULT_GAP_SIZE),
            cursor: 0,
            gap_end: DEFAULT_GAP_SIZE,
            metrics: Metrics::new(),
        };
        proof {
            assert(tb.state().text =~= Seq::<u8>::empty());
            assert(tb.state().text.take(0) =~= Seq::<u8>::empty());
            assert(tb.state().text.skip(0) =~= Seq::<u8>::empty());
            assert(tb.state().raw_breaks() =~= Seq::<int>::empty());
            assert(as_ints(tb.metrics@) =~= Seq::<int>::empty());
        }
        tb
    }

    /// The number of bytes before the cursor.
    pub fn get_cursor(&self) -> (cursor: usize)
        ensures
            cursor == self.state().cursor,
    {
        self.cursor
    }

    /// The raw index of the first byte behind the gap.
    pub fn get_gap_end(&self) -> (gap_end: usize)
        requires
            self.inv(),
        ensures
            gap_end == self.state().gap_end(),
    {
        self.gap_end
    }

    /// The number of unused cells at the cursor.
    pub fn gap_size(&self) -> (size: usize)
        requires
            self.inv(),
        ensures
            size == self.state().gap,
    {
        self.gap_end - self.cursor
    }

    /// The cells of the buffer, those of the gap included.
    pub fn get_content(&self) -> (content: &Vec<FixedChar>)
        ensures
            content@ == self.raw(),
    {
        &self.content
    }

    /// The number of bytes of the text.
    pub fn get_length(&self) -> (length: usize)
        requires
            self.inv(),
        ensures
            length == self.state().text.len(),
    {
        self.metrics.get_length()
    }

    /// The number of cells, those of the gap included.
    pub fn get_length_raw(&self) -> (length: usize)
        requires
            self.inv(),
        ensures
            length == self.state().total(),
            length == self.raw().len(),
    {
        self.content.len()
    }

    /// The raw indices of the linebreaks, in rising order.
    pub fn get_new_lines(&self) -> (lines: &Vec<usize>)
        requires
            self.inv(),
        ensures
            lines@ == self.index(),
            as_ints(lines@) == self.state().raw_breaks(),
    {
        self.metrics.get_new_line_order()
    }

    /// The counts that are kept beside the text.
    pub fn get_metrics(&self) -> (metrics: &Metrics)
        requires
            self.inv(),
        ensures
            metrics.wf(),
            metrics@ == self.index(),
            metrics.length() == self.state().text.len(),
    {
        &self.metrics
    }

    /// The bytes of the text: what stands before the gap, then what stands
    /// behind it.
    pub fn text_bytes(&self) -> (bytes: Vec<FixedChar>)
        requires
            self.inv(),
        ensures
            bytes@ == self.state().text,
    {
        let mut out: Vec<FixedChar> = Vec::new();
        let mut i: usize = 0;
        while i < self.cursor
            invariant
                self.inv(),
                i <= self.cursor,
                out@ == self.content@.take(i as int),
            decreases self.cursor - i,
        {
            out.push(self.content[i]);
            i += 1;
            assert(out@ =~= self.content@.take(i as int));
        }
        let ghost pre = self.content@.take(self.cursor as int);
        let mut j: usize = self.gap_end;
        assert(pre + self.content@.subrange(self.gap_end as int, j as int) =~= pre);
        while j < self.content.len()
            invariant
                self.inv(),
                self.gap_end <= j <= self.content@.len(),
                pre == self.content@.take(self.cursor as int),
                out@ == pre + self.content@.subrange(self.gap_end as int, j as int),
            decreases self.content@.len() - j,
        {
            out.push(self.content[j]);
            j += 1;
            assert(out@ =~= pre + self.content@.subrange(self.gap_end as int, j as int));
        }
        assert(self.content@.subrange(self.gap_end as int, j as int) =~= self.content@.skip(
            self.gap_end as int,
        ));
        out
    }

    /// Every cell as a character, those of the gap included.
    pub fn string_raw(&self) -> (s: String)
        ensures
            s@ == as_chars(self.raw()),
    {
        let mut out = String::new();
        let mut i: usize = 0;
        while i < self.content.len()
            invariant
                i <= self.content@.len(),
                out@ == as_chars(self.content@.take(i as int)),
            decreases self.content@.len() - i,
        {
            push_char(&mut out, self.content[i] as char);
            i += 1;
            assert(out@ =~= as_chars(self.content@.take(i as int)));
        }
        assert(self.content@.take(i as int) =~= self.content@);
        out
    }

    /// The text: what stands before the gap, then what stands behind it.
    pub fn string(&self) -> (s: String)
        requires
            self.inv(),
        ensures
            s@ == as_chars(self.state().text),
    {
        let mut out = String::new();
        let mut i: usize = 0;
        while i < self.cursor
            invariant
                self.inv(),
                i <= self.cursor,
                out@ == as_chars(self.content@.take(i as int)),
            decreases self.cursor - i,
        {
            push_char(&mut out, self.content[i] as char);
            i += 1;
            assert(out@ =~= as_chars(self.content@.take(i as int)));
        }
        let ghost pre = self.content@.take(self.cursor as int);
        let mut j: usize = self.gap_end;
        while j < self.content.len()
            invariant
                self.inv(),
                self.gap_end <= j <= self.content@.len(),
                pre == self.content@.take(self.cursor as int),
                out@ == as_chars(pre + self.content@.subrange(self.gap_end as int, j as int)),
            decreases self.content@.len() - j,
        {
            push_char(&mut out, self.content[j] as char);
            j += 1;
            assert(out@ =~= as_chars(pre + self.content@.subrange(self.gap_end as int, j as int)));
        }
        assert(self.content@.subrange(self.gap_end as int, j as int) =~= self.content@.skip(
            self.gap_end as int,
        ));
        out
    }

    /// What the index is made of: the linebreaks before the gap, all below
    /// the cursor, then those behind it, none below the end of the gap.
    proof fn lemma_index_parts(&self)
        requires
            self.inv(),
        ensures
            self.state().text.take(self.cursor as int) == self.content@.take(self.cursor as int),
            self.state().text.skip(self.cursor as int) == self.content@.skip(self.gap_end as int),
            self.metrics@.len() == self.state().raw_breaks().len(),
            forall|i: int|
                0 <= i < self.metrics@.len() ==> #[trigger] self.metrics@[i] as int
                    == self.state().raw_breaks()[i],
            forall|i: int|
                0 <= i < newlines_in(self.content@.take(self.cursor as int), 0).len()
                    ==> #[trigger] self.metrics@[i] < self.cursor,
            forall|i: int|
                newlines_in(self.content@.take(self.cursor as int), 0).len() <= i
                    < self.metrics@.len() ==> self.gap_end <= #[trigger] self.metrics@[i]
                    < self.content@.len(),
            rank(self.metrics@, self.cursor) == newlines_in(
                self.content@.take(self.cursor as int),
                0,
            ).len(),
            self.state().line() == rank(self.metrics@, self.cursor),
    {
        let pre = self.content@.take(self.cursor as int);
        let post = self.content@.skip(self.gap_end as int);
        let text = self.state().text;
        assert(text.take(self.cursor as int) == pre);
        assert(text.skip(self.cursor as int) == post);
        lemma_newlines_sound(pre, 0);
        lemma_newlines_sound(post, self.gap_end as int);
        let left = newlines_in(pre, 0);
        let right = newlines_in(post, self.gap_end as int);
        let index = self.metrics@;
        let ints = as_ints(index);
        assert(ints == left + right);
        assert(ints.len() == index.len());
        assert forall|w: int| 0 <= w < index.len() implies #[trigger] index[w] as int
            == self.state().raw_breaks()[w] by {
            assert(ints[w] == index[w] as int);
        }
        assert forall|i: int| 0 <= i < left.len() implies #[trigger] index[i] < self.cursor by {
            assert(ints[i] == left[i]);
        }
        assert forall|i: int| left.len() <= i < index.len() implies self.gap_end
            <= #[trigger] index[i] < self.content@.len() by {
            assert(ints[i] == right[i - left.len()]);
        }
        lemma_rank_is_split(index, self.cursor, left.len() as int);
    }

    /// Whether the index, taken as integers, is `left` followed by `right`.
    proof fn lemma_index_from_parts(index: Seq<usize>, left: Seq<int>, right: Seq<int>)
        requires
            index.len() == left.len() + right.len(),
            forall|i: int| 0 <= i < left.len() ==> index[i] as int == left[i],
            forall|i: int| 0 <= i < right.len() ==> index[left.len() + i] as int == right[i],
        ensures
            as_ints(index) == left + right,
    {
        assert(as_ints(index) =~= left + right);
    }

    /// Put one byte into the gap at the cursor; the cursor moves behind it.
    pub fn put(&mut self, byte: FixedChar)
        requires
            old(self).inv(),
            old(self).state().gap >= 1,
        ensures
            final(self).inv(),
            final(self).state() == old(self).state().insert(seq![byte]),
    {
        proof {
            self.lemma_index_parts();
        }
        let ghost pre = self.content@.take(self.cursor as int);
        let ghost post = self.content@.skip(self.gap_end as int);
        let ghost left = newlines_in(pre, 0);
        let ghost right = newlines_in(post, self.gap_end as int);
        let ghost before = self.metrics@;
        let at = self.cursor;
        let cells = self.content.len();
        assert(self.metrics.length() < cells);
        self.content.set(at, byte);
        self.cursor = at + 1;
        let length = self.metrics.get_length();
        self.metrics.set_length(length + 1);
        if byte == LINE_BREAK {
            assert(!before.contains(at)) by {
                if before.contains(at) {
                    let w = choose|w: int| 0 <= w < before.len() && before[w] == at;
                    if w < left.len() {
                        assert(before[w] < at);
                    } else {
                        assert(before[w] >= old(self).gap_end);
                    }
                }
            }
            self.metrics.set_linebreak_raw(at);
        }
        proof {
            let now_pre = self.content@.take(self.cursor as int);
            let now_post = self.content@.skip(self.gap_end as int);
            assert(now_pre =~= pre.push(byte));
            assert(now_pre.drop_last() =~= pre);
            assert(now_post =~= post);
            assert(self.state().text =~= old(self).state().insert(seq![byte]).text);
            assert(self.state().text.take(self.cursor as int) =~= now_pre);
            assert(self.state().text.skip(self.cursor as int) =~= now_post);
            let now_left = newlines_in(now_pre, 0);
            if byte == LINE_BREAK {
                assert(now_left == left.push(at as int));
                Self::lemma_index_from_parts(self.metrics@, now_left, right);
            } else {
                assert(now_left == left);
                Self::lemma_index_from_parts(self.metrics@, now_left, right);
            }
        }
    }

    /// Take the byte before the cursor out of the text; it falls into the gap.
    pub fn take_back(&mut self) -> (byte: FixedChar)
        requires
            old(self).inv(),
            old(self).state().cursor >= 1,
        ensures
            final(self).inv(),
            final(self).state() == old(self).state().delete_back(1),
            byte == old(self).state().text[old(self).state().cursor - 1],
    {
        proof {
            self.lemma_index_parts();
        }
        let ghost pre = self.content@.take(self.cursor as int);
        let ghost post = self.content@.skip(self.gap_end as int);
        let ghost left = newlines_in(pre, 0);
        let ghost right = newlines_in(post, self.gap_end as int);
        let ghost before = self.metrics@;
        let ghost shorter = newlines_in(pre.drop_last(), 0);
        let at = self.cursor - 1;
        let byte = self.content[at];
        assert(pre.last() == byte);
        self.cursor = at;
        let length = self.metrics.get_length();
        self.metrics.set_length(length - 1);
        if byte == LINE_BREAK {
            proof {
                lemma_newlines_sound(pre.drop_last(), 0);
                assert(left == shorter.push(at as int));
                assert(before[shorter.len() as int] == at);
                assert forall|i: int| 0 <= i < shorter.len() implies before[i] < at by {
                    assert(before[i] as int == left[i]);
                    assert(left[i] == shorter[i]);
                }
                lemma_rank_is_split(before, at, shorter.len() as int);
            }
            self.metrics.remove_linebreak_raw(at);
        }
        proof {
            let now_pre = self.content@.take(self.cursor as int);
            let now_post = self.content@.skip(self.gap_end as int);
            assert(now_pre =~= pre.drop_last());
            assert(now_post =~= post);
            assert(self.state().text =~= old(self).state().delete_back(1).text);
            assert(self.state().text.take(self.cursor as int) =~= now_pre);
            assert(self.state().text.skip(self.cursor as int) =~= now_post);
            if byte == LINE_BREAK {
                Self::lemma_index_from_parts(self.metrics@, shorter, right);
            } else {
                assert(left == shorter);
                Self::lemma_index_from_parts(self.metrics@, shorter, right);
            }
        }
        byte
    }

    /// Carry the byte before the cursor over the gap: the cursor moves one
    /// to the left, the text stays.
    pub fn step_left(&mut self)
        requires
            old(self).inv(),
            old(self).state().cursor >= 1,
        ensures
            final(self).inv(),
            final(self).state() == old(self).state().shift(-1),
    {
        proof {
            self.lemma_index_parts();
        }
        let ghost pre = self.content@.take(self.cursor as int);
        let ghost post = self.content@.skip(self.gap_end as int);
        let ghost left = newlines_in(pre, 0);
        let ghost right = newlines_in(post, self.gap_end as int);
        let ghost before = self.metrics@;
        let ghost shorter = newlines_in(pre.drop_last(), 0);
        let from = self.cursor - 1;
        let to = self.gap_end - 1;
        let byte = self.content[from];
        assert(pre.last() == byte);
        self.content.set(to, byte);
        self.cursor = from;
        self.gap_end = to;
        if byte == LINE_BREAK {
            proof {
                lemma_newlines_sound(pre.drop_last(), 0);
                assert(left == shorter.push(from as int));
                assert(before[shorter.len() as int] == from);
                assert forall|i: int| 0 <= i < shorter.len() implies before[i] < from by {
                    assert(before[i] as int == left[i]);
                    assert(left[i] == shorter[i]);
                }
                lemma_rank_is_split(before, from, shorter.len() as int);
            }
            let place = self.metrics.position_of(from);
            self.metrics.move_linebreak(place, to);
        }
        proof {
            let now_pre = self.content@.take(self.cursor as int);
            let now_post = self.content@.skip(self.gap_end as int);
            assert(now_pre =~= pre.drop_last());
            assert(now_post =~= seq![byte] + post);
            assert(self.state().text =~= old(self).state().text);
            assert(self.state().text.take(self.cursor as int) =~= now_pre);
            assert(self.state().text.skip(self.cursor as int) =~= now_post);
            lemma_newlines_concat(seq![byte], post, to as int);
            lemma_newlines_single(byte, to as int);
            let now_right = newlines_in(now_post, to as int);
            if byte == LINE_BREAK {
                assert(now_right =~= seq![to as int] + right);
                Self::lemma_index_from_parts(self.metrics@, shorter, now_right);
            } else {
                assert(left == shorter);
                assert(now_right =~= right);
                Self::lemma_index_from_parts(self.metrics@, shorter, now_right);
            }
        }
    }

    /// The index before and after the cursor steps over the byte behind it.
    proof fn lemma_step_right_breaks(s: GapText)
        requires
            s.wf(),
            s.cursor < s.text.len(),
        ensures
            ({
                let left = newlines_in(s.text.take(s.cursor), 0);
                let rest = newlines_in(s.text.skip(s.cursor + 1), s.gap_end() + 1);
                let here = if s.text[s.cursor] == LINE_BREAK {
                    seq![s.gap_end()]
                } else {
                    Seq::<int>::empty()
                };
                let there = if s.text[s.cursor] == LINE_BREAK {
                    seq![s.cursor]
                } else {
                    Seq::<int>::empty()
                };
                &&& s.raw_breaks() == left + here + rest
                &&& s.shift(1).raw_breaks() == left + there + rest
                &&& forall|i: int| 0 <= i < left.len() ==> 0 <= #[trigger] left[i] < s.cursor
                &&& forall|i: int| 0 <= i < rest.len() ==> #[trigger] rest[i] > s.gap_end()
            }),
    {
        let pre = s.text.take(s.cursor);
        let post = s.text.skip(s.cursor);
        let byte = s.text[s.cursor];
        let tail = s.text.skip(s.cursor + 1);
        assert(post =~= seq![byte] + tail);
        lemma_newlines_concat(seq![byte], tail, s.gap_end());
        lemma_newlines_single(byte, s.gap_end());
        lemma_newlines_sound(tail, s.gap_end() + 1);
        lemma_newlines_sound(pre, 0);
        let moved = s.shift(1);
        assert(moved.text.take(moved.cursor) =~= pre.push(byte));
        assert(pre.push(byte).drop_last() =~= pre);
        assert(moved.text.skip(moved.cursor) =~= tail);
        let left = newlines_in(pre, 0);
        let rest = newlines_in(tail, s.gap_end() + 1);
        if byte == LINE_BREAK {
            assert(newlines_in(pre.push(byte), 0) == left.push(s.cursor));
            assert(left.push(s.cursor) + rest =~= left + seq![s.cursor] + rest);
            assert(left + (seq![s.gap_end()] + rest) =~= left + seq![s.gap_end()] + rest);
        } else {
            assert(newlines_in(pre.push(byte), 0) == left);
            assert(left + Seq::<int>::empty() + rest =~= left + rest);
            assert(Seq::<int>::empty() + rest =~= rest);
        }
    }

    /// Carry the byte behind the gap over it: the cursor moves one to the
    /// right, the text stays.
    pub fn step_right(&mut self)
        requires
            old(self).inv(),
            old(self).state().cursor < old(self).state().text.len(),
        ensures
            final(self).inv(),
            final(self).state() == old(self).state().shift(1),
    {
        proof {
            self.lemma_index_parts();
            self.lemma_gap_invariant();
            Self::lemma_step_right_breaks(self.state());
        }
        let ghost start = self.state();
        let ghost left = newlines_in(start.text.take(start.cursor), 0);
        let ghost rest = newlines_in(start.text.skip(start.cursor + 1), start.gap_end() + 1);
        let ghost before = self.metrics@;
        let from = self.gap_end;
        let to = self.cursor;
        let cells = self.content.len();
        assert(from < cells);
        let byte = self.content[from];
        assert(start.text[start.cursor] == byte);
        self.content.set(to, byte);
        self.cursor = to + 1;
        self.gap_end = from + 1;
        assert(self.state().text =~= start.text);
        if byte == LINE_BREAK {
            proof {
                assert(start.raw_breaks() == left + seq![from as int] + rest);
                assert forall|i: int| left.len() < i < before.len() implies before[i] > from by {
                    assert(before[i] as int == start.raw_breaks()[i]);
                    assert(start.raw_breaks()[i] == rest[i - left.len() - 1]);
                }
                assert forall|i: int| 0 <= i < left.len() implies before[i] < to by {
                    assert(before[i] as int == start.raw_breaks()[i]);
                    assert(start.raw_breaks()[i] == left[i]);
                }
            }
            let place = self.metrics.position_of(to);
            self.metrics.move_linebreak(place, to);
            assert(as_ints(self.metrics@) =~= left + seq![to as int] + rest);
        } else {
            assert(as_ints(self.metrics@) =~= left + Seq::<int>::empty() + rest);
        }
    }

    /// Put `bytes` into the gap at the cursor; the cursor moves behind them.
    pub fn insert_bytes(&mut self, bytes: &Vec<FixedChar>)
        requires
            old(self).inv(),
            old(self).state().gap >= bytes@.len(),
        ensures
            final(self).inv(),
            final(self).state() == old(self).state().insert(bytes@),
    {
        let ghost start = self.state();
        proof {
            self.lemma_gap_invariant();
            assert(start.insert(bytes@.take(0)).text =~= start.text);
        }
        let mut i: usize = 0;
        while i < bytes.len()
            invariant
                self.inv(),
                start.wf(),
                start.gap >= bytes@.len(),
                i <= bytes@.len(),
                self.state() == start.insert(bytes@.take(i as int)),
            decreases bytes@.len() - i,
        {
            let ghost done = bytes@.take(i as int);
            self.put(bytes[i]);
            i += 1;
            proof {
                assert(bytes@.take(i as int) =~= done.push(bytes@[i - 1]));
                assert(start.insert(done).insert(seq![bytes@[i - 1]]).text =~= start.insert(
                    bytes@.take(i as int),
                ).text);
            }
        }
        assert(bytes@.take(i as int) =~= bytes@);
    }

    /// Take the `count` bytes before the cursor out of the text and hand
    /// them back in the order they stood in.
    pub fn remove_back(&mut self, count: usize) -> (removed: Vec<FixedChar>)
        requires
            old(self).inv(),
            old(self).state().cursor >= count,
        ensures
            final(self).inv(),
            final(self).state() == old(self).state().delete_back(count as int),
            removed@ == old(self).state().text.subrange(
                old(self).state().cursor - count,
                old(self).state().cursor,
            ),
    {
        let ghost start = self.state();
        proof {
            self.lemma_gap_invariant();
        }
        let first = self.cursor - count;
        let mut removed: Vec<FixedChar> = Vec::new();
        let mut k: usize = 0;
        while k < count
            invariant
                self.inv(),
                self.state() == start,
                start.wf(),
                first + count == self.cursor,
                k <= count,
                removed@ == start.text.subrange(first as int, first + k),
            decreases count - k,
        {
            assert(start.text[first + k] == self.content@[first + k]);
            removed.push(self.content[first + k]);
            k += 1;
            assert(removed@ =~= start.text.subrange(first as int, first + k));
        }
        let mut i: usize = 0;
        proof {
            assert(start.delete_back(0).text =~= start.text);
        }
        while i < count
            invariant
                self.inv(),
                start.wf(),
                start.cursor >= count,
                i <= count,
                self.state() == start.delete_back(i as int),
            decreases count - i,
        {
            self.take_back();
            i += 1;
            proof {
                assert(start.delete_back(i - 1).delete_back(1).text =~= start.delete_back(
                    i as int,
                ).text);
            }
        }
        removed
    }

    /// Move the cursor `count` bytes to the left.
    pub fn move_left(&mut self, count: usize)
        requires
            old(self).inv(),
            old(self).state().cursor >= count,
        ensures
            final(self).inv(),
            final(self).state() == old(self).state().shift(-(count as int)),
    {
        let ghost start = self.state();
        let mut i: usize = 0;
        while i < count
            invariant
                self.inv(),
                start.cursor >= count,
                i <= count,
                self.state() == start.shift(-(i as int)),
            decreases count - i,
        {
            self.step_left();
            i += 1;
        }
    }

    /// Move the cursor `count` bytes to the right.
    pub fn move_right(&mut self, count: usize)
        requires
            old(self).inv(),
            old(self).state().cursor + count <= old(self).state().text.len(),
        ensures
            final(self).inv(),
            final(self).state() == old(self).state().shift(count as int),
    {
        let ghost start = self.state();
        let mut i: usize = 0;
        while i < count
            invariant
                self.inv(),
                start.cursor + count <= start.text.len(),
                i <= count,
                self.state() == start.shift(i as int),
            decreases count - i,
        {
            self.step_right();
            i += 1;
        }
    }

    /// Widen the gap by `by` cells, which are blanks put in at the cursor.
    /// The text and the cursor stay; the end of the gap and the linebreaks
    /// behind the gap move by as much.
    pub fn realloc_gap(&mut self, by: usize)
        requires
            old(self).inv(),
            old(self).state().total() + by <= usize::MAX,
        ensures
            final(self).inv(),
            final(self).state() == old(self).state().more_gap(by as nat),
            final(self).raw() == old(self).raw().take(old(self).state().cursor) + blanks(
                by as nat,
            ) + old(self).raw().skip(old(self).state().cursor),
    {
        proof {
            self.lemma_index_parts();
        }
        let ghost pre = self.content@.take(self.cursor as int);
        let ghost post = self.content@.skip(self.gap_end as int);
        let ghost left = newlines_in(pre, 0);
        let ghost right = newlines_in(post, self.gap_end as int);
        let ghost before = self.metrics@;
        let diff = by;
        let cells = self.content.len();
        let ghost whole = self.content@;
        let mut tail = self.content.split_off(self.cursor);
        self.content.resize(self.cursor + diff, 32u8);
        self.content.append(&mut tail);
        let place = self.metrics.position_of(self.cursor);
        self.metrics.shift_from(place, diff);
        self.gap_end = self.gap_end + diff;
        proof {
            let now_pre = self.content@.take(self.cursor as int);
            let now_post = self.content@.skip(self.gap_end as int);
            assert(now_pre =~= pre);
            assert(now_post =~= post);
            assert(self.content@ =~= whole.take(self.cursor as int) + blanks(by as nat)
                + whole.skip(self.cursor as int));
            assert(self.state().text =~= old(self).state().text);
            assert(self.state().text.take(self.cursor as int) =~= now_pre);
            assert(self.state().text.skip(self.cursor as int) =~= now_post);
            lemma_newlines_shift(post, old(self).gap_end as int, diff as int);
            let now_right = newlines_in(post, old(self).gap_end + diff);
            assert forall|i: int| 0 <= i < now_right.len() implies self.metrics@[left.len() + i] as int
                == now_right[i] by {
                assert(before[left.len() + i] as int == right[i]);
            }
            Self::lemma_index_from_parts(self.metrics@, left, now_right);
        }
    }

    /// The number of the line the cursor is on.
    pub fn line(&self) -> (line: usize)
        requires
            self.inv(),
        ensures
            line == self.state().line(),
            line <= breaks(self.state().text).len(),
    {
        proof {
            self.lemma_index_parts();
            self.lemma_gap_invariant();
            lemma_lines(self.state().text, self.cursor as int);
        }
        self.metrics.position_of(self.cursor)
    }

    /// The position of the first byte of line `line`.
    pub fn line_start_of(&self, line: usize) -> (position: usize)
        requires
            self.inv(),
            line <= breaks(self.state().text).len(),
        ensures
            position == line_start(self.state().text, line as int),
            position <= self.state().text.len(),
    {
        proof {
            self.lemma_gap_invariant();
            lemma_lines(self.state().text, self.cursor as int);
        }
        if line == 0 {
            0
        } else {
            self.break_at(line - 1) + 1
        }
    }

    /// The position just behind the last byte of line `line`.
    pub fn line_end_of(&self, line: usize) -> (position: usize)
        requires
            self.inv(),
            line <= breaks(self.state().text).len(),
        ensures
            position == line_end(self.state().text, line as int),
            position <= self.state().text.len(),
    {
        proof {
            self.lemma_gap_invariant();
            lemma_lines(self.state().text, self.cursor as int);
        }
        if line < self.break_count() {
            self.break_at(line)
        } else {
            self.get_length()
        }
    }

    /// Where the cursor lands on line `target` when it keeps its column as
    /// far as that line reaches.
    pub fn column_on(&self, target: usize) -> (position: usize)
        requires
            self.inv(),
            target <= breaks(self.state().text).len(),
        ensures
            position == vertical_target(self.state().text, self.state().cursor, target as int),
            position <= self.state().text.len(),
    {
        proof {
            self.lemma_gap_invariant();
            lemma_lines(self.state().text, self.cursor as int);
        }
        let here = self.line();
        let column = self.cursor - self.line_start_of(here);
        let start = self.line_start_of(target);
        let reach = self.line_end_of(target) - start;
        if column < reach {
            start + column
        } else {
            start + reach
        }
    }

    /// The number of linebreaks of the text.
    pub fn break_count(&self) -> (count: usize)
        requires
            self.inv(),
        ensures
            count == breaks(self.state().text).len(),
    {
        proof {
            self.lemma_breaks();
        }
        self.metrics.get_new_line_order().len()
    }

    /// The position in the text of its linebreak number `order`.
    pub fn break_at(&self, order: usize) -> (position: usize)
        requires
            self.inv(),
            order < breaks(self.state().text).len(),
        ensures
            position == breaks(self.state().text)[order as int],
            position < self.state().text.len(),
    {
        proof {
            self.lemma_breaks();
            lemma_newlines_sound(self.state().text, 0);
        }
        let raw = self.metrics.get_new_line_order()[order];
        if raw < self.cursor {
            raw
        } else {
            raw - (self.gap_end - self.cursor)
        }
    }

    /// How the index relates to the positions of the linebreaks in the
    /// text: those below the cursor stand as they are, the others are
    /// moved by the size of the gap.
    proof fn lemma_breaks(&self)
        requires
            self.inv(),
        ensures
            self.metrics@.len() == breaks(self.state().text).len(),
            forall|i: int|
                0 <= i < self.metrics@.len() ==> breaks(self.state().text)[i] == if (
                #[trigger] self.metrics@[i]) < self.cursor {
                    self.metrics@[i] as int
                } else {
                    self.metrics@[i] - (self.gap_end - self.cursor)
                },
    {
        self.lemma_index_parts();
        self.lemma_gap_invariant();
        let text = self.state().text;
        lemma_lines(text, self.cursor as int);
        let pre = text.take(self.cursor as int);
        let post = text.skip(self.cursor as int);
        let left = newlines_in(pre, 0);
        let near = newlines_in(post, self.cursor as int);
        let far = newlines_in(post, self.gap_end as int);
        lemma_newlines_shift(post, self.cursor as int, self.gap_end - self.cursor);
        lemma_newlines_sound(post, self.cursor as int);
        assert(breaks(text) == left + near);
        assert(self.state().raw_breaks() == left + far);
        assert forall|i: int| 0 <= i < self.metrics@.len() implies breaks(text)[i] == if (
        #[trigger] self.metrics@[i]) < self.cursor {
            self.metrics@[i] as int
        } else {
            self.metrics@[i] - (self.gap_end - self.cursor)
        } by {
            assert(self.metrics@[i] as int == self.state().raw_breaks()[i]);
            if i < left.len() {
                assert(self.metrics@[i] < self.cursor);
            } else {
                assert(far[i - left.len()] == near[i - left.len()] + (self.gap_end - self.cursor));
                assert(self.metrics@[i] >= self.gap_end);
            }
        }
    }
}

} // verus!
