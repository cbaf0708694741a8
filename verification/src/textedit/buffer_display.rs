//! Wrapping a text to the width of a viewport, and finding the cursor on it.

use vstd::prelude::*;
use vstd::string::StrSliceExecFns;
use vstd::utf8::encode_utf8;
use crate::plot::Plot;
use crate::textedit::model::LINE_BREAK;

verus! {

/// The number of bytes of `s` before its first linebreak: its length where
/// it has none.
pub open spec fn first_break(s: Seq<u8>) -> int
    decreases s.len(),
{
    if s.len() == 0 || s[0] == LINE_BREAK {
        0
    } else {
        1 + first_break(s.skip(1))
    }
}

/// Where the wrapping has come to: the number of visual rows so far, the
/// distance that is left to the cursor, and the cursor where it was found.
pub struct WrapState {
    pub rows: int,
    pub distance: int,
    pub found: Option<(int, int)>,
}

/// The state after a subline of `len` bytes was looked at for the cursor:
/// where the distance that is left falls within the subline the cursor is
/// on its row, at that distance; else the subline is taken off the distance.
/// Behind the last byte of a subline the cursor stands only where the
/// subline is the last of its line: else it stands on the first byte of the
/// next one.
pub open spec fn seek(st: WrapState, len: int, last: bool) -> WrapState {
    if st.found is None {
        if st.distance < len || (last && st.distance == len) {
            WrapState { found: Some((st.rows, st.distance)), ..st }
        } else {
            WrapState { distance: st.distance - len, ..st }
        }
    } else {
        st
    }
}

/// The sublines of one logical line, each of at most `dim.col` bytes and on
/// a visual row of its own, and the state after them. Once the rows of the
/// viewport are used up a line gets no further subline.
pub open spec fn wrap_line(line: Seq<u8>, dim: Plot, st: WrapState) -> (Seq<Seq<u8>>, WrapState)
    decreases line.len(), (if st.rows < dim.row {
        dim.row - st.rows
    } else {
        0
    }),
{
    let width = if line.len() < dim.col {
        line.len() as int
    } else {
        dim.col as int
    };
    let sought = seek(st, width, line.skip(width).len() == 0);
    let next = WrapState { rows: st.rows + 1, ..sought };
    if line.skip(width).len() == 0 || next.rows >= dim.row {
        (seq![line.take(width)], next)
    } else {
        let rest = wrap_line(line.skip(width), dim, next);
        (seq![line.take(width)] + rest.0, rest.1)
    }
}

/// The state after a logical line: its linebreak is taken off the distance.
pub open spec fn line_done(st: WrapState) -> WrapState {
    WrapState {
        distance: if st.distance > 0 {
            st.distance - 1
        } else {
            0
        },
        ..st
    }
}

/// The sublines of every logical line of `text`, line by line, and the
/// state after them.
pub open spec fn wrap_lines(text: Seq<u8>, dim: Plot, st: WrapState) -> (
    Seq<Seq<Seq<u8>>>,
    WrapState,
)
    decreases text.len(),
{
    let cut = first_break(text);
    let line = wrap_line(text.take(cut), dim, st);
    if cut < 0 || cut >= text.len() {
        (seq![line.0], line_done(line.1))
    } else {
        let rest = wrap_lines(text.skip(cut + 1), dim, line_done(line.1));
        (seq![line.0] + rest.0, rest.1)
    }
}

/// The text wrapped to the viewport `dim`, and the place of the cursor,
/// which stands `cursor` bytes into the text, on it; the origin where the
/// cursor is not found.
pub open spec fn wrapped(text: Seq<u8>, dim: Plot, cursor: int) -> (Seq<Seq<Seq<u8>>>, Plot) {
    let all = wrap_lines(text, dim, WrapState { rows: 0, distance: cursor, found: None });
    (
        all.0,
        match all.1.found {
            Some((row, col)) => Plot { row: row as usize, col: col as usize },
            None => Plot { row: 0, col: 0 },
        },
    )
}

/// A place that holds a linebreak, or the end, with no linebreak before it,
/// is the first break.
pub proof fn lemma_first_break_is(s: Seq<u8>, at: int)
    requires
        0 <= at <= s.len(),
        at < s.len() ==> s[at] == LINE_BREAK,
        forall|i: int| 0 <= i < at ==> s[i] != LINE_BREAK,
    ensures
        first_break(s) == at,
    decreases s.len(),
{
    if at > 0 {
        let rest = s.skip(1);
        assert forall|i: int| 0 <= i < at - 1 implies rest[i] != LINE_BREAK by {
            assert(rest[i] == s[i + 1]);
        }
        lemma_first_break_is(rest, at - 1);
    }
}

/// The sublines of `lines`, each by its bytes.
pub open spec fn sublines_view(lines: Seq<Vec<u8>>) -> Seq<Seq<u8>> {
    Seq::new(lines.len(), |i: int| lines[i]@)
}

/// The lines of `all`, each by the bytes of its sublines.
pub open spec fn lines_view(all: Seq<Vec<Vec<u8>>>) -> Seq<Seq<Seq<u8>>> {
    Seq::new(all.len(), |i: int| sublines_view(all[i]@))
}

/// The exec counterpart of the wrapping state.
struct Seeker {
    rows: usize,
    distance: usize,
    found: Option<Plot>,
}

impl View for Seeker {
    type V = WrapState;

    closed spec fn view(&self) -> WrapState {
        WrapState {
            rows: self.rows as int,
            distance: self.distance as int,
            found: match self.found {
                Some(plot) => Some((plot.row as int, plot.col as int)),
                None => None,
            },
        }
    }
}

/// Wrap the logical line that `text` holds from `from` up to `to`.
fn wrap_one(text: &Vec<u8>, from: usize, to: usize, dim: Plot, seeker: &mut Seeker) -> (sublines:
    Vec<Vec<u8>>)
    requires
        from <= to <= text@.len(),
        old(seeker).rows + (to - from) + 1 <= usize::MAX,
    ensures
        (sublines_view(sublines@), final(seeker)@) == wrap_line(
            text@.subrange(from as int, to as int),
            dim,
            old(seeker)@,
        ),
        final(seeker).rows <= old(seeker).rows + (to - from) + 1 || final(seeker).rows <= dim.row,
{
    let ghost line = text@.subrange(from as int, to as int);
    let ghost start = seeker@;
    let mut sublines: Vec<Vec<u8>> = Vec::new();
    let mut at: usize = from;
    let mut done = false;
    assert(sublines_view(sublines@) =~= Seq::<Seq<u8>>::empty());
    assert(text@.subrange(at as int, to as int) =~= line);
    while !done
        invariant
            from <= at <= to <= text@.len(),
            line == text@.subrange(from as int, to as int),
            start.rows + (to - from) + 1 <= usize::MAX,
            !done ==> seeker.rows <= start.rows + (at - from) || seeker.rows < dim.row,
            done ==> seeker.rows <= start.rows + (to - from) + 1 || seeker.rows <= dim.row,
            !done ==> wrap_line(line, dim, start) == (
                sublines_view(sublines@) + wrap_line(
                    text@.subrange(at as int, to as int),
                    dim,
                    seeker@,
                ).0,
                wrap_line(text@.subrange(at as int, to as int), dim, seeker@).1,
            ),
            done ==> wrap_line(line, dim, start) == (sublines_view(sublines@), seeker@),
        decreases
                if done {
                    0int
                } else {
                    1int
                },
                to - at,
                (if seeker.rows < dim.row {
                    dim.row - seeker.rows
                } else {
                    0
                }),
    {
        let ghost rest = text@.subrange(at as int, to as int);
        let ghost kept = sublines_view(sublines@);
        let ghost before = seeker@;
        let left = to - at;
        let width = if left < dim.col {
            left
        } else {
            dim.col
        };
        let mut partial: Vec<u8> = Vec::new();
        let mut i: usize = 0;
        while i < width
            invariant
                i <= width,
                at + width <= to <= text@.len(),
                partial@ == text@.subrange(at as int, at + i),
            decreases width - i,
        {
            partial.push(text[at + i]);
            i += 1;
            assert(partial@ =~= text@.subrange(at as int, at + i));
        }
        assert(partial@ =~= rest.take(width as int));
        let last = at + width == to;
        if seeker.found.is_none() {
            if seeker.distance < width || (last && seeker.distance == width) {
                seeker.found = Some(Plot::new(seeker.rows, seeker.distance));
            } else {
                seeker.distance = seeker.distance - width;
            }
        }
        assert(last == (rest.skip(width as int).len() == 0));
        assert(seeker@ == seek(before, width as int, last));
        sublines.push(partial);
        seeker.rows = seeker.rows + 1;
        at = at + width;
        proof {
            assert(text@.subrange(at as int, to as int) =~= rest.skip(width as int));
            assert(sublines_view(sublines@) =~= kept + seq![rest.take(width as int)]);
            let more = wrap_line(rest.skip(width as int), dim, seeker@);
            assert(kept + (seq![rest.take(width as int)] + more.0) =~= kept + seq![
                rest.take(width as int),
            ] + more.0);
        }
        if at == to || seeker.rows >= dim.row {
            done = true;
        }
    }
    sublines
}

/// Wrap `content` to the viewport `dim`: every logical line is cut into
/// sublines of at most `dim.col` bytes, each on a visual row of its own.
/// With them comes the place on the viewport of the cursor, which stands
/// `cursor` bytes into the text; the origin where it is not found.
pub fn wrap_content(content: String, dim: Plot, cursor: usize) -> (out: (Vec<Vec<Vec<u8>>>, Plot))
    requires
        2 * encode_utf8(content@).len() + dim.row + 1 <= usize::MAX,
    ensures
        (lines_view(out.0@), out.1) == wrapped(encode_utf8(content@), dim, cursor as int),
{
    let text = content.as_str().as_bytes_vec();
    let ghost whole = text@;
    let ghost first = WrapState { rows: 0, distance: cursor as int, found: None };
    let mut seeker = Seeker { rows: 0, distance: cursor, found: None };
    let mut out: Vec<Vec<Vec<u8>>> = Vec::new();
    let mut at: usize = 0;
    let mut done = false;
    let mut lines: usize = 0;
    assert(lines_view(out@) =~= Seq::<Seq<Seq<u8>>>::empty());
    assert(whole.skip(0) =~= whole);
    while !done
        invariant
            at <= text@.len(),
            whole == text@,
            2 * whole.len() + dim.row + 1 <= usize::MAX,
            !done ==> seeker.rows <= at + lines + dim.row,
            !done ==> lines <= at,
            !done ==> wrap_lines(whole, dim, first) == (
                lines_view(out@) + wrap_lines(whole.skip(at as int), dim, seeker@).0,
                wrap_lines(whole.skip(at as int), dim, seeker@).1,
            ),
            done ==> wrap_lines(whole, dim, first) == (lines_view(out@), seeker@),
        decreases
                if done {
                    0int
                } else {
                    1int
                },
                text@.len() - at,
    {
        let ghost rest = whole.skip(at as int);
        let ghost kept = lines_view(out@);
        let mut end: usize = at;
        while end < text.len() && text[end] != LINE_BREAK
            invariant
                at <= end <= text@.len(),
                forall|i: int| at <= i < end ==> text@[i] != LINE_BREAK,
            decreases text@.len() - end,
        {
            end += 1;
        }
        proof {
            assert forall|i: int| 0 <= i < end - at implies rest[i] != LINE_BREAK by {
                assert(rest[i] == text@[at + i]);
            }
            lemma_first_break_is(rest, end - at);
            assert(rest.take(end - at) =~= text@.subrange(at as int, end as int));
        }
        let sublines = wrap_one(&text, at, end, dim, &mut seeker);
        if seeker.distance > 0 {
            seeker.distance = seeker.distance - 1;
        }
        out.push(sublines);
        proof {
            assert(lines_view(out@) =~= kept + seq![sublines_view(sublines@)]);
        }
        if end >= text.len() {
            done = true;
        } else {
            proof {
                assert(rest.skip(end - at + 1) =~= whole.skip(end + 1));
                let more = wrap_lines(whole.skip(end + 1), dim, seeker@);
                assert(kept + (seq![sublines_view(sublines@)] + more.0) =~= kept + seq![
                    sublines_view(sublines@),
                ] + more.0);
            }
            at = end + 1;
            lines = lines + 1;
        }
    }
    let place = match seeker.found {
        Some(plot) => plot,
        None => Plot::new(0, 0),
    };
    (out, place)
}

} // verus!
