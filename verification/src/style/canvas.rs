//! An off-screen grid of cells with styled regions, which can take in
//! child canvases and is flushed as a stream of terminal commands.

use vstd::prelude::*;
use vstd::arithmetic::div_mod::{
    lemma_div_multiples_vanish_fancy, lemma_fundamental_div_mod,
    lemma_fundamental_div_mod_converse, lemma_mod_bound,
};
use crate::plot::Plot;
use crate::sorted::{insert_sorted, lemma_with_value, rising, with_value};
use crate::style::style::{command_views, CommandView, StyleAttribute, StyledText, TermCommand};

verus! {

/// The cell a blank canvas is filled with.
pub const BLANK: u8 = 32;

/// The cell a blocked canvas is filled with.
pub const BLOCK: u8 = 37;

/// A half-open run of cells, in row-major order, that an attribute holds on.
#[derive(Clone, Copy, Debug, PartialEq, Eq, Structural)]
pub struct Region {
    pub attribute: StyleAttribute,
    pub start: usize,
    pub end: usize,
}

/// Why a canvas refused a position or a region.
#[derive(Clone, Copy, Debug, PartialEq, Eq, Structural)]
pub enum CanvasError {
    /// The row is not on the canvas.
    RowOutOfBounds,
    /// The column is not on the canvas.
    ColOutOfBounds,
    /// The region starts or ends behind the last cell, or ends before it starts.
    RangeOutOfBounds,
}

/// A cell of a grid counted row by row lies on the grid, and its row and
/// column are found again by division.
pub proof fn lemma_cell(rows: int, cols: int, row: int, col: int)
    requires
        0 <= row < rows,
        0 <= col < cols,
    ensures
        0 <= row * cols + col < rows * cols,
        (row * cols + col) / cols == row,
        (row * cols + col) % cols == col,
{
    assert(row * cols + col < rows * cols) by (nonlinear_arith)
        requires
            0 <= row < rows,
            0 <= col < cols,
    {
        assert((row + 1) * cols <= rows * cols);
    }
    assert(0 <= row * cols) by (nonlinear_arith)
        requires
            0 <= row,
            0 < cols,
    ;
    lemma_fundamental_div_mod_converse(row * cols + col, cols, row, col);
}

/// The row and column of a cell of a grid lie on the grid.
pub proof fn lemma_expand(rows: int, cols: int, loc: int)
    requires
        0 < cols,
        0 <= loc < rows * cols,
    ensures
        0 <= loc / cols < rows,
        0 <= loc % cols < cols,
        loc == (loc / cols) * cols + loc % cols,
{
    lemma_fundamental_div_mod(loc, cols);
    lemma_mod_bound(loc, cols);
    let q = loc / cols;
    assert(cols * q == q * cols) by (nonlinear_arith);
    assert(0 <= q < rows) by (nonlinear_arith)
        requires
            0 < cols,
            0 <= loc < rows * cols,
            loc == q * cols + loc % cols,
            0 <= loc % cols < cols,
    ;
}

/// The regions with `region` among them: behind the others where it is
/// new, and as they are where it is registered already.
pub open spec fn with_region(regions: Seq<Region>, region: Region) -> Seq<Region> {
    if regions.contains(region) {
        regions
    } else {
        regions.push(region)
    }
}

/// The regions with each of `attributes` registered on the cells from
/// `start` up to `end`, in their order.
pub open spec fn with_regions(
    regions: Seq<Region>,
    attributes: Seq<StyleAttribute>,
    start: usize,
    end: usize,
) -> Seq<Region>
    decreases attributes.len(),
{
    if attributes.len() == 0 {
        regions
    } else {
        with_region(
            with_regions(regions, attributes.drop_last(), start, end),
            Region { attribute: attributes.last(), start, end },
        )
    }
}

/// Registering keeps what is registered, registers each attribute, and
/// registers nothing else.
pub proof fn lemma_with_regions(
    regions: Seq<Region>,
    attributes: Seq<StyleAttribute>,
    start: usize,
    end: usize,
)
    ensures
        forall|r: Region|
            regions.contains(r) ==> #[trigger] with_regions(regions, attributes, start, end).contains(r),
        forall|i: int|
            0 <= i < attributes.len() ==> with_regions(regions, attributes, start, end).contains(
                Region { attribute: #[trigger] attributes[i], start, end },
            ),
        forall|i: int|
            0 <= i < with_regions(regions, attributes, start, end).len() ==> regions.contains(
                #[trigger] with_regions(regions, attributes, start, end)[i],
            ) || (with_regions(regions, attributes, start, end)[i].start == start && with_regions(
                regions,
                attributes,
                start,
                end,
            )[i].end == end),
    decreases attributes.len(),
{
    if attributes.len() > 0 {
        let front = with_regions(regions, attributes.drop_last(), start, end);
        let one = Region { attribute: attributes.last(), start, end };
        let all = with_regions(regions, attributes, start, end);
        lemma_with_regions(regions, attributes.drop_last(), start, end);
        assert forall|r: Region| front.contains(r) implies all.contains(r) by {
            let w = choose|w: int| 0 <= w < front.len() && front[w] == r;
            assert(all[w] == r);
        }
        assert(all.contains(one)) by {
            if !front.contains(one) {
                assert(all[front.len() as int] == one);
            }
        }
        assert forall|i: int| 0 <= i < attributes.len() implies all.contains(
            Region { attribute: #[trigger] attributes[i], start, end },
        ) by {
            if i < attributes.len() - 1 {
                assert(attributes.drop_last()[i] == attributes[i]);
            }
        }
        assert forall|i: int| 0 <= i < all.len() implies regions.contains(#[trigger] all[i]) || (
        all[i].start == start && all[i].end == end) by {
            if i < front.len() {
                assert(all[i] == front[i]);
            }
        }
    }
}

/// Registering what is registered already changes nothing.
pub proof fn lemma_with_regions_again(
    regions: Seq<Region>,
    attributes: Seq<StyleAttribute>,
    start: usize,
    end: usize,
)
    requires
        forall|i: int|
            0 <= i < attributes.len() ==> regions.contains(
                Region { attribute: #[trigger] attributes[i], start, end },
            ),
    ensures
        with_regions(regions, attributes, start, end) == regions,
    decreases attributes.len(),
{
    if attributes.len() > 0 {
        assert forall|i: int| 0 <= i < attributes.drop_last().len() implies regions.contains(
            Region { attribute: #[trigger] attributes.drop_last()[i], start, end },
        ) by {
            assert(attributes.drop_last()[i] == attributes[i]);
        }
        lemma_with_regions_again(regions, attributes.drop_last(), start, end);
        assert(attributes.last() == attributes[attributes.len() - 1]);
    }
}

/// A canvas as its operations see it.
pub struct CanvasView {
    pub dim: Plot,
    pub text: Seq<u8>,
    pub regions: Seq<Region>,
    pub cursor: int,
    pub eol: bool,
    pub show_cursor: bool,
    pub empty: bool,
}

impl CanvasView {
    /// The number of cells.
    pub open spec fn area(self) -> int {
        self.dim.row * self.dim.col
    }

    /// The index of the last cell.
    pub open spec fn last(self) -> int {
        self.area() - 1
    }

    /// The canvas has a cell, the text fills it, the cursor is on it, and
    /// every region ends no earlier than it starts and no later than behind
    /// the last cell.
    pub open spec fn wf(self) -> bool {
        &&& 1 <= self.dim.row
        &&& 1 <= self.dim.col
        &&& self.area() <= usize::MAX
        &&& self.text.len() == self.area()
        &&& 0 <= self.cursor < self.area()
        &&& forall|i: int|
            0 <= i < self.regions.len() ==> (#[trigger] self.regions[i]).start
                <= self.regions[i].end <= self.area()
    }

    /// The index of the cell at `pos`.
    pub open spec fn flat(self, pos: Plot) -> int {
        pos.row * self.dim.col + pos.col
    }

    /// Whether `pos` is a cell of the canvas.
    pub open spec fn holds(self, pos: Plot) -> bool {
        pos.row < self.dim.row && pos.col < self.dim.col
    }

    /// The canvas with the cursor at `pos`, which no longer knows of a
    /// write that stopped at the end of its row.
    pub open spec fn moved_to(self, pos: Plot) -> CanvasView {
        CanvasView { cursor: self.flat(pos), eol: false, ..self }
    }

    /// Where a write begins: at the cursor, or one cell behind it where the
    /// write before stopped at the end of its row.
    pub open spec fn write_start(self) -> int {
        if self.eol {
            self.cursor + 1
        } else {
            self.cursor
        }
    }

    /// How far a write of `len` cells reaches where nothing but the canvas
    /// stops it: behind its last cell, behind the last cell of the canvas
    /// at most.
    pub open spec fn write_reach(self, len: int) -> int {
        let start = self.write_start();
        if start + len < self.area() {
            start + len
        } else {
            self.area()
        }
    }

    /// Whether a write of `len` cells stops at the end of the row it begins
    /// on: it does not wrap and reaches that far.
    pub open spec fn write_stops(self, len: int, wrap: bool) -> bool {
        let start = self.write_start();
        !wrap && start <= self.last() && self.write_reach(len) >= (start / (self.dim.col as int)
            + 1) * self.dim.col
    }

    /// Where a write of `len` cells ends: behind its last cell, behind the
    /// last cell of the canvas at most, and at the end of the row where it
    /// does not wrap.
    pub open spec fn write_end(self, len: int, wrap: bool) -> int {
        let start = self.write_start();
        if self.write_stops(len, wrap) {
            (start / (self.dim.col as int) + 1) * self.dim.col
        } else {
            self.write_reach(len)
        }
    }

    /// The canvas after `cells` are written from the cursor with
    /// `attributes`: the cells that fit stand in the text, each attribute
    /// holds on just the cells that were written, and the cursor stands
    /// behind them, on the last cell where they reach that far. A write
    /// that would begin behind the last cell writes nothing.
    pub open spec fn written(
        self,
        cells: Seq<u8>,
        attributes: Seq<StyleAttribute>,
        wrap: bool,
    ) -> CanvasView {
        let start = self.write_start();
        let end = self.write_end(cells.len() as int, wrap);
        if start > self.last() {
            CanvasView { cursor: self.last(), eol: false, ..self }
        } else {
            CanvasView {
                text: self.text.take(start) + cells.take(end - start) + self.text.skip(end),
                regions: with_regions(self.regions, attributes, start as usize, end as usize),
                cursor: if end > self.last() {
                    self.last()
                } else {
                    end
                },
                eol: self.write_stops(cells.len() as int, wrap),
                empty: false,
                ..self
            }
        }
    }

    /// The canvas after `cells` are written at `pos` and the cursor is put
    /// back where it was, with what it knew of the write before.
    pub open spec fn written_at(
        self,
        cells: Seq<u8>,
        attributes: Seq<StyleAttribute>,
        wrap: bool,
        pos: Plot,
    ) -> CanvasView {
        CanvasView {
            cursor: self.cursor,
            eol: self.eol,
            ..self.moved_to(pos).written(cells, attributes, wrap)
        }
    }

    /// The canvas with `attribute` on the cells from `start` up to `end`.
    pub open spec fn styled(self, attribute: StyleAttribute, start: int, end: int) -> CanvasView {
        CanvasView {
            regions: with_region(
                self.regions,
                Region { attribute, start: start as usize, end: end as usize },
            ),
            empty: false,
            ..self
        }
    }

    /// Whether a region from `start` up to `end` is taken.
    pub open spec fn takes(self, start: int, end: int) -> bool {
        0 <= start <= end <= self.last()
    }

    /// A canvas of the dimension `dim` on which nothing was written.
    pub open spec fn blank(dim: Plot) -> CanvasView {
        CanvasView {
            dim,
            text: Seq::new((dim.row * dim.col) as nat, |i: int| BLANK),
            regions: Seq::empty(),
            cursor: 0,
            eol: false,
            show_cursor: false,
            empty: true,
        }
    }

    /// The canvas with the cursor at `pos`, where that is a cell of it.
    pub open spec fn go(self, pos: Plot) -> CanvasView {
        if self.holds(pos) {
            self.moved_to(pos)
        } else {
            self
        }
    }

    /// The canvas after `cells` are written at `pos`, where that is a cell
    /// of it.
    pub open spec fn put_at(
        self,
        cells: Seq<u8>,
        attributes: Seq<StyleAttribute>,
        wrap: bool,
        pos: Plot,
    ) -> CanvasView {
        if self.holds(pos) {
            self.written_at(cells, attributes, wrap, pos)
        } else {
            self
        }
    }

    /// The canvas with `attribute` on the cells from `start` up to `end`,
    /// where it takes that region.
    pub open spec fn tint(self, attribute: StyleAttribute, start: Plot, end: Plot) -> CanvasView {
        if self.takes(self.flat(start), self.flat(end)) {
            self.styled(attribute, self.flat(start), self.flat(end))
        } else {
            self
        }
    }

    /// The canvas with the cursor at the start of the next row; where the
    /// write before stopped at the end of its row, the canvas that no
    /// longer knows of that; on the last row, the canvas as it is.
    pub open spec fn down(self) -> CanvasView {
        if self.eol {
            CanvasView { eol: false, ..self }
        } else if self.cursor / (self.dim.col as int) + 1 < self.dim.row {
            CanvasView { cursor: (self.cursor / (self.dim.col as int) + 1) * self.dim.col, ..self }
        } else {
            self
        }
    }
}

/// The breakpoints that `regions` give on a canvas whose last cell has
/// the index `last`: the first cell, the last, and every start and end of
/// a region, in rising order, each once.
pub open spec fn breakpoints_of(regions: Seq<Region>, last: usize) -> Seq<usize>
    decreases regions.len(),
{
    if regions.len() == 0 {
        with_value(with_value(Seq::empty(), 0), last)
    } else {
        with_value(
            with_value(breakpoints_of(regions.drop_last(), last), regions.last().start),
            regions.last().end,
        )
    }
}

/// Whether a region of `regions` starts or ends at `k`.
pub open spec fn marks(regions: Seq<Region>, k: usize) -> bool {
    exists|i: int|
        0 <= i < regions.len() && ((#[trigger] regions[i]).start == k || regions[i].end == k)
}

/// A region starts or ends at `k` where the last one does or one before it.
pub proof fn lemma_marks_step(regions: Seq<Region>, k: usize)
    requires
        regions.len() > 0,
    ensures
        marks(regions, k) <==> marks(regions.drop_last(), k) || regions.last().start == k
            || regions.last().end == k,
{
    let front = regions.drop_last();
    if marks(regions, k) {
        let i = choose|i: int|
            0 <= i < regions.len() && ((#[trigger] regions[i]).start == k || regions[i].end == k);
        if i < front.len() {
            assert(front[i].start == k || front[i].end == k);
        }
    }
    if marks(front, k) {
        let i = choose|i: int|
            0 <= i < front.len() && ((#[trigger] front[i]).start == k || front[i].end == k);
        assert(regions[i].start == k || regions[i].end == k);
    }
    if regions.last().start == k || regions.last().end == k {
        assert(regions[regions.len() - 1].start == k || regions[regions.len() - 1].end == k);
    }
}

/// The breakpoints rise strictly and are just the first cell, the last
/// cell and the starts and ends of the regions.
pub proof fn lemma_breakpoints_of(regions: Seq<Region>, last: usize)
    ensures
        rising(breakpoints_of(regions, last)),
        forall|k: usize|
            #![trigger breakpoints_of(regions, last).contains(k)]
            breakpoints_of(regions, last).contains(k) <==> (k == 0 || k == last || marks(
                regions,
                k,
            )),
    decreases regions.len(),
{
    let empty = Seq::<usize>::empty();
    if regions.len() == 0 {
        lemma_with_value(empty, 0);
        lemma_with_value(with_value(empty, 0), last);
        let one = with_value(empty, 0);
        let two = with_value(one, last);
        assert(breakpoints_of(regions, last) == two);
        assert forall|k: usize| two.contains(k) <==> (k == 0 || k == last || marks(regions, k)) by {
            assert(!empty.contains(k));
            assert(one.contains(k) <==> empty.contains(k) || k == 0);
            assert(two.contains(k) <==> one.contains(k) || k == last);
        }
    } else {
        let front = regions.drop_last();
        let one = regions.last();
        lemma_breakpoints_of(front, last);
        let base = breakpoints_of(front, last);
        lemma_with_value(base, one.start);
        lemma_with_value(with_value(base, one.start), one.end);
        let more = with_value(base, one.start);
        let all = with_value(more, one.end);
        assert(breakpoints_of(regions, last) == all);
        assert forall|k: usize|
            all.contains(k) <==> (k == 0 || k == last || marks(regions, k)) by {
            lemma_marks_step(regions, k);
            assert(base.contains(k) <==> (k == 0 || k == last || marks(front, k)));
            assert(more.contains(k) <==> base.contains(k) || k == one.start);
            assert(all.contains(k) <==> more.contains(k) || k == one.end);
        }
    }
}

/// What a flush has come to: the attributes in force, a stack for each
/// kind, and the commands so far.
pub struct FlushState {
    pub stacks: Seq<Seq<StyleAttribute>>,
    pub out: Seq<CommandView>,
}

/// The state after the attribute of the kind of `attribute` that is in
/// force ends: the one below it is in force again, or the kind is reset.
pub open spec fn undo_one(st: FlushState, attribute: StyleAttribute) -> FlushState {
    let stack = st.stacks[attribute.kind()];
    if stack.len() == 0 {
        st
    } else {
        let rest = stack.drop_last();
        FlushState {
            stacks: st.stacks.update(attribute.kind(), rest),
            out: st.out.push(
                if rest.len() > 0 {
                    CommandView::Apply(rest.last())
                } else {
                    CommandView::Reset(stack.last())
                },
            ),
        }
    }
}

/// The state after `attribute` comes into force.
pub open spec fn apply_one(st: FlushState, attribute: StyleAttribute) -> FlushState {
    FlushState {
        stacks: st.stacks.update(attribute.kind(), st.stacks[attribute.kind()].push(attribute)),
        out: st.out.push(CommandView::Apply(attribute)),
    }
}

/// The state after every region of `regions` that ends at `at` has ended.
pub open spec fn ends_undone(st: FlushState, regions: Seq<Region>, at: usize) -> FlushState
    decreases regions.len(),
{
    if regions.len() == 0 {
        st
    } else {
        let before = ends_undone(st, regions.drop_last(), at);
        if regions.last().end == at {
            undo_one(before, regions.last().attribute)
        } else {
            before
        }
    }
}

/// The state after every region of `regions` that starts at `at` has started.
pub open spec fn starts_applied(st: FlushState, regions: Seq<Region>, at: usize) -> FlushState
    decreases regions.len(),
{
    if regions.len() == 0 {
        st
    } else {
        let before = starts_applied(st, regions.drop_last(), at);
        if regions.last().start == at {
            apply_one(before, regions.last().attribute)
        } else {
            before
        }
    }
}

/// The commands that print the cells from `from` up to `to`, row by row
/// from `row` to `last_row`, on a terminal where the canvas lies at `origin`.
pub open spec fn chunk_rows(
    text: Seq<u8>,
    cols: int,
    origin: Plot,
    from: int,
    to: int,
    row: int,
    last_row: int,
) -> Seq<CommandView>
    decreases last_row - row,
{
    let place = CommandView::MoveTo { row: row + origin.row, col: from % cols + origin.col };
    if row >= last_row {
        seq![place, CommandView::Print(text.subrange(from, to))]
    } else {
        seq![place, CommandView::Print(text.subrange(from, (row + 1) * cols))] + chunk_rows(
            text,
            cols,
            origin,
            (row + 1) * cols,
            to,
            row + 1,
            last_row,
        )
    }
}

/// The commands that print the cells from `from` up to `to`.
pub open spec fn chunk(text: Seq<u8>, cols: int, origin: Plot, from: int, to: int) -> Seq<
    CommandView,
> {
    chunk_rows(text, cols, origin, from, to, from / cols, to / cols)
}

/// The commands that put the kind of each attribute of `stack` back to its default.
pub open spec fn resets(stack: Seq<StyleAttribute>) -> Seq<CommandView> {
    Seq::new(stack.len(), |i: int| CommandView::Reset(stack[i]))
}

impl CanvasView {
    /// The breakpoints of the canvas.
    pub open spec fn breakpoints(self) -> Seq<usize> {
        breakpoints_of(self.regions, self.last() as usize)
    }

    /// Whether a region starts or ends at `k`, or `k` is the first or the
    /// last cell.
    pub open spec fn is_breakpoint(self, k: usize) -> bool {
        k == 0 || k == self.last() || marks(self.regions, k)
    }

    /// The state of a flush after the runs between the breakpoints `bps`:
    /// at the left end of each run the regions that end there end, those
    /// that start there start, and the run is printed.
    pub open spec fn runs_flushed(self, origin: Plot, bps: Seq<usize>, st: FlushState) -> FlushState
        decreases bps.len(),
    {
        if bps.len() < 2 {
            st
        } else {
            let undone = ends_undone(st, self.regions, bps[0]);
            let applied = starts_applied(undone, self.regions, bps[0]);
            let printed = FlushState {
                stacks: applied.stacks,
                out: applied.out + chunk(
                    self.text,
                    self.dim.col as int,
                    origin,
                    bps[0] as int,
                    bps[1] as int,
                ),
            };
            self.runs_flushed(origin, bps.drop_first(), printed)
        }
    }

    /// The commands that show the canvas on a terminal on which it lies at
    /// `origin`: the runs between its breakpoints, then a reset for each
    /// attribute still in force, kind by kind.
    pub open spec fn flushed(self, origin: Plot) -> Seq<CommandView> {
        let start = FlushState {
            stacks: seq![Seq::empty(), Seq::empty(), Seq::empty()],
            out: Seq::empty(),
        };
        let done = self.runs_flushed(origin, self.breakpoints(), start);
        done.out + resets(done.stacks[0]) + resets(done.stacks[1]) + resets(done.stacks[2])
    }

    /// Whether the cell at `row` and `col` is covered by a child of the
    /// dimension `dim` that lies at `pos`.
    pub open spec fn covered(pos: Plot, dim: Plot, row: int, col: int) -> bool {
        pos.row <= row < pos.row + dim.row && pos.col <= col < pos.col + dim.col
    }

    /// Where the cell `loc` of a child with `cols` columns, lying at `pos`,
    /// lies on this canvas.
    pub open spec fn carried(self, pos: Plot, cols: int, loc: int) -> int {
        (loc / cols + pos.row) * self.dim.col + (loc % cols + pos.col)
    }

    /// The regions of a child carried over to this canvas: each by its
    /// start and its end, those left out that this canvas does not take.
    pub open spec fn regions_carried(self, pos: Plot, cols: int, regions: Seq<Region>) -> Seq<
        Region,
    >
        decreases regions.len(),
    {
        if regions.len() == 0 {
            Seq::empty()
        } else {
            let before = self.regions_carried(pos, cols, regions.drop_last());
            let start = self.carried(pos, cols, regions.last().start as int);
            let end = self.carried(pos, cols, regions.last().end as int);
            if self.takes(start, end) {
                before.push(
                    Region {
                        attribute: regions.last().attribute,
                        start: start as usize,
                        end: end as usize,
                    },
                )
            } else {
                before
            }
        }
    }

    /// The canvas with `child` laid over it at `pos`: the cells of the
    /// child that fall on the canvas stand in its text, and the regions of
    /// the child hold where they come to lie.
    pub open spec fn merged(self, pos: Plot, child: CanvasView) -> CanvasView {
        CanvasView {
            text: Seq::new(
                self.text.len(),
                |k: int|
                    {
                        let row = k / (self.dim.col as int);
                        let col = k % (self.dim.col as int);
                        if Self::covered(pos, child.dim, row, col) {
                            child.text[(row - pos.row) * child.dim.col + (col - pos.col)]
                        } else {
                            self.text[k]
                        }
                    },
            ),
            regions: self.regions + self.regions_carried(pos, child.dim.col as int, child.regions),
            empty: false,
            ..self
        }
    }
}

/// The breakpoints of a flush are the first cell, the last cell and the
/// starts and ends of the regions, sorted and each once.
pub proof fn lemma_breakpoints(v: CanvasView)
    requires
        v.wf(),
    ensures
        rising(v.breakpoints()),
        forall|k: usize|
            #![trigger v.breakpoints().contains(k)]
            v.breakpoints().contains(k) <==> v.is_breakpoint(k),
{
    let last = v.last() as usize;
    lemma_breakpoints_of(v.regions, last);
    assert forall|k: usize| v.breakpoints().contains(k) <==> v.is_breakpoint(k) by {
        assert(breakpoints_of(v.regions, last).contains(k) <==> (k == 0 || k == last || marks(
            v.regions,
            k,
        )));
    }
}

/// Writing the same styled text at the same place a second time changes
/// nothing, so that the canvas is flushed as after the first time.
pub proof fn lemma_write_idempotent(
    v: CanvasView,
    cells: Seq<u8>,
    attributes: Seq<StyleAttribute>,
    wrap: bool,
    pos: Plot,
    origin: Plot,
)
    requires
        v.wf(),
        v.holds(pos),
    ensures
        v.written_at(cells, attributes, wrap, pos).written_at(cells, attributes, wrap, pos)
            == v.written_at(cells, attributes, wrap, pos),
        v.written_at(cells, attributes, wrap, pos).written_at(
            cells,
            attributes,
            wrap,
            pos,
        ).flushed(origin) == v.written_at(cells, attributes, wrap, pos).flushed(origin),
{
    lemma_cell(v.dim.row as int, v.dim.col as int, pos.row as int, pos.col as int);
    let once = v.written_at(cells, attributes, wrap, pos);
    let twice = once.written_at(cells, attributes, wrap, pos);
    let at = v.moved_to(pos);
    let start = at.write_start();
    let end = at.write_end(cells.len() as int, wrap);
    assert(once.moved_to(pos).write_start() == start);
    assert(once.moved_to(pos).write_stops(cells.len() as int, wrap) == at.write_stops(
        cells.len() as int,
        wrap,
    ));
    assert(once.moved_to(pos).write_end(cells.len() as int, wrap) == end);
    lemma_expand(v.dim.row as int, v.dim.col as int, start);
    let row_end = (start / (v.dim.col as int) + 1) * v.dim.col;
    assert(start < row_end <= v.area()) by (nonlinear_arith)
        requires
            start == (start / (v.dim.col as int)) * v.dim.col + start % (v.dim.col as int),
            0 <= start % (v.dim.col as int) < v.dim.col,
            0 <= start / (v.dim.col as int) < v.dim.row,
            row_end == (start / (v.dim.col as int) + 1) * v.dim.col,
            v.area() == v.dim.row * v.dim.col,
    ;
    assert(start <= end <= v.area());
    assert(end - start <= cells.len());
    assert(twice.text =~= once.text);
    lemma_with_regions(v.regions, attributes, start as usize, end as usize);
    lemma_with_regions_again(once.regions, attributes, start as usize, end as usize);
}

/// The index of the cell at `row` and `col` of a grid with `cols` columns.
pub open spec fn cell(cols: int, row: int, col: int) -> int {
    row * cols + col
}

/// Queue one command.
fn emit(out: &mut Vec<TermCommand>, command: TermCommand)
    ensures
        command_views(final(out)@) == command_views(old(out)@).push(command@),
{
    out.push(command);
    assert(command_views(out@) =~= command_views(old(out)@).push(command@));
}

/// The cells of `text` from `from` up to `to`.
fn copy_range(text: &Vec<u8>, from: usize, to: usize) -> (cells: Vec<u8>)
    requires
        from <= to <= text@.len(),
    ensures
        cells@ == text@.subrange(from as int, to as int),
{
    let mut cells: Vec<u8> = Vec::new();
    let mut i: usize = from;
    while i < to
        invariant
            from <= i <= to <= text@.len(),
            cells@ == text@.subrange(from as int, i as int),
        decreases to - i,
    {
        cells.push(text[i]);
        i += 1;
        assert(cells@ =~= text@.subrange(from as int, i as int));
    }
    cells
}

/// A flush under way: the attributes in force, a stack for each kind, and
/// the commands queued so far.
pub struct Flusher {
    color: Vec<StyleAttribute>,
    weight: Vec<StyleAttribute>,
    background: Vec<StyleAttribute>,
    out: Vec<TermCommand>,
}

impl View for Flusher {
    type V = FlushState;

    closed spec fn view(&self) -> FlushState {
        FlushState {
            stacks: seq![self.color@, self.weight@, self.background@],
            out: command_views(self.out@),
        }
    }
}

impl Flusher {
    /// A flush with no attribute in force and no command queued.
    pub fn new() -> (fl: Self)
        ensures
            fl@ == (FlushState {
                stacks: seq![Seq::empty(), Seq::empty(), Seq::empty()],
                out: Seq::empty(),
            }),
    {
        let fl = Flusher {
            color: Vec::new(),
            weight: Vec::new(),
            background: Vec::new(),
            out: Vec::new(),
        };
        assert(command_views(fl.out@) =~= Seq::<CommandView>::empty());
        fl
    }

    /// Bring `attribute` into force.
    pub fn apply(&mut self, attribute: StyleAttribute)
        ensures
            final(self)@ == apply_one(old(self)@, attribute),
    {
        attribute.apply(&mut self.out);
        match attribute {
            StyleAttribute::Color(_) => self.color.push(attribute),
            StyleAttribute::Bold(_) => self.weight.push(attribute),
            StyleAttribute::BgColor(_) => self.background.push(attribute),
        }
        assert(self@.stacks =~= apply_one(old(self)@, attribute).stacks);
    }

    /// End the attribute of the kind of `attribute` that is in force: the
    /// one below it comes into force again, or the kind is reset.
    pub fn undo(&mut self, attribute: StyleAttribute)
        ensures
            final(self)@ == undo_one(old(self)@, attribute),
    {
        match attribute {
            StyleAttribute::Color(_) => Self::undo_attribute(&mut self.out, &mut self.color),
            StyleAttribute::Bold(_) => Self::undo_attribute(&mut self.out, &mut self.weight),
            StyleAttribute::BgColor(_) => Self::undo_attribute(&mut self.out, &mut self.background),
        }
        assert(self@.stacks =~= undo_one(old(self)@, attribute).stacks);
    }

    /// Take the attribute on top of `stack` off and queue the command that
    /// brings the one below it into force again, or the reset where there
    /// is none. With an empty stack nothing happens.
    pub fn undo_attribute(out: &mut Vec<TermCommand>, stack: &mut Vec<StyleAttribute>)
        ensures
            old(stack)@.len() == 0 ==> final(stack)@ == old(stack)@ && command_views(final(out)@)
                == command_views(old(out)@),
            old(stack)@.len() > 0 ==> final(stack)@ == old(stack)@.drop_last() && command_views(
                final(out)@,
            ) == command_views(old(out)@).push(
                if old(stack)@.len() > 1 {
                    CommandView::Apply(old(stack)@[old(stack)@.len() - 2])
                } else {
                    CommandView::Reset(old(stack)@.last())
                },
            ),
    {
        match stack.pop() {
            Some(this) => {
                assert(stack@ =~= old(stack)@.drop_last());
                let below = stack.len();
                if below > 0 {
                    let previous = stack[below - 1];
                    previous.apply(out);
                } else {
                    this.reset(out);
                }
            },
            None => {},
        }
    }

    /// Queue the commands that print the cells of `text` from `from` up to
    /// `to`, row by row, for a canvas with `cols` columns that lies at `pos`.
    pub fn queue_chunk(&mut self, text: &Vec<u8>, cols: usize, from: usize, to: usize, pos: Plot)
        requires
            0 < cols,
            from <= to <= text@.len(),
            pos.col + cols <= usize::MAX,
            pos.row + (text@.len() as int) / (cols as int) <= usize::MAX,
        ensures
            final(self)@ == (FlushState {
                stacks: old(self)@.stacks,
                out: old(self)@.out + chunk(text@, cols as int, pos, from as int, to as int),
            }),
    {
        let ghost before = command_views(self.out@);
        let ghost whole = chunk(text@, cols as int, pos, from as int, to as int);
        let end_line = to / cols;
        let mut line = from / cols;
        let mut first = from;
        proof {
            lemma_fundamental_div_mod(from as int, cols as int);
            lemma_fundamental_div_mod(to as int, cols as int);
            lemma_mod_bound(from as int, cols as int);
            lemma_mod_bound(to as int, cols as int);
            vstd::arithmetic::div_mod::lemma_div_is_ordered(from as int, to as int, cols as int);
            vstd::arithmetic::div_mod::lemma_div_is_ordered(
                to as int,
                text@.len() as int,
                cols as int,
            );
            assert(before + whole =~= before + chunk_rows(
                text@,
                cols as int,
                pos,
                first as int,
                to as int,
                line as int,
                end_line as int,
            ));
            assert((line + 1) * cols == cols * line + cols) by (nonlinear_arith);
            assert(line * cols == cols * line) by (nonlinear_arith);
        }
        while line < end_line
            invariant
                0 < cols,
                from <= to <= text@.len(),
                pos.col + cols <= usize::MAX,
                pos.row + (text@.len() as int) / (cols as int) <= usize::MAX,
                end_line == to / cols,
                end_line <= (text@.len() as int) / (cols as int),
                line <= end_line,
                line * cols <= first <= to,
                first < (line + 1) * cols,
                self@.stacks == old(self)@.stacks,
                before + whole == command_views(self.out@) + chunk_rows(
                    text@,
                    cols as int,
                    pos,
                    first as int,
                    to as int,
                    line as int,
                    end_line as int,
                ),
            decreases end_line - line,
        {
            proof {
                lemma_fundamental_div_mod(to as int, cols as int);
                lemma_mod_bound(first as int, cols as int);
                assert((line + 1) * cols <= end_line * cols) by (nonlinear_arith)
                    requires
                        line < end_line,
                        0 < cols,
                ;
                assert(end_line * cols == cols * end_line) by (nonlinear_arith);
            }
            let row_end = (line + 1) * cols;
            let ghost sofar = command_views(self.out@);
            let ghost rest = chunk_rows(
                text@,
                cols as int,
                pos,
                row_end as int,
                to as int,
                line + 1,
                end_line as int,
            );
            emit(&mut self.out, TermCommand::MoveTo { row: line + pos.row, col: first % cols + pos.col });
            emit(&mut self.out, TermCommand::Print(copy_range(text, first, row_end)));
            proof {
                let place = CommandView::MoveTo {
                    row: line + pos.row,
                    col: (first as int) % (cols as int) + pos.col,
                };
                let print = CommandView::Print(text@.subrange(first as int, row_end as int));
                assert(sofar + (seq![place, print] + rest) =~= sofar.push(place).push(print) + rest);
                assert((line + 2) * cols == (line + 1) * cols + cols) by (nonlinear_arith);
            }
            first = row_end;
            line += 1;
        }
        proof {
            lemma_mod_bound(first as int, cols as int);
        }
        let ghost sofar = command_views(self.out@);
        emit(&mut self.out, TermCommand::MoveTo { row: line + pos.row, col: first % cols + pos.col });
        emit(&mut self.out, TermCommand::Print(copy_range(text, first, to)));
        proof {
            let place = CommandView::MoveTo {
                row: line + pos.row,
                col: (first as int) % (cols as int) + pos.col,
            };
            let print = CommandView::Print(text@.subrange(first as int, to as int));
            assert(sofar + seq![place, print] =~= sofar.push(place).push(print));
        }
    }

    /// Queue a reset for every attribute still in force, kind by kind, and
    /// hand the commands out.
    pub fn finish(self) -> (out: Vec<TermCommand>)
        ensures
            command_views(out@) == self@.out + resets(self@.stacks[0]) + resets(self@.stacks[1])
                + resets(self@.stacks[2]),
    {
        let mut out = self.out;
        Self::reset_all(&mut out, &self.color);
        Self::reset_all(&mut out, &self.weight);
        Self::reset_all(&mut out, &self.background);
        out
    }

    /// Queue a reset for every attribute of `stack`, from the bottom up.
    fn reset_all(out: &mut Vec<TermCommand>, stack: &Vec<StyleAttribute>)
        ensures
            command_views(final(out)@) == command_views(old(out)@) + resets(stack@),
    {
        let ghost before = command_views(out@);
        let mut i: usize = 0;
        assert(before + resets(stack@.take(0)) =~= before);
        while i < stack.len()
            invariant
                i <= stack@.len(),
                command_views(out@) == before + resets(stack@.take(i as int)),
            decreases stack@.len() - i,
        {
            stack[i].reset(out);
            i += 1;
            assert(before + resets(stack@.take(i as int)) =~= (before + resets(
                stack@.take(i - 1),
            )).push(CommandView::Reset(stack@[i - 1])));
        }
        assert(stack@.take(i as int) =~= stack@);
    }
}

/// A writeable region that can be flushed to a terminal. Its size does not change.
pub struct Canvas {
    dim: Plot,
    regions: Vec<Region>,
    text: Vec<u8>,
    cursor: usize,
    eol: bool,
    show_cursor: bool,
    empty: bool,
}

impl View for Canvas {
    type V = CanvasView;

    closed spec fn view(&self) -> CanvasView {
        CanvasView {
            dim: self.dim,
            text: self.text@,
            regions: self.regions@,
            cursor: self.cursor as int,
            eol: self.eol,
            show_cursor: self.show_cursor,
            empty: self.empty,
        }
    }
}

impl Canvas {
    /// The canvas is well formed.
    pub open spec fn wf(&self) -> bool {
        self@.wf()
    }

    /// A canvas of the dimension `dim`, all cells blank, no styles.
    pub fn new(dim: Plot) -> (canvas: Self)
        requires
            1 <= dim.row,
            1 <= dim.col,
            dim.row * dim.col <= usize::MAX,
        ensures
            canvas.wf(),
            canvas@ == CanvasView::blank(dim),
    {
        let area = dim.row * dim.col;
        assert(area >= 1) by (nonlinear_arith)
            requires
                1 <= dim.row,
                1 <= dim.col,
                area == dim.row * dim.col,
        ;
        let mut text: Vec<u8> = Vec::new();
        let mut i: usize = 0;
        while i < area
            invariant
                i <= area,
                text@ == Seq::new(i as nat, |k: int| BLANK),
            decreases area - i,
        {
            text.push(BLANK);
            i += 1;
            assert(text@ =~= Seq::new(i as nat, |k: int| BLANK));
        }
        Canvas {
            dim,
            regions: Vec::new(),
            text,
            cursor: 0,
            eol: false,
            show_cursor: false,
            empty: true,
        }
    }

    /// The dimension of the canvas.
    pub fn get_dim(&self) -> (dim: &Plot)
        ensures
            *dim == self@.dim,
    {
        &self.dim
    }

    /// The row and column of the cell with the index `loc`.
    pub fn expand(&self, loc: usize) -> (pos: Plot)
        requires
            self.wf(),
        ensures
            pos.row == loc / self@.dim.col,
            pos.col == loc % self@.dim.col,
            loc < self@.area() ==> self@.holds(pos) && self@.flat(pos) == loc,
    {
        proof {
            if loc < self@.area() {
                lemma_expand(self.dim.row as int, self.dim.col as int, loc as int);
            }
        }
        Plot::new(loc / self.dim.col, loc % self.dim.col)
    }

    /// The index of the cell at `plot`, counted row by row.
    pub fn flatten(&self, plot: Plot) -> (loc: usize)
        requires
            self.wf(),
            plot.row * self@.dim.col + plot.col <= usize::MAX,
        ensures
            loc == self@.flat(plot),
    {
        assert(plot.row * self.dim.col <= plot.row * self.dim.col + plot.col);
        plot.row * self.dim.col + plot.col
    }

    /// The index of the last cell.
    pub fn get_end(&self) -> (end: usize)
        requires
            self.wf(),
        ensures
            end == self@.last(),
    {
        self.text.len() - 1
    }

    /// Move the cursor to `pos`, which must be a cell of the canvas.
    pub fn move_to(&mut self, pos: Plot) -> (res: Result<(), CanvasError>)
        requires
            old(self).wf(),
        ensures
            final(self).wf(),
            final(self)@ == old(self)@.go(pos),
            match res {
                Ok(()) => old(self)@.holds(pos) && final(self)@ == old(self)@.moved_to(pos),
                Err(e) => !old(self)@.holds(pos) && final(self)@ == old(self)@ && e == if pos.row
                    >= old(self)@.dim.row {
                    CanvasError::RowOutOfBounds
                } else {
                    CanvasError::ColOutOfBounds
                },
            },
    {
        if pos.row >= self.dim.row {
            return Err(CanvasError::RowOutOfBounds);
        }
        if pos.col >= self.dim.col {
            return Err(CanvasError::ColOutOfBounds);
        }
        proof {
            lemma_cell(self.dim.row as int, self.dim.col as int, pos.row as int, pos.col as int);
        }
        self.cursor = pos.row * self.dim.col + pos.col;
        self.eol = false;
        Ok(())
    }

    /// Go to the start of the next row; where the write before stopped at
    /// the end of its row, stay and forget that it did. On the last row
    /// there is no next row to go to.
    pub fn to_next_line(&mut self) -> (res: Result<(), CanvasError>)
        requires
            old(self).wf(),
        ensures
            final(self).wf(),
            final(self)@ == old(self)@.down(),
            match res {
                Ok(()) => if old(self)@.eol {
                    final(self)@ == (CanvasView { eol: false, ..old(self)@ })
                } else {
                    old(self)@.cursor / (old(self)@.dim.col as int) + 1 < old(self)@.dim.row
                        && final(self)@ == (CanvasView {
                        cursor: (old(self)@.cursor / (old(self)@.dim.col as int) + 1) * old(
                            self,
                        )@.dim.col,
                        ..old(self)@
                    })
                },
                Err(e) => !old(self)@.eol && old(self)@.cursor / (old(self)@.dim.col as int) + 1
                    == old(self)@.dim.row && final(self)@ == old(self)@ && e
                    == CanvasError::RowOutOfBounds,
            },
    {
        if self.eol {
            self.eol = false;
            return Ok(());
        }
        proof {
            lemma_expand(self.dim.row as int, self.dim.col as int, self.cursor as int);
        }
        let cursor = self.get_cursor();
        self.move_to(Plot::new(cursor.row + 1, 0))
    }

    /// The position of the cursor.
    pub fn get_cursor(&self) -> (pos: Plot)
        requires
            self.wf(),
        ensures
            pos.row == self@.cursor / (self@.dim.col as int),
            pos.col == self@.cursor % (self@.dim.col as int),
            self@.holds(pos),
            self@.flat(pos) == self@.cursor,
    {
        proof {
            lemma_expand(self.dim.row as int, self.dim.col as int, self.cursor as int);
        }
        Plot::new(self.cursor / self.dim.col, self.cursor % self.dim.col)
    }

    /// The last row that can be written to.
    pub fn last_row(&self) -> (row: usize)
        requires
            self.wf(),
        ensures
            row == self@.dim.row - 1,
    {
        self.dim.row - 1
    }

    /// The last column that can be written to.
    pub fn last_col(&self) -> (col: usize)
        requires
            self.wf(),
        ensures
            col == self@.dim.col - 1,
    {
        self.dim.col - 1
    }

    /// Turn the showing of the cursor on or off.
    pub fn show_cursor(&mut self, show: bool)
        ensures
            final(self)@ == (CanvasView { show_cursor: show, ..old(self)@ }),
    {
        self.show_cursor = show;
    }

    /// Whether nothing was written or styled yet.
    pub fn is_empty(&self) -> (empty: bool)
        ensures
            empty == self@.empty,
    {
        self.empty
    }

    /// Register `region`, where it is not registered already.
    fn register(&mut self, region: Region)
        ensures
            final(self).regions@ == with_region(old(self).regions@, region),
            final(self).text == old(self).text,
            final(self).dim == old(self).dim,
            final(self).cursor == old(self).cursor,
            final(self).eol == old(self).eol,
            final(self).show_cursor == old(self).show_cursor,
            final(self).empty == old(self).empty,
    {
        let mut i: usize = 0;
        while i < self.regions.len()
            invariant
                i <= self.regions@.len(),
                *self == *old(self),
                forall|k: int| 0 <= k < i ==> self.regions@[k] != region,
            decreases self.regions@.len() - i,
        {
            let known = self.regions[i];
            if known.attribute == region.attribute && known.start == region.start && known.end
                == region.end {
                assert(self.regions@[i as int] == region);
                return ;
            }
            i += 1;
        }
        self.regions.push(region);
    }

    /// Write `text` from the cursor, on to the next rows where `wrap` is
    /// set and to the end of the row where it is not.
    #[verifier::rlimit(60)]
    pub fn _write(&mut self, text: &StyledText, wrap: bool)
        requires
            old(self).wf(),
        ensures
            final(self).wf(),
            final(self)@ == old(self)@.written(text.cells(), text.attributes(), wrap),
    {
        let last = self.get_end();
        let ghost before = self@;
        if self.eol {
            self.eol = false;
            if self.cursor >= last {
                self.cursor = last;
                return ;
            }
            self.cursor += 1;
        }
        let start = self.cursor;
        let len = text.len();
        let area = last + 1;
        let mut end = if len < area - start {
            start + len
        } else {
            area
        };
        proof {
            lemma_expand(self.dim.row as int, self.dim.col as int, start as int);
        }
        if !wrap {
            let line = start / self.dim.col;
            assert((line + 1) * self.dim.col <= self.dim.row * self.dim.col) by (nonlinear_arith)
                requires
                    line < self.dim.row,
            ;
            let row_end = (line + 1) * self.dim.col;
            if end >= row_end {
                self.eol = true;
                end = row_end;
            }
            assert(start < row_end) by (nonlinear_arith)
                requires
                    start == line * self.dim.col + (start as int) % (self.dim.col as int),
                    (start as int) % (self.dim.col as int) < self.dim.col,
                    row_end == (line + 1) * self.dim.col,
            ;
        }
        assert(end == before.write_end(len as int, wrap));
        assert(self.eol == before.write_stops(len as int, wrap));
        let cells = text.get_cells();
        let mut i: usize = start;
        while i < end
            invariant
                start <= i <= end <= area,
                area == self.text@.len(),
                end - start <= cells@.len(),
                self.text@ == before.text.take(start as int) + cells@.take(i - start)
                    + before.text.skip(i as int),
                self.text@.len() == before.text.len(),
                self.dim == before.dim,
                self.regions@ == before.regions,
                self.show_cursor == before.show_cursor,
                self.eol == before.write_stops(len as int, wrap),
            decreases end - i,
        {
            self.text.set(i, cells[i - start]);
            i += 1;
            assert(self.text@ =~= before.text.take(start as int) + cells@.take(i - start)
                + before.text.skip(i as int));
        }
        let attributes = text.get_attributes();
        let ghost filled = self.text@;
        assert(attributes@.take(0) =~= Seq::<StyleAttribute>::empty());
        let mut k: usize = 0;
        while k < attributes.len()
            invariant
                k <= attributes@.len(),
                start <= end <= area,
                self.regions@ == with_regions(
                    before.regions,
                    attributes@.take(k as int),
                    start,
                    end,
                ),
                self.text@ == filled,
                self.dim == before.dim,
                self.show_cursor == before.show_cursor,
                self.eol == before.write_stops(len as int, wrap),
            decreases attributes@.len() - k,
        {
            self.register(Region { attribute: attributes[k], start, end });
            k += 1;
            assert(attributes@.take(k as int).drop_last() =~= attributes@.take(k - 1));
        }
        proof {
            assert(attributes@.take(k as int) =~= attributes@);
            lemma_with_regions(before.regions, attributes@, start, end);
        }
        assert forall|i: int| 0 <= i < self.regions@.len() implies (#[trigger] self.regions@[i]).start
            <= self.regions@[i].end <= area by {
            if before.regions.contains(self.regions@[i]) {
                let w = choose|w: int| 0 <= w < before.regions.len() && before.regions[w]
                    == self.regions@[i];
                assert(before.regions[w].start <= before.regions[w].end <= area);
            }
        }
        self.cursor = if end > last {
            last
        } else {
            end
        };
        self.empty = false;
    }

    /// Write `text` from the cursor, up to the end of the row.
    pub fn write(&mut self, text: &StyledText)
        requires
            old(self).wf(),
        ensures
            final(self).wf(),
            final(self)@ == old(self)@.written(text.cells(), text.attributes(), false),
    {
        self._write(text, false);
    }

    /// Write `text` from the cursor, on to the next rows where it is longer
    /// than the row.
    pub fn write_wrap(&mut self, text: &StyledText)
        requires
            old(self).wf(),
        ensures
            final(self).wf(),
            final(self)@ == old(self)@.written(text.cells(), text.attributes(), true),
    {
        self._write(text, true);
    }

    /// Write `text` at `pos`, up to the end of the row, and put the cursor
    /// back. Nothing is written where `pos` is no cell of the canvas.
    pub fn write_at(&mut self, text: &StyledText, pos: Plot) -> (res: Result<(), CanvasError>)
        requires
            old(self).wf(),
        ensures
            final(self).wf(),
            final(self)@ == old(self)@.put_at(text.cells(), text.attributes(), false, pos),
            match res {
                Ok(()) => old(self)@.holds(pos) && final(self)@ == old(self)@.written_at(
                    text.cells(),
                    text.attributes(),
                    false,
                    pos,
                ),
                Err(e) => !old(self)@.holds(pos) && final(self)@ == old(self)@ && e == if pos.row
                    >= old(self)@.dim.row {
                    CanvasError::RowOutOfBounds
                } else {
                    CanvasError::ColOutOfBounds
                },
            },
    {
        let saved_pos = self.cursor;
        let saved_eol = self.eol;
        match self.move_to(pos) {
            Ok(()) => {},
            Err(e) => {
                return Err(e);
            },
        }
        self._write(text, false);
        self.cursor = saved_pos;
        self.eol = saved_eol;
        Ok(())
    }

    /// Write `text` at `pos`, on to the next rows where it is longer than
    /// the row, and put the cursor back. Nothing is written where `pos` is
    /// no cell of the canvas.
    pub fn write_at_wrap(&mut self, text: &StyledText, pos: Plot) -> (res: Result<
        (),
        CanvasError,
    >)
        requires
            old(self).wf(),
        ensures
            final(self).wf(),
            final(self)@ == old(self)@.put_at(text.cells(), text.attributes(), true, pos),
            match res {
                Ok(()) => old(self)@.holds(pos) && final(self)@ == old(self)@.written_at(
                    text.cells(),
                    text.attributes(),
                    true,
                    pos,
                ),
                Err(e) => !old(self)@.holds(pos) && final(self)@ == old(self)@ && e == if pos.row
                    >= old(self)@.dim.row {
                    CanvasError::RowOutOfBounds
                } else {
                    CanvasError::ColOutOfBounds
                },
            },
    {
        let saved_pos = self.cursor;
        let saved_eol = self.eol;
        match self.move_to(pos) {
            Ok(()) => {},
            Err(e) => {
                return Err(e);
            },
        }
        self._write(text, true);
        self.cursor = saved_pos;
        self.eol = saved_eol;
        Ok(())
    }

    /// Put `attribute` on the cells from `start` up to `end`, both counted
    /// row by row. A region that starts or ends behind the last cell, or
    /// ends before it starts, is refused.
    pub fn set_attribute_flattened(&mut self, attribute: StyleAttribute, start: usize, end: usize) -> (res:
        Result<(), CanvasError>)
        requires
            old(self).wf(),
        ensures
            final(self).wf(),
            match res {
                Ok(()) => old(self)@.takes(start as int, end as int) && final(self)@ == old(
                    self,
                )@.styled(attribute, start as int, end as int),
                Err(e) => !old(self)@.takes(start as int, end as int) && final(self)@ == old(self)@
                    && e == CanvasError::RangeOutOfBounds,
            },
    {
        let last = self.get_end();
        if start > last || end > last || start > end {
            return Err(CanvasError::RangeOutOfBounds);
        }
        let ghost before = self.regions@;
        self.register(Region { attribute, start, end });
        self.empty = false;
        proof {
            assert forall|i: int| 0 <= i < self.regions@.len() implies (
            #[trigger] self.regions@[i]).start <= self.regions@[i].end <= last + 1 by {
                if i < before.len() {
                    assert(self.regions@[i] == before[i]);
                }
            }
        }
        Ok(())
    }

    /// Put `attribute` on the cells from `start` up to `end`, counted row
    /// by row.
    pub fn set_attribute(&mut self, attribute: StyleAttribute, start: Plot, end: Plot) -> (res:
        Result<(), CanvasError>)
        requires
            old(self).wf(),
        ensures
            final(self).wf(),
            final(self)@ == old(self)@.tint(attribute, start, end),
            match res {
                Ok(()) => old(self)@.takes(old(self)@.flat(start), old(self)@.flat(end))
                    && final(self)@ == old(self)@.styled(
                    attribute,
                    old(self)@.flat(start),
                    old(self)@.flat(end),
                ),
                Err(e) => !old(self)@.takes(old(self)@.flat(start), old(self)@.flat(end))
                    && final(self)@ == old(self)@ && e == CanvasError::RangeOutOfBounds,
            },
    {
        let from = self.flat_checked(start);
        let to = self.flat_checked(end);
        match (from, to) {
            (Some(from), Some(to)) => self.set_attribute_flattened(attribute, from, to),
            _ => Err(CanvasError::RangeOutOfBounds),
        }
    }

    /// The index of the cell at `plot`, where it is no greater than that
    /// of the last cell.
    fn flat_checked(&self, plot: Plot) -> (loc: Option<usize>)
        requires
            self.wf(),
        ensures
            match loc {
                Some(loc) => loc == self@.flat(plot) && loc <= self@.last(),
                None => self@.flat(plot) > self@.last(),
            },
    {
        if plot.row >= self.dim.row {
            assert(plot.row * self.dim.col >= self.dim.row * self.dim.col) by (nonlinear_arith)
                requires
                    plot.row >= self.dim.row,
            ;
            return None;
        }
        assert(plot.row * self.dim.col <= (self.dim.row - 1) * self.dim.col) by (nonlinear_arith)
            requires
                plot.row < self.dim.row,
        ;
        assert((self.dim.row - 1) * self.dim.col == self.dim.row * self.dim.col - self.dim.col)
            by (nonlinear_arith);
        let base = plot.row * self.dim.col;
        let last = self.get_end();
        if plot.col > last - base {
            return None;
        }
        Some(base + plot.col)
    }

    /// Fill every cell with the block character.
    pub fn block_content(&mut self)
        requires
            old(self).wf(),
        ensures
            final(self).wf(),
            final(self)@ == (CanvasView {
                text: Seq::new(old(self)@.area() as nat, |i: int| BLOCK),
                ..old(self)@
            }),
    {
        let area = self.text.len();
        let mut i: usize = 0;
        while i < area
            invariant
                i <= area,
                area == self.text@.len(),
                forall|k: int| 0 <= k < i ==> self.text@[k] == BLOCK,
                self.dim == old(self).dim,
                self.regions == old(self).regions,
                self.cursor == old(self).cursor,
                self.eol == old(self).eol,
                self.show_cursor == old(self).show_cursor,
                self.empty == old(self).empty,
            decreases area - i,
        {
            self.text.set(i, BLOCK);
            i += 1;
        }
        assert(self.text@ =~= Seq::new(old(self)@.area() as nat, |i: int| BLOCK));
    }

    /// The cells of the canvas, row by row.
    pub fn get_text(&self) -> (text: &Vec<u8>)
        ensures
            text@ == self@.text,
    {
        &self.text
    }

    /// The regions that attributes hold on, in the order they were set in.
    pub fn get_regions(&self) -> (regions: &Vec<Region>)
        ensures
            regions@ == self@.regions,
    {
        &self.regions
    }

    /// The points at which a flush changes styles: the first cell, the
    /// last cell, and every start and end of a region, sorted, each once.
    pub fn get_breakpoints(&self) -> (break_points: Vec<usize>)
        requires
            self.wf(),
        ensures
            break_points@ == self@.breakpoints(),
            rising(break_points@),
            forall|k: usize|
                #![trigger break_points@.contains(k)]
                break_points@.contains(k) <==> self@.is_breakpoint(k),
            break_points@.len() >= 1,
            forall|i: int| 0 <= i < break_points@.len() ==> #[trigger] break_points@[i] <= self@.area(),
    {
        let last = self.get_end();
        let mut break_points: Vec<usize> = Vec::new();
        insert_sorted(&mut break_points, 0);
        insert_sorted(&mut break_points, last);
        assert(self.regions@.take(0) =~= Seq::<Region>::empty());
        let mut i: usize = 0;
        while i < self.regions.len()
            invariant
                i <= self.regions@.len(),
                rising(break_points@),
                break_points@ == breakpoints_of(self.regions@.take(i as int), last),
            decreases self.regions@.len() - i,
        {
            insert_sorted(&mut break_points, self.regions[i].start);
            insert_sorted(&mut break_points, self.regions[i].end);
            i += 1;
            assert(self.regions@.take(i as int).drop_last() =~= self.regions@.take(i - 1));
        }
        proof {
            assert(self.regions@.take(i as int) =~= self.regions@);
            lemma_breakpoints(self@);
            assert(break_points@.contains(0usize));
            assert forall|i: int| 0 <= i < break_points@.len() implies #[trigger] break_points@[i]
                <= self@.area() by {
                let k = break_points@[i];
                assert(break_points@.contains(k));
                if marks(self@.regions, k) {
                    let w = choose|w: int|
                        0 <= w < self@.regions.len() && ((#[trigger] self@.regions[w]).start == k
                            || self@.regions[w].end == k);
                }
            }
        }
        break_points
    }

    /// Flatten the canvas into the commands that show it on a terminal on
    /// which it lies at `pos`.
    pub fn queue_write(&self, pos: Plot) -> (out: Vec<TermCommand>)
        requires
            self.wf(),
            pos.row + self@.dim.row <= usize::MAX,
            pos.col + self@.dim.col <= usize::MAX,
        ensures
            command_views(out@) == self@.flushed(pos),
    {
        let break_points = self.get_breakpoints();
        let mut flusher = Flusher::new();
        let ghost start = flusher@;
        let mut i: usize = 0;
        proof {
            assert(break_points@.skip(0) =~= break_points@);
            lemma_rows(self.dim.row as int, self.dim.col as int);
        }
        let count = break_points.len();
        while i + 1 < count
            invariant
                count == break_points@.len(),
                self.wf(),
                pos.row + self@.dim.row <= usize::MAX,
                pos.col + self@.dim.col <= usize::MAX,
                self@.area() / (self@.dim.col as int) == self@.dim.row,
                i < break_points@.len(),
                break_points@ == self@.breakpoints(),
                rising(break_points@),
                forall|k: int|
                    0 <= k < break_points@.len() ==> #[trigger] break_points@[k] <= self@.area(),
                self@.runs_flushed(pos, break_points@, start) == self@.runs_flushed(
                    pos,
                    break_points@.skip(i as int),
                    flusher@,
                ),
            decreases break_points@.len() - i,
        {
            let at = break_points[i];
            let next = break_points[i + 1];
            let ghost left = break_points@.skip(i as int);
            assert(left[0] == at && left[1] == next);
            assert(left.drop_first() =~= break_points@.skip(i + 1));
            assert(at < next);
            self.undo_ends(&mut flusher, at);
            self.apply_starts(&mut flusher, at);
            flusher.queue_chunk(&self.text, self.dim.col, at, next, pos);
            i += 1;
        }
        flusher.finish()
    }

    /// Lay `other` over the canvas at `pos`: the cells of `other` that
    /// fall on the canvas are copied, the others are cut off, and the
    /// regions of `other` are carried over to where they come to lie.
    pub fn merge_canvas(&mut self, pos: Plot, other: &Canvas)
        requires
            old(self).wf(),
            other.wf(),
        ensures
            final(self).wf(),
            final(self)@ == old(self)@.merged(pos, other@),
    {
        let ghost before = self@;
        let ghost child = other@;
        let rows = self.dim.row;
        let cols = self.dim.col;
        let child_cols = other.dim.col;
        let take_rows = if pos.row >= rows {
            0
        } else if other.dim.row < rows - pos.row {
            other.dim.row
        } else {
            rows - pos.row
        };
        let take_cols = if pos.col >= cols {
            0
        } else if child_cols < cols - pos.col {
            child_cols
        } else {
            cols - pos.col
        };
        let mut r: usize = 0;
        while r < take_rows
            invariant
                r <= take_rows,
                before.wf(),
                child.wf(),
                child == other@,
                rows == before.dim.row,
                cols == before.dim.col,
                child_cols == child.dim.col,
                take_rows <= child.dim.row,
                take_cols <= child.dim.col,
                take_rows > 0 ==> pos.row + take_rows <= rows,
                take_cols > 0 ==> pos.col + take_cols <= cols,
                take_rows == if pos.row >= rows {
                    0
                } else if child.dim.row < rows - pos.row {
                    child.dim.row as int
                } else {
                    rows - pos.row
                },
                take_cols == if pos.col >= cols {
                    0
                } else if child.dim.col < cols - pos.col {
                    child.dim.col as int
                } else {
                    cols - pos.col
                },
                self.dim == before.dim,
                self.regions@ == before.regions,
                self.cursor == before.cursor,
                self.eol == before.eol,
                self.show_cursor == before.show_cursor,
                self.text@.len() == before.text.len(),
                forall|row: int, col: int|
                    0 <= row < rows && 0 <= col < cols ==> self.text@[#[trigger] cell(
                        cols as int,
                        row,
                        col,
                    )] == if CanvasView::covered(pos, child.dim, row, col) && row - pos.row < r {
                        child.text[cell(child_cols as int, row - pos.row, col - pos.col)]
                    } else {
                        before.text[cell(cols as int, row, col)]
                    },
            decreases take_rows - r,
        {
            let mut c: usize = 0;
            while c < take_cols
                invariant
                    r < take_rows,
                    c <= take_cols,
                    before.wf(),
                    child.wf(),
                    child == other@,
                    rows == before.dim.row,
                    cols == before.dim.col,
                    child_cols == child.dim.col,
                    take_rows <= child.dim.row,
                    take_cols <= child.dim.col,
                    pos.row + take_rows <= rows,
                    take_cols > 0 ==> pos.col + take_cols <= cols,
                    take_cols == if pos.col >= cols {
                        0
                    } else if child.dim.col < cols - pos.col {
                        child.dim.col as int
                    } else {
                        cols - pos.col
                    },
                    self.dim == before.dim,
                    self.regions@ == before.regions,
                    self.cursor == before.cursor,
                    self.eol == before.eol,
                    self.show_cursor == before.show_cursor,
                    self.text@.len() == before.text.len(),
                    forall|row: int, col: int|
                        0 <= row < rows && 0 <= col < cols ==> self.text@[#[trigger] cell(
                            cols as int,
                            row,
                            col,
                        )] == if CanvasView::covered(pos, child.dim, row, col) && (row - pos.row < r
                            || (row - pos.row == r && col - pos.col < c)) {
                            child.text[cell(child_cols as int, row - pos.row, col - pos.col)]
                        } else {
                            before.text[cell(cols as int, row, col)]
                        },
                decreases take_cols - c,
            {
                proof {
                    lemma_cell(rows as int, cols as int, pos.row + r, pos.col + c);
                    lemma_cell(child.dim.row as int, child_cols as int, r as int, c as int);
                }
                let from = r * child_cols + c;
                let to = (pos.row + r) * cols + (pos.col + c);
                let ghost filled = self.text@;
                self.text.set(to, other.text[from]);
                proof {
                    assert forall|row: int, col: int| 0 <= row < rows && 0 <= col < cols implies self.text@[#[trigger] cell(
                        cols as int,
                        row,
                        col,
                    )] == if CanvasView::covered(pos, child.dim, row, col) && (row - pos.row < r
                        || (row - pos.row == r && col - pos.col < c + 1)) {
                        child.text[cell(child_cols as int, row - pos.row, col - pos.col)]
                    } else {
                        before.text[cell(cols as int, row, col)]
                    } by {
                        lemma_cell(rows as int, cols as int, row, col);
                        if row == pos.row + r && col == pos.col + c {
                        } else {
                            assert(cell(cols as int, row, col) != to);
                            assert(self.text@[cell(cols as int, row, col)] == filled[cell(
                                cols as int,
                                row,
                                col,
                            )]);
                        }
                    }
                }
                c += 1;
            }
            r += 1;
        }
        proof {
            assert(self.text@ =~= before.merged(pos, child).text) by {
                assert forall|k: int| 0 <= k < self.text@.len() implies self.text@[k]
                    == before.merged(pos, child).text[k] by {
                    lemma_expand(rows as int, cols as int, k);
                    let row = k / (cols as int);
                    let col = k % (cols as int);
                    assert(k == cell(cols as int, row, col));
                }
            }
            assert(child.regions.take(0) =~= Seq::<Region>::empty());
            assert(before.regions + before.regions_carried(
                pos,
                child_cols as int,
                child.regions.take(0),
            ) =~= before.regions);
        }
        let mut i: usize = 0;
        while i < other.regions.len()
            invariant
                i <= other.regions@.len(),
                self.wf(),
                before.wf(),
                child.wf(),
                child == other@,
                child_cols == child.dim.col,
                self.dim == before.dim,
                self.cursor == before.cursor,
                self.eol == before.eol,
                self.show_cursor == before.show_cursor,
                self.text@ == before.merged(pos, child).text,
                self.regions@ == before.regions + before.regions_carried(
                    pos,
                    child_cols as int,
                    child.regions.take(i as int),
                ),
            decreases other.regions@.len() - i,
        {
            let region = other.regions[i];
            let start = self.carry(pos, child_cols, region.start);
            let end = self.carry(pos, child_cols, region.end);
            let ghost kept = self.regions@;
            match (start, end) {
                (Some(start), Some(end)) => {
                    if start <= end {
                        self.regions.push(Region { attribute: region.attribute, start, end });
                    }
                },
                _ => {},
            }
            i += 1;
            proof {
                assert(child.regions.take(i as int).drop_last() =~= child.regions.take(i - 1));
                assert(child.regions.take(i as int).last() == region);
                let carried = before.regions_carried(pos, child_cols as int, child.regions.take(i - 1));
                assert(self.regions@ =~= before.regions + before.regions_carried(
                    pos,
                    child_cols as int,
                    child.regions.take(i as int),
                ));
            }
        }
        assert(child.regions.take(i as int) =~= child.regions);
        self.empty = false;
    }

    /// Lay the canvas `child` over this one at `origin`.
    pub fn add_child(&mut self, child: Canvas, origin: Plot)
        requires
            old(self).wf(),
            child.wf(),
        ensures
            final(self).wf(),
            final(self)@ == old(self)@.merged(origin, child@),
    {
        self.merge_canvas(origin, &child);
    }

    /// Where the cell `loc` of a child with `cols` columns that lies at
    /// `pos` comes to lie, where that is no later than the last cell.
    fn carry(&self, pos: Plot, cols: usize, loc: usize) -> (at: Option<usize>)
        requires
            self.wf(),
            0 < cols,
        ensures
            match at {
                Some(at) => at == self@.carried(pos, cols as int, loc as int) && at <= self@.last(),
                None => self@.carried(pos, cols as int, loc as int) > self@.last(),
            },
    {
        let row = (loc / cols).checked_add(pos.row);
        let col = (loc % cols).checked_add(pos.col);
        proof {
            assert(0 <= (loc as int) / (cols as int)) by {
                lemma_fundamental_div_mod(loc as int, cols as int);
                vstd::arithmetic::div_mod::lemma_div_pos_is_pos(loc as int, cols as int);
            }
            lemma_mod_bound(loc as int, cols as int);
        }
        match (row, col) {
            (Some(row), Some(col)) => self.flat_checked(Plot::new(row, col)),
            (None, _) => {
                assert(self@.carried(pos, cols as int, loc as int) > self@.last()) by (nonlinear_arith)
                    requires
                        (loc as int) / (cols as int) + pos.row > usize::MAX,
                        self@.dim.col >= 1,
                        0 <= (loc as int) % (cols as int) + pos.col,
                        self@.last() < usize::MAX,
                        self@.carried(pos, cols as int, loc as int) == ((loc as int) / (cols as int)
                            + pos.row) * self@.dim.col + ((loc as int) % (cols as int) + pos.col),
                ;
                None
            },
            (_, None) => {
                assert(self@.carried(pos, cols as int, loc as int) > self@.last()) by (nonlinear_arith)
                    requires
                        (loc as int) % (cols as int) + pos.col > usize::MAX,
                        self@.dim.col >= 1,
                        0 <= (loc as int) / (cols as int) + pos.row,
                        self@.last() < usize::MAX,
                        self@.carried(pos, cols as int, loc as int) == ((loc as int) / (cols as int)
                            + pos.row) * self@.dim.col + ((loc as int) % (cols as int) + pos.col),
                ;
                None
            },
        }
    }

    /// End, in `flusher`, every region that ends at `at`.
    fn undo_ends(&self, flusher: &mut Flusher, at: usize)
        ensures
            final(flusher)@ == ends_undone(old(flusher)@, self@.regions, at),
    {
        let mut j: usize = 0;
        assert(self.regions@.take(0) =~= Seq::<Region>::empty());
        while j < self.regions.len()
            invariant
                j <= self.regions@.len(),
                flusher@ == ends_undone(old(flusher)@, self.regions@.take(j as int), at),
            decreases self.regions@.len() - j,
        {
            if self.regions[j].end == at {
                flusher.undo(self.regions[j].attribute);
            }
            j += 1;
            assert(self.regions@.take(j as int).drop_last() =~= self.regions@.take(j - 1));
        }
        assert(self.regions@.take(j as int) =~= self.regions@);
    }

    /// Start, in `flusher`, every region that starts at `at`.
    fn apply_starts(&self, flusher: &mut Flusher, at: usize)
        ensures
            final(flusher)@ == starts_applied(old(flusher)@, self@.regions, at),
    {
        let mut j: usize = 0;
        assert(self.regions@.take(0) =~= Seq::<Region>::empty());
        while j < self.regions.len()
            invariant
                j <= self.regions@.len(),
                flusher@ == starts_applied(old(flusher)@, self.regions@.take(j as int), at),
            decreases self.regions@.len() - j,
        {
            if self.regions[j].start == at {
                flusher.apply(self.regions[j].attribute);
            }
            j += 1;
            assert(self.regions@.take(j as int).drop_last() =~= self.regions@.take(j - 1));
        }
        assert(self.regions@.take(j as int) =~= self.regions@);
    }
}

/// A grid of `rows` rows of `cols` cells has `rows` times `cols` cells,
/// which divided by `cols` gives `rows` again.
pub proof fn lemma_rows(rows: int, cols: int)
    requires
        0 < cols,
        0 <= rows,
    ensures
        (rows * cols) / cols == rows,
{
    lemma_fundamental_div_mod_converse(rows * cols, cols, rows, 0);
}

} // verus!
