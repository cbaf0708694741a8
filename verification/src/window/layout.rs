//! How the screen is shared out: strips along a major axis, each split
//! into windows along the minor axis, with borders between them.

use vstd::prelude::*;
use crate::plot::Plot;

verus! {

/// The rectangle of a window.
#[derive(Clone, Copy, Debug, PartialEq, Eq, Structural)]
pub struct WindowSpace {
    pub dim: Plot,
    pub start: Plot,
}

/// The strip of a border.
#[derive(Clone, Copy, Debug, PartialEq, Eq, Structural)]
pub struct BorderSpace {
    pub vertical: bool,
    pub start: Plot,
    pub length: usize,
    pub thickness: usize,
}

/// Why a grid could not be split.
#[derive(Clone, Copy, Debug, PartialEq, Eq, Structural)]
pub enum LayoutError {
    /// There is no such strip.
    NoSuchStrip,
    /// The strip cannot hold more windows.
    Full,
}

/// How thick a border is.
pub const BORDER: usize = 1;

/// The cells that are left of `extent` for `count` equal shares with a
/// border between each two, and what each share gets of them.
pub open spec fn share(extent: int, count: int) -> int {
    if count <= 0 || extent < count - 1 {
        0
    } else {
        (extent - (count - 1)) / count
    }
}

/// The cells of `extent` that are left over when it is shared out among
/// `count` shares with a border between each two.
pub open spec fn lost(extent: int, count: int) -> int {
    extent - (count - 1) - count * share(extent, count)
}

/// The cells that a sequence of windows takes.
pub open spec fn windows_area(windows: Seq<WindowSpace>) -> int
    decreases windows.len(),
{
    if windows.len() == 0 {
        0
    } else {
        windows_area(windows.drop_last()) + windows.last().dim.row * windows.last().dim.col
    }
}

/// The cells that a sequence of borders takes.
pub open spec fn borders_area(borders: Seq<BorderSpace>) -> int
    decreases borders.len(),
{
    if borders.len() == 0 {
        0
    } else {
        borders_area(borders.drop_last()) + borders.last().length * borders.last().thickness
    }
}

/// The cells of two sequences of windows are those of the one and of the other.
pub proof fn lemma_windows_area_add(a: Seq<WindowSpace>, b: Seq<WindowSpace>)
    ensures
        windows_area(a + b) == windows_area(a) + windows_area(b),
    decreases b.len(),
{
    if b.len() == 0 {
        assert(a + b =~= a);
    } else {
        assert((a + b).drop_last() =~= a + b.drop_last());
        lemma_windows_area_add(a, b.drop_last());
    }
}

/// The cells of two sequences of borders are those of the one and of the other.
pub proof fn lemma_borders_area_add(a: Seq<BorderSpace>, b: Seq<BorderSpace>)
    ensures
        borders_area(a + b) == borders_area(a) + borders_area(b),
    decreases b.len(),
{
    if b.len() == 0 {
        assert(a + b =~= a);
    } else {
        assert((a + b).drop_last() =~= a + b.drop_last());
        lemma_borders_area_add(a, b.drop_last());
    }
}

/// Where share number `index` begins: behind the shares and borders before it.
pub open spec fn share_start(extent: int, count: int, index: int) -> int {
    index * (share(extent, count) + BORDER)
}

/// The shares with the borders between them lie within the extent, where
/// it is wide enough for the borders.
pub proof fn lemma_share_within(extent: int, count: int, index: int)
    requires
        0 <= index < count,
        count - 1 <= extent,
    ensures
        0 <= share(extent, count),
        0 <= share_start(extent, count, index),
        share_start(extent, count, index) + share(extent, count) <= extent,
{
    let s = share(extent, count);
    assert(s * count <= extent - (count - 1)) by (nonlinear_arith)
        requires
            s == (extent - (count - 1)) / count,
            count > 0,
            extent - (count - 1) >= 0,
    ;
    assert(0 <= s) by (nonlinear_arith)
        requires
            s == (extent - (count - 1)) / count,
            count > 0,
            extent - (count - 1) >= 0,
    ;
    assert(index * (s + 1) + s <= (count - 1) * (s + 1) + s) by (nonlinear_arith)
        requires
            0 <= index <= count - 1,
            0 <= s,
    ;
    assert((count - 1) * (s + 1) + s == s * count + (count - 1)) by (nonlinear_arith);
    assert(0 <= index * (s + 1)) by (nonlinear_arith)
        requires
            0 <= index,
            0 <= s,
    ;
}

/// A grid of strips along the major axis: rows, or columns where the major
/// axis is the horizontal one. Each strip is split into windows of equal
/// size along the other axis.
pub struct Grid {
    vertical_major: bool,
    minor_counts: Vec<usize>,
}

impl Grid {
    /// Whether the strips are columns.
    pub closed spec fn columns_first(&self) -> bool {
        self.vertical_major
    }

    /// How many windows each strip holds.
    pub closed spec fn counts(&self) -> Seq<usize> {
        self.minor_counts@
    }

    /// There is a strip, and every strip holds a window.
    pub open spec fn wf(&self) -> bool {
        &&& self.counts().len() >= 1
        &&& forall|i: int| 0 <= i < self.counts().len() ==> #[trigger] self.counts()[i] >= 1
    }

    /// The extent of `dim` along the major axis.
    pub open spec fn major_extent(&self, dim: Plot) -> int {
        if self.columns_first() {
            dim.col as int
        } else {
            dim.row as int
        }
    }

    /// The extent of `dim` along the minor axis.
    pub open spec fn minor_extent(&self, dim: Plot) -> int {
        if self.columns_first() {
            dim.row as int
        } else {
            dim.col as int
        }
    }

    /// The rectangle of window number `j` of strip number `m` on a screen
    /// of the dimension `dim`.
    pub open spec fn window_at(&self, dim: Plot, m: int, j: int) -> WindowSpace {
        let strips = self.counts().len() as int;
        let major_size = share(self.major_extent(dim), strips);
        let major_start = share_start(self.major_extent(dim), strips, m);
        let minor_size = share(self.minor_extent(dim), self.counts()[m] as int);
        let minor_start = share_start(self.minor_extent(dim), self.counts()[m] as int, j);
        if self.columns_first() {
            WindowSpace {
                dim: Plot { row: minor_size as usize, col: major_size as usize },
                start: Plot { row: minor_start as usize, col: major_start as usize },
            }
        } else {
            WindowSpace {
                dim: Plot { row: major_size as usize, col: minor_size as usize },
                start: Plot { row: major_start as usize, col: minor_start as usize },
            }
        }
    }

    /// The number of windows of the first `upto` strips.
    pub open spec fn windows_before(&self, upto: int) -> int
        decreases upto,
    {
        if upto <= 0 {
            0
        } else {
            self.windows_before(upto - 1) + self.counts()[upto - 1]
        }
    }

    /// The border behind window number `j` of strip number `m`.
    pub open spec fn minor_border_at(&self, dim: Plot, m: int, j: int) -> BorderSpace {
        let strips = self.counts().len() as int;
        let major_size = share(self.major_extent(dim), strips);
        let major_start = share_start(self.major_extent(dim), strips, m);
        let at = share_start(self.minor_extent(dim), self.counts()[m] as int, j) + share(
            self.minor_extent(dim),
            self.counts()[m] as int,
        );
        BorderSpace {
            vertical: !self.columns_first(),
            start: if self.columns_first() {
                Plot { row: at as usize, col: major_start as usize }
            } else {
                Plot { row: major_start as usize, col: at as usize }
            },
            length: major_size as usize,
            thickness: BORDER,
        }
    }

    /// The border behind strip number `m`.
    pub open spec fn major_border_at(&self, dim: Plot, m: int) -> BorderSpace {
        let strips = self.counts().len() as int;
        let at = share_start(self.major_extent(dim), strips, m) + share(
            self.major_extent(dim),
            strips,
        );
        BorderSpace {
            vertical: self.columns_first(),
            start: if self.columns_first() {
                Plot { row: 0, col: at as usize }
            } else {
                Plot { row: at as usize, col: 0 }
            },
            length: self.minor_extent(dim) as usize,
            thickness: BORDER,
        }
    }

    /// The rectangles of the first `upto` windows of strip number `m`.
    pub open spec fn strip_windows(&self, dim: Plot, m: int, upto: int) -> Seq<WindowSpace>
        decreases upto,
    {
        if upto <= 0 {
            Seq::empty()
        } else {
            self.strip_windows(dim, m, upto - 1).push(self.window_at(dim, m, upto - 1))
        }
    }

    /// The borders behind the first `upto` windows of strip number `m`: one
    /// behind each but the last window of the strip.
    pub open spec fn strip_borders(&self, dim: Plot, m: int, upto: int) -> Seq<BorderSpace>
        decreases upto,
    {
        if upto <= 0 {
            Seq::empty()
        } else if upto < self.counts()[m] {
            self.strip_borders(dim, m, upto - 1).push(self.minor_border_at(dim, m, upto - 1))
        } else {
            self.strip_borders(dim, m, upto - 1)
        }
    }

    /// The rectangles of the windows of the first `upto` strips, strip by strip.
    pub open spec fn all_windows(&self, dim: Plot, upto: int) -> Seq<WindowSpace>
        decreases upto,
    {
        if upto <= 0 {
            Seq::empty()
        } else {
            self.all_windows(dim, upto - 1) + self.strip_windows(
                dim,
                upto - 1,
                self.counts()[upto - 1] as int,
            )
        }
    }

    /// The borders of the first `upto` strips: those within each strip,
    /// then the one behind it where it is not the last.
    pub open spec fn all_borders(&self, dim: Plot, upto: int) -> Seq<BorderSpace>
        decreases upto,
    {
        if upto <= 0 {
            Seq::empty()
        } else {
            let within = self.all_borders(dim, upto - 1) + self.strip_borders(
                dim,
                upto - 1,
                self.counts()[upto - 1] as int,
            );
            if upto < self.counts().len() {
                within.push(self.major_border_at(dim, upto - 1))
            } else {
                within
            }
        }
    }

    /// Whether a screen of the dimension `dim` has room for the borders.
    pub open spec fn fits(&self, dim: Plot) -> bool {
        &&& self.major_extent(dim) >= self.counts().len() - 1
        &&& forall|m: int|
            0 <= m < self.counts().len() ==> self.minor_extent(dim) >= #[trigger] self.counts()[m]
                - 1
    }

    /// The cells that are lost along the minor axis in the first `upto`
    /// strips, all strips taken together.
    pub open spec fn minor_lost(&self, dim: Plot, upto: int) -> int
        decreases upto,
    {
        if upto <= 0 {
            0
        } else {
            self.minor_lost(dim, upto - 1) + lost(
                self.minor_extent(dim),
                self.counts()[upto - 1] as int,
            )
        }
    }

    /// The cells of the screen that neither a window nor a border takes.
    pub open spec fn slack(&self, dim: Plot) -> int {
        self.minor_extent(dim) * lost(self.major_extent(dim), self.counts().len() as int) + share(
            self.major_extent(dim),
            self.counts().len() as int,
        ) * self.minor_lost(dim, self.counts().len() as int)
    }

    /// A grid of one strip with one window, the strips being rows.
    pub fn new() -> (grid: Grid)
        ensures
            grid.wf(),
            grid.counts() == seq![1usize],
            !grid.columns_first(),
    {
        let mut minor_counts: Vec<usize> = Vec::new();
        minor_counts.push(1);
        Grid { vertical_major: false, minor_counts }
    }

    /// The number of strips.
    pub fn strip_count(&self) -> (count: usize)
        ensures
            count == self.counts().len(),
    {
        self.minor_counts.len()
    }

    /// The number of windows of strip number `index`; none where there is
    /// no such strip.
    pub fn windows_in(&self, index: usize) -> (count: Option<usize>)
        ensures
            count == if index < self.counts().len() {
                Some(self.counts()[index as int])
            } else {
                None
            },
    {
        if index < self.minor_counts.len() {
            Some(self.minor_counts[index])
        } else {
            None
        }
    }

    /// The number of windows that the grid has room for.
    pub fn window_count(&self) -> (count: usize)
        requires
            self.wf(),
        ensures
            count == self.windows_before(self.counts().len() as int) || (count == usize::MAX
                && self.windows_before(self.counts().len() as int) > usize::MAX),
    {
        let mut count: usize = 0;
        let mut m: usize = 0;
        while m < self.minor_counts.len()
            invariant
                m <= self.minor_counts@.len(),
                count == self.windows_before(m as int) || (count == usize::MAX
                    && self.windows_before(m as int) > usize::MAX),
            decreases self.minor_counts@.len() - m,
        {
            count = if self.minor_counts[m] > usize::MAX - count {
                usize::MAX
            } else {
                count + self.minor_counts[m]
            };
            m += 1;
        }
        count
    }

    /// Add a strip along the major axis, with one window.
    pub fn split_major(&mut self)
        requires
            old(self).wf(),
        ensures
            final(self).wf(),
            final(self).counts() == old(self).counts().push(1usize),
            final(self).columns_first() == old(self).columns_first(),
    {
        self.minor_counts.push(1);
    }

    /// Add a window to strip number `index`.
    pub fn split_minor(&mut self, index: usize) -> (res: Result<(), LayoutError>)
        requires
            old(self).wf(),
        ensures
            final(self).wf(),
            final(self).columns_first() == old(self).columns_first(),
            match res {
                Ok(()) => index < old(self).counts().len() && old(self).counts()[index as int]
                    < usize::MAX && final(self).counts() == old(self).counts().update(
                    index as int,
                    (old(self).counts()[index as int] + 1) as usize,
                ),
                Err(e) => final(self).counts() == old(self).counts() && e == if index >= old(
                    self,
                ).counts().len() {
                    LayoutError::NoSuchStrip
                } else {
                    LayoutError::Full
                } && (index >= old(self).counts().len() || old(self).counts()[index as int]
                    == usize::MAX),
            },
    {
        if index >= self.minor_counts.len() {
            return Err(LayoutError::NoSuchStrip);
        }
        let count = self.minor_counts[index];
        if count == usize::MAX {
            return Err(LayoutError::Full);
        }
        self.minor_counts.set(index, count + 1);
        Ok(())
    }

    /// Take a window from strip number `index`, where it holds more than one.
    pub fn join_minor(&mut self, index: usize)
        requires
            old(self).wf(),
        ensures
            final(self).wf(),
            final(self).columns_first() == old(self).columns_first(),
            final(self).counts() == if index < old(self).counts().len() && old(
                self,
            ).counts()[index as int] > 1 {
                old(self).counts().update(
                    index as int,
                    (old(self).counts()[index as int] - 1) as usize,
                )
            } else {
                old(self).counts()
            },
    {
        if index < self.minor_counts.len() {
            let count = self.minor_counts[index];
            if count > 1 {
                self.minor_counts.set(index, count - 1);
            }
        }
    }

    /// Let strip number `index` hold `count` windows. A strip that there is
    /// not, or no window at all, leaves the grid as it is.
    pub fn set_minor(&mut self, index: usize, count: usize)
        requires
            old(self).wf(),
        ensures
            final(self).wf(),
            final(self).columns_first() == old(self).columns_first(),
            final(self).counts() == if index < old(self).counts().len() && count >= 1 {
                old(self).counts().update(index as int, count)
            } else {
                old(self).counts()
            },
    {
        if index < self.minor_counts.len() && count >= 1 {
            self.minor_counts.set(index, count);
        }
    }

    /// What each of `count` shares of `extent` gets.
    fn share_of(extent: usize, count: usize) -> (size: usize)
        requires
            count >= 1,
        ensures
            size == share(extent as int, count as int),
            size <= extent,
    {
        if extent < count - 1 {
            0
        } else {
            proof {
                let left = (extent - (count - 1)) as int;
                assert(left / (count as int) <= left) by (nonlinear_arith)
                    requires
                        left >= 0,
                        count >= 1,
                ;
                assert(0 <= left / (count as int)) by (nonlinear_arith)
                    requires
                        left >= 0,
                        count >= 1,
                ;
            }
            (extent - (count - 1)) / count
        }
    }

    /// The rectangles of the windows on a screen of the dimension `dim`:
    /// none where the borders alone do not fit.
    pub open spec fn windows_on(&self, dim: Plot) -> Seq<WindowSpace> {
        if self.fits(dim) {
            self.all_windows(dim, self.counts().len() as int)
        } else {
            Seq::empty()
        }
    }

    /// The strips of the borders on a screen of the dimension `dim`: none
    /// where they do not fit.
    pub open spec fn borders_on(&self, dim: Plot) -> Seq<BorderSpace> {
        if self.fits(dim) {
            self.all_borders(dim, self.counts().len() as int)
        } else {
            Seq::empty()
        }
    }

    /// The rectangles of the windows, strip by strip, and the strips of the
    /// borders between them, on a screen of the dimension `dim`. A screen
    /// that is too small for the borders gets none of either.
    pub fn generate(&self, dim: Plot) -> (out: (Vec<WindowSpace>, Vec<BorderSpace>))
        requires
            self.wf(),
        ensures
            out.0@ == self.windows_on(dim),
            out.1@ == self.borders_on(dim),
    {
        let mut window_out: Vec<WindowSpace> = Vec::new();
        let mut border_out: Vec<BorderSpace> = Vec::new();
        let strips = self.minor_counts.len();
        let major_extent = if self.vertical_major {
            dim.col
        } else {
            dim.row
        };
        let minor_extent = if self.vertical_major {
            dim.row
        } else {
            dim.col
        };
        if major_extent < strips - 1 {
            return (window_out, border_out);
        }
        assert(major_extent == self.major_extent(dim) && minor_extent == self.minor_extent(dim));
        let mut fits = true;
        let mut strip: usize = 0;
        while strip < strips
            invariant
                strip <= strips,
                strips == self.minor_counts@.len(),
                self.wf(),
                fits == (forall|m: int|
                    0 <= m < strip ==> minor_extent >= #[trigger] self.counts()[m] - 1),
            decreases strips - strip,
        {
            if minor_extent < self.minor_counts[strip] - 1 {
                fits = false;
            }
            strip += 1;
        }
        if !fits {
            return (window_out, border_out);
        }
        assert(self.fits(dim));
        let major_size = Self::share_of(major_extent, strips);
        let mut m: usize = 0;
        while m < strips
            invariant
                m <= strips,
                strips == self.minor_counts@.len(),
                self.wf(),
                major_extent == self.major_extent(dim),
                minor_extent == self.minor_extent(dim),
                major_extent >= strips - 1,
                forall|k: int| 0 <= k < strips ==> minor_extent >= #[trigger] self.counts()[k] - 1,
                major_size == share(major_extent as int, strips as int),
                window_out@ == self.all_windows(dim, m as int),
                border_out@ == self.all_borders(dim, m as int),
            decreases strips - m,
        {
            proof {
                lemma_share_within(major_extent as int, strips as int, m as int);
                assert(m >= 1 ==> major_size + 1 <= m * (major_size + 1)) by (nonlinear_arith)
                    requires
                        0 <= major_size,
                ;
            }
            let major_offset = if m == 0 {
                0
            } else {
                m * (major_size + BORDER)
            };
            assert(major_offset == m * (major_size + BORDER)) by (nonlinear_arith)
                requires
                    m == 0 ==> major_offset == 0,
                    m != 0 ==> major_offset == m * (major_size + BORDER),
            ;
            let count = self.minor_counts[m];
            let minor_size = Self::share_of(minor_extent, count);
            let ghost before = window_out@;
            let ghost lines = border_out@;
            let mut j: usize = 0;
            assert(before + self.strip_windows(dim, m as int, 0) =~= before);
            assert(lines + self.strip_borders(dim, m as int, 0) =~= lines);
            while j < count
                invariant
                    j <= count,
                    m < strips,
                    strips == self.minor_counts@.len(),
                    count == self.counts()[m as int],
                    count >= 1,
                    minor_extent >= count - 1,
                    self.wf(),
                    major_extent == self.major_extent(dim),
                    minor_extent == self.minor_extent(dim),
                    major_size == share(major_extent as int, strips as int),
                    minor_size == share(minor_extent as int, count as int),
                    major_offset == share_start(major_extent as int, strips as int, m as int),
                    major_offset + major_size <= major_extent,
                    window_out@ == before + self.strip_windows(dim, m as int, j as int),
                    border_out@ == lines + self.strip_borders(dim, m as int, j as int),
                decreases count - j,
            {
                proof {
                    lemma_share_within(minor_extent as int, count as int, j as int);
                    assert(j >= 1 ==> minor_size + 1 <= j * (minor_size + 1)) by (nonlinear_arith)
                        requires
                            0 <= minor_size,
                    ;
                }
                let minor_offset = if j == 0 {
                    0
                } else {
                    j * (minor_size + BORDER)
                };
                assert(minor_offset == j * (minor_size + BORDER)) by (nonlinear_arith)
                    requires
                        j == 0 ==> minor_offset == 0,
                        j != 0 ==> minor_offset == j * (minor_size + BORDER),
                ;
                let window = if self.vertical_major {
                    WindowSpace {
                        dim: Plot::new(minor_size, major_size),
                        start: Plot::new(minor_offset, major_offset),
                    }
                } else {
                    WindowSpace {
                        dim: Plot::new(major_size, minor_size),
                        start: Plot::new(major_offset, minor_offset),
                    }
                };
                let ghost early = border_out@;
                if j + 1 < count {
                    let at = minor_offset + minor_size;
                    border_out.push(
                        BorderSpace {
                            start: if self.vertical_major {
                                Plot::new(at, major_offset)
                            } else {
                                Plot::new(major_offset, at)
                            },
                            vertical: !self.vertical_major,
                            length: major_size,
                            thickness: BORDER,
                        },
                    );
                }
                window_out.push(window);
                j += 1;
                proof {
                    assert(window == self.window_at(dim, m as int, j - 1));
                    assert(window_out@ =~= before + self.strip_windows(dim, m as int, j as int));
                    if j < count {
                        assert(border_out@ == early.push(
                            self.minor_border_at(dim, m as int, j - 1),
                        ));
                    }
                    assert(border_out@ =~= lines + self.strip_borders(dim, m as int, j as int));
                }
            }
            let ghost within = border_out@;
            if m + 1 < strips {
                let at = major_offset + major_size;
                border_out.push(
                    BorderSpace {
                        start: if self.vertical_major {
                            Plot::new(0, at)
                        } else {
                            Plot::new(at, 0)
                        },
                        vertical: self.vertical_major,
                        length: minor_extent,
                        thickness: BORDER,
                    },
                );
                assert(border_out@ == within.push(self.major_border_at(dim, m as int)));
            }
            m += 1;
        }
        (window_out, border_out)
    }

    /// The cells that the first windows of a strip take, and the borders
    /// between them: each window the share of the one extent times the
    /// share of the other, each border the share along the major axis.
    pub proof fn lemma_strip_area(&self, dim: Plot, m: int, upto: int)
        requires
            self.wf(),
            self.fits(dim),
            0 <= m < self.counts().len(),
            0 <= upto <= self.counts()[m],
        ensures
            windows_area(self.strip_windows(dim, m, upto)) == upto * (share(
                self.major_extent(dim),
                self.counts().len() as int,
            ) * share(self.minor_extent(dim), self.counts()[m] as int)),
            borders_area(self.strip_borders(dim, m, upto)) == (if upto < self.counts()[m] {
                upto
            } else {
                upto - 1
            }) * share(self.major_extent(dim), self.counts().len() as int),
        decreases upto,
    {
        let s = share(self.major_extent(dim), self.counts().len() as int);
        let t = share(self.minor_extent(dim), self.counts()[m] as int);
        lemma_share_within(self.major_extent(dim), self.counts().len() as int, m);
        lemma_share_within(self.minor_extent(dim), self.counts()[m] as int, 0);
        if upto > 0 {
            self.lemma_strip_area(dim, m, upto - 1);
            let windows = self.strip_windows(dim, m, upto);
            let window = self.window_at(dim, m, upto - 1);
            assert(windows.drop_last() =~= self.strip_windows(dim, m, upto - 1));
            assert(windows.last() == window);
            assert(window.dim.row * window.dim.col == s * t) by (nonlinear_arith)
                requires
                    (window.dim.row == s && window.dim.col == t) || (window.dim.row == t
                        && window.dim.col == s),
            ;
            assert((upto - 1) * (s * t) + s * t == upto * (s * t)) by (nonlinear_arith);
            let borders = self.strip_borders(dim, m, upto);
            if upto < self.counts()[m] {
                let border = self.minor_border_at(dim, m, upto - 1);
                assert(borders.drop_last() =~= self.strip_borders(dim, m, upto - 1));
                assert(borders.last() == border);
                assert(border.length * border.thickness == s) by (nonlinear_arith)
                    requires
                        border.length == s,
                        border.thickness == 1,
                ;
                assert((upto - 1) * s + s == upto * s) by (nonlinear_arith);
            }
        } else {
            assert(0 * (s * t) == 0) by (nonlinear_arith);
            assert(0 * s == 0) by (nonlinear_arith);
        }
    }

    /// The cells that the windows and borders of the first strips take.
    pub proof fn lemma_strips_area(&self, dim: Plot, upto: int)
        requires
            self.wf(),
            self.fits(dim),
            0 <= upto <= self.counts().len(),
        ensures
            0 <= self.minor_lost(dim, upto),
            windows_area(self.all_windows(dim, upto)) + borders_area(self.all_borders(dim, upto))
                + share(self.major_extent(dim), self.counts().len() as int) * self.minor_lost(
                dim,
                upto,
            ) == upto * (share(self.major_extent(dim), self.counts().len() as int)
                * self.minor_extent(dim)) + (if upto < self.counts().len() {
                upto
            } else {
                upto - 1
            }) * self.minor_extent(dim),
        decreases upto,
    {
        let s = share(self.major_extent(dim), self.counts().len() as int);
        let c = self.minor_extent(dim);
        if upto > 0 {
            let m = upto - 1;
            let k = self.counts()[m] as int;
            let t = share(c, k);
            self.lemma_strips_area(dim, m);
            self.lemma_strip_area(dim, m, k);
            lemma_share_within(c, k, 0);
            lemma_share_within(self.major_extent(dim), self.counts().len() as int, m);
            assert(0 <= lost(c, k)) by (nonlinear_arith)
                requires
                    lost(c, k) == c - (k - 1) - k * t,
                    t == (c - (k - 1)) / k,
                    k >= 1,
                    c - (k - 1) >= 0,
            ;
            lemma_windows_area_add(self.all_windows(dim, m), self.strip_windows(dim, m, k));
            let within = self.all_borders(dim, m) + self.strip_borders(dim, m, k);
            lemma_borders_area_add(self.all_borders(dim, m), self.strip_borders(dim, m, k));
            if upto < self.counts().len() {
                let border = self.major_border_at(dim, m);
                let all = self.all_borders(dim, upto);
                assert(all.drop_last() =~= within);
                assert(all.last() == border);
                assert(border.length * border.thickness == c) by (nonlinear_arith)
                    requires
                        border.length == c,
                        border.thickness == 1,
                ;
            }
            let before = windows_area(self.all_windows(dim, m)) + borders_area(
                self.all_borders(dim, m),
            );
            let lost_before = self.minor_lost(dim, m);
            assert(k * (s * t) + (k - 1) * s + s * lost(c, k) == s * c) by (nonlinear_arith)
                requires
                    lost(c, k) == c - (k - 1) - k * t,
            ;
            assert(s * (lost_before + lost(c, k)) == s * lost_before + s * lost(c, k))
                by (nonlinear_arith);
            assert((m + 1) * (s * c) == m * (s * c) + s * c) by (nonlinear_arith);
            assert((m + 1) * c == m * c + c) by (nonlinear_arith);
        } else {
            assert(0 * (s * c) == 0) by (nonlinear_arith);
            assert(0 * c == 0) by (nonlinear_arith);
            assert(s * 0 == 0) by (nonlinear_arith);
        }
    }

    /// Coverage: on a screen that has room for the borders, the cells of
    /// the windows, the cells of the borders and the cells that are lost to
    /// the sharing out make up the screen. Lost are, along the major axis,
    /// fewer rows or columns than there are strips, and in each strip
    /// fewer cells across than it has windows.
    pub proof fn lemma_coverage(&self, dim: Plot)
        requires
            self.wf(),
            self.fits(dim),
        ensures
            windows_area(self.all_windows(dim, self.counts().len() as int)) + borders_area(
                self.all_borders(dim, self.counts().len() as int),
            ) + self.slack(dim) == dim.row * dim.col,
            0 <= self.slack(dim),
            0 <= lost(self.major_extent(dim), self.counts().len() as int) < self.counts().len(),
    {
        let n = self.counts().len() as int;
        let r = self.major_extent(dim);
        let c = self.minor_extent(dim);
        let s = share(r, n);
        self.lemma_strips_area(dim, n);
        lemma_share_within(r, n, 0);
        let gone = lost(r, n);
        let across = self.minor_lost(dim, n);
        assert(0 <= gone < n) by (nonlinear_arith)
            requires
                gone == r - (n - 1) - n * s,
                s == (r - (n - 1)) / n,
                n >= 1,
                r - (n - 1) >= 0,
        ;
        assert(n * (s * c) + (n - 1) * c + c * gone == r * c) by (nonlinear_arith)
            requires
                gone == r - (n - 1) - n * s,
        ;
        assert(0 <= c * gone + s * across) by (nonlinear_arith)
            requires
                0 <= c,
                0 <= gone,
                0 <= s,
                0 <= across,
        ;
        assert(dim.row * dim.col == r * c) by (nonlinear_arith)
            requires
                (dim.row == r && dim.col == c) || (dim.row == c && dim.col == r),
        ;
    }

    /// Every window lies on the screen, where the screen is wide enough
    /// for the borders.
    pub proof fn lemma_window_on_screen(&self, dim: Plot, m: int, j: int)
        requires
            self.wf(),
            0 <= m < self.counts().len(),
            0 <= j < self.counts()[m],
            self.major_extent(dim) >= self.counts().len() - 1,
            self.minor_extent(dim) >= self.counts()[m] - 1,
        ensures
            self.window_at(dim, m, j).start.row + self.window_at(dim, m, j).dim.row <= dim.row,
            self.window_at(dim, m, j).start.col + self.window_at(dim, m, j).dim.col <= dim.col,
    {
        lemma_share_within(self.major_extent(dim), self.counts().len() as int, m);
        lemma_share_within(self.minor_extent(dim), self.counts()[m] as int, j);
    }
}

/// A grid with the rectangles it gives on a screen.
pub struct Layout {
    window_space: Vec<WindowSpace>,
    border_space: Vec<BorderSpace>,
    grid: Grid,
    dim: Plot,
}

impl Layout {
    /// The grid of the layout.
    pub closed spec fn grid_of(&self) -> Grid {
        self.grid
    }

    /// The dimension of the screen.
    pub closed spec fn screen(&self) -> Plot {
        self.dim
    }

    /// The rectangles of the windows as they were last generated.
    pub closed spec fn windows(&self) -> Seq<WindowSpace> {
        self.window_space@
    }

    /// The strips of the borders as they were last generated.
    pub closed spec fn borders(&self) -> Seq<BorderSpace> {
        self.border_space@
    }

    /// The grid is well formed, and the rectangles and strips are those
    /// that the grid gives on the screen.
    pub open spec fn wf(&self) -> bool {
        &&& self.grid_of().wf()
        &&& self.windows() == self.grid_of().windows_on(self.screen())
        &&& self.borders() == self.grid_of().borders_on(self.screen())
    }

    /// A layout of one window on a screen of the dimension `dim`.
    pub fn new(dim: Plot) -> (layout: Layout)
        ensures
            layout.wf(),
            layout.screen() == dim,
            layout.grid_of().counts() == seq![1usize],
            !layout.grid_of().columns_first(),
    {
        let mut layout = Layout {
            window_space: Vec::new(),
            border_space: Vec::new(),
            grid: Grid::new(),
            dim,
        };
        layout.generate();
        layout
    }

    /// Take `dim` as the dimension of the screen and generate anew.
    pub fn set_dim(&mut self, dim: Plot)
        requires
            old(self).grid_of().wf(),
        ensures
            final(self).wf(),
            final(self).screen() == dim,
            final(self).grid_of() == old(self).grid_of(),
    {
        self.dim = dim;
        self.generate();
    }

    /// Work out the rectangles and borders for the grid and the screen.
    pub fn generate(&mut self)
        requires
            old(self).grid_of().wf(),
        ensures
            final(self).wf(),
            final(self).screen() == old(self).screen(),
            final(self).grid_of() == old(self).grid_of(),
    {
        let result = self.grid.generate(self.dim);
        self.window_space = result.0;
        self.border_space = result.1;
    }

    /// Make room for one more window in the first strip and generate anew.
    /// A strip that is full stays as it is, and the error says so.
    pub fn split(&mut self) -> (res: Result<(), LayoutError>)
        requires
            old(self).wf(),
        ensures
            final(self).wf(),
            final(self).screen() == old(self).screen(),
            final(self).grid_of().columns_first() == old(self).grid_of().columns_first(),
            match res {
                Ok(()) => old(self).grid_of().counts()[0] < usize::MAX && final(self).grid_of().counts() == old(self).grid_of().counts().update(
                    0,
                    (old(self).grid_of().counts()[0] + 1) as usize,
                ),
                Err(e) => old(self).grid_of().counts()[0] == usize::MAX && e == LayoutError::Full
                    && final(self).grid_of().counts() == old(self).grid_of().counts(),
            },
    {
        let res = self.grid.split_minor(0);
        self.generate();
        res
    }

    /// Take the room of one window away from the first strip, where it has
    /// more than one, and generate anew.
    pub fn join(&mut self)
        requires
            old(self).wf(),
        ensures
            final(self).wf(),
            final(self).screen() == old(self).screen(),
            final(self).grid_of().columns_first() == old(self).grid_of().columns_first(),
            final(self).grid_of().counts() == if old(self).grid_of().counts()[0] > 1 {
                old(self).grid_of().counts().update(
                    0,
                    (old(self).grid_of().counts()[0] - 1) as usize,
                )
            } else {
                old(self).grid_of().counts()
            },
    {
        self.grid.join_minor(0);
        self.generate();
    }

    /// The sizes of the rectangles of the windows, in their order.
    pub open spec fn sizes(&self) -> Seq<Plot> {
        Seq::new(self.windows().len(), |i: int| self.windows()[i].dim)
    }

    /// Whether `after` is this layout with room for `count` windows in its
    /// first strip, on the same screen.
    pub open spec fn fitted(&self, count: nat, after: Layout) -> bool {
        &&& after.wf()
        &&& after.screen() == self.screen()
        &&& after.grid_of().columns_first() == self.grid_of().columns_first()
        &&& after.grid_of().counts() == self.grid_of().counts().update(
            0,
            if count == 0 {
                1usize
            } else {
                count as usize
            },
        )
    }

    /// Let the first strip hold `count` windows, one where `count` is zero,
    /// and generate anew.
    pub fn fit(&mut self, count: usize)
        requires
            old(self).wf(),
        ensures
            final(self).wf(),
            final(self).screen() == old(self).screen(),
            final(self).grid_of().columns_first() == old(self).grid_of().columns_first(),
            old(self).fitted(count as nat, *final(self)),
    {
        let room = if count == 0 {
            1
        } else {
            count
        };
        self.grid.set_minor(0, room);
        self.generate();
    }

    /// The dimension of the screen.
    pub fn get_dim(&self) -> (dim: Plot)
        ensures
            dim == self.screen(),
    {
        self.dim
    }

    /// The rectangles of the windows.
    pub fn get_windows(&self) -> (windows: &Vec<WindowSpace>)
        ensures
            windows@ == self.windows(),
    {
        &self.window_space
    }

    /// The strips of the borders.
    pub fn get_borders(&self) -> (borders: &Vec<BorderSpace>)
        ensures
            borders@ == self.borders(),
    {
        &self.border_space
    }
}

} // verus!
