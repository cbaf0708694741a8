//! Windows that are drawn over the others and say themselves where.

use vstd::prelude::*;
use crate::plot::Plot;
use crate::textedit::alert::Alert;
use vstd::utf8::encode_utf8;
use crate::style::canvas::{Canvas, CanvasView};
use crate::window::command::Command;
use crate::event::Uuid;
use crate::window::window::{grown, id_of, Bus, Poster, WindowEvent};

verus! {

/// Where a popup lies along one axis of the screen.
#[derive(Clone, Copy, Debug, PartialEq, Eq, Structural)]
pub enum PopUpPositionOption {
    /// So far from the middle: to the right or down where the offset is
    /// positive, to the left or up where it is negative.
    Centered(isize),
    /// So far from the top or the left.
    NegativeBound(usize),
    /// So far from the bottom or the right.
    PositiveBound(usize),
}

/// Where a popup lies on the screen.
#[derive(Clone, Copy, Debug, PartialEq, Eq, Structural)]
pub struct PopUpPosition {
    pub row: PopUpPositionOption,
    pub col: PopUpPositionOption,
}

/// How far a popup reaches along one axis of the screen.
#[derive(Clone, Copy, Debug, PartialEq, Eq, Structural)]
pub enum PopUpDimensionOption {
    /// So many cells.
    Fixed(usize),
    /// So many hundredths of what there is, a hundred at most.
    Percent(u8),
}

/// How large a popup is.
#[derive(Clone, Copy, Debug, PartialEq, Eq, Structural)]
pub struct PopUpDimension {
    pub row: PopUpDimensionOption,
    pub col: PopUpDimensionOption,
}

/// The cell that `pos` names on an axis of `avail` cells: never before
/// the first cell nor behind the last.
pub open spec fn term_pos_spec(avail: int, pos: PopUpPositionOption) -> int {
    let wanted = match pos {
        PopUpPositionOption::Centered(offset) => avail / 2 + offset,
        PopUpPositionOption::NegativeBound(offset) => offset as int,
        PopUpPositionOption::PositiveBound(offset) => avail - offset,
    };
    if wanted < 0 {
        0
    } else if wanted > avail {
        avail
    } else {
        wanted
    }
}

/// The cells that `dim` asks for on an axis of `avail` cells.
pub open spec fn term_dim_spec(avail: int, dim: PopUpDimensionOption) -> int {
    match dim {
        PopUpDimensionOption::Fixed(n) => n as int,
        PopUpDimensionOption::Percent(p) => if p >= 100 {
            avail
        } else {
            avail * p / 100
        },
    }
}

/// The cell that `pos` names on an axis of `avail` cells.
pub fn to_term_pos(avail: usize, pos: PopUpPositionOption) -> (at: usize)
    ensures
        at == term_pos_spec(avail as int, pos),
        at <= avail,
{
    match pos {
        PopUpPositionOption::Centered(offset) => {
            let middle = avail / 2;
            if offset >= 0 {
                let right = offset as usize;
                if right > avail - middle {
                    avail
                } else {
                    middle + right
                }
            } else {
                let left = if offset == isize::MIN {
                    usize::MAX
                } else {
                    (-offset) as usize
                };
                if left > middle {
                    0
                } else {
                    middle - left
                }
            }
        },
        PopUpPositionOption::NegativeBound(offset) => if offset > avail {
            avail
        } else {
            offset
        },
        PopUpPositionOption::PositiveBound(offset) => if offset > avail {
            0
        } else {
            avail - offset
        },
    }
}

/// The cells that `dim` asks for on an axis of `avail` cells.
pub fn to_term_dim(avail: usize, dim: PopUpDimensionOption) -> (cells: usize)
    ensures
        cells == term_dim_spec(avail as int, dim),
{
    match dim {
        PopUpDimensionOption::Fixed(n) => n,
        PopUpDimensionOption::Percent(p) => {
            if p >= 100 {
                avail
            } else {
                let whole = avail / 100;
                let part = avail % 100;
                assert(avail * p / 100 == whole * p + part * p / 100) by (nonlinear_arith)
                    requires
                        avail == whole * 100 + part,
                        0 <= part < 100,
                        0 <= p < 100,
                ;
                assert(whole * p <= avail) by (nonlinear_arith)
                    requires
                        avail == whole * 100 + part,
                        0 <= part,
                        0 <= p < 100,
                        0 <= whole,
                ;
                assert(part * p < 10000) by (nonlinear_arith)
                    requires
                        0 <= part < 100,
                        0 <= p < 100,
                ;
                assert(avail * p / 100 <= avail) by (nonlinear_arith)
                    requires
                        0 <= p < 100,
                        0 <= avail,
                ;
                whole * (p as usize) + part * (p as usize) / 100
            }
        },
    }
}

/// Any popup.
pub enum PopUp {
    Command(Command),
    Alert(Alert),
}

impl PopUp {
    /// The requests that the popup may post carry well-formed windows only.
    pub open spec fn wf(&self) -> bool
        decreases self,
    {
        match self {
            PopUp::Command(_) => true,
            PopUp::Alert(popup) => popup.wf(),
        }
    }

    /// Whether `after` is this popup with a poster that posts under `id`.
    pub open spec fn with_poster(&self, id: Uuid, after: PopUp) -> bool {
        match (*self, after) {
            (PopUp::Command(popup), PopUp::Command(next)) => next.text() == popup.text()
                && next.poster_id() == Some(id),
            (PopUp::Alert(popup), PopUp::Alert(next)) => next.content == popup.content
                && next.options == popup.options && next.settings == popup.settings
                && next.current == popup.current && id_of(next.event_poster) == Some(id),
            _ => false,
        }
    }

    /// Take the poster to post with.
    pub fn init(&mut self, poster: Poster)
        requires
            old(self).wf(),
        ensures
            final(self).wf(),
            old(self).with_poster(poster.id(), *final(self)),
    {
        match self {
            PopUp::Command(popup) => popup.init(poster),
            PopUp::Alert(popup) => popup.init(poster),
        }
    }

    /// Whether `after` is this popup after it took in `event`, and `out` the
    /// bus `into` after the popup posted to it.
    pub open spec fn stepped(&self, event: WindowEvent, after: PopUp, into: Bus, out: Bus) -> bool {
        match (*self, after) {
            (PopUp::Command(popup), PopUp::Command(next)) => popup.stepped(event, next, into, out),
            (PopUp::Alert(popup), PopUp::Alert(next)) => popup.stepped(event, next, into, out),
            _ => false,
        }
    }

    /// Take in `event` and post what it calls for to `bus`.
    pub fn event(&mut self, event: WindowEvent, bus: &mut Bus)
        requires
            old(self).wf(),
        ensures
            final(self).wf(),
            old(self).stepped(event, *final(self), *old(bus), *final(bus)),
            grown(*old(bus), *final(bus)),
    {
        match self {
            PopUp::Command(popup) => popup.event(event, bus),
            PopUp::Alert(popup) => popup.event(event, bus),
        }
    }

    /// The canvas `v` with the popup drawn onto it.
    pub open spec fn drawn(&self, v: CanvasView) -> CanvasView {
        match self {
            PopUp::Command(popup) => v.written(
                encode_utf8(seq![':'] + popup.text()),
                Seq::empty(),
                false,
            ),
            PopUp::Alert(popup) => popup.drawn(v),
        }
    }

    /// Where the popup lies on the screen.
    pub open spec fn position_spec(&self) -> PopUpPosition {
        match self {
            PopUp::Command(_) => PopUpPosition {
                row: PopUpPositionOption::PositiveBound(1),
                col: PopUpPositionOption::NegativeBound(0),
            },
            PopUp::Alert(popup) => popup.position_spec(),
        }
    }

    /// How large the popup is.
    pub open spec fn dimension_spec(&self) -> PopUpDimension {
        match self {
            PopUp::Command(_) => PopUpDimension {
                row: PopUpDimensionOption::Fixed(1),
                col: PopUpDimensionOption::Percent(100),
            },
            PopUp::Alert(popup) => popup.dimension_spec(),
        }
    }

    /// Draw the popup onto `canvas`, which is of the size the popup has.
    pub fn draw(&self, canvas: &mut Canvas)
        requires
            old(canvas).wf(),
        ensures
            final(canvas).wf(),
            final(canvas)@ == self.drawn(old(canvas)@),
    {
        match self {
            PopUp::Command(popup) => popup.draw(canvas),
            PopUp::Alert(popup) => popup.draw(canvas),
        }
    }

    /// Where the popup lies on the screen.
    pub fn position(&self) -> (position: PopUpPosition)
        ensures
            position == self.position_spec(),
    {
        match self {
            PopUp::Command(popup) => popup.position(),
            PopUp::Alert(popup) => popup.position(),
        }
    }

    /// How large the popup is.
    pub fn dimension(&self) -> (dimension: PopUpDimension)
        ensures
            dimension == self.dimension_spec(),
    {
        match self {
            PopUp::Command(popup) => popup.dimension(),
            PopUp::Alert(popup) => popup.dimension(),
        }
    }

    /// Whether the popup belongs to one window only: a command line does,
    /// an alert does not.
    pub fn local(&self) -> (local: bool)
        ensures
            local == (self is Command),
    {
        match self {
            PopUp::Command(popup) => popup.local(),
            PopUp::Alert(popup) => popup.local(),
        }
    }
}

} // verus!
