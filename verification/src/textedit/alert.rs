//! A popup that asks a question and posts what the chosen answer stands for.

use vstd::prelude::*;
use vstd::utf8::encode_utf8;
use crate::event::Uuid;
use crate::plot::Plot;
use crate::style::canvas::{Canvas, CanvasView};
use crate::style::style::{StyleAttribute, StyledText, ThemeColor};
use crate::text::push_char;
use crate::window::popup::{
    PopUpDimension, PopUpDimensionOption, PopUpPosition, PopUpPositionOption,
};
use crate::window::window::{
    all_wf, appended, grown, id_of, lemma_appended_twice, lemma_grown_twice,
    lemma_posted_one_more, post, post_all, posted_by, request_wf, views_of, Bus, Key, Poster,
    RequestView, WindowEvent, WindowRequest,
};

verus! {

/// How an alert looks.
#[derive(Clone, Copy, Debug)]
pub struct AlertSettings {
    pub margin: usize,
    pub border: bool,
    pub background: ThemeColor,
}

impl Default for AlertSettings {
    fn default() -> (settings: Self)
        ensures
            settings.margin == 2,
            settings.border,
            settings.background == ThemeColor::Background,
    {
        Self { margin: 2, border: true, background: ThemeColor::Background }
    }
}

/// One answer of an alert: how it reads and what is posted when it is chosen.
pub struct AlertOption {
    pub label: StyledText,
    pub requests: Vec<WindowRequest>,
}

/// A question with some answers to choose from.
pub struct Alert {
    pub content: StyledText,
    pub options: Vec<AlertOption>,
    pub settings: AlertSettings,
    pub event_poster: Option<Poster>,
    pub current: usize,
}

/// The answer that is selected after `key`, of `count` answers: a character
/// key, Tab, Right or Down go on to the next and from the last to the
/// first, Left and Up go back and from the first to the last.
pub open spec fn selected_after(current: int, count: int, key: Key) -> int {
    if count <= 0 {
        current
    } else {
        match key {
            Key::Char(_) | Key::Tab | Key::Right | Key::Down => (current % count + 1) % count,
            Key::Left | Key::Up => if current % count == 0 {
                count - 1
            } else {
                current % count - 1
            },
            _ => current,
        }
    }
}

/// The text of `n` times the character `c`.
pub fn repeated(c: char, n: usize) -> (s: String)
    ensures
        s@ == Seq::new(n as nat, |i: int| c),
{
    let mut s = String::new();
    let mut i: usize = 0;
    while i < n
        invariant
            i <= n,
            s@ == Seq::new(i as nat, |k: int| c),
        decreases n - i,
    {
        push_char(&mut s, c);
        i += 1;
        assert(s@ =~= Seq::new(i as nat, |k: int| c));
    }
    s
}

impl Alert {
    /// What the answers stand for carries well-formed windows only.
    pub open spec fn wf(&self) -> bool
        decreases self,
    {
        forall|i: int, j: int|
            0 <= i < self.options@.len() && 0 <= j < self.options@[i].requests@.len()
                ==> request_wf(#[trigger] self.options@[i].requests@[j])
    }

    /// What the alert posts when Enter is pressed: what the selected answer
    /// stands for, then that the alert leaves.
    pub open spec fn chosen(&self) -> Seq<RequestView> {
        if self.current < self.options@.len() {
            views_of(self.options@[self.current as int].requests@).push(
                RequestView::RemoveSelfPopup,
            )
        } else {
            seq![RequestView::RemoveSelfPopup]
        }
    }

    /// An alert that asks `content` and has no answers yet.
    pub fn new(content: StyledText) -> (alert: Self)
        ensures
            alert.content == content,
            alert.options@.len() == 0,
            alert.event_poster is None,
            alert.current == 0,
            alert.settings.margin == 2,
            alert.settings.border,
            alert.settings.background == ThemeColor::Background,
            alert.wf(),
    {
        Alert {
            content,
            options: Vec::new(),
            settings: AlertSettings::default(),
            event_poster: None,
            current: 0,
        }
    }

    /// Take the poster to post with.
    pub fn init(&mut self, poster: Poster)
        ensures
            old(self).wf() ==> final(self).wf(),
            final(self).event_poster == Some(poster),
            final(self).content == old(self).content,
            final(self).options == old(self).options,
            final(self).settings == old(self).settings,
            final(self).current == old(self).current,
    {
        self.event_poster = Some(poster);
    }

    /// Whether `after` is this alert after it took in `event`, and `out` the
    /// bus `into` after the alert posted to it.
    pub open spec fn stepped(&self, event: WindowEvent, after: Alert, into: Bus, out: Bus) -> bool {
        &&& after.content == self.content
        &&& after.settings == self.settings
        &&& after.event_poster == self.event_poster
        &&& after.options@.len() == self.options@.len()
        &&& match event {
            WindowEvent::Input { key: Key::Enter, .. } => {
                &&& after.current == self.current
                &&& appended(into, out, posted_by(id_of(self.event_poster), self.chosen()))
                &&& forall|i: int|
                    0 <= i < self.options@.len() ==> (#[trigger] after.options@[i]).label
                        == self.options@[i].label && after.options@[i].requests@ == if i
                        == self.current {
                        Seq::<WindowRequest>::empty()
                    } else {
                        self.options@[i].requests@
                    }
            },
            WindowEvent::Input { key, .. } => {
                &&& after.current == selected_after(
                    self.current as int,
                    self.options@.len() as int,
                    key,
                )
                &&& after.options == self.options
                &&& out == into
            },
            _ => after == *self && out == into,
        }
    }

    /// Take in `event`: keys move the selection, Enter posts what the
    /// selected answer stands for and that the alert leaves. What was
    /// posted is posted once: the answer stands for nothing afterwards.
    pub fn event(&mut self, event: WindowEvent, bus: &mut Bus)
        requires
            old(self).wf(),
        ensures
            final(self).wf(),
            old(self).stepped(event, *final(self), *old(bus), *final(bus)),
            grown(*old(bus), *final(bus)),
    {
        proof {
            crate::window::window::lemma_appended_nothing(*bus);
        }
        match event {
            WindowEvent::Input { key, modifiers } => match key {
                Key::Enter => {
                    let ghost id = id_of(self.event_poster);
                    let ghost first = *bus;
                    let mut taken: Vec<WindowRequest> = Vec::new();
                    if self.current < self.options.len() {
                        let current = self.current;
                        core::mem::swap(&mut self.options[current].requests, &mut taken);
                        assert(all_wf(taken@)) by {
                            assert forall|j: int| 0 <= j < taken@.len() implies request_wf(
                                #[trigger] taken@[j],
                            ) by {
                                assert(request_wf(
                                    old(self).options@[current as int].requests@[j],
                                ));
                            }
                        }
                        assert forall|i: int, j: int|
                            0 <= i < self.options@.len() && 0 <= j
                                < self.options@[i].requests@.len() implies request_wf(
                            #[trigger] self.options@[i].requests@[j],
                        ) by {
                            assert(request_wf(old(self).options@[i].requests@[j]));
                        }
                    }
                    let ghost early = views_of(taken@);
                    post_all(&self.event_poster, bus, taken);
                    let ghost second = *bus;
                    post(&self.event_poster, bus, WindowRequest::RemoveSelfPopup);
                    proof {
                        lemma_posted_one_more(id, early, RequestView::RemoveSelfPopup);
                        lemma_appended_twice(
                            first,
                            second,
                            *bus,
                            posted_by(id, early),
                            posted_by(id, seq![RequestView::RemoveSelfPopup]),
                        );
                        if old(self).current >= old(self).options@.len() {
                            assert(early.push(RequestView::RemoveSelfPopup) =~= seq![
                                RequestView::RemoveSelfPopup,
                            ]);
                        }
                        lemma_grown_twice(first, second, *bus);
                    }
                },
                Key::Char(_) | Key::Tab | Key::Right | Key::Down => {
                    let count = self.options.len();
                    if count > 0 {
                        self.current = (self.current % count + 1) % count;
                    }
                },
                Key::Left | Key::Up => {
                    let count = self.options.len();
                    if count > 0 {
                        let at = self.current % count;
                        self.current = if at == 0 {
                            count - 1
                        } else {
                            at - 1
                        };
                    }
                },
                _ => {},
            },
            _ => {},
        }
    }

    /// The attributes of the frame.
    pub open spec fn frame_style() -> Seq<StyleAttribute> {
        seq![StyleAttribute::Color(ThemeColor::Black), StyleAttribute::Bold(true)]
    }

    /// The cells of `n` times the character `c`.
    pub open spec fn run(c: char, n: int) -> Seq<u8> {
        encode_utf8(Seq::new(n as nat, |i: int| c))
    }

    /// The canvas `v` with the sides of the frame drawn onto the rows from
    /// `row` up to `until`.
    pub open spec fn sides_drawn(v: CanvasView, row: int, until: int) -> CanvasView
        decreases until - row,
    {
        if row >= until {
            v
        } else {
            Self::sides_drawn(
                v.put_at(
                    Self::run('|', 1),
                    Self::frame_style(),
                    false,
                    Plot { row: row as usize, col: 0 },
                ).put_at(
                    Self::run('|', 1),
                    Self::frame_style(),
                    false,
                    Plot { row: row as usize, col: (v.dim.col - 1) as usize },
                ),
                row + 1,
                until,
            )
        }
    }

    /// The canvas `v` with the frame drawn onto it: the corners, the top
    /// and the bottom, and the sides.
    pub open spec fn framed(v: CanvasView) -> CanvasView {
        let rows = (v.dim.row - 1) as usize;
        let cols = (v.dim.col - 1) as usize;
        let width = if cols >= 1 {
            cols - 1
        } else {
            0
        };
        let style = Self::frame_style();
        Self::sides_drawn(
            v.put_at(Self::run('@', 1), style, false, Plot { row: 0, col: 0 }).put_at(
                Self::run('@', 1),
                style,
                false,
                Plot { row: rows, col: 0 },
            ).put_at(Self::run('@', 1), style, false, Plot { row: 0, col: cols }).put_at(
                Self::run('@', 1),
                style,
                false,
                Plot { row: rows, col: cols },
            ).put_at(Self::run('-', width), style, false, Plot { row: 0, col: 1 }).put_at(
                Self::run('-', width),
                style,
                false,
                Plot { row: rows, col: 1 },
            ),
            1,
            rows as int,
        )
    }

    /// The canvas `v` with the answers from number `i` on written onto it
    /// in a row, two cells between them, the selected one on white.
    pub open spec fn answers_drawn(&self, v: CanvasView, i: int) -> CanvasView
        decreases self.options@.len() - i,
    {
        if i < 0 || i >= self.options@.len() {
            v
        } else {
            let label = self.options@[i].label;
            self.answers_drawn(
                v.written(
                    label.cells(),
                    if i == self.current {
                        label.attributes().push(StyleAttribute::BgColor(ThemeColor::White))
                    } else {
                        label.attributes()
                    },
                    false,
                ).written(Self::run(' ', 2), Seq::empty(), false),
                i + 1,
            )
        }
    }

    /// The canvas `v` with the alert drawn onto it: the background, the
    /// frame where it has one, the question within the margin, and two
    /// rows below it the answers.
    pub open spec fn drawn(&self, v: CanvasView) -> CanvasView {
        let tinted = v.tint(
            StyleAttribute::BgColor(self.settings.background),
            Plot { row: 0, col: 0 },
            Plot { row: (v.dim.row - 1) as usize, col: (v.dim.col - 1) as usize },
        );
        let framed = if self.settings.border {
            Self::framed(tinted)
        } else {
            tinted
        };
        let margin = self.settings.margin;
        let asked = framed.go(Plot { row: margin, col: margin }).written(
            self.content.cells(),
            self.content.attributes(),
            false,
        );
        self.answers_drawn(
            if margin <= usize::MAX - 2 {
                asked.go(Plot { row: (margin + 2) as usize, col: margin })
            } else {
                asked
            },
            0,
        )
    }

    /// Draw the alert: its background, its border, the question, and the
    /// answers in a row, the selected one set off.
    #[verifier::rlimit(80)]
    pub fn draw(&self, canvas: &mut Canvas)
        requires
            old(canvas).wf(),
        ensures
            final(canvas).wf(),
            final(canvas)@ == self.drawn(old(canvas)@),
    {
        let rows = canvas.last_row();
        let cols = canvas.last_col();
        let _ = canvas.set_attribute(
            StyleAttribute::BgColor(self.settings.background),
            Plot::new(0, 0),
            Plot::new(rows, cols),
        );
        if self.settings.border {
            let ghost tinted = canvas@;
            let corner = StyledText::new(repeated('@', 1)).with(
                StyleAttribute::Color(ThemeColor::Black),
            ).with(StyleAttribute::Bold(true));
            let width = if cols >= 1 {
                cols - 1
            } else {
                0
            };
            let horizontal = StyledText::new(repeated('-', width)).with(
                StyleAttribute::Color(ThemeColor::Black),
            ).with(StyleAttribute::Bold(true));
            let vertical = StyledText::new(repeated('|', 1)).with(
                StyleAttribute::Color(ThemeColor::Black),
            ).with(StyleAttribute::Bold(true));
            assert(corner.attributes() =~= Self::frame_style());
            assert(horizontal.attributes() =~= Self::frame_style());
            assert(vertical.attributes() =~= Self::frame_style());
            let _ = canvas.write_at(&corner, Plot::new(0, 0));
            let _ = canvas.write_at(&corner, Plot::new(rows, 0));
            let _ = canvas.write_at(&corner, Plot::new(0, cols));
            let _ = canvas.write_at(&corner, Plot::new(rows, cols));
            let _ = canvas.write_at(&horizontal, Plot::new(0, 1));
            let _ = canvas.write_at(&horizontal, Plot::new(rows, 1));
            let mut row: usize = 1;
            while row < rows
                invariant
                    canvas.wf(),
                    canvas@.dim == old(canvas)@.dim,
                    rows == old(canvas)@.dim.row - 1,
                    cols == old(canvas)@.dim.col - 1,
                    vertical.cells() == Self::run('|', 1),
                    vertical.attributes() == Self::frame_style(),
                    Self::framed(tinted) == Self::sides_drawn(canvas@, row as int, rows as int),
                decreases rows - row,
            {
                let _ = canvas.write_at(&vertical, Plot::new(row, 0));
                let _ = canvas.write_at(&vertical, Plot::new(row, cols));
                row += 1;
            }
        }
        let margin = self.settings.margin;
        let _ = canvas.move_to(Plot::new(margin, margin));
        canvas.write(&self.content);
        if margin <= usize::MAX - 2 {
            let _ = canvas.move_to(Plot::new(margin + 2, margin));
        }
        let gap = StyledText::new(repeated(' ', 2));
        let ghost start = canvas@;
        let mut i: usize = 0;
        while i < self.options.len()
            invariant
                canvas.wf(),
                i <= self.options@.len(),
                gap.cells() == Self::run(' ', 2),
                gap.attributes() == Seq::<StyleAttribute>::empty(),
                self.answers_drawn(start, 0) == self.answers_drawn(canvas@, i as int),
            decreases self.options@.len() - i,
        {
            if i == self.current {
                let selected = self.options[i].label.restyled(
                    StyleAttribute::BgColor(ThemeColor::White),
                );
                canvas.write(&selected);
            } else {
                canvas.write(&self.options[i].label);
            }
            canvas.write(&gap);
            i += 1;
        }
    }

    /// Where the alert lies: about the middle of the screen, up and to the
    /// left by the margin and half of what it shows.
    pub open spec fn position_spec(&self) -> PopUpPosition {
        let margin = if self.settings.margin > 1000 {
            1000
        } else {
            self.settings.margin as int
        };
        let half = if self.content.cells().len() / 2 > 10000 {
            10000
        } else {
            (self.content.cells().len() / 2) as int
        };
        PopUpPosition {
            row: PopUpPositionOption::Centered((-(margin + 1)) as isize),
            col: PopUpPositionOption::Centered((-(margin + half)) as isize),
        }
    }

    /// How large the alert is: three rows and the question, with the
    /// margin around them.
    pub open spec fn dimension_spec(&self) -> PopUpDimension {
        let margin = if self.settings.margin > 1000 {
            1000
        } else {
            self.settings.margin as int
        };
        let len = if self.content.cells().len() > usize::MAX - 2000 {
            usize::MAX - 2000
        } else {
            self.content.cells().len() as int
        };
        PopUpDimension {
            row: PopUpDimensionOption::Fixed((3 + margin * 2) as usize),
            col: PopUpDimensionOption::Fixed((len + margin * 2) as usize),
        }
    }

    /// Where the alert lies.
    pub fn position(&self) -> (position: PopUpPosition)
        ensures
            position == self.position_spec(),
    {
        let margin = if self.settings.margin > 1000 {
            1000
        } else {
            self.settings.margin
        };
        let half = if self.content.len() / 2 > 10000 {
            10000
        } else {
            self.content.len() / 2
        };
        PopUpPosition {
            row: PopUpPositionOption::Centered(-((margin + 1) as isize)),
            col: PopUpPositionOption::Centered(-((margin + half) as isize)),
        }
    }

    /// How large the alert is.
    pub fn dimension(&self) -> (dimension: PopUpDimension)
        ensures
            dimension == self.dimension_spec(),
    {
        let margin = if self.settings.margin > 1000 {
            1000
        } else {
            self.settings.margin
        };
        let len = if self.content.len() > usize::MAX - 2000 {
            usize::MAX - 2000
        } else {
            self.content.len()
        };
        PopUpDimension {
            row: PopUpDimensionOption::Fixed(3 + margin * 2),
            col: PopUpDimensionOption::Fixed(len + margin * 2),
        }
    }

    /// Whether the alert belongs to one window only.
    pub fn local(&self) -> (local: bool)
        ensures
            !local,
    {
        false
    }
}

} // verus!
