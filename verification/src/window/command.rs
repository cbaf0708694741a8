//! The command line: a popup that takes in a command and posts it.

use vstd::prelude::*;
use vstd::utf8::encode_utf8;
use crate::event::Uuid;
use crate::style::canvas::Canvas;
use crate::style::style::{StyleAttribute, StyledText};
use crate::text::{joined, pop_char, push_char};
use crate::window::popup::{
    PopUpDimension, PopUpDimensionOption, PopUpPosition, PopUpPositionOption,
};
use crate::window::window::{
    all_wf, appended, grown, id_of, post_all, posted_by, views_of, Bus, Key, Poster, RequestView,
    WindowEvent, WindowRequest,
};

verus! {

/// A single line that is typed into, drawn as a colon and what was typed.
pub struct Command {
    cmd: String,
    poster: Option<Poster>,
}

/// The text of the command line after `event`.
pub open spec fn command_text_after(text: Seq<char>, event: WindowEvent) -> Seq<char> {
    match event {
        WindowEvent::Input { key: Key::Char(c), .. } => text.push(c),
        WindowEvent::Input { key: Key::Backspace, .. } => if text.len() > 0 {
            text.drop_last()
        } else {
            text
        },
        _ => text,
    }
}

/// What the command line posts on `event`: on Enter the command and that
/// it leaves, on Esc that it leaves, and always that it wants to be drawn.
pub open spec fn command_posts(text: Seq<char>, event: WindowEvent) -> Seq<RequestView> {
    match event {
        WindowEvent::Input { key: Key::Enter, .. } => seq![
            RequestView::Command(text),
            RequestView::RemoveSelfPopup,
            RequestView::Redraw,
        ],
        WindowEvent::Input { key: Key::Esc, .. } => seq![
            RequestView::RemoveSelfPopup,
            RequestView::Redraw,
        ],
        _ => seq![RequestView::Redraw],
    }
}

impl Command {
    /// What was typed.
    pub closed spec fn text(&self) -> Seq<char> {
        self.cmd@
    }

    /// The identifier the command line posts under, once it has one.
    pub closed spec fn poster_id(&self) -> Option<Uuid> {
        id_of(self.poster)
    }

    /// An empty command line.
    pub fn new() -> (command: Self)
        ensures
            command.text() == Seq::<char>::empty(),
            command.poster_id() is None,
    {
        Command { cmd: String::new(), poster: None }
    }

    /// Take the poster to post with.
    pub fn init(&mut self, poster: Poster)
        ensures
            final(self).text() == old(self).text(),
            final(self).poster_id() == Some(poster.id()),
    {
        self.poster = Some(poster);
    }

    /// Whether `after` is this command line after it took in `event`, and
    /// `out` the bus `into` after the command line posted to it.
    pub open spec fn stepped(&self, event: WindowEvent, after: Command, into: Bus, out: Bus) -> bool {
        &&& after.text() == command_text_after(self.text(), event)
        &&& after.poster_id() == self.poster_id()
        &&& appended(into, out, posted_by(self.poster_id(), command_posts(self.text(), event)))
    }

    /// Take in `event`: a character is typed, Backspace takes the last one
    /// back, Enter posts the command, Esc leaves.
    pub fn event(&mut self, event: WindowEvent, bus: &mut Bus)
        ensures
            old(self).stepped(event, *final(self), *old(bus), *final(bus)),
            grown(*old(bus), *final(bus)),
    {
        let mut out: Vec<WindowRequest> = Vec::new();
        assert(views_of(out@) =~= Seq::<RequestView>::empty());
        match event {
            WindowEvent::Input { key, modifiers } => match key {
                Key::Char(c) => {
                    push_char(&mut self.cmd, c);
                },
                Key::Backspace => {
                    let _ = pop_char(&mut self.cmd);
                },
                Key::Enter => {
                    out.push(WindowRequest::Command(self.cmd.clone()));
                    out.push(WindowRequest::RemoveSelfPopup);
                    assert(views_of(out@) =~= seq![
                        RequestView::Command(self.cmd@),
                        RequestView::RemoveSelfPopup,
                    ]);
                },
                Key::Esc => {
                    out.push(WindowRequest::RemoveSelfPopup);
                    assert(views_of(out@) =~= seq![RequestView::RemoveSelfPopup]);
                },
                _ => {},
            },
            _ => {},
        }
        let ghost early = views_of(out@);
        out.push(WindowRequest::Redraw);
        assert(views_of(out@) =~= early.push(RequestView::Redraw));
        assert(views_of(out@) =~= command_posts(old(self).text(), event));
        assert(all_wf(out@));
        post_all(&self.poster, bus, out);
    }

    /// Draw the command line: a colon, then what was typed.
    pub fn draw(&self, canvas: &mut Canvas)
        requires
            old(canvas).wf(),
        ensures
            final(canvas).wf(),
            final(canvas)@ == old(canvas)@.written(
                encode_utf8(seq![':'] + self.text()),
                Seq::<StyleAttribute>::empty(),
                false,
            ),
    {
        proof {
            reveal_strlit(":");
        }
        let text = joined(":", self.cmd.as_str());
        assert(text@ =~= seq![':'] + self.text());
        canvas.write(&StyledText::new(text));
    }

    /// Where the command line lies: on the bottom row, from the left.
    pub fn position(&self) -> (position: PopUpPosition)
        ensures
            position == (PopUpPosition {
                row: PopUpPositionOption::PositiveBound(1),
                col: PopUpPositionOption::NegativeBound(0),
            }),
    {
        PopUpPosition {
            row: PopUpPositionOption::PositiveBound(1),
            col: PopUpPositionOption::NegativeBound(0),
        }
    }

    /// How large the command line is: one row, as wide as the screen.
    pub fn dimension(&self) -> (dimension: PopUpDimension)
        ensures
            dimension == (PopUpDimension {
                row: PopUpDimensionOption::Fixed(1),
                col: PopUpDimensionOption::Percent(100),
            }),
    {
        PopUpDimension {
            row: PopUpDimensionOption::Fixed(1),
            col: PopUpDimensionOption::Percent(100),
        }
    }

    /// Whether the command line belongs to one window only.
    pub fn local(&self) -> (local: bool)
        ensures
            local,
    {
        true
    }
}

} // verus!
