//! A container that shows one of its windows at a time, under a header
//! that names them all.

use vstd::prelude::*;
use vstd::utf8::encode_utf8;
use crate::event::{UniqueNext, Uuid};
use crate::plot::Plot;
use crate::style::canvas::{Canvas, CanvasView};
use crate::style::style::{StyleAttribute, StyledText, ThemeColor};
use crate::text::joined;
use crate::window::popup::PopUp;
use crate::window::window::{
    IdMint, appended, grown, lemma_appended_nothing, lemma_appended_twice, lemma_grown_twice,
    lemma_posted_one_more, posted_by, request_wf, Bus, Key, Modifiers, Poster, RequestView, Window,
    WindowEvent, WindowRequest,
};
use crate::window::fswindow::{DirView, FSWindowView};
use crate::window::windowcontainer::{
    OrderedWindowContainer, PopUpEntry, WindowEntry, WindowOrder,
};

verus! {

/// How a tab window looks.
#[derive(Clone, Copy, Debug)]
pub struct TabSettings {
    pub show_tabs: bool,
}

impl Default for TabSettings {
    fn default() -> (settings: Self)
        ensures
            settings.show_tabs,
    {
        Self { show_tabs: true }
    }
}

/// What a key has a tab window do itself.
#[derive(Clone, Copy, Debug, PartialEq, Eq, Structural)]
pub enum TabAction {
    /// Show the next window.
    NextTab,
    /// Show or hide the header.
    ToggleHeader,
    /// Hand the window that is shown to the parent, in a tab of its own.
    PopOut,
    /// Ask every window to leave.
    QuitAll,
    /// Pass the event on to the window that is shown.
    Forward,
}

/// What `event` has a tab window do, where the window that is shown does
/// not want every key.
pub open spec fn tab_action(event: WindowEvent) -> TabAction {
    match event {
        WindowEvent::Input { key, modifiers } => match key {
            Key::Tab => TabAction::NextTab,
            Key::Char(c) => if c == '\'' {
                TabAction::ToggleHeader
            } else {
                TabAction::Forward
            },
            Key::Right => if modifiers.only_control() {
                TabAction::PopOut
            } else {
                TabAction::Forward
            },
            _ => TabAction::Forward,
        },
        WindowEvent::TryQuit => TabAction::QuitAll,
        _ => TabAction::Forward,
    }
}

/// What `event` has a tab window do.
pub fn choose_tab_action(event: &WindowEvent) -> (action: TabAction)
    ensures
        action == tab_action(*event),
{
    match event {
        WindowEvent::Input { key, modifiers } => match key {
            Key::Tab => TabAction::NextTab,
            Key::Char(c) => if *c == '\'' {
                TabAction::ToggleHeader
            } else {
                TabAction::Forward
            },
            Key::Right => if modifiers.is_control() {
                TabAction::PopOut
            } else {
                TabAction::Forward
            },
            _ => TabAction::Forward,
        },
        WindowEvent::TryQuit => TabAction::QuitAll,
        _ => TabAction::Forward,
    }
}

/// A window of windows of which one is shown.
pub struct TabWindow {
    container: OrderedWindowContainer,
    settings: TabSettings,
}

impl TabWindow {
    /// The container that holds the windows.
    pub closed spec fn inner(&self) -> OrderedWindowContainer {
        self.container
    }

    /// Whether the header is shown.
    pub closed spec fn header_shown(&self) -> bool {
        self.settings.show_tabs
    }

    /// How many levels of windows within windows the tab window has: one
    /// more than it has room for below it.
    pub open spec fn level(&self) -> nat {
        self.inner().room() + 1
    }

    /// The windows in their order, and which of them is shown.
    pub open spec fn ordering(&self) -> WindowOrder {
        self.inner().ordering()
    }

    /// The container is well formed.
    pub closed spec fn wf(&self) -> bool
        decreases self,
    {
        self.container.wf()
    }

    /// Whether the tab window wants every key: whether the window that is
    /// shown does.
    pub closed spec fn bypass(&self) -> bool
        decreases self,
    {
        self.container.bypass()
    }

    /// Whether the tab window holds one window, the first it was given, and
    /// nothing else, its header shown.
    pub open spec fn holds_one(&self) -> bool {
        &&& self.header_shown()
        &&& self.inner().popup_entries() == Seq::<PopUpEntry>::empty()
        &&& self.inner().current_index() == 0
        &&& self.inner().poster_id() is None
        &&& self.inner().kept() == Seq::<(Uuid, WindowRequest)>::empty()
        &&& self.inner().inbox().queue() == Seq::<(Uuid, WindowRequest)>::empty()
        &&& self.inner().entries().len() == 1
        &&& self.inner().entries()[0].id == self.inner().inbox().newest()
    }

    /// Whether the tab window holds `window` and nothing else, under the
    /// identifier `id` that the window has and keeps, its header shown.
    pub open spec fn holds_only(&self, id: Uuid, window: Window, room: nat) -> bool {
        self.header_shown() && self.inner().holds_only(id, window, room)
    }

    /// Whether the tab window holds one window and nothing else: an
    /// explorer on the directory `dir`, closed, its first line selected.
    pub open spec fn holds_explorer(&self, dir: Seq<char>) -> bool {
        &&& self.holds_one()
        &&& match self.inner().entries()[0].window {
            Window::Fs(window) => window@ == (FSWindowView {
                line: 0,
                root: DirView {
                    name: dir,
                    dir,
                    is_dir: true,
                    is_open: false,
                    children: Seq::empty(),
                },
                poster: Some(self.inner().inbox().newest()),
            }),
            _ => false,
        }
    }

    /// A tab window without windows, its header shown, with room for
    /// `room` levels of windows within the windows it holds.
    pub fn with_room(room: usize) -> (tab: Self)
        ensures
            tab.wf(),
            tab.header_shown(),
            tab.inner().fresh(),
            tab.inner().room() == room,
    {
        Self {
            container: OrderedWindowContainer::with_room(room),
            settings: TabSettings::default(),
        }
    }

    /// A tab window without windows, its header shown.
    pub fn new() -> (tab: Self)
        ensures
            tab.wf(),
            tab.ordering().entries == Seq::<WindowEntry>::empty(),
            tab.ordering().current == 0,
            tab.header_shown(),
            tab.inner().inbox().newest().has_next(),
            tab.inner().poster_id() is None,
            tab.inner().fresh(),
            tab.inner().room() == 0,
    {
        Self { container: OrderedWindowContainer::new(), settings: TabSettings::default() }
    }

    /// Whether `after` is this tab window with a poster that posts under
    /// `id`.
    pub open spec fn with_poster(&self, id: Uuid, after: TabWindow) -> bool {
        after.header_shown() == self.header_shown() && self.inner().with_poster(id, after.inner())
    }

    /// Take the poster to post with.
    pub fn init(&mut self, poster: Poster)
        requires
            old(self).wf(),
        ensures
            final(self).wf(),
            final(self).bypass() == old(self).bypass(),
            final(self).ordering() == old(self).ordering(),
            final(self).inner().poster_id() == Some(poster.id()),
            old(self).with_poster(poster.id(), *final(self)),
    {
        self.container.set_poster(poster);
    }

    /// The container that holds the windows.
    pub fn get_container(&self) -> (container: &OrderedWindowContainer)
        ensures
            *container == self.inner(),
    {
        &self.container
    }

    /// Whether another window can be taken in with an identifier from
    /// `mint`.
    pub fn can_add(&self, mint: &IdMint) -> (b: bool)
        ensures
            b == self.inner().can_take(*mint),
    {
        self.container.can_add(mint)
    }

    /// Take in `window` behind the others. The identifier it is known
    /// under comes back.
    pub fn add_window(&mut self, window: Window, mint: &mut IdMint) -> (uuid: Uuid)
        requires
            old(self).wf(),
            window.wf(),
            old(self).inner().can_take(*old(mint)),
            old(self).inner().has_room(window),
        ensures
            final(self).wf(),
            uuid.rank() == old(mint).newest().rank() + 1,
            final(mint).newest() == uuid,
            final(self).ordering() == old(self).ordering().added(
                final(self).ordering().entries.last(),
            ),
            final(self).ordering().entries.len() == old(self).ordering().entries.len() + 1,
            final(self).ordering().entries.last().id == uuid,
            forall|i: int|
                0 <= i < old(self).ordering().entries.len() ==> (#[trigger] old(
                    self,
                ).ordering().entries[i]).id != uuid,
            final(self).header_shown() == old(self).header_shown(),
            final(self).inner().poster_id() == old(self).inner().poster_id(),
            old(self).inner().with_window(window, *old(mint), final(self).inner(), *final(mint)),
    {
        self.container.add_window(window, mint)
    }

    /// Take the window that is known under `uuid` out and hand it back.
    pub fn remove_window(&mut self, uuid: Uuid) -> (window: Option<Window>)
        requires
            old(self).wf(),
        ensures
            final(self).wf(),
            final(self).ordering() == old(self).ordering().removed(uuid),
            window is Some ==> window->Some_0.wf(),
            match window {
                Some(w) => old(self).ordering().place_of(uuid) < old(self).ordering().entries.len()
                    && w == old(self).ordering().entries[old(self).ordering().place_of(
                    uuid,
                )].window,
                None => old(self).ordering().place_of(uuid) >= old(self).ordering().entries.len(),
            },
            final(self).header_shown() == old(self).header_shown(),
            final(self).inner().poster_id() == old(self).inner().poster_id(),
            final(self).inner().inbox() == old(self).inner().inbox(),
            old(self).inner().same_frame(final(self).inner()),
    {
        proof {
            self.container.lemma_wf();
            self.container.ordering().lemma_place_of(uuid);
        }
        self.container.remove_window(uuid)
    }

    /// Popups are not held by a tab window: `popup` is posted upwards.
    pub fn add_popup(&mut self, popup: PopUp, bus: &mut Bus)
        requires
            popup.wf(),
        ensures
            *final(self) == *old(self),
            grown(*old(bus), *final(bus)),
            appended(
                *old(bus),
                *final(bus),
                posted_by(old(self).inner().poster_id(), seq![RequestView::AddPopup(true)]),
            ),
    {
        self.container.post(bus, WindowRequest::AddPopup(Some(Box::new(popup))));
    }

    /// Take the window that is shown out and hand it back in a tab window
    /// of its own, where it keeps its identifier; nothing where no window
    /// is shown.
    pub fn pop_current(&mut self) -> (tab: Option<TabWindow>)
        requires
            old(self).wf(),
        ensures
            final(self).wf(),
            final(self).header_shown() == old(self).header_shown(),
            old(self).inner().same_frame(final(self).inner()),
            final(self).inner().inbox() == old(self).inner().inbox(),
            match tab {
                Some(t) => 0 <= old(self).ordering().current < old(self).ordering().entries.len()
                    && t.wf() && t.holds_only(
                    old(self).ordering().entries[old(self).ordering().current].id,
                    old(self).ordering().entries[old(self).ordering().current].window,
                    old(self).inner().room(),
                ) && final(self).ordering() == old(self).ordering().removed(
                    old(self).ordering().entries[old(self).ordering().current].id,
                ) && final(self).ordering().entries == old(self).ordering().entries.remove(
                    old(self).ordering().current,
                ),
                None => old(self).ordering().current >= old(self).ordering().entries.len()
                    && *final(self) == *old(self),
            },
    {
        proof {
            self.container.lemma_wf();
        }
        let order = self.container.window_order();
        let current = self.container.get_current();
        if current >= order.len() {
            return None;
        }
        proof {
            self.container.ordering().lemma_place_of(order@[current as int]);
            assert forall|i: int| 0 <= i < current implies (
            #[trigger] self.container.entries()[i]).id != order@[current as int] by {
                assert(self.container.order()[i] != self.container.order()[current as int]);
            }
            self.container.ordering().lemma_place_is(order@[current as int], current as int);
        }
        let id = order[current];
        match self.container.remove_window(id) {
            Some(window) => {
                Some(
                    TabWindow {
                        container: OrderedWindowContainer::holding(
                            id,
                            window,
                            self.container.get_room(),
                        ),
                        settings: TabSettings::default(),
                    },
                )
            },
            None => None,
        }
    }

    /// Show the next window, the first after the last.
    pub fn next_tab(&mut self)
        requires
            old(self).wf(),
        ensures
            final(self).wf(),
            final(self).ordering().entries == old(self).ordering().entries,
            final(self).ordering().current == if old(self).ordering().entries.len() == 0 {
                old(self).ordering().current
            } else {
                (old(self).ordering().current + 1) % (old(self).ordering().entries.len() as int)
            },
            final(self).header_shown() == old(self).header_shown(),
            final(self).inner().poster_id() == old(self).inner().poster_id(),
            final(self).inner().inbox() == old(self).inner().inbox(),
            OrderedWindowContainer::turned(
                old(self).inner(),
                old(self).ordering().next_index(),
                final(self).inner(),
            ),
    {
        proof {
            self.container.lemma_wf();
        }
        let count = self.container.window_count();
        if count > 0 {
            let next = (self.container.get_current() + 1) % count;
            self.container.set_current(next);
        }
    }

    /// Whether the tab window wants every key.
    pub fn input_bypass(&self) -> (bypass: bool)
        requires
            self.wf(),
        ensures
            bypass == self.bypass(),
        decreases self,
    {
        self.container.input_bypass()
    }

    /// What the tab window posts upwards on `event`: nothing where the
    /// window that is shown wants every key; else the window that is
    /// handed to the parent, where one is, and the wish to be drawn.
    pub open spec fn posts(&self, event: WindowEvent) -> Seq<RequestView> {
        if self.bypass() {
            Seq::empty()
        } else if tab_action(event) == TabAction::PopOut && self.ordering().current
            < self.ordering().entries.len() {
            seq![RequestView::AddWindow(true), RequestView::Redraw]
        } else {
            seq![RequestView::Redraw]
        }
    }

    /// The windows after the one that is shown was taken out and the next
    /// one shown in its place.
    pub open spec fn popped(&self) -> WindowOrder {
        if 0 <= self.ordering().current < self.ordering().entries.len() {
            let rest = self.ordering().removed(self.ordering().entries[self.ordering().current].id);
            WindowOrder { entries: rest.entries, current: rest.next_index() }
        } else {
            self.ordering()
        }
    }

    /// Whether `after` is this tab window after it took in `event`, and
    /// `out` the bus `into` after the tab window posted to it.
    pub open spec fn stepped(
        &self,
        event: WindowEvent,
        after: TabWindow,
        into: Bus,
        out: Bus,
    ) -> bool
        decreases self.level(), 5nat,
    {
        &&& appended(into, out, posted_by(self.inner().poster_id(), self.posts(event)))
        &&& after.level() == self.level()
        &&& if self.bypass() {
            after.header_shown() == self.header_shown() && self.inner().sent(
                self.ordering().current,
                event,
                after.inner(),
            )
        } else {
            match tab_action(event) {
                TabAction::NextTab => after.header_shown() == self.header_shown()
                    && OrderedWindowContainer::turned(
                    self.inner(),
                    self.ordering().next_index(),
                    after.inner(),
                ),
                TabAction::ToggleHeader => after.header_shown() == !self.header_shown()
                    && after.inner() == self.inner(),
                TabAction::PopOut => after.header_shown() == self.header_shown()
                    && self.inner().same_frame(after.inner()) && after.inner().inbox()
                    == self.inner().inbox() && after.ordering() == self.popped(),
                TabAction::QuitAll => after.header_shown() == self.header_shown()
                    && self.inner().evented(WindowEvent::TryQuit, after.inner()),
                TabAction::Forward => after.header_shown() == self.header_shown()
                    && self.inner().evented(event, after.inner()),
            }
        }
    }

    /// Whether `event` has the tab window hand the window that is shown to
    /// its parent: it is Ctrl-Right, a window is shown that does not want
    /// every key, and the tab window has a poster to post with.
    pub open spec fn hands_out(&self, event: WindowEvent) -> bool {
        &&& !self.bypass()
        &&& tab_action(event) == TabAction::PopOut
        &&& 0 <= self.ordering().current < self.ordering().entries.len()
        &&& self.inner().poster_id() is Some
    }

    /// Whether `request` asks for a window to be taken in that is a tab
    /// window which holds the window of `entry`, under its identifier, and
    /// nothing else, with room for `room` levels of windows below it.
    pub open spec fn carries(request: WindowRequest, entry: WindowEntry, room: nat) -> bool {
        match request {
            WindowRequest::AddWindow(Some(window)) => match *window {
                Window::Tab(tab) => tab.wf() && tab.holds_only(entry.id, entry.window, room),
                _ => false,
            },
            _ => false,
        }
    }

    /// Take in `event`. Where the window that is shown wants every key it
    /// gets the event. Else Tab shows the next window, the apostrophe
    /// shows or hides the header, Ctrl-Right hands the window that is
    /// shown to the parent in a tab of its own, a request to quit goes to
    /// every window, and anything else to the window that is shown; and
    /// the tab window asks to be drawn.
    pub fn event(&mut self, event: WindowEvent, bus: &mut Bus)
        requires
            old(self).wf(),
        ensures
            final(self).wf(),
            final(self).inner().poster_id() == old(self).inner().poster_id(),
            grown(*old(bus), *final(bus)),
            old(self).stepped(event, *final(self), *old(bus), *final(bus)),
            old(self).hands_out(event) ==> Self::carries(
                final(bus).queue()[old(bus).queue().len() as int].1,
                old(self).ordering().entries[old(self).ordering().current],
                old(self).inner().room(),
            ),
            appended(
                *old(bus),
                *final(bus),
                posted_by(old(self).inner().poster_id(), old(self).posts(event)),
            ),
            final(self).header_shown() == if !old(self).bypass() && tab_action(event)
                == TabAction::ToggleHeader {
                !old(self).header_shown()
            } else {
                old(self).header_shown()
            },
            !old(self).bypass() && tab_action(event) == TabAction::ToggleHeader
                ==> final(self).ordering() == old(self).ordering(),
            !old(self).bypass() && tab_action(event) == TabAction::NextTab ==> final(self).ordering().entries == old(self).ordering().entries && final(self).ordering().current
                == if old(self).ordering().entries.len() == 0 {
                old(self).ordering().current
            } else {
                (old(self).ordering().current + 1) % (old(self).ordering().entries.len() as int)
            },
            (old(self).bypass() || tab_action(event) == TabAction::Forward
                || tab_action(event) == TabAction::QuitAll) ==> final(self).inner().order() == old(
                self,
            ).inner().order() && final(self).ordering().current == old(self).ordering().current,
            !old(self).bypass() && tab_action(event) == TabAction::PopOut && old(
                self,
            ).ordering().current < old(self).ordering().entries.len() ==> final(self).ordering().entries == old(self).ordering().entries.remove(
                old(self).ordering().current,
            ),
        decreases old(self).level(), 5nat,
    {
        proof {
            lemma_appended_nothing(*bus);
            self.container.lemma_wf();
        }
        let ghost id = self.container.poster_id();
        assert(posted_by(id, Seq::<RequestView>::empty()) =~= Seq::<(Uuid, RequestView)>::empty());
        if self.container.input_bypass() {
            let current = self.container.get_current();
            self.container.send_to(current, event);
            return ;
        }
        let mut handed = false;
        match choose_tab_action(&event) {
            TabAction::NextTab => {
                self.next_tab();
            },
            TabAction::ToggleHeader => {
                self.settings.show_tabs = !self.settings.show_tabs;
            },
            TabAction::PopOut => {
                match self.pop_current() {
                    Some(new_tab) => {
                        let request = WindowRequest::AddWindow(
                            Some(Box::new(Window::Tab(new_tab))),
                        );
                        assert(new_tab.holds_only(
                            old(self).ordering().entries[old(self).ordering().current].id,
                            old(self).ordering().entries[old(self).ordering().current].window,
                            old(self).inner().room(),
                        ));
                        assert(Self::carries(
                            request,
                            old(self).ordering().entries[old(self).ordering().current],
                            old(self).inner().room(),
                        ));
                        self.container.post(bus, request);
                        assert(old(self).inner().poster_id() is Some ==> bus.queue()[old(
                            bus,
                        ).queue().len() as int].1 == request);
                        handed = true;
                        self.next_tab();
                    },
                    None => {},
                }
            },
            TabAction::QuitAll => {
                self.container.event(WindowEvent::TryQuit);
            },
            TabAction::Forward => {
                self.container.event(event);
            },
        }
        let ghost middle = *bus;
        self.container.post(bus, WindowRequest::Redraw);
        proof {
            lemma_grown_twice(*old(bus), middle, *bus);
            let early = if handed {
                posted_by(id, seq![RequestView::AddWindow(true)])
            } else {
                Seq::empty()
            };
            let late = posted_by(id, seq![RequestView::Redraw]);
            lemma_appended_twice(*old(bus), middle, *bus, early, late);
            if handed {
                lemma_posted_one_more(
                    id,
                    seq![RequestView::AddWindow(true)],
                    RequestView::Redraw,
                );
                assert(seq![RequestView::AddWindow(true)].push(RequestView::Redraw) =~= seq![
                    RequestView::AddWindow(true),
                    RequestView::Redraw,
                ]);
            } else {
                assert(early + late =~= late);
            }
        }
    }

    /// The canvas `h` with the labels of the windows from number `i` on
    /// written onto it, each behind a bar and between two spaces, that of
    /// the window that is shown set off.
    pub open spec fn names_drawn(&self, h: CanvasView, i: int) -> CanvasView
        decreases self.inner().entries().len() - i,
    {
        if i < 0 || i >= self.inner().entries().len() {
            h
        } else {
            self.names_drawn(
                h.written(encode_utf8("|"@), Seq::empty(), false).written(
                    encode_utf8(" "@ + self.inner().window_label(i) + " "@),
                    if i == self.inner().current_index() {
                        seq![StyleAttribute::BgColor(ThemeColor::Background)]
                    } else {
                        Seq::empty()
                    },
                    false,
                ),
                i + 1,
            )
        }
    }

    /// The header on a canvas of one row and `cols` columns: grey, with the
    /// labels of the windows between bars.
    pub open spec fn header_drawn(&self, cols: usize) -> CanvasView {
        self.names_drawn(
            CanvasView::blank(Plot { row: 1, col: cols }).tint(
                StyleAttribute::BgColor(ThemeColor::Gray),
                Plot { row: 0, col: 0 },
                Plot { row: 0, col: (cols - 1) as usize },
            ),
            0,
        ).written(encode_utf8("|"@), Seq::empty(), false)
    }

    /// The canvas `v` with the tab window drawn onto it: the window that
    /// is shown, below the header where that is shown, and the header.
    pub closed spec fn drawn(&self, v: CanvasView) -> CanvasView
        decreases self,
    {
        let offset: usize = if self.settings.show_tabs {
            1
        } else {
            0
        };
        let below = if v.dim.row > offset {
            v.merged(
                Plot { row: offset, col: 0 },
                self.container.window_drawn(
                    self.container.current_index(),
                    CanvasView::blank(Plot { row: (v.dim.row - offset) as usize, col: v.dim.col }),
                ),
            )
        } else {
            v
        };
        if self.settings.show_tabs {
            below.merged(Plot { row: 0, col: 0 }, self.header_drawn(v.dim.col))
        } else {
            below
        }
    }

    /// Draw the header, where it is shown, and under it the window that
    /// is shown.
    pub fn draw(&self, canvas: &mut Canvas)
        requires
            self.wf(),
            old(canvas).wf(),
        ensures
            final(canvas).wf(),
            final(canvas)@ == self.drawn(old(canvas)@),
        decreases self,
    {
        let dim = *canvas.get_dim();
        let child_offset: usize = if self.settings.show_tabs {
            1
        } else {
            0
        };
        if dim.row > child_offset {
            assert((dim.row - child_offset) * dim.col <= dim.row * dim.col) by (nonlinear_arith)
                requires
                    0 <= child_offset <= dim.row,
                    0 <= dim.col,
            ;
            let mut child_canvas = Canvas::new(Plot::new(dim.row - child_offset, dim.col));
            self.container.draw_window(self.container.get_current(), &mut child_canvas);
            canvas.add_child(child_canvas, Plot::new(child_offset, 0));
        }
        if self.settings.show_tabs {
            let mut header_canvas = Canvas::new(Plot::new(1, dim.col));
            let last = header_canvas.last_col();
            let _ = header_canvas.set_attribute(
                StyleAttribute::BgColor(ThemeColor::Gray),
                Plot::new(0, 0),
                Plot::new(0, last),
            );
            let tab_space = StyledText::new(String::from_str("|"));
            let current = self.container.get_current();
            let ghost start = header_canvas@;
            let mut i: usize = 0;
            while i < self.container.window_count()
                invariant
                    header_canvas.wf(),
                    self.wf(),
                    current == self.inner().current_index(),
                    tab_space.cells() == encode_utf8("|"@),
                    tab_space.attributes() == Seq::<StyleAttribute>::empty(),
                    self.names_drawn(start, 0) == self.names_drawn(header_canvas@, i as int),
                decreases self.inner().entries().len() - i,
            {
                let label = joined(joined(" ", self.container.window_name(i).as_str()).as_str(), " ");
                let mut tab = StyledText::new(label);
                if i == current {
                    tab = tab.with(StyleAttribute::BgColor(ThemeColor::Background));
                    assert(tab.attributes() =~= seq![
                        StyleAttribute::BgColor(ThemeColor::Background),
                    ]);
                }
                header_canvas.write(&tab_space);
                header_canvas.write(&tab);
                i += 1;
            }
            header_canvas.write(&tab_space);
            canvas.add_child(header_canvas, Plot::new(0, 0));
        }
    }

    /// Whether `after` is the container `before` after a tab window dealt
    /// with `request`, which a window of it posted under `uuid`, and `out`
    /// the bus `into` after the tab window posted to it: a window that is
    /// to be added is taken in, where an identifier can still be minted for
    /// it; a window that asks to be removed is let go; and anything else is
    /// posted on.
    pub open spec fn relayed(
        before: OrderedWindowContainer,
        uuid: Uuid,
        request: WindowRequest,
        mint: IdMint,
        after: OrderedWindowContainer,
        minted: IdMint,
        into: Bus,
        out: Bus,
    ) -> bool {
        match request {
            WindowRequest::AddWindow(Some(window)) => out == into && if before.can_take(mint)
                && before.has_room(*window) {
                before.with_window(*window, mint, after, minted)
            } else {
                after == before && minted == mint
            },
            WindowRequest::AddWindow(None) => out == into && after == before && minted == mint,
            WindowRequest::RemoveSelfWindow => out == into && minted == mint && before.same_frame(
                after,
            ) && after.inbox() == before.inbox() && after.ordering()
                == before.ordering().removed(uuid),
            _ => after == before && minted == mint && appended(
                into,
                out,
                posted_by(before.poster_id(), seq![request@]),
            ),
        }
    }

    /// Whether `after` is the container `before` after a tab window dealt
    /// with the first `upto` of `requests`, one after the other.
    pub open spec fn relayed_upto(
        before: OrderedWindowContainer,
        requests: Seq<(Uuid, WindowRequest)>,
        upto: int,
        mint: IdMint,
        after: OrderedWindowContainer,
        minted: IdMint,
        into: Bus,
        out: Bus,
    ) -> bool
        decreases upto,
    {
        if upto <= 0 || upto > requests.len() {
            after == before && out == into && minted == mint
        } else {
            exists|last: int, middle: OrderedWindowContainer, coined: IdMint, between: Bus|
                last + 1 == upto && Self::relayed_upto(
                    before,
                    requests,
                    last,
                    mint,
                    middle,
                    coined,
                    into,
                    between,
                ) && #[trigger] Self::relayed(
                    middle,
                    requests[last].0,
                    requests[last].1,
                    coined,
                    after,
                    minted,
                    between,
                    out,
                )
        }
    }

    /// Dealing with one request more.
    pub proof fn lemma_relayed_one_more(
        before: OrderedWindowContainer,
        requests: Seq<(Uuid, WindowRequest)>,
        upto: int,
        mint: IdMint,
        middle: OrderedWindowContainer,
        coined: IdMint,
        after: OrderedWindowContainer,
        minted: IdMint,
        into: Bus,
        between: Bus,
        out: Bus,
    )
        requires
            0 < upto <= requests.len(),
            Self::relayed_upto(before, requests, upto - 1, mint, middle, coined, into, between),
            Self::relayed(
                middle,
                requests[upto - 1].0,
                requests[upto - 1].1,
                coined,
                after,
                minted,
                between,
                out,
            ),
        ensures
            Self::relayed_upto(before, requests, upto, mint, after, minted, into, out),
    {
        let last = upto - 1;
        assert(Self::relayed(
            middle,
            requests[last].0,
            requests[last].1,
            coined,
            after,
            minted,
            between,
            out,
        ));
    }

    /// Whether `after` is this tab window after it went through what its
    /// windows posted, and they through what was posted to them; and `out` the bus `into` after the tab
    /// window posted to it, last that it asks to be removed where no
    /// window is left.
    pub open spec fn ticked(
        &self,
        mint: IdMint,
        after: TabWindow,
        minted: IdMint,
        into: Bus,
        out: Bus,
    ) -> bool
        decreases self.level(), 5nat,
    {
        {
            &&& after.header_shown() == self.header_shown()
            &&& exists|
                start: OrderedWindowContainer,
                relayed: OrderedWindowContainer,
                coined: IdMint,
                between: Bus,
            |
                #![trigger self.inner().drained(start), Self::relayed_upto(start, self.inner().pending(), self.inner().pending().len() as int, mint, relayed, coined, into, between)]
                self.inner().drained(start) && relayed.room() == self.inner().room()
                    && Self::relayed_upto(
                    start,
                    self.inner().pending(),
                    self.inner().pending().len() as int,
                    mint,
                    relayed,
                    coined,
                    into,
                    between,
                ) && relayed.ticked_upto(
                    relayed.entries().len() as int,
                    coined,
                    after.inner(),
                    minted,
                ) && appended(
                    between,
                    out,
                    posted_by(
                        self.inner().poster_id(),
                        if after.inner().entries().len() == 0 {
                            seq![RequestView::RemoveSelfWindow]
                        } else {
                            Seq::empty()
                        },
                    ),
                )
        }
    }

    /// Go through what the windows posted: a window that is to be added is
    /// taken in, a window that asks to be removed is let go, and anything
    /// else is posted upwards. Then the windows go through what was posted
    /// to them; and where none is left the tab window asks to be removed.
    pub fn tick(&mut self, bus: &mut Bus, mint: &mut IdMint)
        requires
            old(self).wf(),
        ensures
            final(self).wf(),
            grown(*old(bus), *final(bus)),
            old(mint).before(*final(mint)),
            old(self).ticked(
                *old(mint),
                *final(self),
                *final(mint),
                *old(bus),
                *final(bus),
            ),
        decreases old(self).level(), 5nat,
    {
        proof {
            lemma_appended_nothing(*bus);
            assert(posted_by(self.container.poster_id(), Seq::<RequestView>::empty()) =~= Seq::<
                (Uuid, RequestView),
            >::empty());
        }
        let ghost all = self.container.pending();
        let mut polled = self.container.poll();
        let ghost start = self.container;
        let ghost done: int = 0;
        assert(polled@ =~= all.skip(0));
        while polled.len() > 0
            invariant
                self.wf(),
                grown(*old(bus), *bus),
                forall|i: int| 0 <= i < polled@.len() ==> request_wf((#[trigger] polled@[i]).1),
                self.header_shown() == old(self).header_shown(),
                self.inner().poster_id() == old(self).inner().poster_id(),
                0 <= done <= all.len(),
                polled@ == all.skip(done),
                self.inner().room() == old(self).inner().room(),
                old(mint).before(*mint),
                Self::relayed_upto(
                    start,
                    all,
                    done,
                    *old(mint),
                    self.inner(),
                    *mint,
                    *old(bus),
                    *bus,
                ),
            decreases polled@.len(),
        {
            let ghost middle = *bus;
            let ghost before = self.container;
            let ghost coined = *mint;
            let ghost waiting = polled@;
            let entry = polled.remove(0);
            assert(entry == waiting[0]);
            assert(entry == all[done]);
            assert(polled@ =~= all.skip(done + 1));
            assert forall|i: int| 0 <= i < polled@.len() implies request_wf(
                (#[trigger] polled@[i]).1,
            ) by {
                assert(polled@[i] == waiting[i + 1]);
            }
            match entry.1 {
                WindowRequest::AddWindow(window) => {
                    match window {
                        Some(window) => {
                            if self.container.can_add(mint) && self.container.has_room_for(
                                &*window,
                            ) {
                                let _ = self.container.add_window(*window, mint);
                            }
                        },
                        None => {},
                    }
                },
                WindowRequest::RemoveSelfWindow => {
                    let _ = self.container.remove_window(entry.0);
                },
                request => {
                    self.container.post(bus, request);
                },
            }
            proof {
                lemma_grown_twice(*old(bus), middle, *bus);
                Self::lemma_relayed_one_more(
                    start,
                    all,
                    done + 1,
                    *old(mint),
                    before,
                    coined,
                    self.inner(),
                    *mint,
                    *old(bus),
                    middle,
                    *bus,
                );
                done = done + 1;
            }
        }
        let ghost relayed = self.container;
        let ghost between = *bus;
        let ghost coined = *mint;
        self.container.tick_windows(mint);
        if self.container.window_count() == 0 {
            let ghost middle = *bus;
            self.container.post(bus, WindowRequest::RemoveSelfWindow);
            proof {
                lemma_grown_twice(*old(bus), middle, *bus);
            }
        }
        proof {
            lemma_appended_nothing(between);
            assert(done == all.len());
            assert(old(self).inner().drained(start));
            assert(Self::relayed_upto(
                start,
                old(self).inner().pending(),
                old(self).inner().pending().len() as int,
                *old(mint),
                relayed,
                coined,
                *old(bus),
                between,
            ));
            assert(relayed.ticked_upto(
                relayed.entries().len() as int,
                coined,
                self.inner(),
                *mint,
            ));
            assert(appended(
                between,
                *bus,
                posted_by(
                    old(self).inner().poster_id(),
                    if self.inner().entries().len() == 0 {
                        seq![RequestView::RemoveSelfWindow]
                    } else {
                        Seq::empty()
                    },
                ),
            ));
        }
    }
}

} // verus!
