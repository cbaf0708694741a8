//! The root of the window tree: the container that owns the layout of the
//! screen and listens to the keys that are meant for the editor itself.

use vstd::prelude::*;
use crate::event::{UniqueNext, Uuid};
use crate::plot::Plot;
use crate::style::canvas::{Canvas, CanvasView};
use crate::style::style::{StyleAttribute, StyledText, ThemeColor};
use crate::text::same_text;
use crate::textedit::alert::{repeated, Alert};
use crate::window::command::Command;
use crate::window::fswindow::{DirectoryRep, FSWindow};
use crate::window::layout::{BorderSpace, Layout};
use crate::window::popup::PopUp;
use crate::window::tab::TabWindow;
use crate::window::window::{
    IdMint,
    all_wf, appended, grown, lemma_appended_nothing, lemma_appended_twice, lemma_grown_twice,
    posted_by, request_wf, views_of, Bus, Key, Modifiers, Poster, RequestView, Window,
    WindowEvent, WindowRequest, NESTING_LIMIT,
};
use crate::window::windowcontainer::{
    popup_place, requests_of, OrderedWindowContainer, WindowOrder,
};

verus! {

/// What a key has the window manager do itself.
#[derive(Clone, Copy, Debug, PartialEq, Eq, Structural)]
pub enum ManagerAction {
    /// Ask to be removed, which ends the program.
    Exit,
    /// Put the next window in front.
    Cycle,
    /// Open the command line.
    OpenCommand,
    /// Ask the window in front to leave.
    QuitCurrent,
    /// Take a new size and pass it on.
    Resize,
    /// Pass the event on.
    Forward,
    /// Nothing.
    Nothing,
}

/// What `event` has the window manager do, where neither a popup nor a
/// window that wants every key has taken it.
pub open spec fn manager_action(event: WindowEvent) -> ManagerAction {
    match event {
        WindowEvent::Input { key, modifiers } => match key {
            Key::Esc => ManagerAction::Exit,
            Key::Char(c) => if c == 'l' && modifiers.only_control() {
                ManagerAction::Cycle
            } else if c == ':' {
                ManagerAction::OpenCommand
            } else if c == 'x' && modifiers.only_control() {
                ManagerAction::QuitCurrent
            } else {
                ManagerAction::Forward
            },
            _ => ManagerAction::Forward,
        },
        WindowEvent::Resize(_) => ManagerAction::Resize,
        WindowEvent::Nothing => ManagerAction::Nothing,
        _ => ManagerAction::Forward,
    }
}

/// Whether `event` is Ctrl-End, which ends the program whoever has the focus.
pub open spec fn is_exit_key(event: WindowEvent) -> bool {
    event matches WindowEvent::Input { key: Key::End, modifiers } && modifiers.only_control()
}

/// What `event` has the window manager do.
pub fn choose_manager_action(event: &WindowEvent) -> (action: ManagerAction)
    ensures
        action == manager_action(*event),
{
    match event {
        WindowEvent::Input { key, modifiers } => match key {
            Key::Esc => ManagerAction::Exit,
            Key::Char(c) => if *c == 'l' && modifiers.is_control() {
                ManagerAction::Cycle
            } else if *c == ':' {
                ManagerAction::OpenCommand
            } else if *c == 'x' && modifiers.is_control() {
                ManagerAction::QuitCurrent
            } else {
                ManagerAction::Forward
            },
            _ => ManagerAction::Forward,
        },
        WindowEvent::Resize(_) => ManagerAction::Resize,
        WindowEvent::Nothing => ManagerAction::Nothing,
        _ => ManagerAction::Forward,
    }
}

/// The outermost container.
pub struct WindowManager {
    container: OrderedWindowContainer,
    layout: Layout,
    current_dir: String,
}

impl WindowManager {
    /// The container that holds the windows and popups.
    pub closed spec fn inner(&self) -> OrderedWindowContainer {
        self.container
    }

    /// The layout of the screen.
    pub closed spec fn layout_of(&self) -> Layout {
        self.layout
    }

    /// The directory that explorers are opened on.
    pub closed spec fn directory(&self) -> Seq<char> {
        self.current_dir@
    }

    /// The windows in their order, and which of them is in front.
    pub open spec fn ordering(&self) -> WindowOrder {
        self.inner().ordering()
    }

    /// The container and the layout are well formed.
    pub open spec fn wf(&self) -> bool {
        self.inner().wf() && self.layout_of().wf()
    }

    /// A window manager without windows on a screen without cells.
    pub fn new() -> (manager: Self)
        ensures
            manager.wf(),
            manager.ordering().entries.len() == 0,
            manager.ordering().current == 0,
            manager.inner().popup_entries().len() == 0,
            manager.inner().poster_id() is None,
            manager.inner().inbox().newest().has_next(),
            manager.inner().fresh(),
            manager.directory() == Seq::<char>::empty(),
            manager.layout_of().screen() == (Plot { row: 0, col: 0 }),
            manager.layout_of().grid_of().counts() == seq![1usize],
            !manager.layout_of().grid_of().columns_first(),
    {
        Self {
            container: OrderedWindowContainer::with_room(NESTING_LIMIT),
            layout: Layout::new(Plot::new(0, 0)),
            current_dir: String::new(),
        }
    }

    /// Take the poster to post with.
    pub fn init(&mut self, poster: Poster)
        requires
            old(self).wf(),
        ensures
            final(self).wf(),
            final(self).ordering() == old(self).ordering(),
            final(self).inner().poster_id() == Some(poster.id()),
            final(self).inner().popup_entries() == old(self).inner().popup_entries(),
            final(self).layout_of() == old(self).layout_of(),
            final(self).directory() == old(self).directory(),
            old(self).inner().with_poster(poster.id(), final(self).inner()),
    {
        self.container.set_poster(poster);
    }

    /// Take `dir` as the directory that explorers are opened on.
    pub fn set_dir(&mut self, dir: String)
        ensures
            final(self).directory() == dir@,
            final(self).inner() == old(self).inner(),
            final(self).layout_of() == old(self).layout_of(),
    {
        self.current_dir = dir;
    }

    /// The container that holds the windows and popups.
    pub fn get_container(&self) -> (container: &OrderedWindowContainer)
        ensures
            *container == self.inner(),
    {
        &self.container
    }

    /// The layout of the screen.
    pub fn get_layout(&self) -> (layout: &Layout)
        ensures
            *layout == self.layout_of(),
    {
        &self.layout
    }

    /// Whether another window or popup can be taken in with an identifier
    /// from `mint`.
    pub fn can_add(&self, mint: &IdMint) -> (b: bool)
        ensures
            b == self.inner().can_take(*mint),
    {
        self.container.can_add(mint)
    }

    /// Bring the layout to the number of windows: its first strip gets
    /// room for each of them.
    fn sync_layout(&mut self)
        requires
            old(self).wf(),
        ensures
            final(self).wf(),
            final(self).inner() == old(self).inner(),
            final(self).directory() == old(self).directory(),
            old(self).layout_of().fitted(
                old(self).inner().entries().len(),
                final(self).layout_of(),
            ),
    {
        let count = self.container.window_count();
        self.layout.fit(count);
    }

    /// Tell every window the size of the rectangle it is given.
    fn generate_layout(&mut self)
        requires
            old(self).wf(),
        ensures
            final(self).wf(),
            final(self).inner().order() == old(self).inner().order(),
            final(self).inner().current_index() == old(self).inner().current_index(),
            final(self).inner().popup_entries() == old(self).inner().popup_entries(),
            final(self).inner().poster_id() == old(self).inner().poster_id(),
            final(self).layout_of() == old(self).layout_of(),
            final(self).directory() == old(self).directory(),
            old(self).inner().sized(
                old(self).layout_of().sizes(),
                old(self).layout_of().sizes().len() as int,
                final(self).inner(),
            ),
    {
        let ghost sizes = self.layout.sizes();
        let mut i: usize = 0;
        while i < self.layout.get_windows().len()
            invariant
                self.wf(),
                self.inner().order() == old(self).inner().order(),
                self.inner().current_index() == old(self).inner().current_index(),
                self.inner().popup_entries() == old(self).inner().popup_entries(),
                self.inner().poster_id() == old(self).inner().poster_id(),
                self.layout_of() == old(self).layout_of(),
                self.directory() == old(self).directory(),
                sizes == old(self).layout_of().sizes(),
                i <= sizes.len(),
                old(self).inner().same_frame(self.inner()),
                old(self).inner().sized(sizes, i as int, self.inner()),
            decreases self.layout_of().windows().len() - i,
        {
            let ghost middle = self.container;
            let dim = self.layout.get_windows()[i].dim;
            self.container.send_to(i, WindowEvent::Resize(dim));
            i += 1;
            proof {
                old(self).inner().lemma_sized_one_more(
                    sizes,
                    i as int,
                    middle,
                    self.inner(),
                );
            }
        }
    }

    /// Take `dim` as the dimension of the screen, work the rectangles out
    /// anew and tell every window its size.
    pub fn resize(&mut self, dim: Plot)
        requires
            old(self).wf(),
        ensures
            final(self).wf(),
            final(self).inner().order() == old(self).inner().order(),
            final(self).inner().current_index() == old(self).inner().current_index(),
            final(self).inner().popup_entries() == old(self).inner().popup_entries(),
            final(self).inner().poster_id() == old(self).inner().poster_id(),
            old(self).resized(dim, *final(self)),
    {
        self.layout.set_dim(dim);
        self.generate_layout();
    }

    /// Whether `after` is this manager on a screen of the dimension `dim`,
    /// after every window was told the size of its rectangle there.
    pub open spec fn resized(&self, dim: Plot, after: WindowManager) -> bool {
        &&& after.directory() == self.directory()
        &&& after.layout_of().wf()
        &&& after.layout_of().screen() == dim
        &&& after.layout_of().grid_of() == self.layout_of().grid_of()
        &&& self.inner().sized(
            after.layout_of().sizes(),
            after.layout_of().sizes().len() as int,
            after.inner(),
        )
    }

    /// Take in `window` behind the others and make room for it on the
    /// screen. The identifier it is known under comes back.
    pub fn add_window(&mut self, window: Window, mint: &mut IdMint) -> (uuid: Uuid)
        requires
            old(self).wf(),
            window.wf(),
            old(self).inner().can_take(*old(mint)),
            old(self).inner().has_room(window),
        ensures
            final(self).wf(),
            uuid.rank() == old(mint).newest().rank() + 1,
            final(mint).newest() == uuid,
            final(self).ordering() == old(self).ordering().added(
                final(self).ordering().entries.last(),
            ),
            final(self).ordering().entries.len() == old(self).ordering().entries.len() + 1,
            final(self).ordering().entries.last().id == uuid,
            forall|i: int|
                0 <= i < old(self).ordering().entries.len() ==> (#[trigger] old(
                    self,
                ).ordering().entries[i]).id != uuid,
            final(self).inner().popup_entries() == old(self).inner().popup_entries(),
            final(self).inner().poster_id() == old(self).inner().poster_id(),
            final(self).layout_of().screen() == old(self).layout_of().screen(),
            final(self).directory() == old(self).directory(),
            old(self).inner().with_window(window, *old(mint), final(self).inner(), *final(mint)),
            old(self).layout_of().fitted(
                final(self).ordering().entries.len(),
                final(self).layout_of(),
            ),
    {
        let uuid = self.container.add_window(window, mint);
        self.sync_layout();
        uuid
    }

    /// Take the window that is known under `uuid` out, give its room on the
    /// screen back, and hand the window back.
    pub fn remove_window(&mut self, uuid: Uuid) -> (window: Option<Window>)
        requires
            old(self).wf(),
        ensures
            final(self).wf(),
            final(self).ordering() == old(self).ordering().removed(uuid),
            match window {
                Some(w) => old(self).ordering().place_of(uuid) < old(self).ordering().entries.len()
                    && w == old(self).ordering().entries[old(self).ordering().place_of(
                    uuid,
                )].window,
                None => old(self).ordering().place_of(uuid) >= old(self).ordering().entries.len(),
            },
            final(self).inner().popup_entries() == old(self).inner().popup_entries(),
            final(self).inner().poster_id() == old(self).inner().poster_id(),
            final(self).inner().inbox() == old(self).inner().inbox(),
            old(self).inner().same_frame(final(self).inner()),
            final(self).layout_of().screen() == old(self).layout_of().screen(),
            final(self).directory() == old(self).directory(),
            old(self).layout_of().fitted(
                final(self).ordering().entries.len(),
                final(self).layout_of(),
            ),
    {
        let window = self.container.remove_window(uuid);
        self.sync_layout();
        window
    }

    /// Put `popup` on top of the others. The identifier it is known under
    /// comes back.
    pub fn add_popup(&mut self, popup: PopUp, mint: &mut IdMint) -> (uuid: Uuid)
        requires
            old(self).wf(),
            popup.wf(),
            old(self).inner().can_take(*old(mint)),
        ensures
            final(self).wf(),
            uuid.rank() == old(mint).newest().rank() + 1,
            final(mint).newest() == uuid,
            final(self).ordering() == old(self).ordering(),
            final(self).inner().popup_entries().len() == old(self).inner().popup_entries().len()
                + 1,
            final(self).inner().popup_entries().last().id == uuid,
            final(self).inner().poster_id() == old(self).inner().poster_id(),
            final(self).layout_of() == old(self).layout_of(),
            final(self).directory() == old(self).directory(),
            old(self).inner().with_popup(popup, *old(mint), final(self).inner(), *final(mint)),
    {
        self.container.add_popup(popup, mint)
    }

    /// Take the popup that is known under `uuid` away and hand it back.
    pub fn remove_popup(&mut self, uuid: Uuid) -> (popup: Option<PopUp>)
        requires
            old(self).wf(),
        ensures
            final(self).wf(),
            final(self).ordering() == old(self).ordering(),
            final(self).inner().poster_id() == old(self).inner().poster_id(),
            final(self).inner().inbox() == old(self).inner().inbox(),
            final(self).layout_of() == old(self).layout_of(),
            final(self).directory() == old(self).directory(),
            old(self).inner().same_frame_but_popups(final(self).inner()),
            match popup {
                Some(p) => popup_place(old(self).inner().popup_entries(), uuid) < old(
                    self,
                ).inner().popup_entries().len() && p == old(self).inner().popup_entries()[popup_place(
                    old(self).inner().popup_entries(),
                    uuid,
                )].popup && final(self).inner().popup_entries() == old(
                    self,
                ).inner().popup_entries().remove(
                    popup_place(old(self).inner().popup_entries(), uuid),
                ),
                None => final(self).inner().popup_entries() == old(self).inner().popup_entries()
                    && popup_place(old(self).inner().popup_entries(), uuid) == old(
                    self,
                ).inner().popup_entries().len(),
            },
    {
        self.container.remove_popup(uuid)
    }

    /// Whether the window in front wants every key.
    pub fn input_bypass(&self) -> (bypass: bool)
        requires
            self.wf(),
        ensures
            bypass == self.inner().bypass(),
    {
        self.container.input_bypass()
    }

    /// What the manager posts upwards on `event`.
    pub open spec fn posts(&self, event: WindowEvent) -> Seq<RequestView> {
        if is_exit_key(event) {
            seq![RequestView::RemoveSelfWindow]
        } else if self.inner().popup_entries().len() > 0 {
            seq![RequestView::Redraw]
        } else if self.inner().takes(event) {
            Seq::empty()
        } else {
            match manager_action(event) {
                ManagerAction::Exit => seq![RequestView::RemoveSelfWindow],
                ManagerAction::OpenCommand => seq![RequestView::Redraw],
                _ => Seq::empty(),
            }
        }
    }

    /// Whether `after` is this manager after it took in `event`.
    pub open spec fn stepped(
        &self,
        event: WindowEvent,
        mint: IdMint,
        after: WindowManager,
        minted: IdMint,
    ) -> bool {
        &&& after.directory() == self.directory()
        &&& (is_exit_key(event) || self.inner().takes(event) || manager_action(event)
            != ManagerAction::OpenCommand || !self.inner().can_take(mint)) ==> minted == mint
        &&& if is_exit_key(event) {
            after.inner() == self.inner() && after.layout_of() == self.layout_of()
        } else if self.inner().takes(event) {
            after.layout_of() == self.layout_of() && self.inner().distributed(
                event,
                after.inner(),
            )
        } else {
            match manager_action(event) {
                ManagerAction::Cycle => after.layout_of() == self.layout_of()
                    && self.inner().cycled(after.inner()),
                ManagerAction::OpenCommand => after.layout_of() == self.layout_of()
                    && if self.inner().can_take(mint) {
                    self.inner().popup_added(mint, after.inner(), minted)
                        && match after.inner().popup_entries().last().popup {
                        PopUp::Command(line) => line.text() == Seq::<char>::empty()
                            && line.poster_id() == Some(after.inner().inbox().newest()),
                        _ => false,
                    }
                } else {
                    after.inner() == self.inner()
                },
                ManagerAction::QuitCurrent => after.layout_of() == self.layout_of()
                    && self.inner().sent(
                    self.inner().current_index(),
                    WindowEvent::TryQuit,
                    after.inner(),
                ),
                ManagerAction::Resize => match event {
                    WindowEvent::Resize(dim) => exists|middle: WindowManager| #[trigger]
                        self.resized(dim, middle) && after.layout_of() == middle.layout_of()
                            && middle.inner().evented(event, after.inner()),
                    _ => after.inner() == self.inner() && after.layout_of() == self.layout_of(),
                },
                ManagerAction::Forward => after.layout_of() == self.layout_of()
                    && self.inner().evented(event, after.inner()),
                _ => after.inner() == self.inner() && after.layout_of() == self.layout_of(),
            }
        }
    }

    /// Take in `event`. Ctrl-End asks for the manager to be removed, which
    /// ends the program, whoever has the focus. Else the popup on top gets
    /// the event, or the window in front where it wants every key. Else
    /// Esc asks for the manager to be removed, Ctrl-L puts the next window
    /// in front, the colon opens the command line, Ctrl-X asks the window
    /// in front to leave, a new size is taken and passed on, and anything
    /// else goes to the window in front.
    pub fn event(&mut self, event: WindowEvent, bus: &mut Bus, mint: &mut IdMint)
        requires
            old(self).wf(),
        ensures
            final(self).wf(),
            old(mint).before(*final(mint)),
            final(self).inner().poster_id() == old(self).inner().poster_id(),
            grown(*old(bus), *final(bus)),
            appended(
                *old(bus),
                *final(bus),
                posted_by(old(self).inner().poster_id(), old(self).posts(event)),
            ),
            old(self).stepped(event, *old(mint), *final(self), *final(mint)),
            is_exit_key(event) ==> final(self).inner() == old(self).inner(),
            !is_exit_key(event) && (old(self).inner().takes(event) || manager_action(event)
                != ManagerAction::Cycle) ==> final(self).inner().order() == old(
                self,
            ).inner().order() && final(self).inner().current_index() == old(
                self,
            ).inner().current_index(),
            !is_exit_key(event) && !old(self).inner().takes(event) && manager_action(event)
                == ManagerAction::Cycle ==> final(self).inner().order() == old(
                self,
            ).inner().order() && final(self).inner().current_index() == if old(
                self,
            ).inner().order().len() == 0 {
                old(self).inner().current_index()
            } else {
                (old(self).inner().current_index() + 1) % (old(self).inner().order().len() as int)
            },
            !is_exit_key(event) && !old(self).inner().takes(event) && manager_action(event)
                == ManagerAction::OpenCommand && old(self).inner().can_take(*old(mint))
                ==> final(self).ordering() == old(self).ordering() && final(self).inner().popup_entries().len() == old(self).inner().popup_entries().len() + 1,
    {
        proof {
            lemma_appended_nothing(*bus);
        }
        let ghost id = self.container.poster_id();
        let ghost asked = event;
        let exit = match &event {
            WindowEvent::Input { key, modifiers } => match key {
                Key::End => modifiers.is_control(),
                _ => false,
            },
            _ => false,
        };
        if exit {
            self.container.post(bus, WindowRequest::RemoveSelfWindow);
            return ;
        }
        let mut event = event;
        self.container.distribute_events(&mut event, bus);
        let ghost middle = *bus;
        let ghost early = if old(self).inner().popup_entries().len() > 0 {
            posted_by(id, seq![RequestView::Redraw])
        } else {
            Seq::<(Uuid, RequestView)>::empty()
        };
        proof {
            lemma_appended_nothing(middle);
            assert(posted_by(id, Seq::<RequestView>::empty()) =~= Seq::<
                (Uuid, RequestView),
            >::empty());
            assert(early + Seq::<(Uuid, RequestView)>::empty() =~= early);
            assert(Seq::<(Uuid, RequestView)>::empty() + posted_by(
                id,
                seq![RequestView::RemoveSelfWindow],
            ) =~= posted_by(id, seq![RequestView::RemoveSelfWindow]));
            assert(Seq::<(Uuid, RequestView)>::empty() + posted_by(id, seq![RequestView::Redraw])
                =~= posted_by(id, seq![RequestView::Redraw]));
        }
        match choose_manager_action(&event) {
            ManagerAction::Exit => {
                self.container.post(bus, WindowRequest::RemoveSelfWindow);
            },
            ManagerAction::Cycle => {
                self.container.cycle_current();
            },
            ManagerAction::OpenCommand => {
                if self.container.can_add(mint) {
                    let _ = self.container.add_popup(PopUp::Command(Command::new()), mint);
                }
                self.container.post(bus, WindowRequest::Redraw);
            },
            ManagerAction::QuitCurrent => {
                let current = self.container.get_current();
                self.container.send_to(current, WindowEvent::TryQuit);
            },
            ManagerAction::Resize => {
                match event {
                    WindowEvent::Resize(dim) => {
                        self.resize(dim);
                        self.container.event(WindowEvent::Resize(dim));
                    },
                    _ => {},
                }
            },
            ManagerAction::Forward => {
                self.container.event(event);
            },
            ManagerAction::Nothing => {},
        }
        proof {
            lemma_grown_twice(*old(bus), middle, *bus);
            if old(self).inner().takes(asked) {
                lemma_appended_twice(*old(bus), middle, *bus, early, Seq::empty());
            } else {
                match manager_action(asked) {
                    ManagerAction::Exit => {
                        lemma_appended_twice(
                            *old(bus),
                            middle,
                            *bus,
                            early,
                            posted_by(id, seq![RequestView::RemoveSelfWindow]),
                        );
                    },
                    ManagerAction::OpenCommand => {
                        lemma_appended_twice(
                            *old(bus),
                            middle,
                            *bus,
                            early,
                            posted_by(id, seq![RequestView::Redraw]),
                        );
                    },
                    _ => {
                        lemma_appended_twice(*old(bus), middle, *bus, early, Seq::empty());
                    },
                }
            }
        }
    }

    /// Whether a canvas of the dimension `dim` can be made.
    pub open spec fn drawable(dim: Plot) -> bool {
        dim.row >= 1 && dim.col >= 1 && dim.row * dim.col <= usize::MAX
    }

    /// The canvas `v` with the windows from place `i` on drawn onto it,
    /// each into the rectangle that the layout gives it.
    pub open spec fn windows_drawn(&self, v: CanvasView, i: int) -> CanvasView
        decreases self.layout_of().windows().len() - i,
    {
        if i < 0 || i >= self.layout_of().windows().len() {
            v
        } else {
            let space = self.layout_of().windows()[i];
            self.windows_drawn(
                if i < self.inner().entries().len() && Self::drawable(space.dim) {
                    v.merged(
                        space.start,
                        self.inner().window_drawn(i, CanvasView::blank(space.dim)),
                    )
                } else {
                    v
                },
                i + 1,
            )
        }
    }

    /// The dimension of the canvas that a border is drawn on.
    pub open spec fn border_dim(border: BorderSpace) -> Plot {
        if border.vertical {
            Plot { row: border.length, col: border.thickness }
        } else {
            Plot { row: border.thickness, col: border.length }
        }
    }

    /// The canvas `v` with the borders from number `b` on drawn onto it,
    /// each a strip of hashes, white on black.
    pub open spec fn borders_drawn(&self, v: CanvasView, b: int) -> CanvasView
        decreases self.layout_of().borders().len() - b,
    {
        if b < 0 || b >= self.layout_of().borders().len() {
            v
        } else {
            let border = self.layout_of().borders()[b];
            let dim = Self::border_dim(border);
            self.borders_drawn(
                if Self::drawable(dim) {
                    v.merged(
                        border.start,
                        CanvasView::blank(dim).written(
                            Alert::run('#', dim.row * dim.col),
                            seq![
                                StyleAttribute::BgColor(ThemeColor::Black),
                                StyleAttribute::Color(ThemeColor::White),
                            ],
                            true,
                        ),
                    )
                } else {
                    v
                },
                b + 1,
            )
        }
    }

    /// The canvas `v` with the screen drawn onto it: the windows, the
    /// borders between them, and the popups over them.
    pub open spec fn drawn(&self, v: CanvasView) -> CanvasView {
        self.inner().popups_drawn(self.borders_drawn(self.windows_drawn(v, 0), 0), 0)
    }

    /// Draw every window into the rectangle it is given, the borders
    /// between them, and the popups over them.
    pub fn draw(&self, canvas: &mut Canvas)
        requires
            self.wf(),
            old(canvas).wf(),
        ensures
            final(canvas).wf(),
            final(canvas)@ == self.drawn(old(canvas)@),
    {
        let windows = self.layout.get_windows();
        let borders = self.layout.get_borders();
        let ghost start = canvas@;
        let mut i: usize = 0;
        while i < windows.len()
            invariant
                self.wf(),
                canvas.wf(),
                windows@ == self.layout_of().windows(),
                i <= windows@.len(),
                self.windows_drawn(start, 0) == self.windows_drawn(canvas@, i as int),
            decreases windows@.len() - i,
        {
            let space = windows[i];
            if i < self.container.window_count() && space.dim.row >= 1 && space.dim.col >= 1 {
                match space.dim.row.checked_mul(space.dim.col) {
                    Some(_) => {
                        let mut child_canvas = Canvas::new(space.dim);
                        self.container.draw_window(i, &mut child_canvas);
                        canvas.add_child(child_canvas, space.start);
                    },
                    None => {},
                }
            }
            i += 1;
        }
        let ghost middle = canvas@;
        let mut b: usize = 0;
        while b < borders.len()
            invariant
                canvas.wf(),
                borders@ == self.layout_of().borders(),
                b <= borders@.len(),
                self.borders_drawn(middle, 0) == self.borders_drawn(canvas@, b as int),
            decreases borders@.len() - b,
        {
            let border = borders[b];
            let dim = if border.vertical {
                Plot::new(border.length, border.thickness)
            } else {
                Plot::new(border.thickness, border.length)
            };
            if dim.row >= 1 && dim.col >= 1 {
                match dim.row.checked_mul(dim.col) {
                    Some(cells) => {
                        let mut border_canvas = Canvas::new(dim);
                        let text = StyledText::new(repeated('#', cells)).with(
                            StyleAttribute::BgColor(ThemeColor::Black),
                        ).with(StyleAttribute::Color(ThemeColor::White));
                        assert(text.attributes() =~= seq![
                            StyleAttribute::BgColor(ThemeColor::Black),
                            StyleAttribute::Color(ThemeColor::White),
                        ]);
                        border_canvas.write_wrap(&text);
                        canvas.add_child(border_canvas, border.start);
                    },
                    None => {},
                }
            }
            b += 1;
        }
        self.container.draw(canvas);
    }

    /// Whether `after` is this manager after an explorer on its directory
    /// was opened, in a tab of its own that is put in front, and `out` the
    /// bus `into` after the manager asked to be drawn. Where no identifier
    /// can be minted any more nothing happens.
    pub open spec fn explorer_opened(
        &self,
        mint: IdMint,
        after: WindowManager,
        minted: IdMint,
        into: Bus,
        out: Bus,
    ) -> bool {
        if !self.can_open(mint) {
            after == *self && out == into && minted == mint
        } else {
            &&& appended(into, out, posted_by(self.inner().poster_id(), seq![RequestView::Redraw]))
            &&& after.directory() == self.directory()
            &&& self.layout_of().fitted(self.inner().entries().len() + 1, after.layout_of())
            &&& exists|tab: TabWindow, coined: IdMint, added: OrderedWindowContainer|
                #![trigger self.inner().with_window(Window::Tab(tab), coined, added, minted)]
                tab.holds_explorer(self.directory()) && coined.newest().rank()
                    == mint.newest().rank() + 1 && tab.inner().inbox().newest() == coined.newest()
                    && self.inner().with_window(Window::Tab(tab), coined, added, minted)
                    && OrderedWindowContainer::turned(
                    added,
                    added.entries().len() - 1,
                    after.inner(),
                )
        }
    }

    /// Whether an explorer can be opened with identifiers from `mint`: the
    /// mint has two left, one for the explorer and one for its tab, and is
    /// ahead of every identifier that the manager has had from it; and the
    /// manager has room for a tab.
    pub open spec fn can_open(&self, mint: IdMint) -> bool {
        mint.newest().rank() + 2 <= usize::MAX && self.inner().inbox().newest().rank()
            <= mint.newest().rank() && self.inner().room() >= 1
    }

    /// Open an explorer on the directory of the manager, in a tab of its
    /// own, and put it in front.
    fn open_explorer(&mut self, bus: &mut Bus, mint: &mut IdMint)
        requires
            old(self).wf(),
        ensures
            final(self).wf(),
            old(mint).before(*final(mint)),
            final(self).inner().poster_id() == old(self).inner().poster_id(),
            grown(*old(bus), *final(bus)),
            old(self).explorer_opened(
                *old(mint),
                *final(self),
                *final(mint),
                *old(bus),
                *final(bus),
            ),
    {
        proof {
            lemma_appended_nothing(*bus);
        }
        let newest = mint.peek().0;
        if newest >= usize::MAX - 1 || self.container.get_newest().0 > newest
            || self.container.get_room() < 1 {
            return ;
        }
        let root = DirectoryRep::new(self.current_dir.clone(), self.current_dir.clone(), true);
        let mut tab = TabWindow::new();
        let _ = tab.add_window(Window::Fs(FSWindow::new(root)), mint);
        let ghost opened = tab;
        let ghost coined = *mint;
        assert(opened.holds_explorer(self.directory()));
        let _ = self.add_window(Window::Tab(tab), mint);
        let ghost added = self.container;
        let count = self.container.window_count();
        if count > 0 {
            self.container.set_current(count - 1);
        }
        self.container.post(bus, WindowRequest::Redraw);
        proof {
            assert(old(self).inner().with_window(Window::Tab(opened), coined, added, *mint));
            assert(OrderedWindowContainer::turned(
                added,
                added.entries().len() - 1,
                self.inner(),
            ));
        }
    }

    /// Whether `after` is this manager after it saw that `request` was
    /// dealt with: the command `x` opens an explorer, the command `qall`
    /// asks every window to leave, and nothing else has an effect.
    pub open spec fn commanded(
        &self,
        request: RequestView,
        mint: IdMint,
        after: WindowManager,
        minted: IdMint,
        into: Bus,
        out: Bus,
    ) -> bool {
        match request {
            RequestView::Command(command) => if command == "x"@ {
                self.explorer_opened(mint, after, minted, into, out)
            } else if command == "qall"@ {
                out == into && minted == mint && after.directory() == self.directory() && after.layout_of()
                    == self.layout_of() && self.inner().evented(
                    WindowEvent::TryQuit,
                    after.inner(),
                )
            } else {
                after == *self && out == into && minted == mint
            },
            _ => after == *self && out == into && minted == mint,
        }
    }

    /// Whether `after` is this manager after it saw that the first `upto`
    /// of `requests` were dealt with, one after the other.
    pub open spec fn commanded_upto(
        &self,
        requests: Seq<RequestView>,
        upto: int,
        mint: IdMint,
        after: WindowManager,
        minted: IdMint,
        into: Bus,
        out: Bus,
    ) -> bool
        decreases upto,
    {
        if upto <= 0 || upto > requests.len() {
            after == *self && out == into && minted == mint
        } else {
            exists|last: int, middle: WindowManager, coined: IdMint, between: Bus|
                last + 1 == upto && self.commanded_upto(
                    requests,
                    last,
                    mint,
                    middle,
                    coined,
                    into,
                    between,
                ) && #[trigger] middle.commanded(
                    requests[last],
                    coined,
                    after,
                    minted,
                    between,
                    out,
                )
        }
    }

    /// Seeing that one request more was dealt with.
    pub proof fn lemma_commanded_one_more(
        &self,
        requests: Seq<RequestView>,
        upto: int,
        mint: IdMint,
        middle: WindowManager,
        coined: IdMint,
        after: WindowManager,
        minted: IdMint,
        into: Bus,
        between: Bus,
        out: Bus,
    )
        requires
            0 < upto <= requests.len(),
            self.commanded_upto(requests, upto - 1, mint, middle, coined, into, between),
            middle.commanded(requests[upto - 1], coined, after, minted, between, out),
        ensures
            self.commanded_upto(requests, upto, mint, after, minted, into, out),
    {
        let last = upto - 1;
        assert(middle.commanded(requests[last], coined, after, minted, between, out));
    }

    /// Whether `after` is this manager after its windows dealt with what
    /// waited for them, the manager with what waited for it, with the
    /// answers `answers`; what it was left to read was posted on; the
    /// layout was brought to the number of windows; and the manager saw to
    /// the commands among the answers.
    pub open spec fn collected(
        &self,
        answers: Seq<RequestView>,
        mint: IdMint,
        after: WindowManager,
        minted: IdMint,
        into: Bus,
        out: Bus,
    ) -> bool {
        exists|
            gathered: OrderedWindowContainer,
            coined: IdMint,
            first: Bus,
            synced: WindowManager,
            second: Bus,
        |
            #![trigger self.inner().collected(answers, mint, gathered, coined, into, first), synced.commanded_upto(answers, answers.len() as int, coined, after, minted, second, out)]
            self.inner().collected(answers, mint, gathered, coined, into, first)
                && gathered.keeping(Seq::empty(), synced.inner()) && appended(
                first,
                second,
                posted_by(self.inner().poster_id(), views_of(requests_of(gathered.kept()))),
            ) && synced.directory() == self.directory() && self.layout_of().fitted(
                synced.inner().entries().len(),
                synced.layout_of(),
            ) && synced.commanded_upto(
                answers,
                answers.len() as int,
                coined,
                after,
                minted,
                second,
                out,
            )
    }

    /// Let the windows deal with what waits for them and deal with what
    /// waits here; post on what is left to read; and bring the layout to
    /// the number of windows. Of the commands that were dealt with, `x`
    /// opens an explorer and `qall` asks every window to leave. What was
    /// dealt with comes back.
    pub fn collect_requests(&mut self, bus: &mut Bus, mint: &mut IdMint) -> (requests:
        Vec<WindowRequest>)
        requires
            old(self).wf(),
        ensures
            final(self).wf(),
            old(mint).before(*final(mint)),
            final(self).inner().poster_id() == old(self).inner().poster_id(),
            grown(*old(bus), *final(bus)),
            old(self).collected(
                views_of(requests@),
                *old(mint),
                *final(self),
                *final(mint),
                *old(bus),
                *final(bus),
            ),
    {
        let requests = self.container.collect_requests(bus, mint);
        let ghost gathered = self.container;
        let ghost first = *bus;
        let ghost coined = *mint;
        let kept = self.container.take_kept();
        self.container.post_each(bus, kept);
        self.sync_layout();
        let ghost synced = *self;
        let ghost between = *bus;
        let ghost answers = views_of(requests@);
        proof {
            lemma_grown_twice(*old(bus), first, between);
        }
        let mut i: usize = 0;
        while i < requests.len()
            invariant
                self.wf(),
                self.inner().poster_id() == old(self).inner().poster_id(),
                grown(*old(bus), *bus),
                i <= requests@.len(),
                answers == views_of(requests@),
                coined.before(*mint),
                synced.commanded_upto(answers, i as int, coined, *self, *mint, between, *bus),
            decreases requests@.len() - i,
        {
            let ghost middle = *bus;
            let ghost before = *self;
            let ghost struck = *mint;
            match &requests[i] {
                WindowRequest::Command(command) => {
                    if same_text(command.as_str(), "x") {
                        self.open_explorer(bus, mint);
                    } else if same_text(command.as_str(), "qall") {
                        self.container.event(WindowEvent::TryQuit);
                    }
                },
                _ => {},
            }
            proof {
                lemma_grown_twice(*old(bus), middle, *bus);
                assert(answers[i as int] == requests@[i as int]@);
                assert(before.commanded(
                    answers[i as int],
                    struck,
                    *self,
                    *mint,
                    middle,
                    *bus,
                ));
                synced.lemma_commanded_one_more(
                    answers,
                    i + 1,
                    coined,
                    before,
                    struck,
                    *self,
                    *mint,
                    between,
                    middle,
                    *bus,
                );
            }
            i += 1;
        }
        proof {
            assert(answers.len() == requests@.len());
            assert(synced.commanded_upto(
                answers,
                answers.len() as int,
                coined,
                *self,
                *mint,
                between,
                *bus,
            ));
            assert(old(self).inner().collected(
                answers,
                *old(mint),
                gathered,
                coined,
                *old(bus),
                first,
            ));
            assert(gathered.keeping(Seq::empty(), synced.inner()));
            assert(old(self).layout_of().fitted(
                synced.inner().entries().len(),
                synced.layout_of(),
            ));
        }
        requests
    }
}

} // verus!
