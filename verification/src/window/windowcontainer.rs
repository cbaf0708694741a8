//! A window of windows: what it holds in order, which of them is in front,
//! the popups over them, and the requests they post.

use vstd::prelude::*;
use crate::event::{EventReceiver, UniqueNext, Uuid};
use crate::plot::Plot;
use crate::style::canvas::{Canvas, CanvasView};
use crate::window::popup::{term_dim_spec, term_pos_spec, to_term_dim, to_term_pos, PopUp};
use crate::window::window::{
    IdMint,
    all_wf, appended, bus_wf, grown, id_of, lemma_appended_nothing, lemma_grown_twice, post, post_all,
    posted_by, request_wf, views_of, Bus, Poster, RequestView, Window, WindowEvent, WindowRequest,
};

verus! {

/// A window with the identifier it is known under.
pub struct WindowEntry {
    pub id: Uuid,
    pub window: Window,
}

/// A popup with the identifier it is known under.
pub struct PopUpEntry {
    pub id: Uuid,
    pub popup: PopUp,
}

/// The identifiers of `entries`, in their order.
pub open spec fn window_ids(entries: Seq<WindowEntry>) -> Seq<Uuid> {
    Seq::new(entries.len(), |i: int| entries[i].id)
}

/// The identifiers of `entries`, in their order.
pub open spec fn popup_ids(entries: Seq<PopUpEntry>) -> Seq<Uuid> {
    Seq::new(entries.len(), |i: int| entries[i].id)
}

/// Whether the identifiers of `ids` were minted one after the other, and
/// none later than `newest`.
pub open spec fn minted_in_order(ids: Seq<Uuid>, newest: Uuid) -> bool {
    &&& forall|i: int, j: int| 0 <= i < j < ids.len() ==> ids[i].0 < ids[j].0
    &&& forall|i: int| 0 <= i < ids.len() ==> (#[trigger] ids[i]).0 <= newest.0
}

/// The windows of a container in their order, and which of them is in front.
pub struct WindowOrder {
    pub entries: Seq<WindowEntry>,
    pub current: int,
}

impl WindowOrder {
    /// The index in front is that of a window, or zero where there is none.
    pub open spec fn wf(self) -> bool {
        0 <= self.current && (self.current < self.entries.len() || self.current == 0)
    }

    /// The ordering with `entry` added at its end.
    pub open spec fn added(self, entry: WindowEntry) -> WindowOrder {
        WindowOrder { entries: self.entries.push(entry), current: self.current }
    }

    /// The place of the window that is known under `id`: that of the first
    /// such window.
    pub open spec fn place_of(self, id: Uuid) -> int
        decreases self.entries.len(),
    {
        if self.entries.len() == 0 {
            0
        } else if self.entries[0].id == id {
            0
        } else {
            1 + (WindowOrder { entries: self.entries.drop_first(), current: self.current }).place_of(
                id,
            )
        }
    }

    /// The ordering without the window that is known under `id`. Where the
    /// window stood at or before the one in front, the index in front goes
    /// back by one, but not below zero.
    pub open spec fn removed(self, id: Uuid) -> WindowOrder {
        let place = self.place_of(id);
        if place >= self.entries.len() {
            self
        } else {
            WindowOrder {
                entries: self.entries.remove(place),
                current: if place <= self.current && self.current > 0 {
                    self.current - 1
                } else {
                    self.current
                },
            }
        }
    }

    /// The index of the window behind the one in front, the first after the
    /// last; the index in front itself where there is no window.
    pub open spec fn next_index(self) -> int {
        if self.entries.len() == 0 {
            self.current
        } else {
            (self.current + 1) % (self.entries.len() as int)
        }
    }

    /// The place of an identifier lies within the entries where one of
    /// them is known under it, and behind them where none is.
    pub proof fn lemma_place_of(self, id: Uuid)
        ensures
            0 <= self.place_of(id) <= self.entries.len(),
            self.place_of(id) < self.entries.len() ==> self.entries[self.place_of(id)].id == id,
            forall|i: int| 0 <= i < self.place_of(id) ==> (#[trigger] self.entries[i]).id != id,
        decreases self.entries.len(),
    {
        if self.entries.len() > 0 && self.entries[0].id != id {
            let rest = WindowOrder { entries: self.entries.drop_first(), current: self.current };
            rest.lemma_place_of(id);
            assert forall|i: int| 0 <= i < self.place_of(id) implies (#[trigger] self.entries[i]).id
                != id by {
                if i > 0 {
                    assert(rest.entries[i - 1] == self.entries[i]);
                }
            }
        }
    }

    /// A place that holds the identifier, with none before it that does,
    /// is its place.
    pub proof fn lemma_place_is(self, id: Uuid, place: int)
        requires
            0 <= place <= self.entries.len(),
            place < self.entries.len() ==> self.entries[place].id == id,
            forall|i: int| 0 <= i < place ==> (#[trigger] self.entries[i]).id != id,
        ensures
            self.place_of(id) == place,
        decreases self.entries.len(),
    {
        if place > 0 {
            let rest = WindowOrder { entries: self.entries.drop_first(), current: self.current };
            assert(self.entries[0].id != id);
            assert forall|i: int| 0 <= i < place - 1 implies (#[trigger] rest.entries[i]).id
                != id by {
                assert(rest.entries[i] == self.entries[i + 1]);
            }
            rest.lemma_place_is(id, place - 1);
        }
    }
}

/// The place of the popup that is known under `id`: that of the first such
/// popup, and the number of popups where there is none.
pub open spec fn popup_place(popups: Seq<PopUpEntry>, id: Uuid) -> int
    decreases popups.len(),
{
    if popups.len() == 0 || popups[0].id == id {
        0
    } else {
        1 + popup_place(popups.drop_first(), id)
    }
}

/// A place that holds the identifier, with none before it that does, is
/// its place.
pub proof fn lemma_popup_place_is(popups: Seq<PopUpEntry>, id: Uuid, place: int)
    requires
        0 <= place <= popups.len(),
        place < popups.len() ==> popups[place].id == id,
        forall|i: int| 0 <= i < place ==> (#[trigger] popups[i]).id != id,
    ensures
        popup_place(popups, id) == place,
    decreases popups.len(),
{
    if place > 0 {
        let rest = popups.drop_first();
        assert(popups[0].id != id);
        assert forall|i: int| 0 <= i < place - 1 implies (#[trigger] rest[i]).id != id by {
            assert(rest[i] == popups[i + 1]);
        }
        lemma_popup_place_is(rest, id, place - 1);
    }
}

/// Adding a window and removing it again by the identifier it was given
/// leaves the order of the windows, the windows themselves and the index
/// in front as they were, where the identifier is one that no window of
/// the container is known under.
pub proof fn lemma_add_remove_symmetry(before: WindowOrder, entry: WindowEntry)
    requires
        before.wf(),
        forall|i: int| 0 <= i < before.entries.len() ==> (#[trigger] before.entries[i]).id != entry.id,
    ensures
        before.added(entry).removed(entry.id) == before,
        window_ids(before.added(entry).removed(entry.id).entries) == window_ids(before.entries),
{
    let after = before.added(entry);
    assert forall|i: int| 0 <= i < before.entries.len() implies (#[trigger] after.entries[i]).id
        != entry.id by {
        assert(after.entries[i] == before.entries[i]);
    }
    after.lemma_place_is(entry.id, before.entries.len() as int);
    assert(after.entries.remove(before.entries.len() as int) =~= before.entries);
}

/// The requests of `posted`, without the identifiers they were posted under.
pub open spec fn requests_of(posted: Seq<(Uuid, WindowRequest)>) -> Seq<WindowRequest> {
    Seq::new(posted.len(), |i: int| posted[i].1)
}

/// What a container answers a request with that it deals with itself:
/// nothing where it keeps the request for its owner to read.
pub open spec fn handled_as(request: RequestView) -> Option<RequestView> {
    match request {
        RequestView::AddWindow(_) => Some(RequestView::AddWindow(false)),
        RequestView::AddPopup(_) => Some(RequestView::AddPopup(false)),
        RequestView::RemoveSelfWindow => Some(RequestView::RemoveSelfWindow),
        RequestView::RemoveSelfPopup => Some(RequestView::RemoveSelfPopup),
        RequestView::Command(command) => Some(RequestView::Command(command)),
        RequestView::Redraw => Some(RequestView::Redraw),
        _ => None,
    }
}

/// What a container answers the requests `requests` with, in their order.
pub open spec fn handled_all(requests: Seq<(Uuid, WindowRequest)>) -> Seq<RequestView>
    decreases requests.len(),
{
    if requests.len() == 0 {
        Seq::empty()
    } else {
        (match handled_as(requests[0].1@) {
            Some(answer) => seq![answer],
            None => Seq::empty(),
        }) + handled_all(requests.drop_first())
    }
}

/// A container of windows in an order, with one of them in front, and of
/// popups over them.
pub struct OrderedWindowContainer {
    windows: Vec<WindowEntry>,
    popups: Vec<PopUpEntry>,
    event_receiver: Bus,
    event_poster: Option<Poster>,
    seen: Vec<(Uuid, WindowRequest)>,
    current: usize,
    room: usize,
}

impl OrderedWindowContainer {
    /// The windows in their order.
    pub closed spec fn entries(&self) -> Seq<WindowEntry> {
        self.windows@
    }

    /// The popups, the one on top last.
    pub closed spec fn popup_entries(&self) -> Seq<PopUpEntry> {
        self.popups@
    }

    /// The receiver that the windows and popups post to.
    pub closed spec fn inbox(&self) -> Bus {
        self.event_receiver
    }

    /// The identifier the container posts under, once it has one.
    pub closed spec fn poster_id(&self) -> Option<Uuid> {
        id_of(self.event_poster)
    }

    /// How many levels of windows within windows the container has room
    /// for below it: a window of tabs that it holds has room for fewer.
    pub closed spec fn room(&self) -> nat {
        self.room as nat
    }

    /// Whether the container has room for `window`: for its levels of
    /// windows within windows.
    pub open spec fn has_room(&self, window: Window) -> bool {
        window.level() <= self.room()
    }

    /// The index of the window in front.
    pub closed spec fn current_index(&self) -> int {
        self.current as int
    }

    /// What the owner was left to read and did not.
    pub closed spec fn kept(&self) -> Seq<(Uuid, WindowRequest)> {
        self.seen@
    }

    /// Whether `after` is this container but for its windows, its receiver
    /// and the index in front.
    pub open spec fn same_frame(&self, after: OrderedWindowContainer) -> bool {
        &&& after.room() == self.room()
        &&& after.popup_entries() == self.popup_entries()
        &&& after.poster_id() == self.poster_id()
        &&& after.kept() == self.kept()
    }

    /// Whether `after` is this container but for its windows, its popups,
    /// its receiver and the index in front.
    pub open spec fn same_frame_but_popups(&self, after: OrderedWindowContainer) -> bool {
        &&& after.room() == self.room()
        &&& after.poster_id() == self.poster_id()
        &&& after.kept() == self.kept()
    }

    /// Whether `after` is `before` with the window at place `current` in
    /// front.
    pub open spec fn turned(
        before: OrderedWindowContainer,
        current: int,
        after: OrderedWindowContainer,
    ) -> bool {
        &&& before.same_frame(after)
        &&& after.entries() == before.entries()
        &&& after.inbox() == before.inbox()
        &&& after.current_index() == current
    }

    /// Whether `after` is this container after `event` was sent to the
    /// window at place `place`: that window took it in and posted to the
    /// receiver of the container, and nothing else changed. Where there is
    /// no such window nothing changed.
    pub open spec fn sent(
        &self,
        place: int,
        event: WindowEvent,
        after: OrderedWindowContainer,
    ) -> bool
        decreases self.room() + 1, 0nat,
    {
        &&& self.same_frame(after)
        &&& after.current_index() == self.current_index()
        &&& after.entries().len() == self.entries().len()
        &&& forall|i: int|
            0 <= i < self.entries().len() && i != place ==> #[trigger] after.entries()[i]
                == self.entries()[i]
        &&& if 0 <= place < self.entries().len() {
            &&& self.entries()[place].window.level() <= self.room()
            &&& after.entries()[place].id == self.entries()[place].id
            &&& self.entries()[place].window.stepped(
                event,
                after.entries()[place].window,
                self.inbox(),
                after.inbox(),
            )
        } else {
            after.entries() == self.entries() && after.inbox() == self.inbox()
        }
    }

    /// The event that goes to every window: the request to quit, or a size.
    pub open spec fn for_all(quit: bool, dim: Plot) -> WindowEvent {
        if quit {
            WindowEvent::TryQuit
        } else {
            WindowEvent::Resize(dim)
        }
    }

    /// Whether `after` is this container with a poster that posts under
    /// `id`.
    pub open spec fn with_poster(&self, id: Uuid, after: OrderedWindowContainer) -> bool {
        &&& after.room() == self.room()
        &&& after.entries() == self.entries()
        &&& after.popup_entries() == self.popup_entries()
        &&& after.current_index() == self.current_index()
        &&& after.inbox() == self.inbox()
        &&& after.kept() == self.kept()
        &&& after.poster_id() == Some(id)
    }

    /// Whether `after` is this container with `window` behind the others,
    /// under a new identifier that it posts under.
    pub open spec fn with_window(
        &self,
        window: Window,
        mint: IdMint,
        after: OrderedWindowContainer,
        minted: IdMint,
    ) -> bool {
        &&& self.same_frame(after)
        &&& after.current_index() == self.current_index()
        &&& after.inbox().queue() == self.inbox().queue()
        &&& minted.newest().rank() == mint.newest().rank() + 1
        &&& after.inbox().newest() == minted.newest()
        &&& after.entries().len() == self.entries().len() + 1
        &&& forall|i: int|
            0 <= i < self.entries().len() ==> #[trigger] after.entries()[i] == self.entries()[i]
        &&& after.entries().last().id == after.inbox().newest()
        &&& window.with_poster(after.inbox().newest(), after.entries().last().window)
    }

    /// Whether `after` is this container with one popup more, on top of the
    /// others, under a new identifier.
    pub open spec fn popup_added(
        &self,
        mint: IdMint,
        after: OrderedWindowContainer,
        minted: IdMint,
    ) -> bool {
        &&& after.room() == self.room()
        &&& after.entries() == self.entries()
        &&& after.current_index() == self.current_index()
        &&& after.poster_id() == self.poster_id()
        &&& after.kept() == self.kept()
        &&& after.inbox().queue() == self.inbox().queue()
        &&& minted.newest().rank() == mint.newest().rank() + 1
        &&& after.inbox().newest() == minted.newest()
        &&& after.popup_entries().len() == self.popup_entries().len() + 1
        &&& forall|i: int|
            0 <= i < self.popup_entries().len() ==> #[trigger] after.popup_entries()[i]
                == self.popup_entries()[i]
        &&& after.popup_entries().last().id == after.inbox().newest()
    }

    /// Whether `after` is this container with `popup` on top of the others,
    /// under a new identifier that it posts under.
    pub open spec fn with_popup(
        &self,
        popup: PopUp,
        mint: IdMint,
        after: OrderedWindowContainer,
        minted: IdMint,
    ) -> bool {
        self.popup_added(mint, after, minted) && popup.with_poster(
            after.inbox().newest(),
            after.popup_entries().last().popup,
        )
    }

    /// Whether `after` is this container after `event` was handed to the
    /// popup on top, or to the window in front where it is a key and the
    /// window wants every key, and as it was where neither took it.
    pub open spec fn distributed(
        &self,
        event: WindowEvent,
        after: OrderedWindowContainer,
    ) -> bool {
        if self.popup_entries().len() > 0 {
            let top = self.popup_entries().len() - 1;
            &&& self.same_frame_but_popups(after)
            &&& after.entries() == self.entries()
            &&& after.current_index() == self.current_index()
            &&& after.popup_entries().len() == self.popup_entries().len()
            &&& forall|i: int|
                0 <= i < top ==> #[trigger] after.popup_entries()[i] == self.popup_entries()[i]
            &&& after.popup_entries()[top].id == self.popup_entries()[top].id
            &&& self.popup_entries()[top].popup.stepped(
                event,
                after.popup_entries()[top].popup,
                self.inbox(),
                after.inbox(),
            )
        } else if self.bypass() && event is Input {
            self.sent(self.current_index(), event, after)
        } else {
            after == *self
        }
    }

    /// Whether `after` is this container after each of the first `upto`
    /// windows was told its size, the window at place `i` the size
    /// `sizes[i]`, one after the other.
    pub open spec fn sized(
        &self,
        sizes: Seq<Plot>,
        upto: int,
        after: OrderedWindowContainer,
    ) -> bool
        decreases self.room() + 1, 1nat, upto,
    {
        if upto <= 0 || upto > sizes.len() {
            after == *self
        } else {
            exists|middle: OrderedWindowContainer| #[trigger]
                self.same_frame(middle) && self.sized(sizes, upto - 1, middle)
                    && middle.sent(upto - 1, WindowEvent::Resize(sizes[upto - 1]), after)
        }
    }

    /// Telling one window more its size.
    pub proof fn lemma_sized_one_more(
        &self,
        sizes: Seq<Plot>,
        upto: int,
        middle: OrderedWindowContainer,
        after: OrderedWindowContainer,
    )
        requires
            0 < upto <= sizes.len(),
            self.same_frame(middle),
            self.sized(sizes, upto - 1, middle),
            middle.sent(upto - 1, WindowEvent::Resize(sizes[upto - 1]), after),
        ensures
            self.sized(sizes, upto, after),
    {
    }

    /// Whether `after` is this container after the event for all was sent to
    /// the first `upto` windows, one after the other.
    pub open spec fn sent_all(
        &self,
        quit: bool,
        dim: Plot,
        upto: int,
        after: OrderedWindowContainer,
    ) -> bool
        decreases self.room() + 1, 1nat, upto,
    {
        if upto <= 0 {
            after == *self
        } else {
            exists|middle: OrderedWindowContainer| #[trigger]
                self.same_frame(middle) && self.sent_all(quit, dim, upto - 1, middle)
                    && middle.sent(upto - 1, Self::for_all(quit, dim), after)
        }
    }

    /// Sending the event for all to one window more.
    proof fn lemma_sent_one_more(
        &self,
        quit: bool,
        dim: Plot,
        upto: int,
        middle: OrderedWindowContainer,
        after: OrderedWindowContainer,
    )
        requires
            upto > 0,
            self.same_frame(middle),
            self.sent_all(quit, dim, upto - 1, middle),
            middle.sent(upto - 1, Self::for_all(quit, dim), after),
        ensures
            self.sent_all(quit, dim, upto, after),
    {
    }

    /// Whether `after` is this container after it took in `event`: a
    /// request to quit and a new size go to every window, anything else to
    /// the window in front.
    pub open spec fn evented(&self, event: WindowEvent, after: OrderedWindowContainer) -> bool
        decreases self.room() + 1, 2nat,
    {
        match event {
            WindowEvent::TryQuit => self.sent_all(
                true,
                Plot { row: 0, col: 0 },
                self.entries().len() as int,
                after,
            ),
            WindowEvent::Resize(dim) => self.sent_all(
                false,
                dim,
                self.entries().len() as int,
                after,
            ),
            _ => self.sent(self.current_index(), event, after),
        }
    }

    /// Whether `after` is this container after the next window was put in
    /// front: the window that was in front was told that it lost the focus,
    /// the next, or the first after the last, that it has it.
    pub open spec fn cycled(&self, after: OrderedWindowContainer) -> bool {
        if self.entries().len() == 0 {
            after == *self
        } else {
            exists|middle: OrderedWindowContainer, next: OrderedWindowContainer|
                #![trigger self.sent(self.current_index(), WindowEvent::Unfocus, middle), Self::turned(middle, (self.current_index() + 1) % (self.entries().len() as int), next)]
                self.sent(self.current_index(), WindowEvent::Unfocus, middle)
                    && Self::turned(
                    middle,
                    (self.current_index() + 1) % (self.entries().len() as int),
                    next,
                ) && next.sent(
                    (self.current_index() + 1) % (self.entries().len() as int),
                    WindowEvent::Focus,
                    after,
                )
        }
    }

    /// The windows in their order, and which of them is in front.
    pub open spec fn ordering(&self) -> WindowOrder {
        WindowOrder { entries: self.entries(), current: self.current_index() }
    }

    /// The identifiers of the windows, in their order.
    pub open spec fn order(&self) -> Seq<Uuid> {
        window_ids(self.entries())
    }

    /// Every window is well formed and known under an identifier of its
    /// own that the receiver minted; so is every popup; and the index in
    /// front is that of a window, or zero.
    pub closed spec fn wf(&self) -> bool
        decreases self,
    {
        &&& minted_in_order(window_ids(self.windows@), self.event_receiver.newest())
        &&& minted_in_order(popup_ids(self.popups@), self.event_receiver.newest())
        &&& forall|i: int| 0 <= i < self.windows@.len() ==> (#[trigger] self.windows@[i]).window.wf()
        &&& forall|i: int|
            0 <= i < self.windows@.len() ==> (#[trigger] self.windows@[i]).window.level()
                <= self.room
        &&& forall|i: int| 0 <= i < self.popups@.len() ==> (#[trigger] self.popups@[i]).popup.wf()
        &&& forall|i: int|
            0 <= i < self.event_receiver.received@.len() ==> request_wf(
                (#[trigger] self.event_receiver.received@[i]).1,
            )
        &&& forall|i: int| 0 <= i < self.seen@.len() ==> request_wf((#[trigger] self.seen@[i]).1)
        &&& (self.current < self.windows@.len() || self.current == 0)
    }

    /// Whether the container wants every key: whether the window in front does.
    pub closed spec fn bypass(&self) -> bool
        decreases self,
    {
        self.current < self.windows@.len() && self.windows@[self.current as int].window.bypass()
    }

    /// What well-formedness says of the order.
    pub proof fn lemma_wf(&self)
        requires
            self.wf(),
        ensures
            self.ordering().wf(),
            minted_in_order(self.order(), self.inbox().newest()),
            forall|i: int, j: int|
                0 <= i < j < self.order().len() ==> self.order()[i] != self.order()[j],
            forall|i: int| 0 <= i < self.entries().len() ==> (#[trigger] self.entries()[i]).window.wf(),
            forall|i: int|
                0 <= i < self.entries().len() ==> self.has_room((#[trigger] self.entries()[i]).window),
            bus_wf(self.inbox()),
    {
    }

    /// Whether the container holds nothing and has minted no identifier.
    pub open spec fn fresh(&self) -> bool {
        &&& self.entries() == Seq::<WindowEntry>::empty()
        &&& self.popup_entries() == Seq::<PopUpEntry>::empty()
        &&& self.current_index() == 0
        &&& self.poster_id() is None
        &&& self.inbox().queue() == Seq::<(Uuid, WindowRequest)>::empty()
        &&& self.inbox().newest().rank() == 0
        &&& self.kept() == Seq::<(Uuid, WindowRequest)>::empty()
    }

    /// A container that holds nothing, with room for windows that hold no
    /// windows themselves.
    pub fn new() -> (container: Self)
        ensures
            container.wf(),
            container.fresh(),
            container.room() == 0,
    {
        Self::with_room(0)
    }

    /// A container that holds nothing, with room for `room` levels of
    /// windows within windows below it.
    pub fn with_room(room: usize) -> (container: Self)
        ensures
            container.wf(),
            container.fresh(),
            container.room() == room,
            container.entries() == Seq::<WindowEntry>::empty(),
            container.popup_entries() == Seq::<PopUpEntry>::empty(),
            container.current_index() == 0,
            container.poster_id() is None,
            container.inbox().queue() == Seq::<(Uuid, WindowRequest)>::empty(),
            container.inbox().newest().has_next(),
    {
        Self {
            windows: Vec::new(),
            popups: Vec::new(),
            event_receiver: EventReceiver::new(),
            event_poster: None,
            seen: Vec::new(),
            current: 0,
            room,
        }
    }

    /// Take the poster to post with.
    pub fn set_poster(&mut self, sender: Poster)
        requires
            old(self).wf(),
        ensures
            final(self).wf(),
            final(self).entries() == old(self).entries(),
            final(self).popup_entries() == old(self).popup_entries(),
            final(self).current_index() == old(self).current_index(),
            final(self).inbox() == old(self).inbox(),
            final(self).poster_id() == Some(sender.id()),
            final(self).bypass() == old(self).bypass(),
            old(self).with_poster(sender.id(), *final(self)),
    {
        self.event_poster = Some(sender);
    }

    /// Post `event` upwards to `bus`; with no poster nothing is posted.
    pub fn post(&self, bus: &mut Bus, event: WindowRequest)
        requires
            request_wf(event),
        ensures
            appended(
                *old(bus),
                *final(bus),
                posted_by(self.poster_id(), seq![event@]),
            ),
            grown(*old(bus), *final(bus)),
            match self.poster_id() {
                Some(id) => final(bus).queue() == old(bus).queue().push((id, event)),
                None => final(bus).queue() == old(bus).queue(),
            },
    {
        let ghost view = event@;
        post(&self.event_poster, bus, event);
        proof {
            crate::window::window::lemma_posted_one_more(
                self.poster_id(),
                Seq::empty(),
                view,
            );
            assert(Seq::<RequestView>::empty().push(view) =~= seq![view]);
        }
    }

    /// The newest identifier that a window or popup of the container was
    /// given.
    pub fn get_newest(&self) -> (id: Uuid)
        ensures
            id == self.inbox().newest(),
    {
        self.event_receiver.newest
    }

    /// How many levels of windows within windows the container has room
    /// for below it.
    pub fn get_room(&self) -> (room: usize)
        ensures
            room == self.room(),
    {
        self.room
    }

    /// Whether the container has room for `window`.
    pub fn has_room_for(&self, window: &Window) -> (b: bool)
        ensures
            b == self.has_room(*window),
    {
        window.fits_in(self.room)
    }

    /// The index of the window in front.
    pub fn get_current(&self) -> (current: usize)
        ensures
            current == self.current_index(),
    {
        self.current
    }

    /// Put the window at `current` in front. An index that is that of no
    /// window leaves things as they are.
    pub fn set_current(&mut self, current: usize)
        requires
            old(self).wf(),
        ensures
            final(self).wf(),
            final(self).entries() == old(self).entries(),
            final(self).popup_entries() == old(self).popup_entries(),
            final(self).inbox() == old(self).inbox(),
            final(self).poster_id() == old(self).poster_id(),
            final(self).current_index() == if current < old(self).entries().len() {
                current as int
            } else {
                old(self).current_index()
            },
            old(self).same_frame(*final(self)),
    {
        if current < self.windows.len() {
            self.current = current;
        }
    }

    /// The number of windows.
    pub fn window_count(&self) -> (count: usize)
        ensures
            count == self.entries().len(),
    {
        self.windows.len()
    }

    /// The number of popups.
    pub fn popup_count(&self) -> (count: usize)
        ensures
            count == self.popup_entries().len(),
    {
        self.popups.len()
    }

    /// The identifiers of the windows, in their order.
    pub fn window_order(&self) -> (order: Vec<Uuid>)
        ensures
            order@ == self.order(),
    {
        let mut order: Vec<Uuid> = Vec::new();
        let mut i: usize = 0;
        while i < self.windows.len()
            invariant
                i <= self.windows@.len(),
                order@ == window_ids(self.windows@.take(i as int)),
            decreases self.windows@.len() - i,
        {
            order.push(self.windows[i].id);
            i += 1;
            assert(order@ =~= window_ids(self.windows@.take(i as int)));
        }
        assert(self.windows@.take(i as int) =~= self.windows@);
        order
    }

    /// The window at place `i` of the order.
    pub fn get_from_order(&self, i: usize) -> (window: Option<&Window>)
        ensures
            match window {
                Some(w) => i < self.entries().len() && *w == self.entries()[i as int].window,
                None => i >= self.entries().len(),
            },
    {
        if i < self.windows.len() {
            Some(&self.windows[i].window)
        } else {
            None
        }
    }

    /// Whether the container holds one window and nothing else: `window`,
    /// under the identifier `id`, which is the newest it has had.
    pub open spec fn holds_only(&self, id: Uuid, window: Window, room: nat) -> bool {
        &&& self.room() == room
        &&& self.entries() == seq![WindowEntry { id, window }]
        &&& self.popup_entries() == Seq::<PopUpEntry>::empty()
        &&& self.current_index() == 0
        &&& self.poster_id() is None
        &&& self.inbox().queue() == Seq::<(Uuid, WindowRequest)>::empty()
        &&& self.inbox().newest() == id
        &&& self.kept() == Seq::<(Uuid, WindowRequest)>::empty()
    }

    /// A container that holds `window` and nothing else, under the
    /// identifier `id` that the window has and keeps.
    pub fn holding(id: Uuid, window: Window, room: usize) -> (container: Self)
        requires
            window.wf(),
            window.level() <= room,
        ensures
            container.wf(),
            container.holds_only(id, window, room as nat),
    {
        let mut windows: Vec<WindowEntry> = Vec::new();
        windows.push(WindowEntry { id, window });
        let container = Self {
            windows,
            popups: Vec::new(),
            event_receiver: EventReceiver { received: Vec::new(), newest: id },
            event_poster: None,
            seen: Vec::new(),
            current: 0,
            room,
        };
        proof {
            assert(container.windows@ =~= seq![WindowEntry { id, window }]);
            assert(window_ids(container.windows@) =~= seq![id]);
            assert(popup_ids(container.popups@) =~= Seq::<Uuid>::empty());
        }
        container
    }

    /// Whether another window or popup can be taken in with an identifier
    /// from `mint`: the mint has one left, and is ahead of every identifier
    /// that this container has had from it.
    pub open spec fn can_take(&self, mint: IdMint) -> bool {
        self.inbox().can_take(mint)
    }

    /// Whether another window or popup can be taken in with an identifier
    /// from `mint`.
    pub fn can_add(&self, mint: &IdMint) -> (b: bool)
        ensures
            b == self.can_take(*mint),
    {
        mint.can_mint() && self.event_receiver.newest.0 <= mint.peek().0
    }

    /// Take in `window`: it is given a poster with an identifier of its
    /// own and added behind the others. The identifier comes back.
    pub fn add_window(&mut self, window: Window, mint: &mut IdMint) -> (uuid: Uuid)
        requires
            old(self).wf(),
            window.wf(),
            old(self).can_take(*old(mint)),
            old(self).has_room(window),
        ensures
            uuid.rank() == old(mint).newest().rank() + 1,
            final(mint).newest() == uuid,
            final(self).wf(),
            final(self).entries().len() == old(self).entries().len() + 1,
            final(self).ordering() == old(self).ordering().added(final(self).entries().last()),
            final(self).entries().last().id == uuid,
            final(self).entries().last().window.bypass() == window.bypass(),
            forall|i: int|
                0 <= i < old(self).entries().len() ==> (#[trigger] old(self).entries()[i]).id
                    != uuid,
            final(self).order() == old(self).order().push(uuid),
            final(self).popup_entries() == old(self).popup_entries(),
            final(self).poster_id() == old(self).poster_id(),
            final(self).inbox().queue() == old(self).inbox().queue(),
            final(self).inbox().newest() == uuid,
            old(self).with_window(window, *old(mint), *final(self), *final(mint)),
    {
        let mut window = window;
        let poster = self.event_receiver.new_poster(mint);
        let uuid = *poster.get_uuid();
        window.init(poster);
        let ghost before = self.windows@;
        self.windows.push(WindowEntry { id: uuid, window });
        proof {
            assert(window_ids(self.windows@) =~= window_ids(before).push(uuid));
            assert forall|i: int, j: int| 0 <= i < j < self.windows@.len() implies window_ids(
                self.windows@,
            )[i].0 < window_ids(self.windows@)[j].0 by {
                assert(window_ids(before)[i].0 <= old(self).event_receiver.newest().0);
                if j < before.len() {
                    assert(window_ids(before)[i].0 < window_ids(before)[j].0);
                }
            }
            assert forall|i: int| 0 <= i < self.popups@.len() implies (#[trigger] popup_ids(
                self.popups@,
            )[i]).0 <= self.event_receiver.newest().0 by {
                assert(popup_ids(old(self).popups@)[i].0 <= old(self).event_receiver.newest().0);
            }
            assert forall|i: int| 0 <= i < before.len() implies (#[trigger] before[i]).id
                != uuid by {
                assert(window_ids(before)[i].0 <= old(self).event_receiver.newest().0);
            }
            assert forall|i: int| 0 <= i < self.windows@.len() implies (#[trigger] window_ids(
                self.windows@,
            )[i]).0 <= self.event_receiver.newest().0 by {
                if i < before.len() {
                    assert(window_ids(before)[i].0 <= old(self).event_receiver.newest().0);
                }
            }
        }
        uuid
    }

    /// The place of the window that is known under `uuid`, or the number of
    /// windows where none is.
    fn find_window(&self, uuid: Uuid) -> (place: usize)
        ensures
            place == self.ordering().place_of(uuid),
            place <= self.entries().len(),
    {
        let mut i: usize = 0;
        while i < self.windows.len() && self.windows[i].id != uuid
            invariant
                i <= self.windows@.len(),
                forall|k: int| 0 <= k < i ==> (#[trigger] self.windows@[k]).id != uuid,
            decreases self.windows@.len() - i,
        {
            i += 1;
        }
        proof {
            self.ordering().lemma_place_is(uuid, i as int);
        }
        i
    }

    /// Take the window that is known under `uuid` out of the container and
    /// hand it back. Where it stood at or before the window in front, the
    /// index in front goes back by one, but not below zero.
    pub fn remove_window(&mut self, uuid: Uuid) -> (window: Option<Window>)
        requires
            old(self).wf(),
        ensures
            final(self).wf(),
            final(self).ordering() == old(self).ordering().removed(uuid),
            match window {
                Some(w) => old(self).ordering().place_of(uuid) < old(self).entries().len() && w
                    == old(self).entries()[old(self).ordering().place_of(uuid)].window,
                None => old(self).ordering().place_of(uuid) >= old(self).entries().len(),
            },
            final(self).popup_entries() == old(self).popup_entries(),
            final(self).poster_id() == old(self).poster_id(),
            final(self).inbox() == old(self).inbox(),
            old(self).same_frame(*final(self)),
    {
        let place = self.find_window(uuid);
        if place >= self.windows.len() {
            return None;
        }
        let ghost before = self.windows@;
        let entry = self.windows.remove(place);
        if place <= self.current && self.current > 0 {
            self.current = self.current - 1;
        }
        proof {
            assert forall|i: int, j: int| 0 <= i < j < self.windows@.len() implies window_ids(
                self.windows@,
            )[i].0 < window_ids(self.windows@)[j].0 by {
                let a = if i < place { i } else { i + 1 };
                let b = if j < place { j } else { j + 1 };
                assert(window_ids(before)[a].0 < window_ids(before)[b].0);
            }
            assert forall|i: int| 0 <= i < self.windows@.len() implies (#[trigger] window_ids(
                self.windows@,
            )[i]).0 <= self.event_receiver.newest().0 by {
                let a = if i < place { i } else { i + 1 };
                assert(window_ids(before)[a].0 <= self.event_receiver.newest().0);
            }
            assert forall|i: int| 0 <= i < self.windows@.len() implies (#[trigger] self.windows@[i]).window.wf() by {
                let a = if i < place { i } else { i + 1 };
                assert(before[a].window.wf());
            }
        }
        Some(entry.window)
    }

    /// Take in `popup`: it is given a poster with an identifier of its own
    /// and put on top of the others. The identifier comes back.
    pub fn add_popup(&mut self, popup: PopUp, mint: &mut IdMint) -> (uuid: Uuid)
        requires
            old(self).wf(),
            popup.wf(),
            old(self).can_take(*old(mint)),
        ensures
            uuid.rank() == old(mint).newest().rank() + 1,
            final(mint).newest() == uuid,
            final(self).wf(),
            final(self).popup_entries().len() == old(self).popup_entries().len() + 1,
            final(self).popup_entries().last().id == uuid,
            forall|i: int|
                0 <= i < old(self).popup_entries().len() ==> #[trigger] final(self).popup_entries()[i] == old(self).popup_entries()[i],
            final(self).ordering() == old(self).ordering(),
            final(self).poster_id() == old(self).poster_id(),
            final(self).inbox().queue() == old(self).inbox().queue(),
            final(self).bypass() == old(self).bypass(),
            old(self).with_popup(popup, *old(mint), *final(self), *final(mint)),
    {
        let mut popup = popup;
        let poster = self.event_receiver.new_poster(mint);
        let uuid = *poster.get_uuid();
        popup.init(poster);
        let ghost before = self.popups@;
        self.popups.push(PopUpEntry { id: uuid, popup });
        proof {
            assert(popup_ids(self.popups@) =~= popup_ids(before).push(uuid));
            assert forall|i: int, j: int| 0 <= i < j < self.popups@.len() implies popup_ids(
                self.popups@,
            )[i].0 < popup_ids(self.popups@)[j].0 by {
                assert(popup_ids(before)[i].0 <= old(self).event_receiver.newest().0);
                if j < before.len() {
                    assert(popup_ids(before)[i].0 < popup_ids(before)[j].0);
                }
            }
            assert forall|i: int| 0 <= i < self.popups@.len() implies (#[trigger] popup_ids(
                self.popups@,
            )[i]).0 <= self.event_receiver.newest().0 by {
                if i < before.len() {
                    assert(popup_ids(before)[i].0 <= old(self).event_receiver.newest().0);
                }
            }
            assert forall|i: int| 0 <= i < self.windows@.len() implies (#[trigger] window_ids(
                self.windows@,
            )[i]).0 <= self.event_receiver.newest().0 by {
                assert(window_ids(old(self).windows@)[i].0 <= old(self).event_receiver.newest().0);
            }
        }
        uuid
    }

    /// Take the popup that is known under `uuid` out of the container and
    /// hand it back.
    pub fn remove_popup(&mut self, uuid: Uuid) -> (popup: Option<PopUp>)
        requires
            old(self).wf(),
        ensures
            final(self).wf(),
            final(self).ordering() == old(self).ordering(),
            final(self).poster_id() == old(self).poster_id(),
            final(self).inbox() == old(self).inbox(),
            final(self).bypass() == old(self).bypass(),
            old(self).same_frame_but_popups(*final(self)),
            final(self).entries() == old(self).entries(),
            match popup {
                Some(p) => p.wf() && popup_place(old(self).popup_entries(), uuid) < old(
                    self,
                ).popup_entries().len() && p == old(self).popup_entries()[popup_place(
                    old(self).popup_entries(),
                    uuid,
                )].popup && final(self).popup_entries() == old(self).popup_entries().remove(
                    popup_place(old(self).popup_entries(), uuid),
                ) && popup_ids(old(self).popup_entries()).contains(uuid),
                None => final(self).popup_entries() == old(self).popup_entries() && popup_place(
                    old(self).popup_entries(),
                    uuid,
                ) == old(self).popup_entries().len() && !popup_ids(
                    old(self).popup_entries(),
                ).contains(uuid),
            },
            !popup_ids(final(self).popup_entries()).contains(uuid),
    {
        let mut i: usize = 0;
        while i < self.popups.len() && self.popups[i].id != uuid
            invariant
                i <= self.popups@.len(),
                forall|k: int| 0 <= k < i ==> (#[trigger] self.popups@[k]).id != uuid,
            decreases self.popups@.len() - i,
        {
            i += 1;
        }
        let ghost before = self.popups@;
        proof {
            lemma_popup_place_is(before, uuid, i as int);
        }
        if i >= self.popups.len() {
            assert(!popup_ids(before).contains(uuid)) by {
                if popup_ids(before).contains(uuid) {
                    let w = choose|w: int|
                        0 <= w < popup_ids(before).len() && popup_ids(before)[w] == uuid;
                    assert(before[w].id != uuid);
                }
            }
            return None;
        }
        assert(popup_ids(before)[i as int] == uuid);
        let entry = self.popups.remove(i);
        proof {
            assert forall|a: int, b: int| 0 <= a < b < self.popups@.len() implies popup_ids(
                self.popups@,
            )[a].0 < popup_ids(self.popups@)[b].0 by {
                let x = if a < i { a } else { a + 1 };
                let y = if b < i { b } else { b + 1 };
                assert(popup_ids(before)[x].0 < popup_ids(before)[y].0);
            }
            assert forall|a: int| 0 <= a < self.popups@.len() implies (#[trigger] popup_ids(
                self.popups@,
            )[a]).0 <= self.event_receiver.newest().0 by {
                let x = if a < i { a } else { a + 1 };
                assert(popup_ids(before)[x].0 <= self.event_receiver.newest().0);
            }
            assert forall|a: int| 0 <= a < self.popups@.len() implies (#[trigger] self.popups@[a]).popup.wf() by {
                let x = if a < i { a } else { a + 1 };
                assert(before[x].popup.wf());
            }
            assert(!popup_ids(self.popups@).contains(uuid)) by {
                if popup_ids(self.popups@).contains(uuid) {
                    let w = choose|w: int|
                        0 <= w < popup_ids(self.popups@).len() && popup_ids(self.popups@)[w]
                            == uuid;
                    let x = if w < i { w } else { w + 1 };
                    if x < i {
                        assert(popup_ids(before)[x].0 < popup_ids(before)[i as int].0);
                    } else {
                        assert(popup_ids(before)[i as int].0 < popup_ids(before)[x].0);
                    }
                }
            }
        }
        Some(entry.popup)
    }

    /// What was posted to the container and not yet dealt with, oldest first.
    pub fn poll(&mut self) -> (polled: Vec<(Uuid, WindowRequest)>)
        requires
            old(self).wf(),
        ensures
            final(self).wf(),
            final(self).ordering() == old(self).ordering(),
            final(self).popup_entries() == old(self).popup_entries(),
            final(self).poster_id() == old(self).poster_id(),
            final(self).inbox().queue() == Seq::<(Uuid, WindowRequest)>::empty(),
            final(self).inbox().newest() == old(self).inbox().newest(),
            final(self).bypass() == old(self).bypass(),
            polled@ == old(self).pending(),
            old(self).drained(*final(self)),
            forall|i: int| 0 <= i < polled@.len() ==> request_wf((#[trigger] polled@[i]).1),
    {
        let mut fresh = self.event_receiver.poll();
        let mut polled: Vec<(Uuid, WindowRequest)> = Vec::new();
        polled.append(&mut self.seen);
        let ghost early = polled@;
        polled.append(&mut fresh);
        proof {
            assert(polled@ =~= early + old(self).event_receiver.queue());
            assert forall|i: int| 0 <= i < polled@.len() implies request_wf(
                (#[trigger] polled@[i]).1,
            ) by {
                if i < early.len() {
                    assert(polled@[i] == old(self).seen@[i]);
                } else {
                    assert(polled@[i] == old(self).event_receiver.queue()[i - early.len()]);
                }
            }
        }
        polled
    }

    /// Whether the container wants every key: whether the window in front does.
    pub fn input_bypass(&self) -> (bypass: bool)
        requires
            self.wf(),
        ensures
            bypass == self.bypass(),
        decreases self,
    {
        if self.current < self.windows.len() {
            self.windows[self.current].window.input_bypass()
        } else {
            false
        }
    }

    /// Send `event` to the window at place `place`, which posts to the
    /// receiver of the container.
    pub fn send_to(&mut self, place: usize, event: WindowEvent)
        requires
            old(self).wf(),
        ensures
            final(self).wf(),
            final(self).order() == old(self).order(),
            final(self).current_index() == old(self).current_index(),
            final(self).popup_entries() == old(self).popup_entries(),
            final(self).poster_id() == old(self).poster_id(),
            grown(old(self).inbox(), final(self).inbox()),
            old(self).sent(place as int, event, *final(self)),
        decreases old(self).room() + 1, 0nat,
    {
        proof {
            lemma_appended_nothing(self.event_receiver);
        }
        if place >= self.windows.len() {
            return ;
        }
        let ghost before = self.windows@;
        self.windows[place].window.event(event, &mut self.event_receiver);
        proof {
            assert(window_ids(self.windows@) =~= window_ids(before));
            assert forall|i: int| 0 <= i < self.popups@.len() implies (#[trigger] popup_ids(
                self.popups@,
            )[i]).0 <= self.event_receiver.newest().0 by {
                assert(popup_ids(old(self).popups@)[i].0 <= old(self).event_receiver.newest().0);
            }
            assert forall|i: int| 0 <= i < self.windows@.len() implies (#[trigger] self.windows@[i]).window.wf() by {
                if i != place {
                    assert(self.windows@[i] == before[i]);
                }
            }
        }
    }

    /// Send every window the request to quit, where `quit` is set, and the
    /// size `dim` where it is not.
    fn send_to_all(&mut self, quit: bool, dim: Plot)
        requires
            old(self).wf(),
        ensures
            final(self).wf(),
            final(self).order() == old(self).order(),
            final(self).current_index() == old(self).current_index(),
            final(self).popup_entries() == old(self).popup_entries(),
            final(self).poster_id() == old(self).poster_id(),
            grown(old(self).inbox(), final(self).inbox()),
            old(self).sent_all(quit, dim, old(self).entries().len() as int, *final(self)),
        decreases old(self).room() + 1, 1nat,
    {
        proof {
            lemma_appended_nothing(self.event_receiver);
        }
        let count = self.windows.len();
        let mut i: usize = 0;
        while i < count
            invariant
                self.wf(),
                i <= count,
                count == self.entries().len(),
                count == old(self).entries().len(),
                self.order() == old(self).order(),
                self.current_index() == old(self).current_index(),
                self.popup_entries() == old(self).popup_entries(),
                self.poster_id() == old(self).poster_id(),
                grown(old(self).inbox(), self.inbox()),
                old(self).same_frame(*self),
                old(self).sent_all(quit, dim, i as int, *self),
            decreases count - i,
        {
            let ghost middle = *self;
            if quit {
                self.send_to(i, WindowEvent::TryQuit);
            } else {
                self.send_to(i, WindowEvent::Resize(dim));
            }
            i += 1;
            proof {
                lemma_grown_twice(old(self).inbox(), middle.inbox(), self.inbox());
                old(self).lemma_sent_one_more(quit, dim, i as int, middle, *self);
            }
        }
    }

    /// Take in `event`: a request to quit and a new size go to every
    /// window, anything else to the window in front.
    pub fn event(&mut self, event: WindowEvent)
        requires
            old(self).wf(),
        ensures
            final(self).wf(),
            final(self).order() == old(self).order(),
            final(self).current_index() == old(self).current_index(),
            final(self).popup_entries() == old(self).popup_entries(),
            final(self).poster_id() == old(self).poster_id(),
            grown(old(self).inbox(), final(self).inbox()),
            old(self).evented(event, *final(self)),
        decreases old(self).room() + 1, 2nat,
    {
        match event {
            WindowEvent::TryQuit => self.send_to_all(true, Plot::new(0, 0)),
            WindowEvent::Resize(dim) => self.send_to_all(false, dim),
            event => {
                let current = self.current;
                self.send_to(current, event);
            },
        }
    }

    /// Put the next window in front, the first after the last: the window
    /// that was in front is told that it lost the focus, the one that is
    /// now that it has it.
    pub fn cycle_current(&mut self)
        requires
            old(self).wf(),
        ensures
            final(self).wf(),
            final(self).order() == old(self).order(),
            final(self).current_index() == if old(self).order().len() == 0 {
                old(self).current_index()
            } else {
                (old(self).current_index() + 1) % (old(self).order().len() as int)
            },
            final(self).popup_entries() == old(self).popup_entries(),
            final(self).poster_id() == old(self).poster_id(),
            grown(old(self).inbox(), final(self).inbox()),
            old(self).cycled(*final(self)),
        decreases old(self).room() + 1, 3nat,
    {
        proof {
            lemma_appended_nothing(self.event_receiver);
        }
        let count = self.windows.len();
        if count == 0 {
            return ;
        }
        let current = self.current;
        self.send_to(current, WindowEvent::Unfocus);
        let ghost middle = *self;
        assert(self.windows@.len() == window_ids(self.windows@).len());
        self.current = (current + 1) % count;
        let ghost turned = *self;
        let next = self.current;
        self.send_to(next, WindowEvent::Focus);
        proof {
            lemma_grown_twice(old(self).inbox(), middle.inbox(), self.inbox());
            assert(old(self).sent(old(self).current_index(), WindowEvent::Unfocus, middle));
            assert(Self::turned(
                middle,
                (old(self).current_index() + 1) % (old(self).entries().len() as int),
                turned,
            ));
        }
    }

    /// Whether `event` is taken by the container before its owner sees it:
    /// by the popup on top where there is one, else by the window in front
    /// where the event is a key and the window wants every key.
    pub open spec fn takes(&self, event: WindowEvent) -> bool {
        self.popup_entries().len() > 0 || (self.bypass() && event is Input)
    }

    /// Hand `event` to the popup on top, or to the window in front where it
    /// is a key and the window wants every key. An event that is taken is
    /// replaced by nothing; where a popup took it the container asks to be
    /// drawn.
    pub fn distribute_events(&mut self, event: &mut WindowEvent, bus: &mut Bus)
        requires
            old(self).wf(),
        ensures
            final(self).wf(),
            final(self).order() == old(self).order(),
            final(self).current_index() == old(self).current_index(),
            final(self).popup_entries().len() == old(self).popup_entries().len(),
            final(self).poster_id() == old(self).poster_id(),
            grown(old(self).inbox(), final(self).inbox()),
            grown(*old(bus), *final(bus)),
            old(self).takes(*old(event)) ==> *final(event) is Nothing,
            !old(self).takes(*old(event)) ==> *final(event) == *old(event) && *final(bus)
                == *old(bus) && *final(self) == *old(self),
            old(self).distributed(*old(event), *final(self)),
            appended(
                *old(bus),
                *final(bus),
                if old(self).popup_entries().len() > 0 {
                    posted_by(old(self).poster_id(), seq![RequestView::Redraw])
                } else {
                    Seq::empty()
                },
            ),
        decreases old(self).room() + 1, 4nat,
    {
        proof {
            lemma_appended_nothing(self.event_receiver);
            lemma_appended_nothing(*bus);
        }
        let count = self.popups.len();
        if count > 0 {
            let mut taken = WindowEvent::Nothing;
            core::mem::swap(event, &mut taken);
            let ghost before = self.popups@;
            self.popups[count - 1].popup.event(taken, &mut self.event_receiver);
            proof {
                assert(popup_ids(self.popups@) =~= popup_ids(before));
                assert forall|i: int| 0 <= i < self.windows@.len() implies (#[trigger] window_ids(
                    self.windows@,
                )[i]).0 <= self.event_receiver.newest().0 by {
                    assert(window_ids(old(self).windows@)[i].0 <= old(
                        self,
                    ).event_receiver.newest().0);
                }
            }
            self.post(bus, WindowRequest::Redraw);
            return ;
        }
        if self.input_bypass() {
            let forward = match event {
                WindowEvent::Input { .. } => true,
                _ => false,
            };
            if forward {
                let mut taken = WindowEvent::Nothing;
                core::mem::swap(event, &mut taken);
                let current = self.current;
                self.send_to(current, taken);
            }
        }
    }

    /// Whether `after` is this container after the window at place `place`
    /// went through what was posted to it, and posted to the receiver of
    /// the container, and nothing else changed.
    pub open spec fn window_ticked(
        &self,
        place: int,
        mint: IdMint,
        after: OrderedWindowContainer,
        minted: IdMint,
    ) -> bool
        decreases self.room() + 1, 0nat,
    {
        &&& self.same_frame(after)
        &&& after.current_index() == self.current_index()
        &&& after.entries().len() == self.entries().len()
        &&& forall|i: int|
            0 <= i < self.entries().len() && i != place ==> #[trigger] after.entries()[i]
                == self.entries()[i]
        &&& if 0 <= place < self.entries().len() {
            &&& self.entries()[place].window.level() <= self.room()
            &&& after.entries()[place].id == self.entries()[place].id
            &&& self.entries()[place].window.ticked(
                mint,
                after.entries()[place].window,
                minted,
                self.inbox(),
                after.inbox(),
            )
        } else {
            after.entries() == self.entries() && after.inbox() == self.inbox() && minted == mint
        }
    }

    /// Whether `after` is this container after the first `upto` windows
    /// went through what was posted to them, one after the other.
    pub open spec fn ticked_upto(
        &self,
        upto: int,
        mint: IdMint,
        after: OrderedWindowContainer,
        minted: IdMint,
    ) -> bool
        decreases self.room() + 1, 1nat, upto,
    {
        if upto <= 0 {
            after == *self && minted == mint
        } else {
            exists|middle: OrderedWindowContainer, between: IdMint|
                #![trigger self.same_frame(middle), mint.before(between)]
                self.same_frame(middle) && mint.before(between) && self.ticked_upto(
                    upto - 1,
                    mint,
                    middle,
                    between,
                ) && middle.window_ticked(upto - 1, between, after, minted)
        }
    }

    /// One window more going through what was posted to it.
    pub proof fn lemma_ticked_one_more(
        &self,
        upto: int,
        mint: IdMint,
        middle: OrderedWindowContainer,
        between: IdMint,
        after: OrderedWindowContainer,
        minted: IdMint,
    )
        requires
            upto > 0,
            self.same_frame(middle),
            mint.before(between),
            self.ticked_upto(upto - 1, mint, middle, between),
            middle.window_ticked(upto - 1, between, after, minted),
        ensures
            self.ticked_upto(upto, mint, after, minted),
    {
    }

    /// Let every window go through what was posted to it.
    pub fn tick_windows(&mut self, mint: &mut IdMint)
        requires
            old(self).wf(),
        ensures
            final(self).wf(),
            old(mint).before(*final(mint)),
            final(self).order() == old(self).order(),
            final(self).current_index() == old(self).current_index(),
            final(self).popup_entries() == old(self).popup_entries(),
            final(self).poster_id() == old(self).poster_id(),
            grown(old(self).inbox(), final(self).inbox()),
            old(self).same_frame(*final(self)),
            final(self).entries().len() == old(self).entries().len(),
            old(self).ticked_upto(
                old(self).entries().len() as int,
                *old(mint),
                *final(self),
                *final(mint),
            ),
        decreases old(self).room() + 1, 0nat,
    {
        proof {
            lemma_appended_nothing(self.event_receiver);
        }
        let mut i: usize = 0;
        while i < self.windows.len()
            invariant
                self.wf(),
                i <= self.windows@.len(),
                self.windows@.len() == old(self).windows@.len(),
                self.order() == old(self).order(),
                self.current_index() == old(self).current_index(),
                self.popup_entries() == old(self).popup_entries(),
                self.poster_id() == old(self).poster_id(),
                grown(old(self).inbox(), self.inbox()),
                old(self).same_frame(*self),
                old(mint).before(*mint),
                old(self).ticked_upto(i as int, *old(mint), *self, *mint),
            decreases self.windows@.len() - i,
        {
            let ghost before = self.windows@;
            let ghost middle = self.event_receiver;
            let ghost earlier = *self;
            let ghost between = *mint;
            self.windows[i].window.tick(&mut self.event_receiver, mint);
            proof {
                assert(earlier.window_ticked(i as int, between, *self, *mint));
                old(self).lemma_ticked_one_more(
                    i + 1,
                    *old(mint),
                    earlier,
                    between,
                    *self,
                    *mint,
                );
                assert(window_ids(self.windows@) =~= window_ids(before));
                lemma_grown_twice(old(self).inbox(), middle, self.inbox());
                assert forall|k: int| 0 <= k < self.popups@.len() implies (#[trigger] popup_ids(
                    self.popups@,
                )[k]).0 <= self.event_receiver.newest().0 by {
                    assert(popup_ids(old(self).popups@)[k].0 <= old(
                        self,
                    ).event_receiver.newest().0);
                }
                assert forall|k: int| 0 <= k < self.windows@.len() implies (#[trigger] self.windows@[k]).window.wf() by {
                    if k != i {
                        assert(self.windows@[k] == before[k]);
                    }
                }
            }
            i += 1;
        }
    }

    /// What waits to be dealt with: what the owner was left to read and did
    /// not, then what was posted since.
    pub closed spec fn pending(&self) -> Seq<(Uuid, WindowRequest)> {
        self.seen@ + self.event_receiver.queue()
    }

    /// Whether `after` is this container but for what the owner was left to
    /// read, which is `kept`.
    pub open spec fn keeping(
        &self,
        kept: Seq<(Uuid, WindowRequest)>,
        after: OrderedWindowContainer,
    ) -> bool {
        &&& after.room() == self.room()
        &&& after.entries() == self.entries()
        &&& after.popup_entries() == self.popup_entries()
        &&& after.current_index() == self.current_index()
        &&& after.poster_id() == self.poster_id()
        &&& after.inbox() == self.inbox()
        &&& after.kept() == kept
    }

    /// Whether `after` is this container after it dealt with `request`,
    /// which was posted under `uuid`, and `out` the bus `into` after the
    /// container posted to it.
    pub open spec fn handled(
        &self,
        uuid: Uuid,
        request: WindowRequest,
        mint: IdMint,
        after: OrderedWindowContainer,
        minted: IdMint,
        into: Bus,
        out: Bus,
    ) -> bool {
        &&& appended(
            into,
            out,
            posted_by(
                self.poster_id(),
                if handled_as(request@) is Some {
                    seq![RequestView::Redraw]
                } else {
                    Seq::empty()
                },
            ),
        )
        &&& match request {
            WindowRequest::AddWindow(Some(window)) => if self.can_take(mint) && self.has_room(
                *window,
            ) {
                self.with_window(*window, mint, after, minted)
            } else {
                after == *self && minted == mint
            },
            WindowRequest::AddPopup(Some(popup)) => if self.can_take(mint) {
                self.with_popup(*popup, mint, after, minted)
            } else {
                after == *self && minted == mint
            },
            WindowRequest::RemoveSelfWindow => minted == mint && self.same_frame(after)
                && after.inbox() == self.inbox() && after.ordering() == self.ordering().removed(
                uuid,
            ),
            WindowRequest::RemoveSelfPopup => minted == mint && self.same_frame_but_popups(after)
                && after.inbox() == self.inbox() && after.ordering() == self.ordering()
                && after.popup_entries() == if popup_place(self.popup_entries(), uuid)
                < self.popup_entries().len() {
                self.popup_entries().remove(popup_place(self.popup_entries(), uuid))
            } else {
                self.popup_entries()
            },
            WindowRequest::Command(command) => minted == mint && self.sent(
                self.current_index(),
                WindowEvent::Command(command),
                after,
            ),
            WindowRequest::AddWindow(None) => after == *self && minted == mint,
            WindowRequest::AddPopup(None) => after == *self && minted == mint,
            WindowRequest::Redraw => after == *self && minted == mint,
            _ => minted == mint && self.keeping(self.kept().push((uuid, request)), after),
        }
    }

    /// Deal with `request`, which was posted under `uuid`. A window or a
    /// popup that is to be added is taken in, where an identifier can
    /// still be minted for it; the window or popup that asks to be removed
    /// is let go; a command goes to the window in front; and each of these,
    /// as the wish to be drawn, has the container ask to be drawn. What
    /// was dealt with comes back, without what it carried. Any other
    /// request is kept for the owner to read.
    pub fn handle_request(
        &mut self,
        uuid: Uuid,
        request: WindowRequest,
        bus: &mut Bus,
        mint: &mut IdMint,
    ) -> (processed: Option<WindowRequest>)
        requires
            old(self).wf(),
            request_wf(request),
        ensures
            final(self).wf(),
            old(mint).before(*final(mint)),
            final(self).poster_id() == old(self).poster_id(),
            grown(*old(bus), *final(bus)),
            match processed {
                Some(answer) => handled_as(request@) == Some(answer@) && request_wf(answer),
                None => handled_as(request@) is None,
            },
            request@ is RemoveSelfWindow ==> final(self).ordering() == old(self).ordering().removed(
                uuid,
            ),
            request@ is RemoveSelfPopup ==> final(self).ordering() == old(self).ordering()
                && !popup_ids(final(self).popup_entries()).contains(uuid),
            request matches WindowRequest::AddWindow(Some(w)) && old(self).can_take(*old(mint))
                && old(self).has_room(*w) ==> final(self).order().len() == old(self).order().len() + 1 && final(self).order().drop_last() == old(self).order(),
            request@ == RequestView::AddPopup(true) && old(self).can_take(*old(mint))
                ==> final(self).popup_entries().len() == old(self).popup_entries().len() + 1
                && final(self).ordering() == old(self).ordering(),
            request@ is Redraw || request@ is Command || handled_as(request@) is None ==> final(self).order() == old(self).order() && final(self).current_index() == old(
                self,
            ).current_index() && final(self).popup_entries() == old(self).popup_entries(),
            old(self).handled(
                uuid,
                request,
                *old(mint),
                *final(self),
                *final(mint),
                *old(bus),
                *final(bus),
            ),
        decreases old(self).room() + 1, 5nat,
    {
        proof {
            lemma_appended_nothing(*bus);
            assert(posted_by(self.poster_id(), Seq::<RequestView>::empty()) =~= Seq::<
                (Uuid, RequestView),
            >::empty());
        }
        match request {
            WindowRequest::AddWindow(window) => {
                match window {
                    Some(window) => {
                        if self.can_add(mint) && self.has_room_for(&*window) {
                            let ghost before = self.order();
                            let _ = self.add_window(*window, mint);
                            assert(self.order().drop_last() =~= before);
                        }
                    },
                    None => {},
                }
                self.post(bus, WindowRequest::Redraw);
                Some(WindowRequest::AddWindow(None))
            },
            WindowRequest::AddPopup(popup) => {
                match popup {
                    Some(popup) => {
                        if self.can_add(mint) {
                            let _ = self.add_popup(*popup, mint);
                        }
                    },
                    None => {},
                }
                self.post(bus, WindowRequest::Redraw);
                Some(WindowRequest::AddPopup(None))
            },
            WindowRequest::RemoveSelfWindow => {
                let _ = self.remove_window(uuid);
                self.post(bus, WindowRequest::Redraw);
                Some(WindowRequest::RemoveSelfWindow)
            },
            WindowRequest::RemoveSelfPopup => {
                let _ = self.remove_popup(uuid);
                self.post(bus, WindowRequest::Redraw);
                Some(WindowRequest::RemoveSelfPopup)
            },
            WindowRequest::Command(command) => {
                let current = self.current;
                let answer = command.clone();
                self.send_to(current, WindowEvent::Command(command));
                self.post(bus, WindowRequest::Redraw);
                Some(WindowRequest::Command(answer))
            },
            WindowRequest::Redraw => {
                self.post(bus, WindowRequest::Redraw);
                Some(WindowRequest::Redraw)
            },
            other => {
                self.seen.push((uuid, other));
                None
            },
        }
    }

    /// Hand out what the owner was left to read, in the order in which it
    /// was kept.
    pub fn take_kept(&mut self) -> (kept: Vec<WindowRequest>)
        requires
            old(self).wf(),
        ensures
            final(self).wf(),
            old(self).keeping(Seq::empty(), *final(self)),
            kept@ == requests_of(old(self).kept()),
            all_wf(kept@),
    {
        let mut kept: Vec<WindowRequest> = Vec::new();
        let ghost all = self.seen@;
        let ghost done: int = 0;
        assert(self.seen@ =~= all.skip(0));
        while self.seen.len() > 0
            invariant
                self.windows == old(self).windows,
                self.room == old(self).room,
                self.popups == old(self).popups,
                self.event_receiver == old(self).event_receiver,
                self.event_poster == old(self).event_poster,
                self.current == old(self).current,
                all == old(self).seen@,
                forall|i: int| 0 <= i < all.len() ==> request_wf((#[trigger] all[i]).1),
                0 <= done <= all.len(),
                self.seen@ == all.skip(done),
                kept@ == requests_of(all.take(done)),
            decreases self.seen@.len(),
        {
            let entry = self.seen.remove(0);
            assert(entry == all[done]);
            kept.push(entry.1);
            proof {
                assert(self.seen@ =~= all.skip(done + 1));
                assert(kept@ =~= requests_of(all.take(done + 1)));
                done = done + 1;
            }
        }
        proof {
            assert(all.take(done) =~= all);
            assert(self.seen@ =~= Seq::<(Uuid, WindowRequest)>::empty());
            assert forall|i: int| 0 <= i < kept@.len() implies request_wf(#[trigger] kept@[i]) by {
                assert(request_wf(all[i].1));
            }
        }
        kept
    }

    /// Post every request of `requests` upwards to `bus`, in their order;
    /// with no poster nothing is posted.
    pub fn post_each(&self, bus: &mut Bus, requests: Vec<WindowRequest>)
        requires
            all_wf(requests@),
        ensures
            appended(*old(bus), *final(bus), posted_by(self.poster_id(), views_of(requests@))),
            grown(*old(bus), *final(bus)),
    {
        post_all(&self.event_poster, bus, requests);
    }

    /// Whether `after` is this container with nothing left that waits.
    pub open spec fn drained(&self, after: OrderedWindowContainer) -> bool {
        &&& after.room() == self.room()
        &&& after.entries() == self.entries()
        &&& after.popup_entries() == self.popup_entries()
        &&& after.current_index() == self.current_index()
        &&& after.poster_id() == self.poster_id()
        &&& after.inbox().newest() == self.inbox().newest()
        &&& after.inbox().queue() == Seq::<(Uuid, WindowRequest)>::empty()
        &&& after.kept() == Seq::<(Uuid, WindowRequest)>::empty()
    }

    /// Whether `after` is this container after it dealt with the first
    /// `upto` of `requests`, one after the other, and `out` the bus `into`
    /// after the container posted to it.
    pub open spec fn handled_upto(
        &self,
        requests: Seq<(Uuid, WindowRequest)>,
        upto: int,
        mint: IdMint,
        after: OrderedWindowContainer,
        minted: IdMint,
        into: Bus,
        out: Bus,
    ) -> bool
        decreases upto,
    {
        if upto <= 0 || upto > requests.len() {
            after == *self && out == into && minted == mint
        } else {
            exists|last: int, middle: OrderedWindowContainer, coined: IdMint, between: Bus|
                last + 1 == upto && self.handled_upto(
                    requests,
                    last,
                    mint,
                    middle,
                    coined,
                    into,
                    between,
                ) && #[trigger] middle.handled(
                    requests[last].0,
                    requests[last].1,
                    coined,
                    after,
                    minted,
                    between,
                    out,
                )
        }
    }

    /// Dealing with one request more.
    pub proof fn lemma_handled_one_more(
        &self,
        requests: Seq<(Uuid, WindowRequest)>,
        upto: int,
        mint: IdMint,
        middle: OrderedWindowContainer,
        coined: IdMint,
        after: OrderedWindowContainer,
        minted: IdMint,
        into: Bus,
        between: Bus,
        out: Bus,
    )
        requires
            0 < upto <= requests.len(),
            self.handled_upto(requests, upto - 1, mint, middle, coined, into, between),
            middle.handled(
                requests[upto - 1].0,
                requests[upto - 1].1,
                coined,
                after,
                minted,
                between,
                out,
            ),
        ensures
            self.handled_upto(requests, upto, mint, after, minted, into, out),
    {
        let last = upto - 1;
        assert(middle.handled(
            requests[last].0,
            requests[last].1,
            coined,
            after,
            minted,
            between,
            out,
        ));
    }

    /// Whether `after` is this container after it dealt with everything
    /// that waited, in its order, and `out` the bus `into` after the
    /// container posted to it.
    pub open spec fn processed(
        &self,
        mint: IdMint,
        after: OrderedWindowContainer,
        minted: IdMint,
        into: Bus,
        out: Bus,
    ) -> bool {
        exists|start: OrderedWindowContainer| #[trigger]
            self.drained(start) && start.handled_upto(
                self.pending(),
                self.pending().len() as int,
                mint,
                after,
                minted,
                into,
                out,
            )
    }

    /// A command that waits alone is sent to the window in front as a
    /// command, once; no window is added or removed, and no identifier is
    /// minted.
    pub proof fn lemma_command_reaches_front(
        &self,
        uuid: Uuid,
        command: String,
        mint: IdMint,
        after: OrderedWindowContainer,
        minted: IdMint,
        into: Bus,
        out: Bus,
    )
        requires
            self.pending() == seq![(uuid, WindowRequest::Command(command))],
            self.processed(mint, after, minted, into, out),
        ensures
            exists|start: OrderedWindowContainer| #[trigger]
                self.drained(start) && start.sent(
                    self.current_index(),
                    WindowEvent::Command(command),
                    after,
                ),
            after.entries().len() == self.entries().len(),
            minted == mint,
    {
        let all = self.pending();
        let start = choose|start: OrderedWindowContainer| #[trigger]
            self.drained(start) && start.handled_upto(
                all,
                all.len() as int,
                mint,
                after,
                minted,
                into,
                out,
            );
        assert(all.len() == 1);
        let (last, middle, coined, between) = choose|
            last: int,
            middle: OrderedWindowContainer,
            coined: IdMint,
            between: Bus,
        |
            last + 1 == 1 && start.handled_upto(
                all,
                last,
                mint,
                middle,
                coined,
                into,
                between,
            ) && #[trigger] middle.handled(
                all[last].0,
                all[last].1,
                coined,
                after,
                minted,
                between,
                out,
            );
        assert(last == 0);
        assert(middle == start && coined == mint);
        assert(all[0].1 == WindowRequest::Command(command));
        assert(start.sent(start.current_index(), WindowEvent::Command(command), after));
    }

    /// Deal with everything that waits, in its order, and hand back what
    /// was dealt with.
    pub fn process_requests(&mut self, bus: &mut Bus, mint: &mut IdMint) -> (processed:
        Vec<WindowRequest>)
        requires
            old(self).wf(),
        ensures
            final(self).wf(),
            old(mint).before(*final(mint)),
            final(self).poster_id() == old(self).poster_id(),
            grown(*old(bus), *final(bus)),
            all_wf(processed@),
            views_of(processed@) == handled_all(old(self).pending()),
            old(self).processed(
                *old(mint),
                *final(self),
                *final(mint),
                *old(bus),
                *final(bus),
            ),
        decreases old(self).room() + 1, 6nat,
    {
        proof {
            lemma_appended_nothing(*bus);
        }
        let ghost all = self.pending();
        let mut polled = self.poll();
        let ghost start = *self;
        let ghost done: int = 0;
        let mut processed: Vec<WindowRequest> = Vec::new();
        assert(views_of(processed@) + handled_all(polled@) =~= handled_all(all));
        assert(polled@ =~= all.skip(0));
        while polled.len() > 0
            invariant
                self.wf(),
                self.poster_id() == old(self).poster_id(),
                grown(*old(bus), *bus),
                all_wf(processed@),
                forall|i: int| 0 <= i < polled@.len() ==> request_wf((#[trigger] polled@[i]).1),
                views_of(processed@) + handled_all(polled@) == handled_all(all),
                0 <= done <= all.len(),
                polled@ == all.skip(done),
                old(mint).before(*mint),
                start.handled_upto(all, done, *old(mint), *self, *mint, *old(bus), *bus),
            decreases polled@.len(),
        {
            let ghost middle = *bus;
            let ghost before = *self;
            let ghost coined = *mint;
            let ghost waiting = polled@;
            let ghost early = views_of(processed@);
            let entry = polled.remove(0);
            assert(entry == waiting[0]);
            assert(entry == all[done]);
            assert(polled@ =~= waiting.drop_first());
            assert(polled@ =~= all.skip(done + 1));
            assert forall|i: int| 0 <= i < polled@.len() implies request_wf(
                (#[trigger] polled@[i]).1,
            ) by {
                assert(polled@[i] == waiting[i + 1]);
            }
            let answer = self.handle_request(entry.0, entry.1, bus, mint);
            match answer {
                Some(answer) => {
                    proof {
                        crate::window::window::lemma_all_wf_push(processed@, answer);
                    }
                    let ghost view = answer@;
                    processed.push(answer);
                    assert(views_of(processed@) =~= early.push(view));
                    assert(early.push(view) + handled_all(polled@) =~= early + (seq![view]
                        + handled_all(polled@)));
                },
                None => {
                    assert(early + handled_all(polled@) =~= early + (Seq::<RequestView>::empty()
                        + handled_all(polled@)));
                },
            }
            proof {
                lemma_grown_twice(*old(bus), middle, *bus);
                start.lemma_handled_one_more(
                    all,
                    done + 1,
                    *old(mint),
                    before,
                    coined,
                    *self,
                    *mint,
                    *old(bus),
                    middle,
                    *bus,
                );
                done = done + 1;
            }
        }
        assert(views_of(processed@) + Seq::<RequestView>::empty() =~= views_of(processed@));
        assert(old(self).drained(start));
        processed
    }

    /// Whether `after` is this container after every window went through
    /// what was posted to it, the container asked to be removed where it
    /// has no window, and dealt with everything that waited then, with
    /// the answers `answers`; and `out` the bus `into` after the container
    /// posted to it.
    pub open spec fn collected(
        &self,
        answers: Seq<RequestView>,
        mint: IdMint,
        after: OrderedWindowContainer,
        minted: IdMint,
        into: Bus,
        out: Bus,
    ) -> bool {
        exists|ticked: OrderedWindowContainer, coined: IdMint, between: Bus|
            #![trigger ticked.processed(coined, after, minted, between, out)]
            self.ticked_upto(self.entries().len() as int, mint, ticked, coined) && answers
                == handled_all(ticked.pending()) && appended(
                into,
                between,
                posted_by(
                    self.poster_id(),
                    if self.entries().len() == 0 {
                        seq![RequestView::RemoveSelfWindow]
                    } else {
                        Seq::empty()
                    },
                ),
            ) && ticked.processed(coined, after, minted, between, out)
    }

    /// Let every window, and the windows within it, deal with what waits
    /// there; ask to be removed where no window is left; and deal with
    /// what waits here. What was dealt with here comes back.
    pub fn collect_requests(&mut self, bus: &mut Bus, mint: &mut IdMint) -> (processed:
        Vec<WindowRequest>)
        requires
            old(self).wf(),
        ensures
            final(self).wf(),
            old(mint).before(*final(mint)),
            final(self).poster_id() == old(self).poster_id(),
            grown(*old(bus), *final(bus)),
            all_wf(processed@),
            old(self).collected(
                views_of(processed@),
                *old(mint),
                *final(self),
                *final(mint),
                *old(bus),
                *final(bus),
            ),
        decreases old(self).room() + 1, 7nat,
    {
        proof {
            lemma_appended_nothing(*bus);
            assert(posted_by(self.poster_id(), Seq::<RequestView>::empty()) =~= Seq::<
                (Uuid, RequestView),
            >::empty());
        }
        self.tick_windows(mint);
        if self.windows.len() == 0 {
            self.post(bus, WindowRequest::RemoveSelfWindow);
        }
        let ghost ticked = *self;
        let ghost coined = *mint;
        let ghost middle = *bus;
        let processed = self.process_requests(bus, mint);
        proof {
            lemma_grown_twice(*old(bus), middle, *bus);
            assert(ticked.processed(coined, *self, *mint, middle, *bus));
        }
        processed
    }

    /// The canvas `v` with the window at place `place` drawn onto it; the
    /// canvas as it is where there is no such window.
    pub closed spec fn window_drawn(&self, place: int, v: CanvasView) -> CanvasView
        decreases self,
    {
        if 0 <= place < self.windows@.len() {
            self.windows@[place].window.drawn(v)
        } else {
            v
        }
    }

    /// The label of the window at place `place`.
    pub closed spec fn window_label(&self, place: int) -> Seq<char> {
        if 0 <= place < self.windows@.len() {
            self.windows@[place].window.label()
        } else {
            Seq::empty()
        }
    }

    /// Draw the window at place `place` onto `canvas`; where there is no
    /// such window nothing is drawn.
    pub fn draw_window(&self, place: usize, canvas: &mut Canvas)
        requires
            self.wf(),
            old(canvas).wf(),
        ensures
            final(canvas).wf(),
            final(canvas)@ == self.window_drawn(place as int, old(canvas)@),
        decreases self,
    {
        if place < self.windows.len() {
            self.windows[place].window.draw(canvas);
        }
    }

    /// The label of the window at place `place`.
    pub fn window_name(&self, place: usize) -> (name: String)
        ensures
            name@ == self.window_label(place as int),
    {
        if place < self.windows.len() {
            self.windows[place].window.name()
        } else {
            String::new()
        }
    }

    /// The rows or columns that a popup gets on an axis of `avail` cells:
    /// what it asks for, and the axis at most.
    pub open spec fn popup_extent(avail: usize, asked: crate::window::popup::PopUpDimensionOption) -> usize {
        if term_dim_spec(avail as int, asked) > avail {
            avail
        } else {
            term_dim_spec(avail as int, asked) as usize
        }
    }

    /// The canvas `v` with the popups from number `i` on drawn onto it,
    /// each where it says it lies and as large as it says it is, the one
    /// on top last. A popup without a cell is left out.
    pub open spec fn popups_drawn(&self, v: CanvasView, i: int) -> CanvasView
        decreases self.popup_entries().len() - i,
    {
        if i < 0 || i >= self.popup_entries().len() {
            v
        } else {
            let popup = self.popup_entries()[i].popup;
            let rows = Self::popup_extent(v.dim.row, popup.dimension_spec().row);
            let cols = Self::popup_extent(v.dim.col, popup.dimension_spec().col);
            let at = Plot {
                row: term_pos_spec(v.dim.row as int, popup.position_spec().row) as usize,
                col: term_pos_spec(v.dim.col as int, popup.position_spec().col) as usize,
            };
            self.popups_drawn(
                if rows >= 1 && cols >= 1 {
                    v.merged(at, popup.drawn(CanvasView::blank(Plot { row: rows, col: cols })))
                } else {
                    v
                },
                i + 1,
            )
        }
    }

    /// Draw the popups onto `canvas`, each where it says it lies and as
    /// large as it says it is, the one on top last.
    pub fn draw(&self, canvas: &mut Canvas)
        requires
            self.wf(),
            old(canvas).wf(),
        ensures
            final(canvas).wf(),
            final(canvas)@ == self.popups_drawn(old(canvas)@, 0),
    {
        let total = *canvas.get_dim();
        let ghost start = canvas@;
        let mut i: usize = 0;
        while i < self.popups.len()
            invariant
                canvas.wf(),
                canvas@.dim == total,
                i <= self.popups@.len(),
                self.popups_drawn(start, 0) == self.popups_drawn(canvas@, i as int),
            decreases self.popups@.len() - i,
        {
            let dimension = self.popups[i].popup.dimension();
            let position = self.popups[i].popup.position();
            let rows = to_term_dim(total.row, dimension.row);
            let cols = to_term_dim(total.col, dimension.col);
            let at = Plot::new(
                to_term_pos(total.row, position.row),
                to_term_pos(total.col, position.col),
            );
            let rows = if rows > total.row {
                total.row
            } else {
                rows
            };
            let cols = if cols > total.col {
                total.col
            } else {
                cols
            };
            if rows >= 1 && cols >= 1 {
                assert(rows * cols <= total.row * total.col) by (nonlinear_arith)
                    requires
                        0 <= rows <= total.row,
                        0 <= cols <= total.col,
                ;
                let mut popup_canvas = Canvas::new(Plot::new(rows, cols));
                self.popups[i].popup.draw(&mut popup_canvas);
                canvas.add_child(popup_canvas, at);
            }
            i += 1;
        }
    }
}

} // verus!
