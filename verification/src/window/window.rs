//! What every window understands: the events it is sent and the requests
//! it posts.

use vstd::prelude::*;
use crate::event::{EventPoster, EventReceiver, Mint, Uuid};
use crate::plot::Plot;
use vstd::utf8::encode_utf8;
use crate::style::canvas::{Canvas, CanvasView};
use crate::style::style::{StyleAttribute, StyledText, ThemeColor};
use crate::text::{decimal_digits, joined, number_text, push_char};
use crate::textedit::textwindow::{Mode, TextWindow, TextWindowView};
use crate::window::fswindow::{FSWindow, FSWindowView};
use crate::window::popup::PopUp;
use crate::window::tab::TabWindow;

verus! {

/// A key of the keyboard.
#[derive(Clone, Copy, Debug, PartialEq, Eq, Structural)]
pub enum Key {
    Char(char),
    Enter,
    Backspace,
    Esc,
    Tab,
    Up,
    Down,
    Left,
    Right,
    End,
    F(u8),
}

/// The modifier keys that were held down with a key.
#[derive(Clone, Copy, Debug, PartialEq, Eq, Structural)]
pub struct Modifiers {
    pub control: bool,
    pub shift: bool,
    pub alt: bool,
}

impl Modifiers {
    /// No modifier.
    pub fn none() -> (m: Self)
        ensures
            m == (Modifiers { control: false, shift: false, alt: false }),
    {
        Modifiers { control: false, shift: false, alt: false }
    }

    /// The control key alone.
    pub fn control() -> (m: Self)
        ensures
            m == (Modifiers { control: true, shift: false, alt: false }),
    {
        Modifiers { control: true, shift: false, alt: false }
    }

    /// Whether the control key was held down and no other modifier.
    pub open spec fn only_control(self) -> bool {
        self.control && !self.shift && !self.alt
    }

    /// Whether the control key was held down and no other modifier.
    pub fn is_control(&self) -> (b: bool)
        ensures
            b == self.only_control(),
    {
        self.control && !self.shift && !self.alt
    }
}

/// One entry of a directory, as the file system lists it.
#[derive(Debug)]
pub struct DirectoryEntry {
    pub name: String,
    pub path: String,
    pub is_dir: bool,
}

/// What a window is sent.
pub enum WindowEvent {
    /// A key was pressed.
    Input { key: Key, modifiers: Modifiers },
    /// The window has a new size.
    Resize(Plot),
    /// The window is the one that input goes to.
    Focus,
    /// The window is no longer the one that input goes to.
    Unfocus,
    /// The window is asked to leave, or to say why it cannot.
    TryQuit,
    /// A command of the command line.
    Command(String),
    /// The entries of the directory at `path`, which the window asked for.
    Listing { path: String, entries: Vec<DirectoryEntry> },
    /// Nothing: the event was taken by someone else.
    Nothing,
}

/// What a window asks of the container that holds it.
pub enum WindowRequest {
    Redraw,
    Clear,
    Cursor(Option<Plot>),
    RemoveSelfWindow,
    RemoveSelfPopup,
    AddWindow(Option<Box<crate::window::window::Window>>),
    AddPopup(Option<Box<PopUp>>),
    Command(String),
    /// Open the file at the path in a window of its own.
    OpenFile(String),
    /// List the directory at the path and send the listing back.
    ListDirectory(String),
    /// Write the content to the file at the path.
    Save { path: String, content: Vec<u8> },
    Nothing,
}

/// What a request is, without the windows it carries.
pub enum RequestView {
    Redraw,
    Clear,
    Cursor(Option<Plot>),
    RemoveSelfWindow,
    RemoveSelfPopup,
    AddWindow(bool),
    AddPopup(bool),
    Command(Seq<char>),
    OpenFile(Seq<char>),
    ListDirectory(Seq<char>),
    Save { path: Seq<char>, content: Seq<u8> },
    Nothing,
}

impl View for WindowRequest {
    type V = RequestView;

    open spec fn view(&self) -> RequestView {
        match self {
            WindowRequest::Redraw => RequestView::Redraw,
            WindowRequest::Clear => RequestView::Clear,
            WindowRequest::Cursor(at) => RequestView::Cursor(*at),
            WindowRequest::RemoveSelfWindow => RequestView::RemoveSelfWindow,
            WindowRequest::RemoveSelfPopup => RequestView::RemoveSelfPopup,
            WindowRequest::AddWindow(window) => RequestView::AddWindow(window is Some),
            WindowRequest::AddPopup(popup) => RequestView::AddPopup(popup is Some),
            WindowRequest::Command(command) => RequestView::Command(command@),
            WindowRequest::OpenFile(path) => RequestView::OpenFile(path@),
            WindowRequest::ListDirectory(path) => RequestView::ListDirectory(path@),
            WindowRequest::Save { path, content } => RequestView::Save {
                path: path@,
                content: content@,
            },
            WindowRequest::Nothing => RequestView::Nothing,
        }
    }
}

/// The receiver that windows post their requests to.
pub type Bus = EventReceiver<WindowRequest, Uuid>;

/// The poster that a window posts its requests with.
pub type Poster = EventPoster<WindowRequest, Uuid>;

/// The mint that every identifier of a window or popup comes from.
pub type IdMint = Mint<Uuid>;

/// The requests of `queue`, each by its view, with who posted it.
pub open spec fn request_views(queue: Seq<(Uuid, WindowRequest)>) -> Seq<(Uuid, RequestView)> {
    Seq::new(queue.len(), |i: int| (queue[i].0, queue[i].1@))
}

/// The requests `posts`, each as posted by `id`; none where there is no
/// poster to post them.
pub open spec fn posted_by(id: Option<Uuid>, posts: Seq<RequestView>) -> Seq<(Uuid, RequestView)> {
    match id {
        Some(id) => Seq::new(posts.len(), |i: int| (id, posts[i])),
        None => Seq::empty(),
    }
}

/// Whether the bus `after` is the bus `before` with `posts` put at the end
/// of its queue, in this order, and nothing else changed.
pub open spec fn appended(before: Bus, after: Bus, posts: Seq<(Uuid, RequestView)>) -> bool {
    &&& after.newest() == before.newest()
    &&& after.queue().len() == before.queue().len() + posts.len()
    &&& after.queue().take(before.queue().len() as int) == before.queue()
    &&& request_views(after.queue().skip(before.queue().len() as int)) == posts
}

/// Whether the windows and popups that `request` carries are well formed.
pub open spec fn request_wf(request: WindowRequest) -> bool
    decreases request,
{
    match request {
        WindowRequest::AddWindow(Some(window)) => window.wf(),
        WindowRequest::AddPopup(Some(popup)) => popup.wf(),
        _ => true,
    }
}

/// Whether every request of `requests` carries well-formed windows only.
pub open spec fn all_wf(requests: Seq<WindowRequest>) -> bool {
    forall|i: int| 0 <= i < requests.len() ==> request_wf(#[trigger] requests[i])
}

/// Whether every request in the queue of `bus` carries well-formed windows only.
pub open spec fn bus_wf(bus: Bus) -> bool {
    forall|i: int| 0 <= i < bus.queue().len() ==> request_wf((#[trigger] bus.queue()[i]).1)
}

/// Whether the bus `after` is the bus `before` with requests put at the end
/// of its queue, and nothing else changed; and where every request of
/// `before` carried well-formed windows only, so does every one of `after`.
pub open spec fn grown(before: Bus, after: Bus) -> bool {
    &&& after.newest() == before.newest()
    &&& before.queue().is_prefix_of(after.queue())
    &&& bus_wf(before) ==> bus_wf(after)
}

/// A bus is itself with nothing appended.
pub proof fn lemma_appended_nothing(bus: Bus)
    ensures
        appended(bus, bus, Seq::empty()),
        grown(bus, bus),
{
    assert(bus.queue().take(bus.queue().len() as int) =~= bus.queue());
    assert(request_views(bus.queue().skip(bus.queue().len() as int)) =~= Seq::<
        (Uuid, RequestView),
    >::empty());
}

/// Appending in two steps is appending the one after the other.
pub proof fn lemma_appended_twice(
    first: Bus,
    second: Bus,
    third: Bus,
    early: Seq<(Uuid, RequestView)>,
    late: Seq<(Uuid, RequestView)>,
)
    requires
        appended(first, second, early),
        appended(second, third, late),
    ensures
        appended(first, third, early + late),
{
    let a = first.queue().len() as int;
    let b = second.queue().len() as int;
    assert(third.queue().take(a) =~= first.queue()) by {
        assert forall|i: int| 0 <= i < a implies third.queue().take(a)[i] == first.queue()[i] by {
            assert(third.queue().take(b)[i] == second.queue()[i]);
            assert(second.queue().take(a)[i] == first.queue()[i]);
        }
    }
    assert(request_views(third.queue().skip(a)) =~= early + late) by {
        assert forall|i: int| 0 <= i < early.len() + late.len() implies request_views(
            third.queue().skip(a),
        )[i] == (early + late)[i] by {
            if i < early.len() {
                assert(third.queue().take(b)[a + i] == second.queue()[a + i]);
                assert(request_views(second.queue().skip(a))[i] == early[i]);
            } else {
                assert(request_views(third.queue().skip(b))[i - early.len()] == late[i
                    - early.len()]);
            }
        }
    }
}

/// What is appended leaves the bus grown, where it carries well-formed
/// windows only.
pub proof fn lemma_appended_grown(before: Bus, after: Bus, posts: Seq<(Uuid, RequestView)>)
    requires
        appended(before, after, posts),
        forall|i: int|
            before.queue().len() <= i < after.queue().len() ==> request_wf(
                (#[trigger] after.queue()[i]).1,
            ),
    ensures
        grown(before, after),
{
    assert(after.queue().take(before.queue().len() as int) =~= before.queue());
    assert forall|i: int| 0 <= i < before.queue().len() implies before.queue()[i]
        == after.queue()[i] by {
        assert(after.queue().take(before.queue().len() as int)[i] == after.queue()[i]);
    }
    if bus_wf(before) {
        assert forall|i: int| 0 <= i < after.queue().len() implies request_wf(
            (#[trigger] after.queue()[i]).1,
        ) by {
            if i < before.queue().len() {
                assert(request_wf(before.queue()[i].1));
            }
        }
    }
}

/// Growing in two steps is growing.
pub proof fn lemma_grown_twice(first: Bus, second: Bus, third: Bus)
    requires
        grown(first, second),
        grown(second, third),
    ensures
        grown(first, third),
{
}

/// The requests `requests`, each with the identifier `id` it is posted
/// under.
pub open spec fn stamped(id: Uuid, requests: Seq<WindowRequest>) -> Seq<(Uuid, WindowRequest)> {
    Seq::new(requests.len(), |i: int| (id, requests[i]))
}

/// Post `request` with `poster` to `bus`; with no poster nothing is posted.
pub fn post(poster: &Option<Poster>, bus: &mut Bus, request: WindowRequest)
    requires
        request_wf(request),
    ensures
        appended(
            *old(bus),
            *final(bus),
            match poster {
                Some(p) => seq![(p.id(), request@)],
                None => Seq::empty(),
            },
        ),
        grown(*old(bus), *final(bus)),
        match poster {
            Some(p) => final(bus).queue() == old(bus).queue().push((p.id(), request)),
            None => final(bus).queue() == old(bus).queue(),
        },
{
    match poster {
        Some(p) => {
            let ghost view = request@;
            p.post(bus, request);
            proof {
                let a = old(bus).queue().len() as int;
                assert(bus.queue().take(a) =~= old(bus).queue());
                assert(request_views(bus.queue().skip(a)) =~= seq![(p.id(), view)]);
                assert(bus.queue()[a].1 == request);
                lemma_appended_grown(*old(bus), *bus, seq![(p.id(), view)]);
            }
        },
        None => {
            proof {
                lemma_appended_nothing(*bus);
            }
        },
    }
}

/// The identifier that `poster` posts under, where there is a poster.
pub open spec fn id_of(poster: Option<Poster>) -> Option<Uuid> {
    match poster {
        Some(p) => Some(p.id()),
        None => None,
    }
}

/// The requests of `requests`, each by its view.
pub open spec fn views_of(requests: Seq<WindowRequest>) -> Seq<RequestView> {
    Seq::new(requests.len(), |i: int| requests[i]@)
}

/// What one poster posted, request after request, is what it posted in
/// one go.
pub proof fn lemma_posted_one_more(id: Option<Uuid>, early: Seq<RequestView>, last: RequestView)
    ensures
        posted_by(id, early) + posted_by(id, seq![last]) == posted_by(id, early.push(last)),
        posted_by(id, seq![last]) == match id {
            Some(id) => seq![(id, last)],
            None => Seq::<(Uuid, RequestView)>::empty(),
        },
{
    assert(posted_by(id, early) + posted_by(id, seq![last]) =~= posted_by(id, early.push(last)));
    match id {
        Some(i) => {
            assert(posted_by(id, seq![last]) =~= seq![(i, last)]);
        },
        None => {},
    }
}

/// Post every request of `requests` with `poster` to `bus`, in their order.
pub fn post_all(poster: &Option<Poster>, bus: &mut Bus, requests: Vec<WindowRequest>)
    requires
        all_wf(requests@),
    ensures
        appended(*old(bus), *final(bus), posted_by(id_of(*poster), views_of(requests@))),
        grown(*old(bus), *final(bus)),
        match poster {
            Some(p) => final(bus).queue() == old(bus).queue() + stamped(p.id(), requests@),
            None => final(bus).queue() == old(bus).queue(),
        },
{
    let ghost all = views_of(requests@);
    let ghost given = requests@;
    let ghost id = id_of(*poster);
    let mut requests = requests;
    let ghost mut done: Seq<RequestView> = Seq::empty();
    let ghost mut sent: int = 0;
    proof {
        lemma_appended_nothing(*bus);
        assert(posted_by(id, done) =~= Seq::<(Uuid, RequestView)>::empty());
        assert(done + views_of(requests@) =~= all);
        assert(requests@ =~= given.skip(0));
        match poster {
            Some(p) => {
                assert(bus.queue() =~= old(bus).queue() + stamped(p.id(), given.take(0)));
            },
            None => {},
        }
    }
    while requests.len() > 0
        invariant
            0 <= sent <= given.len(),
            requests@ == given.skip(sent),
            match poster {
                Some(p) => bus.queue() == old(bus).queue() + stamped(p.id(), given.take(sent)),
                None => bus.queue() == old(bus).queue(),
            },
            id == id_of(*poster),
            appended(*old(bus), *bus, posted_by(id, done)),
            grown(*old(bus), *bus),
            done + views_of(requests@) == all,
            all_wf(requests@),
        decreases requests@.len(),
    {
        let ghost rest = views_of(requests@);
        let ghost middle = *bus;
        let ghost waiting = requests@;
        let request = requests.remove(0);
        assert(request == waiting[0]);
        assert forall|i: int| 0 <= i < requests@.len() implies request_wf(
            #[trigger] requests@[i],
        ) by {
            assert(requests@[i] == waiting[i + 1]);
        }
        let ghost view = request@;
        post(poster, bus, request);
        proof {
            lemma_posted_one_more(id, done, view);
            lemma_appended_twice(
                *old(bus),
                middle,
                *bus,
                posted_by(id, done),
                posted_by(id, seq![view]),
            );
            assert(rest =~= seq![view] + views_of(requests@));
            assert(done.push(view) + views_of(requests@) =~= all);
            done = done.push(view);
            lemma_grown_twice(*old(bus), middle, *bus);
            assert(request == given[sent]);
            assert(requests@ =~= given.skip(sent + 1));
            match poster {
                Some(p) => {
                    assert(bus.queue() =~= old(bus).queue() + stamped(
                        p.id(),
                        given.take(sent + 1),
                    ));
                },
                None => {},
            }
            sent = sent + 1;
        }
    }
    proof {
        assert(given.take(sent) =~= given);
    }
    proof {
        assert(done =~= all);
    }
}

/// The requests `requests` with one more carry well-formed windows only
/// where they did and the one more does.
pub proof fn lemma_all_wf_push(requests: Seq<WindowRequest>, request: WindowRequest)
    requires
        all_wf(requests),
        request_wf(request),
    ensures
        all_wf(requests.push(request)),
{
    assert forall|i: int| 0 <= i < requests.push(request).len() implies request_wf(
        #[trigger] requests.push(request)[i],
    ) by {
        if i < requests.len() {
            assert(requests.push(request)[i] == requests[i]);
        }
    }
}

/// How many levels of windows within windows the window manager has room
/// for below it.
pub const NESTING_LIMIT: usize = usize::MAX;

/// A window for trying things out: it shows its size and what was typed.
pub struct TestWindow {
    poster: Option<Poster>,
    content: String,
}

impl TestWindow {
    /// What was typed.
    pub closed spec fn typed(&self) -> Seq<char> {
        self.content@
    }

    /// The identifier the window posts under, once it has one.
    pub closed spec fn poster_id(&self) -> Option<Uuid> {
        id_of(self.poster)
    }

    /// A window in which nothing was typed.
    pub fn new() -> (window: Self)
        ensures
            window.typed() == Seq::<char>::empty(),
            window.poster_id() is None,
    {
        TestWindow { poster: None, content: String::new() }
    }

    /// Take the poster to post with.
    pub fn init(&mut self, poster: Poster)
        ensures
            final(self).typed() == old(self).typed(),
            final(self).poster_id() == Some(poster.id()),
    {
        self.poster = Some(poster);
    }

    /// Whether `after` is this window after it took in `event`, and `out`
    /// the bus `into` after the window posted to it: a character is typed
    /// and a new size is taken note of, and either has the window ask to be
    /// drawn.
    pub open spec fn stepped(&self, event: WindowEvent, after: TestWindow, into: Bus, out: Bus) -> bool {
        &&& after.poster_id() == self.poster_id()
        &&& after.typed() == match event {
            WindowEvent::Input { key: Key::Char(c), .. } => self.typed().push(c),
            _ => self.typed(),
        }
        &&& appended(
            into,
            out,
            posted_by(
                self.poster_id(),
                match event {
                    WindowEvent::Input { key: Key::Char(_), .. } => seq![RequestView::Redraw],
                    WindowEvent::Resize(_) => seq![RequestView::Redraw],
                    _ => Seq::empty(),
                },
            ),
        )
    }

    /// Take in `event` and post what it calls for to `bus`.
    pub fn event(&mut self, event: WindowEvent, bus: &mut Bus)
        ensures
            old(self).stepped(event, *final(self), *old(bus), *final(bus)),
            grown(*old(bus), *final(bus)),
    {
        let mut out: Vec<WindowRequest> = Vec::new();
        assert(views_of(out@) =~= Seq::<RequestView>::empty());
        match event {
            WindowEvent::Input { key, modifiers } => match key {
                Key::Char(c) => {
                    push_char(&mut self.content, c);
                    out.push(WindowRequest::Redraw);
                    assert(views_of(out@) =~= seq![RequestView::Redraw]);
                },
                _ => {},
            },
            WindowEvent::Resize(_) => {
                out.push(WindowRequest::Redraw);
                assert(views_of(out@) =~= seq![RequestView::Redraw]);
            },
            _ => {},
        }
        assert(all_wf(out@));
        post_all(&self.poster, bus, out);
    }

    /// How the size of a canvas reads: rows and columns in brackets.
    pub open spec fn size_text(dim: Plot) -> Seq<char> {
        "("@ + decimal_digits(dim.row) + ","@ + decimal_digits(dim.col) + ")"@
    }

    /// The canvas `v` with the window drawn onto it.
    pub open spec fn drawn(&self, v: CanvasView) -> CanvasView {
        let sized = v.written(
            encode_utf8(Self::size_text(v.dim)),
            seq![
                StyleAttribute::Color(ThemeColor::Blue),
                StyleAttribute::BgColor(ThemeColor::Yellow),
            ],
            false,
        ).down().written(encode_utf8(self.typed()), Seq::empty(), false);
        CanvasView { show_cursor: true, ..sized }
    }

    /// Draw the size of the canvas and, on the next row, what was typed.
    pub fn draw(&self, canvas: &mut Canvas)
        requires
            old(canvas).wf(),
        ensures
            final(canvas).wf(),
            final(canvas)@ == self.drawn(old(canvas)@),
    {
        let dim = *canvas.get_dim();
        let rows = number_text(dim.row);
        let cols = number_text(dim.col);
        let text = joined(
            joined(joined(joined("(", rows.as_str()).as_str(), ",").as_str(), cols.as_str()).as_str(),
            ")",
        );
        let size = StyledText::new(text).with(StyleAttribute::Color(ThemeColor::Blue)).with(
            StyleAttribute::BgColor(ThemeColor::Yellow),
        );
        assert(size.attributes() =~= seq![
            StyleAttribute::Color(ThemeColor::Blue),
            StyleAttribute::BgColor(ThemeColor::Yellow),
        ]);
        canvas.write(&size);
        let _ = canvas.to_next_line();
        canvas.write(&StyledText::new(self.content.clone()));
        canvas.show_cursor(true);
    }
}

/// Any window.
pub enum Window {
    Text(TextWindow),
    Fs(FSWindow),
    Tab(TabWindow),
    Test(TestWindow),
}

impl Window {
    /// The window and every window within it is well formed.
    pub open spec fn wf(&self) -> bool
        decreases self,
    {
        match self {
            Window::Text(window) => window.wf(),
            Window::Fs(_) => true,
            Window::Tab(window) => window.wf(),
            Window::Test(_) => true,
        }
    }

    /// Whether the window wants every key: a text window does in insert
    /// mode, and a window of windows does where the one in front does.
    pub open spec fn bypass(&self) -> bool
        decreases self,
    {
        match self {
            Window::Text(window) => window@.mode == Mode::Insert,
            Window::Fs(_) => false,
            Window::Tab(window) => window.bypass(),
            Window::Test(_) => false,
        }
    }

    /// How many levels of windows within windows the window has: none for
    /// a window that holds no windows.
    pub open spec fn level(&self) -> nat {
        match self {
            Window::Tab(window) => window.level(),
            _ => 0,
        }
    }

    /// Whether the window has `room` levels of windows within windows at
    /// most.
    pub fn fits_in(&self, room: usize) -> (b: bool)
        ensures
            b == (self.level() <= room),
    {
        match self {
            Window::Tab(window) => window.get_container().get_room() < room,
            _ => true,
        }
    }

    /// Whether `after` is this window with a poster that posts under `id`.
    pub open spec fn with_poster(&self, id: Uuid, after: Window) -> bool {
        match (*self, after) {
            (Window::Text(window), Window::Text(next)) => next@ == (TextWindowView {
                poster: Some(id),
                ..window@
            }),
            (Window::Fs(window), Window::Fs(next)) => next@ == (FSWindowView {
                poster: Some(id),
                ..window@
            }),
            (Window::Tab(window), Window::Tab(next)) => window.with_poster(id, next),
            (Window::Test(window), Window::Test(next)) => next.typed() == window.typed()
                && next.poster_id() == Some(id),
            _ => false,
        }
    }

    /// Take the poster to post with.
    pub fn init(&mut self, poster: Poster)
        requires
            old(self).wf(),
        ensures
            final(self).wf(),
            final(self).bypass() == old(self).bypass(),
            old(self).with_poster(poster.id(), *final(self)),
    {
        match self {
            Window::Text(window) => window.init(poster),
            Window::Fs(window) => window.init(poster),
            Window::Tab(window) => window.init(poster),
            Window::Test(window) => window.init(poster),
        }
    }

    /// Whether `after` is this window after it took in `event`, and `out`
    /// the bus `into` after the window posted to it.
    pub open spec fn stepped(
        &self,
        event: WindowEvent,
        after: Window,
        into: Bus,
        out: Bus,
    ) -> bool
        decreases self.level(), 9nat,
    {
        match self {
            Window::Text(window) => after matches Window::Text(next) && next@ == window@.after(
                event,
            ) && appended(into, out, posted_by(window@.poster, window@.posts(event))),
            Window::Fs(window) => after matches Window::Fs(next) && window.stepped(
                event,
                next,
                into,
                out,
            ),
            Window::Tab(window) => after matches Window::Tab(next) && window.stepped(
                event,
                next,
                into,
                out,
            ),
            Window::Test(window) => after matches Window::Test(next) && window.stepped(
                event,
                next,
                into,
                out,
            ),
        }
    }

    /// Take in `event` and post what it calls for to `bus`.
    pub fn event(&mut self, event: WindowEvent, bus: &mut Bus)
        requires
            old(self).wf(),
        ensures
            final(self).wf(),
            old(self).stepped(event, *final(self), *old(bus), *final(bus)),
            grown(*old(bus), *final(bus)),
        decreases old(self).level(), 9nat,
    {
        match self {
            Window::Text(window) => window.event(event, bus),
            Window::Fs(window) => window.event(event, bus),
            Window::Tab(window) => window.event(event, bus),
            Window::Test(window) => window.event(event, bus),
        }
    }

    /// The canvas `v` with the window drawn onto it.
    pub open spec fn drawn(&self, v: CanvasView) -> CanvasView
        decreases self,
    {
        match self {
            Window::Text(window) => window@.drawn(v),
            Window::Fs(window) => window.drawn(v),
            Window::Tab(window) => window.drawn(v),
            Window::Test(window) => window.drawn(v),
        }
    }

    /// The label of the window, for the header of a tab.
    pub open spec fn label(&self) -> Seq<char> {
        match self {
            Window::Text(window) => window@.title(),
            Window::Fs(_) => "Explorer"@,
            Window::Tab(_) => Seq::empty(),
            Window::Test(_) => Seq::empty(),
        }
    }

    /// Draw the window onto `canvas`, which is of the size the window has.
    pub fn draw(&self, canvas: &mut Canvas)
        requires
            self.wf(),
            old(canvas).wf(),
        ensures
            final(canvas).wf(),
            final(canvas)@ == self.drawn(old(canvas)@),
        decreases self,
    {
        match self {
            Window::Text(window) => window.draw(canvas),
            Window::Fs(window) => window.draw(canvas),
            Window::Tab(window) => window.draw(canvas),
            Window::Test(window) => window.draw(canvas),
        }
    }

    /// Whether `after` is this window after it went through what was posted
    /// to it, and `out` the bus `into` after the window posted to it. Only
    /// a window of tabs has anything posted to it.
    pub open spec fn ticked(
        &self,
        mint: IdMint,
        after: Window,
        minted: IdMint,
        into: Bus,
        out: Bus,
    ) -> bool
        decreases self.level(), 9nat,
    {
        match (*self, after) {
            (Window::Tab(window), Window::Tab(next)) => window.ticked(
                mint,
                next,
                minted,
                into,
                out,
            ),
            (Window::Tab(_), _) => false,
            _ => after == *self && out == into && minted == mint,
        }
    }

    /// Let the window go through what was posted to it.
    pub fn tick(&mut self, bus: &mut Bus, mint: &mut IdMint)
        requires
            old(self).wf(),
        ensures
            final(self).wf(),
            grown(*old(bus), *final(bus)),
            old(mint).before(*final(mint)),
            old(self).ticked(
                *old(mint),
                *final(self),
                *final(mint),
                *old(bus),
                *final(bus),
            ),
        decreases old(self).level(), 9nat,
    {
        match self {
            Window::Tab(window) => window.tick(bus, mint),
            _ => {
                proof {
                    lemma_appended_nothing(*bus);
                }
            },
        }
    }

    /// Let the window, and the windows within it, go through what was
    /// posted to them, and hand back what the window itself dealt with.
    pub fn collect_requests(&mut self, bus: &mut Bus, mint: &mut IdMint) -> (processed:
        Vec<WindowRequest>)
        requires
            old(self).wf(),
        ensures
            final(self).wf(),
            grown(*old(bus), *final(bus)),
            old(mint).before(*final(mint)),
            old(self).ticked(
                *old(mint),
                *final(self),
                *final(mint),
                *old(bus),
                *final(bus),
            ),
            processed@ == Seq::<WindowRequest>::empty(),
        decreases old(self).level(), 9nat,
    {
        match self {
            Window::Tab(window) => {
                window.tick(bus, mint);
                Vec::new()
            },
            _ => {
                proof {
                    lemma_appended_nothing(*bus);
                }
                Vec::new()
            },
        }
    }

    /// Whether the window wants every key.
    pub fn input_bypass(&self) -> (bypass: bool)
        requires
            self.wf(),
        ensures
            bypass == self.bypass(),
        decreases self,
    {
        match self {
            Window::Text(window) => window.input_bypass(),
            Window::Fs(_) => false,
            Window::Tab(window) => window.input_bypass(),
            Window::Test(_) => false,
        }
    }

    /// The label of the window, for the header of a tab.
    pub fn name(&self) -> (name: String)
        ensures
            name@ == self.label(),
    {
        match self {
            Window::Text(window) => window.name(),
            Window::Fs(window) => window.name(),
            Window::Tab(_) => String::new(),
            Window::Test(_) => String::new(),
        }
    }
}

} // verus!
