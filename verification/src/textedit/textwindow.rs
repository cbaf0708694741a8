//! The window that a text is edited in, in one of two modes.

use vstd::prelude::*;
use vstd::string::StrSliceExecFns;
use vstd::utf8::encode_utf8;
use crate::event::Uuid;
use crate::plot::Plot;
use crate::style::canvas::{Canvas, CanvasView};
use crate::style::style::{StyleAttribute, StyledText, ThemeColor};
use crate::text::{as_chars, decimal_digits, joined, number_text, push_char, same_text};
use crate::textedit::alert::{Alert, AlertOption};
use crate::textedit::buffer::{growth_for, Operation, TextBuffer};
use crate::textedit::buffer_display::{lines_view, sublines_view, wrap_content, wrapped};
use crate::textedit::model::{
    grow_size, line_start, BufferModel, OpView, LINE_BREAK,
};
use crate::textedit::operation::{
    byte_of, CursorLeft, CursorRight, DeleteBack, InsertChar, InsertString, TextBufferOperation,
};
use crate::textedit::traverse_ops::{DownLine, EndOfLine, UpLine};
use crate::window::popup::PopUp;
use crate::window::window::{
    all_wf, appended, grown, id_of, lemma_all_wf_push, post_all, posted_by, request_wf, views_of,
    Bus, Key, Modifiers, Poster, RequestView, WindowEvent, WindowRequest,
};

verus! {

/// Whether keys are commands or text.
#[derive(Clone, Copy, Debug, PartialEq, Eq, Structural)]
pub enum Mode {
    Normal,
    Insert,
}

/// How a text window looks.
#[derive(Clone, Copy, Debug)]
pub struct TextWindowSettings {
    pub insert_color: ThemeColor,
    pub normal_color: ThemeColor,
    pub line_number_color: ThemeColor,
    pub dynamic_caret_color: bool,
    pub line_numbers: bool,
}

impl Default for TextWindowSettings {
    fn default() -> (settings: Self)
        ensures
            settings.insert_color == ThemeColor::Blue,
            settings.normal_color == ThemeColor::Gray,
            settings.line_number_color == ThemeColor::Green,
            settings.line_numbers,
            settings.dynamic_caret_color,
    {
        Self {
            insert_color: ThemeColor::Blue,
            normal_color: ThemeColor::Gray,
            line_number_color: ThemeColor::Green,
            dynamic_caret_color: true,
            line_numbers: true,
        }
    }
}

/// The number of rows that one key scrolls by.
pub const SCROLL_STEP: usize = 10;

/// A text window as its events see it.
pub struct TextWindowView {
    pub buffer: BufferModel,
    pub mode: Mode,
    pub insert_color: ThemeColor,
    pub normal_color: ThemeColor,
    pub line_number_color: ThemeColor,
    pub dynamic_caret_color: bool,
    pub line_numbers: bool,
    pub scroll: int,
    pub focused: bool,
    pub saved: bool,
    pub name: Seq<char>,
    pub path: Option<Seq<char>>,
    pub poster: Option<Uuid>,
}

impl TextWindowView {
    /// The window after an operation that grows the text by one cell at
    /// most is handed to its buffer; where it is logged the text is no
    /// longer saved. An operation for which the gap could not be grown
    /// within the machine's limits is left out.
    pub open spec fn edited(self, op: OpView) -> TextWindowView {
        if self.buffer.state.total() + grow_size(1) <= usize::MAX {
            TextWindowView {
                buffer: self.buffer.apply(op),
                saved: self.saved && self.buffer.apply(op).log.len() == self.buffer.log.len(),
                ..self
            }
        } else {
            self
        }
    }

    /// The window after a cursor movement is handed to its buffer.
    pub open spec fn moved(self, op: OpView) -> TextWindowView {
        TextWindowView { buffer: self.buffer.apply(op), ..self }
    }

    /// The window in the mode `mode`.
    pub open spec fn in_mode(self, mode: Mode) -> TextWindowView {
        TextWindowView { mode, ..self }
    }

    /// The number of bytes between the start of its line and the cursor.
    pub open spec fn column(self) -> nat {
        (self.buffer.state.cursor - line_start(
            self.buffer.state.text,
            self.buffer.state.line(),
        )) as nat
    }

    /// The window after a key in insert mode: Esc and Ctrl-[ go to normal
    /// mode, Ctrl-z undoes, Backspace deletes, Enter and the characters
    /// are inserted.
    pub open spec fn after_insert_key(self, key: Key, modifiers: Modifiers) -> TextWindowView {
        if modifiers.only_control() {
            match key {
                Key::Char(c) => if c == '[' {
                    self.in_mode(Mode::Normal)
                } else if c == 'z' {
                    TextWindowView {
                        buffer: self.buffer.undo(),
                        saved: self.saved && self.buffer.log.len() == 0,
                        ..self
                    }
                } else {
                    self
                },
                _ => self,
            }
        } else {
            match key {
                Key::Backspace => self.edited(OpView::DeleteBack { count: 1, removed: None }),
                Key::Enter => self.edited(OpView::InsertChar(LINE_BREAK)),
                Key::Char(c) => self.edited(OpView::InsertChar(byte_of(c))),
                Key::Esc => self.in_mode(Mode::Normal),
                _ => self,
            }
        }
    }

    /// The window after a key in normal mode: `h`, `j`, `k`, `l` move the
    /// cursor, `J` and `K` scroll, `i`, `I`, `a`, `A`, `o` go to insert mode,
    /// at the cursor, at the start of the line, one to the right, at the
    /// end of the line, or on a new line behind it.
    pub open spec fn after_normal_key(self, key: Key, modifiers: Modifiers) -> TextWindowView {
        if modifiers.only_control() {
            self
        } else {
            match key {
                Key::Char(c) => if c == 'J' {
                    if self.scroll + SCROLL_STEP <= usize::MAX {
                        TextWindowView { scroll: self.scroll + SCROLL_STEP, ..self }
                    } else {
                        self
                    }
                } else if c == 'K' {
                    if self.scroll >= SCROLL_STEP {
                        TextWindowView { scroll: self.scroll - SCROLL_STEP, ..self }
                    } else {
                        self
                    }
                } else if c == 'h' {
                    self.moved(OpView::CursorLeft(1))
                } else if c == 'j' {
                    self.moved(OpView::DownLine { count: 1, moved: None })
                } else if c == 'k' {
                    self.moved(OpView::UpLine { count: 1, moved: None })
                } else if c == 'l' {
                    self.moved(OpView::CursorRight(1))
                } else if c == 'i' {
                    self.in_mode(Mode::Insert)
                } else if c == 'I' {
                    self.moved(OpView::CursorLeft(self.column())).in_mode(Mode::Insert)
                } else if c == 'a' {
                    self.moved(OpView::CursorRight(1)).in_mode(Mode::Insert)
                } else if c == 'A' {
                    self.moved(OpView::EndOfLine { moved: None }).in_mode(Mode::Insert)
                } else if c == 'o' {
                    self.moved(OpView::EndOfLine { moved: None }).edited(
                        OpView::InsertChar(LINE_BREAK),
                    ).in_mode(Mode::Insert)
                } else {
                    self
                },
                _ => self,
            }
        }
    }

    /// What is posted to have the text written to its file: nothing where
    /// the window has no file.
    pub open spec fn save_posts(self) -> Seq<RequestView> {
        match self.path {
            Some(path) => seq![RequestView::Save { path, content: self.buffer.state.text }],
            None => Seq::empty(),
        }
    }

    /// What is posted when the window is asked to leave: that it leaves,
    /// or a popup that asks what to do with the changes.
    pub open spec fn quit_posts(self) -> Seq<RequestView> {
        if self.saved {
            seq![RequestView::RemoveSelfWindow]
        } else {
            seq![RequestView::AddPopup(true)]
        }
    }

    /// The window after `event`.
    pub open spec fn after(self, event: WindowEvent) -> TextWindowView {
        match event {
            WindowEvent::Focus => TextWindowView { focused: true, ..self },
            WindowEvent::Unfocus => TextWindowView { focused: false, ..self },
            WindowEvent::Input { key, modifiers } => match self.mode {
                Mode::Insert => self.after_insert_key(key, modifiers),
                Mode::Normal => self.after_normal_key(key, modifiers),
            },
            WindowEvent::Command(command) => if command@ == "w"@ || command@ == "wq"@ {
                TextWindowView { saved: self.saved || self.path is Some, ..self }
            } else if command@ == "tl"@ {
                TextWindowView { line_numbers: !self.line_numbers, ..self }
            } else {
                self
            },
            _ => self,
        }
    }

    /// What the window posts on `event`, the wish to be drawn last.
    pub open spec fn posts(self, event: WindowEvent) -> Seq<RequestView> {
        (match event {
            WindowEvent::Command(command) => if command@ == "w"@ {
                self.save_posts()
            } else if command@ == "wq"@ {
                self.save_posts().push(RequestView::RemoveSelfWindow)
            } else if command@ == "q!"@ {
                seq![RequestView::RemoveSelfWindow]
            } else if command@ == "q"@ {
                self.quit_posts()
            } else {
                Seq::empty()
            },
            WindowEvent::TryQuit => self.quit_posts(),
            _ => Seq::empty(),
        }).push(RequestView::Redraw)
    }
}

impl TextWindowView {
    /// The label of the window: the name of its file, marked where the
    /// text is not saved.
    pub open spec fn title(self) -> Seq<char> {
        if self.saved {
            self.name
        } else {
            "*"@ + self.name
        }
    }

    /// The number of a line as it stands in the gutter: its digits, filled
    /// up with spaces to three cells.
    pub open spec fn gutter(number: usize) -> Seq<char> {
        let digits = decimal_digits(number);
        if digits.len() < 3 {
            digits + Seq::new((3 - digits.len()) as nat, |i: int| ' ')
        } else {
            digits
        }
    }

    /// The number that the line `n` of what is shown carries.
    pub open spec fn line_number(self, n: int) -> usize {
        if self.scroll + n + 1 <= usize::MAX {
            (self.scroll + n + 1) as usize
        } else {
            usize::MAX
        }
    }

    /// The canvas `v` with the sublines of `sublines` from number `k` on
    /// written onto it, each on a row of its own, and the number of rows
    /// used, of which `shown` were used before.
    pub open spec fn sublines_drawn(v: CanvasView, sublines: Seq<Seq<u8>>, k: int, shown: int) -> (
        CanvasView,
        int,
    )
        decreases sublines.len() - k,
    {
        if k < 0 || k >= sublines.len() {
            (v, shown)
        } else {
            Self::sublines_drawn(
                v.written(sublines[k], Seq::empty(), false).down(),
                sublines,
                k + 1,
                if shown < usize::MAX - 2 {
                    shown + 1
                } else {
                    shown
                },
            )
        }
    }

    /// The canvas `v` with the lines of `lines` from number `n` on drawn
    /// onto it, each behind its number where lines are numbered, as long as
    /// two rows are left.
    pub open spec fn lines_drawn(
        self,
        v: CanvasView,
        lines: Seq<Seq<Seq<u8>>>,
        n: int,
        shown: int,
    ) -> CanvasView
        decreases lines.len() - n,
    {
        if n < 0 || n >= lines.len() || shown + 2 > v.dim.row {
            v
        } else {
            let numbered = if self.line_numbers {
                v.written(
                    encode_utf8(Self::gutter(self.line_number(n))),
                    seq![StyleAttribute::Color(self.line_number_color)],
                    false,
                )
            } else {
                v
            };
            let below = Self::sublines_drawn(numbered, lines[n], 0, shown);
            self.lines_drawn(below.0, lines, n + 1, below.1)
        }
    }

    /// The colour that stands for the mode.
    pub open spec fn mode_color(self) -> ThemeColor {
        match self.mode {
            Mode::Normal => self.normal_color,
            Mode::Insert => self.insert_color,
        }
    }

    /// The canvas `v` with the last row drawn onto it: the mode at its
    /// left, the label of the window at its right.
    pub open spec fn footed(self, v: CanvasView) -> CanvasView {
        let last_row = (v.dim.row - 1) as usize;
        let last_col = (v.dim.col - 1) as usize;
        let name = encode_utf8(self.title());
        v.go(Plot { row: last_row, col: 0 }).written(
            encode_utf8(
                match self.mode {
                    Mode::Normal => "NORMAL"@,
                    Mode::Insert => "INSERT"@,
                },
            ),
            seq![StyleAttribute::Color(self.mode_color()), StyleAttribute::Bold(true)],
            false,
        ).go(
            Plot {
                row: last_row,
                col: if name.len() <= last_col {
                    (last_col - name.len()) as usize
                } else {
                    0
                },
            },
        ).written(name, seq![StyleAttribute::Bold(true)], false)
    }

    /// The canvas `v` with the cell of the cursor set off, where the window
    /// has the focus; `cursor` is where the cursor lies on the wrapped text.
    pub open spec fn pointed(self, v: CanvasView, cursor: Plot) -> CanvasView {
        let at = if self.line_numbers && cursor.col <= usize::MAX - 3 {
            Plot { row: cursor.row, col: (cursor.col + 3) as usize }
        } else {
            cursor
        };
        if self.focused && at.col < usize::MAX {
            v.tint(
                StyleAttribute::BgColor(
                    if self.dynamic_caret_color {
                        self.mode_color()
                    } else {
                        ThemeColor::Gray
                    },
                ),
                at,
                Plot { row: at.row, col: (at.col + 1) as usize },
            )
        } else {
            v
        }
    }

    /// The canvas `v` with the window drawn onto it: the text wrapped to
    /// the canvas, the last row, and the cursor. A text or a canvas too
    /// large for the machine to wrap the one to the other is not shown.
    pub open spec fn drawn(self, v: CanvasView) -> CanvasView {
        let start = v.go(Plot { row: 0, col: 0 });
        let bytes = encode_utf8(as_chars(self.buffer.state.text));
        if bytes.len() <= usize::MAX / 4 && v.dim.row <= usize::MAX / 4 {
            let all = wrapped(bytes, v.dim, self.buffer.state.cursor);
            self.pointed(self.footed(self.lines_drawn(start, all.0, 0, 0)), all.1)
        } else {
            self.pointed(self.footed(start), Plot { row: 0, col: 0 })
        }
    }
}

/// The modal editor of one text.
pub struct TextWindow {
    tb: TextBuffer,
    poster: Option<Poster>,
    name: String,
    path: Option<String>,
    saved: bool,
    mode: Mode,
    settings: TextWindowSettings,
    scroll: usize,
    focused: bool,
}

impl View for TextWindow {
    type V = TextWindowView;

    closed spec fn view(&self) -> TextWindowView {
        TextWindowView {
            buffer: self.tb.model(),
            mode: self.mode,
            insert_color: self.settings.insert_color,
            normal_color: self.settings.normal_color,
            line_number_color: self.settings.line_number_color,
            dynamic_caret_color: self.settings.dynamic_caret_color,
            line_numbers: self.settings.line_numbers,
            scroll: self.scroll as int,
            focused: self.focused,
            saved: self.saved,
            name: self.name@,
            path: match self.path {
                Some(path) => Some(path@),
                None => None,
            },
            poster: id_of(self.poster),
        }
    }
}

/// Whether `alert` is the alert that asks what to do with the unsaved
/// changes in the text `name`: it has three answers, of which the first
/// stands for the command to save and leave, the second for the command to
/// leave without saving, and the third for nothing; the first is selected,
/// and the alert has no poster yet.
pub open spec fn asks_unsaved(alert: Alert, name: Seq<char>) -> bool {
    &&& alert.content.chars() == "Unsaved changes in "@ + name + "."@
    &&& alert.content.attributes() == Seq::<StyleAttribute>::empty()
    &&& alert.settings.margin == 2
    &&& alert.settings.border
    &&& alert.settings.background == ThemeColor::Background
    &&& alert.options@.len() == 3
    &&& alert.options@[0].label.chars() == "Save"@
    &&& alert.options@[0].label.attributes() == seq![StyleAttribute::Bold(true)]
    &&& alert.options@[1].label.chars() == "Discard"@
    &&& alert.options@[1].label.attributes() == seq![StyleAttribute::Bold(true)]
    &&& alert.options@[2].label.chars() == "Go Back"@
    &&& alert.options@[2].label.attributes() == Seq::<StyleAttribute>::empty()
    &&& views_of(alert.options@[0].requests@) == seq![RequestView::Command("wq"@)]
    &&& views_of(alert.options@[1].requests@) == seq![RequestView::Command("q!"@)]
    &&& views_of(alert.options@[2].requests@) == Seq::<RequestView>::empty()
    &&& alert.current == 0
    &&& alert.event_poster is None
}

/// Whether `request` carries no popup but the alert that asks what to do
/// with the unsaved changes in the text `name`.
pub open spec fn asks_of(request: WindowRequest, name: Seq<char>) -> bool {
    match request {
        WindowRequest::AddPopup(Some(popup)) => match *popup {
            PopUp::Alert(alert) => asks_unsaved(alert, name),
            _ => false,
        },
        WindowRequest::AddPopup(None) => false,
        _ => true,
    }
}

/// Whether every popup that `posted` carries is the alert that asks what
/// to do with the unsaved changes in the text `name`.
pub open spec fn popups_ask(posted: Seq<(Uuid, WindowRequest)>, name: Seq<char>) -> bool {
    forall|i: int| 0 <= i < posted.len() ==> asks_of((#[trigger] posted[i]).1, name)
}

/// Whether every popup that `requests` carry is that alert.
pub open spec fn all_ask(requests: Seq<WindowRequest>, name: Seq<char>) -> bool {
    forall|i: int| 0 <= i < requests.len() ==> asks_of(#[trigger] requests[i], name)
}

impl TextWindow {
    /// The buffer of the window is well formed.
    pub closed spec fn wf(&self) -> bool {
        self.tb.wf()
    }

    /// A window on the buffer `tb`, without a file and with unsaved text.
    pub fn new(tb: TextBuffer) -> (window: Self)
        requires
            tb.wf(),
        ensures
            window.wf(),
            window@.buffer == tb.model(),
            window@.mode == Mode::Normal,
            window@.line_numbers,
            window@.scroll == 0,
            !window@.focused,
            !window@.saved,
            window@.name == "[untitled]"@,
            window@.path is None,
            window@.poster is None,
    {
        TextWindow {
            tb,
            focused: false,
            poster: None,
            mode: Mode::Normal,
            settings: TextWindowSettings::default(),
            scroll: 0,
            name: String::from_str("[untitled]"),
            path: None,
            saved: false,
        }
    }

    /// A window on the file `name` at `path`, which holds `content`. A
    /// content too large for the machine is left out.
    pub fn from_content(name: String, path: String, content: String) -> (window: Self)
        ensures
            window.wf(),
            window@.buffer == if BufferModel::empty().state.total() + growth_for(
                OpView::InsertString(encode_utf8(content@)),
                BufferModel::empty().state,
            ) <= usize::MAX {
                BufferModel::empty().apply(OpView::InsertString(encode_utf8(content@)))
            } else {
                BufferModel::empty()
            },
            window@.mode == Mode::Normal,
            window@.saved,
            window@.name == name@,
            window@.path == Some(path@),
            window@.poster is None,
    {
        let mut tb = TextBuffer::new();
        let operation = InsertString::new(content);
        if tb.can_grow(operation.0.len()) {
            tb.apply(Operation::InsertString(operation));
        }
        TextWindow {
            tb,
            focused: false,
            poster: None,
            mode: Mode::Normal,
            settings: TextWindowSettings::default(),
            scroll: 0,
            name,
            path: Some(path),
            saved: true,
        }
    }

    /// A window on a file `name` at `path` that is not there yet: its text
    /// is empty and not saved.
    pub fn for_new_file(name: String, path: String) -> (window: Self)
        ensures
            window.wf(),
            window@.buffer == BufferModel::empty(),
            window@.mode == Mode::Normal,
            window@.line_numbers,
            window@.scroll == 0,
            !window@.focused,
            !window@.saved,
            window@.name == name@,
            window@.path == Some(path@),
            window@.poster is None,
    {
        TextWindow {
            tb: TextBuffer::new(),
            focused: false,
            poster: None,
            mode: Mode::Normal,
            settings: TextWindowSettings::default(),
            scroll: 0,
            name,
            path: Some(path),
            saved: false,
        }
    }

    /// The popup that asks what to do with unsaved changes: save them,
    /// discard them, or go back.
    pub fn unsaved_popup(name: &str) -> (alert: Alert)
        ensures
            asks_unsaved(alert, name@),
            alert.wf(),
    {
        let question = joined(joined("Unsaved changes in ", name).as_str(), ".");
        let mut alert = Alert::new(StyledText::new(question));
        let mut save: Vec<WindowRequest> = Vec::new();
        save.push(WindowRequest::Command(String::from_str("wq")));
        let mut discard: Vec<WindowRequest> = Vec::new();
        discard.push(WindowRequest::Command(String::from_str("q!")));
        assert(views_of(save@) =~= seq![RequestView::Command("wq"@)]);
        assert(views_of(discard@) =~= seq![RequestView::Command("q!"@)]);
        assert(all_wf(save@) && all_wf(discard@));
        alert.options.push(
            AlertOption {
                label: StyledText::new(String::from_str("Save")).with(StyleAttribute::Bold(true)),
                requests: save,
            },
        );
        alert.options.push(
            AlertOption {
                label: StyledText::new(String::from_str("Discard")).with(
                    StyleAttribute::Bold(true),
                ),
                requests: discard,
            },
        );
        let none: Vec<WindowRequest> = Vec::new();
        assert(views_of(none@) =~= Seq::<RequestView>::empty());
        alert.options.push(
            AlertOption { label: StyledText::new(String::from_str("Go Back")), requests: none },
        );
        assert(alert.wf()) by {
            assert forall|i: int, j: int|
                0 <= i < alert.options@.len() && 0 <= j
                    < alert.options@[i].requests@.len() implies request_wf(
                #[trigger] alert.options@[i].requests@[j],
            ) by {
                if i == 0 {
                    assert(request_wf(save@[j]));
                } else if i == 1 {
                    assert(request_wf(discard@[j]));
                }
            }
        }
        alert
    }

    /// Take the poster to post with.
    pub fn init(&mut self, poster: Poster)
        ensures
            final(self).wf() == old(self).wf(),
            final(self)@ == (TextWindowView { poster: Some(poster.id()), ..old(self)@ }),
    {
        self.poster = Some(poster);
    }

    /// The label of the window: the name of its file, marked where the
    /// text is not saved.
    pub fn name(&self) -> (name: String)
        ensures
            name@ == self@.title(),
    {
        if self.saved {
            self.name.clone()
        } else {
            joined("*", self.name.as_str())
        }
    }

    /// Whether the window wants every key: it does in insert mode.
    pub fn input_bypass(&self) -> (bypass: bool)
        ensures
            bypass == (self@.mode == Mode::Insert),
    {
        match self.mode {
            Mode::Normal => false,
            Mode::Insert => true,
        }
    }

    /// Hand an operation that grows the text by one cell at most to the buffer.
    fn edit(&mut self, operation: Operation)
        requires
            old(self).wf(),
            growth_for(operation.op_view(), old(self)@.buffer.state) <= grow_size(1),
        ensures
            final(self).wf(),
            final(self)@ == old(self)@.edited(operation.op_view()),
    {
        if self.tb.can_grow(1) {
            let before = self.tb.operation_count();
            self.tb.apply(operation);
            if self.tb.operation_count() != before {
                self.saved = false;
            }
        }
    }

    /// Hand a cursor movement to the buffer.
    fn travel(&mut self, operation: Operation)
        requires
            old(self).wf(),
            growth_for(operation.op_view(), old(self)@.buffer.state) == 0,
        ensures
            final(self).wf(),
            final(self)@ == old(self)@.moved(operation.op_view()),
    {
        let _ = self.tb.get_length_raw();
        self.tb.apply(operation);
    }

    /// Take in a key in insert mode.
    fn insert_mode_input(&mut self, key: Key, modifiers: Modifiers)
        requires
            old(self).wf(),
        ensures
            final(self).wf(),
            final(self)@ == old(self)@.after_insert_key(key, modifiers),
    {
        if modifiers.is_control() {
            match key {
                Key::Char(c) => {
                    if c == '[' {
                        self.mode = Mode::Normal;
                    } else if c == 'z' {
                        if self.tb.operation_count() > 0 {
                            self.saved = false;
                        }
                        self.tb.undo();
                    }
                },
                _ => {},
            }
        } else {
            match key {
                Key::Backspace => self.edit(Operation::DeleteBack(DeleteBack::new(1))),
                Key::Enter => {
                    assert(byte_of('\n') == LINE_BREAK);
                    self.edit(Operation::InsertChar(InsertChar('\n')));
                },
                Key::Char(c) => self.edit(Operation::InsertChar(InsertChar(c))),
                Key::Esc => {
                    self.mode = Mode::Normal;
                },
                _ => {},
            }
        }
    }

    /// Take in a key in normal mode.
    #[verifier::rlimit(60)]
    fn normal_mode_input(&mut self, key: Key, modifiers: Modifiers)
        requires
            old(self).wf(),
        ensures
            final(self).wf(),
            final(self)@ == old(self)@.after_normal_key(key, modifiers),
    {
        if modifiers.is_control() {
            return ;
        }
        match key {
            Key::Char(c) => {
                if c == 'J' {
                    if self.scroll <= usize::MAX - SCROLL_STEP {
                        self.scroll = self.scroll + SCROLL_STEP;
                    }
                } else if c == 'K' {
                    if self.scroll >= SCROLL_STEP {
                        self.scroll = self.scroll - SCROLL_STEP;
                    }
                } else if c == 'h' {
                    self.travel(Operation::CursorLeft(CursorLeft(1)));
                } else if c == 'j' {
                    self.travel(Operation::DownLine(DownLine::new(1)));
                } else if c == 'k' {
                    self.travel(Operation::UpLine(UpLine::new(1)));
                } else if c == 'l' {
                    self.travel(Operation::CursorRight(CursorRight(1)));
                } else if c == 'i' {
                    self.mode = Mode::Insert;
                } else if c == 'I' {
                    let column = self.tb.get_cursor_col();
                    self.travel(Operation::CursorLeft(CursorLeft(column)));
                    self.mode = Mode::Insert;
                } else if c == 'a' {
                    self.travel(Operation::CursorRight(CursorRight(1)));
                    self.mode = Mode::Insert;
                } else if c == 'A' {
                    self.travel(Operation::EndOfLine(EndOfLine::new()));
                    self.mode = Mode::Insert;
                } else if c == 'o' {
                    self.travel(Operation::EndOfLine(EndOfLine::new()));
                    assert(byte_of('\n') == LINE_BREAK);
                    self.edit(Operation::InsertChar(InsertChar('\n')));
                    self.mode = Mode::Insert;
                }
            },
            _ => {},
        }
    }

    /// Queue what has the text written to its file, and take it as saved.
    fn save(&mut self, out: &mut Vec<WindowRequest>)
        requires
            old(self).wf(),
            all_wf(old(out)@),
        ensures
            all_wf(final(out)@),
            final(self).wf(),
            final(self)@ == (TextWindowView {
                saved: old(self)@.saved || old(self)@.path is Some,
                ..old(self)@
            }),
            views_of(final(out)@) == views_of(old(out)@) + old(self)@.save_posts(),
            forall|name: Seq<char>| all_ask(old(out)@, name) ==> all_ask(final(out)@, name),
    {
        match &self.path {
            Some(path) => {
                let request = WindowRequest::Save {
                    path: path.clone(),
                    content: self.tb.text_bytes(),
                };
                let ghost view = request@;
                proof {
                    lemma_all_wf_push(out@, request);
                }
                out.push(request);
                self.saved = true;
                assert(views_of(out@) =~= views_of(old(out)@) + seq![view]);
                assert forall|name: Seq<char>| all_ask(old(out)@, name) implies all_ask(
                    out@,
                    name,
                ) by {
                    assert forall|i: int| 0 <= i < out@.len() implies asks_of(
                        #[trigger] out@[i],
                        name,
                    ) by {
                        if i < old(out)@.len() {
                            assert(out@[i] == old(out)@[i]);
                        }
                    }
                }
            },
            None => {
                assert(views_of(out@) =~= views_of(old(out)@) + Seq::<RequestView>::empty());
            },
        }
    }

    /// Queue what the window answers when it is asked to leave.
    fn try_quit(&self, out: &mut Vec<WindowRequest>)
        requires
            all_wf(old(out)@),
        ensures
            all_wf(final(out)@),
            views_of(final(out)@) == views_of(old(out)@) + self@.quit_posts(),
            all_ask(old(out)@, self@.name) ==> all_ask(final(out)@, self@.name),
    {
        if self.saved {
            proof {
                lemma_all_wf_push(out@, WindowRequest::RemoveSelfWindow);
            }
            out.push(WindowRequest::RemoveSelfWindow);
            assert(views_of(out@) =~= views_of(old(out)@) + seq![RequestView::RemoveSelfWindow]);
            assert forall|i: int| 0 <= i < old(out)@.len() implies out@[i] == old(out)@[i] by {}
        } else {
            let popup = PopUp::Alert(Self::unsaved_popup(self.name.as_str()));
            let request = WindowRequest::AddPopup(Some(Box::new(popup)));
            proof {
                lemma_all_wf_push(out@, request);
            }
            out.push(request);
            assert(views_of(out@) =~= views_of(old(out)@) + seq![RequestView::AddPopup(true)]);
            assert(asks_of(request, self@.name));
            assert forall|i: int| 0 <= i < old(out)@.len() implies out@[i] == old(out)@[i] by {}
        }
    }

    /// Take in `event` and post what it calls for to `bus`.
    pub fn event(&mut self, event: WindowEvent, bus: &mut Bus)
        requires
            old(self).wf(),
        ensures
            final(self).wf(),
            final(self)@ == old(self)@.after(event),
            appended(*old(bus), *final(bus), posted_by(old(self)@.poster, old(self)@.posts(event))),
            grown(*old(bus), *final(bus)),
            popups_ask(
                final(bus).queue().skip(old(bus).queue().len() as int),
                old(self)@.name,
            ),
    {
        let mut out: Vec<WindowRequest> = Vec::new();
        let ghost start = self@;
        assert(all_ask(out@, start.name));
        assert(views_of(out@) =~= Seq::<RequestView>::empty());
        proof {
            reveal_strlit("w");
            reveal_strlit("wq");
            reveal_strlit("q!");
            reveal_strlit("q");
            reveal_strlit("tl");
            assert("w"@.len() == 1 && "wq"@.len() == 2 && "q"@.len() == 1 && "q!"@.len() == 2
                && "tl"@.len() == 2);
            assert("w"@[0] == 'w' && "q"@[0] == 'q' && "wq"@[0] == 'w' && "q!"@[0] == 'q'
                && "tl"@[0] == 't');
        }
        match event {
            WindowEvent::Focus => {
                self.focused = true;
            },
            WindowEvent::Unfocus => {
                self.focused = false;
            },
            WindowEvent::Input { key, modifiers } => {
                match self.mode {
                    Mode::Insert => self.insert_mode_input(key, modifiers),
                    Mode::Normal => self.normal_mode_input(key, modifiers),
                }
            },
            WindowEvent::Command(command) => {
                if same_text(command.as_str(), "w") {
                    self.save(&mut out);
                } else if same_text(command.as_str(), "wq") {
                    self.save(&mut out);
                    let ghost early = views_of(out@);
                    proof {
                        lemma_all_wf_push(out@, WindowRequest::RemoveSelfWindow);
                    }
                    let ghost kept = out@;
                    out.push(WindowRequest::RemoveSelfWindow);
                    assert(views_of(out@) =~= early.push(RequestView::RemoveSelfWindow));
                    assert forall|i: int| 0 <= i < kept.len() implies out@[i] == kept[i] by {}
                } else if same_text(command.as_str(), "q!") {
                    out.push(WindowRequest::RemoveSelfWindow);
                    assert(views_of(out@) =~= seq![RequestView::RemoveSelfWindow]);
                } else if same_text(command.as_str(), "q") {
                    self.try_quit(&mut out);
                } else if same_text(command.as_str(), "tl") {
                    self.settings.line_numbers = !self.settings.line_numbers;
                }
            },
            WindowEvent::TryQuit => {
                self.try_quit(&mut out);
            },
            _ => {},
        }
        assert(self@.name == start.name);
        proof {
            assert(Seq::<RequestView>::empty() + start.save_posts() =~= start.save_posts());
            assert(Seq::<RequestView>::empty() + start.quit_posts() =~= start.quit_posts());
        }
        Self::post_and_redraw(&self.poster, bus, out);
    }

    /// Post `out`, and the wish to be drawn behind it.
    fn post_and_redraw(poster: &Option<Poster>, bus: &mut Bus, out: Vec<WindowRequest>)
        requires
            all_wf(out@),
        ensures
            appended(
                *old(bus),
                *final(bus),
                posted_by(id_of(*poster), views_of(out@).push(RequestView::Redraw)),
            ),
            grown(*old(bus), *final(bus)),
            forall|name: Seq<char>|
                all_ask(out@, name) ==> #[trigger] popups_ask(
                    final(bus).queue().skip(old(bus).queue().len() as int),
                    name,
                ),
    {
        let mut out = out;
        let ghost kept = out@;
        proof {
            lemma_all_wf_push(out@, WindowRequest::Redraw);
        }
        out.push(WindowRequest::Redraw);
        let ghost all = out@;
        assert(views_of(all) =~= views_of(kept).push(RequestView::Redraw));
        post_all(poster, bus, out);
        proof {
            let behind = bus.queue().skip(old(bus).queue().len() as int);
            assert forall|name: Seq<char>| all_ask(kept, name) implies #[trigger] popups_ask(
                behind,
                name,
            ) by {
                match *poster {
                    Some(p) => {
                        assert(behind =~= crate::window::window::stamped(p.id(), all));
                        assert forall|i: int| 0 <= i < behind.len() implies asks_of(
                            (#[trigger] behind[i]).1,
                            name,
                        ) by {
                            assert(behind[i].1 == all[i]);
                            if i < kept.len() {
                                assert(all[i] == kept[i]);
                            }
                        }
                    },
                    None => {
                        assert(behind =~= Seq::<(Uuid, WindowRequest)>::empty());
                    },
                }
            }
        }
    }

    /// Whether the window is the one that input goes to.
    pub fn is_focused(&self) -> (focused: bool)
        ensures
            focused == self@.focused,
    {
        self.focused
    }

    /// The mode the window is in.
    pub fn get_mode(&self) -> (mode: Mode)
        ensures
            mode == self@.mode,
    {
        self.mode
    }

    /// Whether the text is as it was written to its file.
    pub fn is_saved(&self) -> (saved: bool)
        ensures
            saved == self@.saved,
    {
        self.saved
    }

    /// The number of rows that the text is scrolled by.
    pub fn get_scroll(&self) -> (scroll: usize)
        ensures
            scroll == self@.scroll,
    {
        self.scroll
    }

    /// Whether the lines are numbered.
    pub fn has_line_numbers(&self) -> (numbered: bool)
        ensures
            numbered == self@.line_numbers,
    {
        self.settings.line_numbers
    }

    /// The buffer that is edited.
    pub fn get_buffer(&self) -> (tb: &TextBuffer)
        requires
            self.wf(),
        ensures
            tb.wf(),
            tb.model() == self@.buffer,
    {
        &self.tb
    }

    /// The number of a line as it stands in the gutter: its digits, filled
    /// up with spaces to three cells.
    fn line_label(number: usize) -> (label: String)
        ensures
            label@ == TextWindowView::gutter(number),
    {
        let mut label = number_text(number);
        let ghost digits = label@;
        let length = label.as_str().unicode_len();
        let mut filled: usize = length;
        assert(digits + Seq::new(0, |i: int| ' ') =~= digits);
        while filled < 3
            invariant
                length <= filled,
                length < 3 ==> filled <= 3,
                length >= 3 ==> filled == length,
                length == digits.len(),
                label@ == digits + Seq::new((filled - length) as nat, |i: int| ' '),
            decreases 3 - filled,
        {
            push_char(&mut label, ' ');
            filled += 1;
            assert(label@ =~= digits + Seq::new((filled - length) as nat, |i: int| ' '));
        }
        proof {
            if length >= 3 {
                assert(filled == length);
                assert(label@ =~= digits);
            } else {
                assert(filled == 3);
                assert(label@ =~= TextWindowView::gutter(number));
            }
        }
        label
    }

    /// Draw the lines of `text` from the cursor of the canvas on.
    fn draw_lines(&self, canvas: &mut Canvas, text: &Vec<Vec<Vec<u8>>>)
        requires
            old(canvas).wf(),
        ensures
            final(canvas).wf(),
            final(canvas)@ == self@.lines_drawn(old(canvas)@, lines_view(text@), 0, 0),
    {
        let ghost lines = lines_view(text@);
        let ghost start = canvas@;
        let dim = *canvas.get_dim();
        let mut shown: usize = 0;
        let mut n: usize = 0;
        while n < text.len() && shown + 2 <= dim.row
            invariant
                canvas.wf(),
                dim == start.dim,
                canvas@.dim == start.dim,
                lines == lines_view(text@),
                n <= text@.len(),
                shown <= usize::MAX - 2,
                self@.lines_drawn(start, lines, 0, 0) == self@.lines_drawn(
                    canvas@,
                    lines,
                    n as int,
                    shown as int,
                ),
            decreases text@.len() - n,
        {
            if self.settings.line_numbers {
                let number = if self.scroll <= usize::MAX - n - 1 {
                    self.scroll + n + 1
                } else {
                    usize::MAX
                };
                let label = StyledText::new(Self::line_label(number)).with(
                    StyleAttribute::Color(self.settings.line_number_color),
                );
                assert(label.attributes() =~= seq![
                    StyleAttribute::Color(self.settings.line_number_color),
                ]);
                canvas.write(&label);
            }
            let ghost numbered = canvas@;
            let ghost before = shown;
            let ghost sublines = lines[n as int];
            assert(sublines == sublines_view(text@[n as int]@));
            let mut k: usize = 0;
            while k < text[n].len()
                invariant
                    canvas.wf(),
                    canvas@.dim == start.dim,
                    n < text@.len(),
                    k <= text@[n as int]@.len(),
                    shown <= usize::MAX - 2,
                    sublines == sublines_view(text@[n as int]@),
                    TextWindowView::sublines_drawn(numbered, sublines, 0, before as int)
                        == TextWindowView::sublines_drawn(
                        canvas@,
                        sublines,
                        k as int,
                        shown as int,
                    ),
                decreases text@[n as int]@.len() - k,
            {
                let mut cells: Vec<u8> = Vec::new();
                let mut b: usize = 0;
                while b < text[n][k].len()
                    invariant
                        n < text@.len(),
                        k < text@[n as int]@.len(),
                        b <= text@[n as int]@[k as int]@.len(),
                        cells@ == text@[n as int]@[k as int]@.take(b as int),
                    decreases text@[n as int]@[k as int]@.len() - b,
                {
                    cells.push(text[n][k][b]);
                    b += 1;
                    assert(cells@ =~= text@[n as int]@[k as int]@.take(b as int));
                }
                assert(cells@ =~= sublines[k as int]);
                canvas.write(&StyledText::from_cells(cells));
                let _ = canvas.to_next_line();
                if shown < usize::MAX - 2 {
                    shown += 1;
                }
                k += 1;
            }
            n += 1;
        }
    }

    /// Draw the text wrapped to the canvas, numbered where that is asked
    /// for, the mode and the name on the last row, and the cell of the
    /// cursor set off where the window has the focus.
    pub fn draw(&self, canvas: &mut Canvas)
        requires
            self.wf(),
            old(canvas).wf(),
        ensures
            final(canvas).wf(),
            final(canvas)@ == self@.drawn(old(canvas)@),
    {
        let _ = canvas.move_to(Plot::new(0, 0));
        let dim = *canvas.get_dim();
        let content = self.tb.string();
        let size = content.as_str().as_bytes_vec().len();
        let mut cursor = Plot::new(0, 0);
        if size <= usize::MAX / 4 && dim.row <= usize::MAX / 4 {
            let wrapped = wrap_content(content, dim, self.tb.get_cursor());
            cursor = wrapped.1;
            self.draw_lines(canvas, &wrapped.0);
        }
        let mode_header_color = match self.mode {
            Mode::Normal => self.settings.normal_color,
            Mode::Insert => self.settings.insert_color,
        };
        let mode_text = match self.mode {
            Mode::Normal => String::from_str("NORMAL"),
            Mode::Insert => String::from_str("INSERT"),
        };
        let mode_header = StyledText::new(mode_text).with(
            StyleAttribute::Color(mode_header_color),
        ).with(StyleAttribute::Bold(true));
        let name_header = StyledText::new(self.name()).with(StyleAttribute::Bold(true));
        assert(mode_header.attributes() =~= seq![
            StyleAttribute::Color(mode_header_color),
            StyleAttribute::Bold(true),
        ]);
        assert(name_header.attributes() =~= seq![StyleAttribute::Bold(true)]);
        let last_row = canvas.last_row();
        let last_col = canvas.last_col();
        let _ = canvas.move_to(Plot::new(last_row, 0));
        canvas.write(&mode_header);
        let name_col = if name_header.len() <= last_col {
            last_col - name_header.len()
        } else {
            0
        };
        let _ = canvas.move_to(Plot::new(last_row, name_col));
        canvas.write(&name_header);
        if self.focused {
            if self.settings.line_numbers && cursor.col <= usize::MAX - 3 {
                cursor = Plot::new(cursor.row, cursor.col + 3);
            }
            if cursor.col < usize::MAX {
                let color = if self.settings.dynamic_caret_color {
                    mode_header_color
                } else {
                    ThemeColor::Gray
                };
                let _ = canvas.set_attribute(
                    StyleAttribute::BgColor(color),
                    cursor,
                    Plot::new(cursor.row, cursor.col + 1),
                );
            }
        }
    }
}

} // verus!
