//! Theme colours, style attributes, styled text and the commands that a
//! terminal is sent.

use vstd::prelude::*;
use vstd::string::StrSliceExecFns;
use vstd::utf8::encode_utf8;

verus! {

/// A colour of the theme, to be mapped to a colour of the terminal.
#[derive(Clone, Copy, Debug, PartialEq, Eq, Structural)]
pub enum ThemeColor {
    Primary,
    Blue,
    Magenta,
    Yellow,
    Green,
    Gray,
    Black,
    White,
    Background,
}

/// One styling of a run of text.
#[derive(Clone, Copy, Debug, PartialEq, Eq, Structural)]
pub enum StyleAttribute {
    Color(ThemeColor),
    Bold(bool),
    BgColor(ThemeColor),
}

/// What a terminal is told to do.
#[derive(Debug, PartialEq, Eq)]
pub enum TermCommand {
    /// Move the cursor of the terminal.
    MoveTo { row: usize, col: usize },
    /// Print cells of text.
    Print(Vec<u8>),
    /// Switch a style on.
    Apply(StyleAttribute),
    /// Put the kind of style that the attribute is of back to its default.
    Reset(StyleAttribute),
}

/// What a terminal command is, with the printed cells as a sequence.
pub enum CommandView {
    MoveTo { row: int, col: int },
    Print(Seq<u8>),
    Apply(StyleAttribute),
    Reset(StyleAttribute),
}

impl View for TermCommand {
    type V = CommandView;

    open spec fn view(&self) -> CommandView {
        match self {
            TermCommand::MoveTo { row, col } => CommandView::MoveTo {
                row: *row as int,
                col: *col as int,
            },
            TermCommand::Print(cells) => CommandView::Print(cells@),
            TermCommand::Apply(attribute) => CommandView::Apply(*attribute),
            TermCommand::Reset(attribute) => CommandView::Reset(*attribute),
        }
    }
}

/// The commands of `s`, each by its view.
pub open spec fn command_views(s: Seq<TermCommand>) -> Seq<CommandView> {
    Seq::new(s.len(), |i: int| s[i]@)
}

impl StyleAttribute {
    /// The number of kinds of attribute.
    pub const COUNT: usize = 3;

    /// The kind of the attribute: 0 for the colour of the text, 1 for its
    /// weight, 2 for the colour behind it.
    pub open spec fn kind(self) -> int {
        match self {
            StyleAttribute::Color(_) => 0,
            StyleAttribute::Bold(_) => 1,
            StyleAttribute::BgColor(_) => 2,
        }
    }

    /// The kind of the attribute, as a number below `COUNT`.
    pub fn variant(&self) -> (kind: usize)
        ensures
            kind == self.kind(),
            kind < StyleAttribute::COUNT,
    {
        match self {
            StyleAttribute::Color(_) => 0,
            StyleAttribute::Bold(_) => 1,
            StyleAttribute::BgColor(_) => 2,
        }
    }

    /// Queue the command that switches the attribute on.
    pub fn apply(&self, out: &mut Vec<TermCommand>)
        ensures
            command_views(final(out)@) == command_views(old(out)@).push(CommandView::Apply(*self)),
    {
        out.push(TermCommand::Apply(*self));
        assert(command_views(out@) =~= command_views(old(out)@).push(CommandView::Apply(*self)));
    }

    /// Queue the command that puts the attribute's kind back to its default.
    pub fn reset(&self, out: &mut Vec<TermCommand>)
        ensures
            command_views(final(out)@) == command_views(old(out)@).push(CommandView::Reset(*self)),
    {
        out.push(TermCommand::Reset(*self));
        assert(command_views(out@) =~= command_views(old(out)@).push(CommandView::Reset(*self)));
    }
}

/// Text with the attributes it is to be shown in.
pub struct StyledText {
    text: String,
    cells: Vec<u8>,
    attribute: Vec<StyleAttribute>,
    wrap: bool,
}

impl StyledText {
    /// The text as characters.
    pub closed spec fn chars(&self) -> Seq<char> {
        self.text@
    }

    /// The bytes of the text, one to a cell.
    pub closed spec fn cells(&self) -> Seq<u8> {
        self.cells@
    }

    /// The attributes, in the order they were attached in.
    pub closed spec fn attributes(&self) -> Seq<StyleAttribute> {
        self.attribute@
    }

    /// The cells are the bytes of the text.
    pub closed spec fn wf(&self) -> bool {
        self.cells@ == encode_utf8(self.text@)
    }

    /// The text `text` with no attributes.
    pub fn new(text: String) -> (styled: Self)
        ensures
            styled.wf(),
            styled.chars() == text@,
            styled.cells() == encode_utf8(text@),
            styled.attributes() == Seq::<StyleAttribute>::empty(),
    {
        let cells = text.as_str().as_bytes_vec();
        Self { text, cells, attribute: Vec::new(), wrap: true }
    }

    /// The text that `cells` show, one cell to a character, with no attributes.
    pub fn from_cells(cells: Vec<u8>) -> (styled: Self)
        ensures
            styled.cells() == cells@,
            styled.chars() == crate::text::as_chars(cells@),
            styled.attributes() == Seq::<StyleAttribute>::empty(),
    {
        let text = crate::text::text_of(&cells);
        Self { text, cells, attribute: Vec::new(), wrap: true }
    }

    /// The same text with `attributes` attached behind the others.
    pub fn with(self, attributes: StyleAttribute) -> (styled: Self)
        ensures
            styled.wf() == self.wf(),
            styled.chars() == self.chars(),
            styled.cells() == self.cells(),
            styled.attributes() == self.attributes().push(attributes),
    {
        let mut styled = self;
        styled.attribute.push(attributes);
        styled
    }

    /// The same text with `attribute` behind its attributes, the text
    /// itself left as it is.
    pub fn restyled(&self, attribute: StyleAttribute) -> (styled: Self)
        ensures
            styled.wf() == self.wf(),
            styled.chars() == self.chars(),
            styled.cells() == self.cells(),
            styled.attributes() == self.attributes().push(attribute),
    {
        let mut cells: Vec<u8> = Vec::new();
        let mut i: usize = 0;
        while i < self.cells.len()
            invariant
                i <= self.cells@.len(),
                cells@ == self.cells@.take(i as int),
            decreases self.cells@.len() - i,
        {
            cells.push(self.cells[i]);
            i += 1;
            assert(cells@ =~= self.cells@.take(i as int));
        }
        assert(self.cells@.take(i as int) =~= self.cells@);
        let mut attribute_list: Vec<StyleAttribute> = Vec::new();
        let mut k: usize = 0;
        while k < self.attribute.len()
            invariant
                k <= self.attribute@.len(),
                attribute_list@ == self.attribute@.take(k as int),
            decreases self.attribute@.len() - k,
        {
            attribute_list.push(self.attribute[k]);
            k += 1;
            assert(attribute_list@ =~= self.attribute@.take(k as int));
        }
        assert(self.attribute@.take(k as int) =~= self.attribute@);
        attribute_list.push(attribute);
        Self { text: self.text.clone(), cells, attribute: attribute_list, wrap: self.wrap }
    }

    /// The text.
    pub fn get_text(&self) -> (text: &str)
        ensures
            text@ == self.chars(),
    {
        self.text.as_str()
    }

    /// The bytes of the text, one to a cell.
    pub fn get_cells(&self) -> (cells: &Vec<u8>)
        ensures
            cells@ == self.cells(),
    {
        &self.cells
    }

    /// The attributes, in the order they were attached in.
    pub fn get_attributes(&self) -> (attributes: &Vec<StyleAttribute>)
        ensures
            attributes@ == self.attributes(),
    {
        &self.attribute
    }

    /// The number of cells the text takes.
    pub fn len(&self) -> (len: usize)
        ensures
            len == self.cells().len(),
    {
        self.cells.len()
    }
}

} // verus!
