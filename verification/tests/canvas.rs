use demys::plot::Plot;
use demys::style::canvas::{Canvas, CanvasError, Region};
use demys::style::style::{StyleAttribute, StyledText, TermCommand, ThemeColor};

#[test]
fn canvas_construction() {
    let dim = Plot::new(20, 40);
    let canvas = Canvas::new(dim);

    assert_eq!(*canvas.get_dim(), dim);
}

#[test]
fn cursor_movement() {
    let dim = Plot::new(20, 40);
    let mut canvas = Canvas::new(dim);

    // starts in 0,0
    assert_eq!(canvas.get_cursor(), Plot::new(0, 0));

    // next line
    canvas.to_next_line().unwrap();
    assert_eq!(canvas.get_cursor(), Plot::new(1, 0));

    // move to valid
    canvas.move_to(Plot::new(5, 10)).unwrap();
    assert_eq!(canvas.get_cursor(), Plot::new(5, 10));
    // move to invalid
    assert!(canvas.move_to(Plot::new(0, dim.col)).is_err());
    assert!(canvas.move_to(Plot::new(dim.row, 0)).is_err());

    // next line resets col
    canvas.to_next_line().unwrap();
    assert_eq!(canvas.get_cursor(), Plot::new(6, 0));
}

fn starting_at(canvas: &Canvas, index: usize) -> usize {
    canvas.get_regions().iter().filter(|r| r.start == index).count()
}

fn ending_at(canvas: &Canvas, index: usize) -> usize {
    canvas.get_regions().iter().filter(|r| r.end == index).count()
}

#[test]
fn set_style() {
    let dim = Plot::new(20, 40);
    let mut canvas = Canvas::new(dim);

    let _ = canvas.set_attribute(
        StyleAttribute::Color(ThemeColor::Green),
        Plot::new(0, 0),
        Plot::new(0, canvas.last_col()),
    );
    assert_eq!(starting_at(&canvas, 0), 1);
    assert_eq!(ending_at(&canvas, 39), 1);

    let _ = canvas.set_attribute(
        StyleAttribute::Color(ThemeColor::Green),
        Plot::new(0, 0),
        Plot::new(canvas.last_row(), canvas.last_col()),
    );
    assert_eq!(starting_at(&canvas, 0), 2);
}

#[test]
fn breakpoints() {
    let dim = Plot::new(20, 40);
    let mut canvas = Canvas::new(dim);

    let text = StyledText::new("hello".to_string()).with(StyleAttribute::Color(ThemeColor::Yellow));

    canvas.write(&text);
    canvas.move_to(Plot::new(0, 2)).unwrap();
    canvas.write(&text);
    canvas.move_to(Plot::new(canvas.last_row(), 0)).unwrap();
    canvas.write(&text);
    let bp = canvas.get_breakpoints();

    assert_eq!(
        bp,
        vec![
            0,
            2,
            5,
            2 + 5,
            canvas.last_row() * canvas.get_dim().col,
            canvas.last_row() * canvas.get_dim().col + 5,
            canvas.get_end()
        ]
    );
}

fn spaces(count: usize) -> Vec<u8> {
    vec![b' '; count]
}

#[test]
fn two_styled_writes_are_flushed_run_by_run() {
    let mut canvas = Canvas::new(Plot::new(3, 5));
    let yellow = StyleAttribute::Color(ThemeColor::Yellow);
    let green = StyleAttribute::BgColor(ThemeColor::Green);
    canvas
        .write_at(&StyledText::new("hi".to_string()).with(yellow), Plot::new(0, 0))
        .unwrap();
    canvas
        .write_at(&StyledText::new("X".to_string()).with(green), Plot::new(0, 3))
        .unwrap();

    assert_eq!(canvas.get_breakpoints(), vec![0, 2, 3, 4, 14]);

    let commands = canvas.queue_write(Plot::new(0, 0));
    assert_eq!(
        commands,
        vec![
            TermCommand::Apply(yellow),
            TermCommand::MoveTo { row: 0, col: 0 },
            TermCommand::Print(b"hi".to_vec()),
            TermCommand::Reset(yellow),
            TermCommand::MoveTo { row: 0, col: 2 },
            TermCommand::Print(spaces(1)),
            TermCommand::Apply(green),
            TermCommand::MoveTo { row: 0, col: 3 },
            TermCommand::Print(b"X".to_vec()),
            TermCommand::Reset(green),
            TermCommand::MoveTo { row: 0, col: 4 },
            TermCommand::Print(spaces(1)),
            TermCommand::MoveTo { row: 1, col: 0 },
            TermCommand::Print(spaces(5)),
            TermCommand::MoveTo { row: 2, col: 0 },
            TermCommand::Print(spaces(4)),
        ]
    );
}

#[test]
fn flush_is_placed_at_the_origin() {
    let mut canvas = Canvas::new(Plot::new(2, 2));
    canvas.write_wrap(&StyledText::new("abc".to_string()));
    let commands = canvas.queue_write(Plot::new(10, 20));
    assert_eq!(
        commands,
        vec![
            TermCommand::MoveTo { row: 10, col: 20 },
            TermCommand::Print(b"ab".to_vec()),
            TermCommand::MoveTo { row: 11, col: 20 },
            TermCommand::Print(b"c".to_vec()),
        ]
    );
}

#[test]
fn nested_attributes_of_a_kind_are_restored() {
    let mut canvas = Canvas::new(Plot::new(1, 10));
    let outer = StyleAttribute::Color(ThemeColor::Blue);
    let inner = StyleAttribute::Color(ThemeColor::Magenta);
    canvas.set_attribute_flattened(outer, 0, 8).unwrap();
    canvas.set_attribute_flattened(inner, 2, 4).unwrap();
    let commands = canvas.queue_write(Plot::new(0, 0));
    assert_eq!(
        commands,
        vec![
            TermCommand::Apply(outer),
            TermCommand::MoveTo { row: 0, col: 0 },
            TermCommand::Print(spaces(2)),
            TermCommand::Apply(inner),
            TermCommand::MoveTo { row: 0, col: 2 },
            TermCommand::Print(spaces(2)),
            TermCommand::Apply(outer),
            TermCommand::MoveTo { row: 0, col: 4 },
            TermCommand::Print(spaces(4)),
            TermCommand::Reset(outer),
            TermCommand::MoveTo { row: 0, col: 8 },
            TermCommand::Print(spaces(1)),
        ]
    );
}

#[test]
fn outstanding_attributes_are_reset_at_the_end() {
    let mut canvas = Canvas::new(Plot::new(1, 4));
    let bold = StyleAttribute::Bold(true);
    canvas.set_attribute_flattened(bold, 1, 3).unwrap();
    let commands = canvas.queue_write(Plot::new(0, 0));
    assert_eq!(
        commands,
        vec![
            TermCommand::MoveTo { row: 0, col: 0 },
            TermCommand::Print(spaces(1)),
            TermCommand::Apply(bold),
            TermCommand::MoveTo { row: 0, col: 1 },
            TermCommand::Print(spaces(2)),
            TermCommand::Reset(bold),
        ]
    );
}

#[test]
fn write_stops_at_the_end_of_the_row() {
    let mut canvas = Canvas::new(Plot::new(2, 4));
    canvas.move_to(Plot::new(0, 2)).unwrap();
    canvas.write(&StyledText::new("abcdef".to_string()));
    assert_eq!(canvas.get_text(), &b"  ab    ".to_vec());
    // the write stuck to the end of the row: the next line is this one
    canvas.to_next_line().unwrap();
    assert_eq!(canvas.get_cursor(), Plot::new(1, 0));
    canvas.write(&StyledText::new("xy".to_string()));
    assert_eq!(canvas.get_text(), &b"  abxy  ".to_vec());
}

#[test]
fn write_wrap_goes_on_and_is_cut_at_the_last_cell() {
    let mut canvas = Canvas::new(Plot::new(2, 4));
    canvas.move_to(Plot::new(0, 2)).unwrap();
    canvas.write_wrap(&StyledText::new("abcdefgh".to_string()));
    assert_eq!(canvas.get_text(), &b"  abcdef".to_vec());
    assert_eq!(canvas.get_cursor(), Plot::new(1, 3));

    // what overruns the last cell is dropped, the last cell is written
    let mut small = Canvas::new(Plot::new(2, 3));
    small.write_wrap(&StyledText::new("abcdefgh".to_string()));
    assert_eq!(small.get_text(), &b"abcdef".to_vec());
    assert_eq!(small.get_text().len(), 6);

    // a write on the last row stops at its end
    let mut row = Canvas::new(Plot::new(2, 3));
    row.move_to(Plot::new(1, 1)).unwrap();
    row.write(&StyledText::new("xyz".to_string()));
    assert_eq!(row.get_text(), &b"    xy".to_vec());
    assert_eq!(row.get_cursor(), Plot::new(1, 2));
}

#[test]
fn write_at_puts_the_cursor_back() {
    let mut canvas = Canvas::new(Plot::new(3, 3));
    canvas.move_to(Plot::new(2, 1)).unwrap();
    canvas.write_at(&StyledText::new("q".to_string()), Plot::new(1, 1)).unwrap();
    assert_eq!(canvas.get_cursor(), Plot::new(2, 1));
    assert_eq!(canvas.get_text(), &b"    q    ".to_vec());
    assert_eq!(
        canvas.write_at(&StyledText::new("q".to_string()), Plot::new(3, 0)),
        Err(CanvasError::RowOutOfBounds)
    );
    assert_eq!(
        canvas.write_at_wrap(&StyledText::new("q".to_string()), Plot::new(0, 3)),
        Err(CanvasError::ColOutOfBounds)
    );
}

#[test]
fn writing_plain_text_twice_is_writing_it_once() {
    let text = StyledText::new("hello".to_string());
    let mut once = Canvas::new(Plot::new(3, 10));
    once.write_at(&text, Plot::new(1, 2)).unwrap();
    let mut twice = Canvas::new(Plot::new(3, 10));
    twice.write_at(&text, Plot::new(1, 2)).unwrap();
    twice.write_at(&text, Plot::new(1, 2)).unwrap();
    assert_eq!(once.queue_write(Plot::new(0, 0)), twice.queue_write(Plot::new(0, 0)));
}

#[test]
fn writing_styled_text_twice_is_writing_it_once() {
    let text = StyledText::new("hi".to_string())
        .with(StyleAttribute::Color(ThemeColor::Yellow))
        .with(StyleAttribute::Bold(true));
    let mut once = Canvas::new(Plot::new(3, 5));
    once.write_at(&text, Plot::new(0, 0)).unwrap();
    let mut twice = Canvas::new(Plot::new(3, 5));
    twice.write_at(&text, Plot::new(0, 0)).unwrap();
    twice.write_at(&text, Plot::new(0, 0)).unwrap();
    assert_eq!(once.get_regions(), twice.get_regions());
    assert_eq!(once.get_regions().len(), 2);
    assert_eq!(once.queue_write(Plot::new(0, 0)), twice.queue_write(Plot::new(0, 0)));

    // also where the write stops at the end of its row
    let long = StyledText::new("hello, world".to_string()).with(StyleAttribute::Bold(true));
    let mut first = Canvas::new(Plot::new(3, 5));
    first.write_at(&long, Plot::new(1, 2)).unwrap();
    let mut second = Canvas::new(Plot::new(3, 5));
    second.write_at(&long, Plot::new(1, 2)).unwrap();
    second.write_at(&long, Plot::new(1, 2)).unwrap();
    assert_eq!(first.get_text(), &b"       hel     ".to_vec());
    assert_eq!(first.get_text(), second.get_text());
    assert_eq!(first.queue_write(Plot::new(0, 0)), second.queue_write(Plot::new(0, 0)));

    // a region is registered once
    let mut canvas = Canvas::new(Plot::new(2, 5));
    let bold = StyleAttribute::Bold(true);
    canvas.set_attribute_flattened(bold, 1, 4).unwrap();
    canvas.set_attribute_flattened(bold, 1, 4).unwrap();
    canvas.set_attribute_flattened(bold, 1, 5).unwrap();
    assert_eq!(
        canvas.get_regions(),
        &vec![Region { attribute: bold, start: 1, end: 4 }, Region { attribute: bold, start: 1, end: 5 }]
    );
}

#[test]
fn regions_out_of_range_are_refused() {
    let mut canvas = Canvas::new(Plot::new(2, 5));
    let bold = StyleAttribute::Bold(true);
    assert_eq!(canvas.get_end(), 9);
    assert_eq!(canvas.set_attribute_flattened(bold, 0, 10), Err(CanvasError::RangeOutOfBounds));
    assert_eq!(canvas.set_attribute_flattened(bold, 10, 10), Err(CanvasError::RangeOutOfBounds));
    assert_eq!(canvas.set_attribute_flattened(bold, 4, 3), Err(CanvasError::RangeOutOfBounds));
    assert_eq!(
        canvas.set_attribute(bold, Plot::new(0, 0), Plot::new(2, 0)),
        Err(CanvasError::RangeOutOfBounds)
    );
    assert!(canvas.get_regions().is_empty());
    assert_eq!(canvas.set_attribute(bold, Plot::new(0, 1), Plot::new(1, 4)), Ok(()));
    assert_eq!(canvas.get_regions(), &vec![Region { attribute: bold, start: 1, end: 9 }]);
}

#[test]
fn a_child_is_laid_over_and_cut_at_the_edges() {
    let mut parent = Canvas::new(Plot::new(3, 4));
    let mut child = Canvas::new(Plot::new(2, 3));
    child.write_wrap(&StyledText::new("abcdef".to_string()).with(StyleAttribute::Bold(true)));
    assert_eq!(child.get_text(), &b"abcdef".to_vec());
    assert_eq!(
        child.get_regions(),
        &vec![Region { attribute: StyleAttribute::Bold(true), start: 0, end: 6 }]
    );
    parent.merge_canvas(Plot::new(2, 2), &child);
    assert_eq!(parent.get_text(), &b"          ab".to_vec());
    // the region ran from the child's first cell to its last: (2,2) to (3,4) here,
    // which this canvas does not hold
    assert!(parent.get_regions().is_empty());

    let mut other = Canvas::new(Plot::new(3, 4));
    other.add_child(child, Plot::new(0, 1));
    assert_eq!(other.get_text(), &b" abc def    ".to_vec());
    assert_eq!(
        other.get_regions(),
        &vec![Region { attribute: StyleAttribute::Bold(true), start: 1, end: 9 }]
    );
    assert!(!other.is_empty());
}

#[test]
fn expand_and_flatten_are_each_other_s_inverse() {
    let canvas = Canvas::new(Plot::new(4, 7));
    assert_eq!(canvas.expand(17), Plot::new(2, 3));
    assert_eq!(canvas.flatten(Plot::new(2, 3)), 17);
    assert_eq!(canvas.last_row(), 3);
    assert_eq!(canvas.last_col(), 6);
}

#[test]
fn blocked_content() {
    let mut canvas = Canvas::new(Plot::new(1, 3));
    canvas.block_content();
    assert_eq!(canvas.get_text(), &b"%%%".to_vec());
}

#[test]
fn styled_text_keeps_text_and_attributes() {
    let text = StyledText::new("abc".to_string())
        .with(StyleAttribute::Bold(true))
        .with(StyleAttribute::Color(ThemeColor::Gray));
    assert_eq!(text.get_text(), "abc");
    assert_eq!(text.len(), 3);
    assert_eq!(
        text.get_attributes(),
        &vec![StyleAttribute::Bold(true), StyleAttribute::Color(ThemeColor::Gray)]
    );
    assert_eq!(StyleAttribute::Color(ThemeColor::Gray).variant(), 0);
    assert_eq!(StyleAttribute::Bold(false).variant(), 1);
    assert_eq!(StyleAttribute::BgColor(ThemeColor::Gray).variant(), 2);
    assert_eq!(StyleAttribute::COUNT, 3);
}
