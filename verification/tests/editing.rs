use demys::textedit::buffer::{Operation, TextBuffer};
use demys::textedit::gap::GapBuffer;
use demys::textedit::operation::{
    CursorLeft, CursorRight, DeleteBack, InsertChar, InsertLinebreak, InsertString,
    TBOperationError, TextBufferOperation,
};
use demys::textedit::traverse_ops::{current_line, DownLine, EndOfLine, UpLine};

fn typed(text: &str) -> TextBuffer {
    let mut buf = TextBuffer::new();
    for c in text.chars() {
        if c == '\n' {
            buf.apply(Operation::InsertLinebreak(InsertLinebreak));
        } else {
            buf.apply(Operation::InsertChar(InsertChar(c)));
        }
    }
    buf
}

/// The positions in the text of the linebreaks that the index lists.
fn logical(buf: &TextBuffer) -> Vec<usize> {
    let gap = buf.get_gap_end() - buf.get_cursor();
    buf.get_new_lines()
        .iter()
        .map(|raw| if *raw < buf.get_cursor() { *raw } else { *raw - gap })
        .collect()
}

fn first() -> TextBuffer {
    typed("ab\nc")
}

fn second() -> TextBuffer {
    let mut buf = first();
    buf.apply(Operation::CursorLeft(CursorLeft(3)));
    buf.apply(Operation::InsertChar(InsertChar('X')));
    buf
}

#[test]
fn typing_two_lines() {
    let buf = first();
    assert_eq!(buf.string(), "ab\nc");
    assert_eq!(buf.get_new_lines(), &vec![2]);
    assert_eq!(buf.get_cursor(), 4);
    assert_eq!(buf.get_length(), 4);
}

#[test]
fn inserting_before_a_linebreak() {
    let buf = second();
    assert_eq!(buf.string(), "aXb\nc");
    assert_eq!(buf.get_cursor(), 2);
    // the linebreak lies behind the gap: third in the text, and as far
    // behind the cursor in the cells as the gap is wide
    assert_eq!(logical(&buf), vec![3]);
    let gap = buf.get_gap_end() - buf.get_cursor();
    assert_eq!(buf.get_new_lines(), &vec![3 + gap]);
    assert_eq!(buf.get_content()[buf.get_new_lines()[0]], b'\n');
}

#[test]
fn deleting_back_and_undoing() {
    let mut buf = second();
    buf.apply(Operation::DeleteBack(DeleteBack::new(2)));
    assert_eq!(buf.string(), "b\nc");
    assert_eq!(buf.get_cursor(), 0);
    assert_eq!(logical(&buf), vec![1]);

    buf.undo();
    assert_eq!(buf.string(), "aXb\nc");
    assert_eq!(buf.get_cursor(), 2);
    assert_eq!(logical(&buf), vec![3]);
}

#[test]
fn round_trip_to_the_empty_buffer() {
    let mut buf = TextBuffer::new();
    let ops: Vec<Operation> = vec![
        Operation::InsertString(InsertString::new("one\ntwo\nthree".to_string())),
        Operation::CursorLeft(CursorLeft(4)),
        Operation::UpLine(UpLine::new(1)),
        Operation::InsertLinebreak(InsertLinebreak),
        Operation::DeleteBack(DeleteBack::new(3)),
        Operation::DownLine(DownLine::new(1)),
        Operation::EndOfLine(EndOfLine::new()),
        Operation::CursorRight(CursorRight(500)),
        Operation::InsertChar(InsertChar('!')),
    ];
    let count = ops.len();
    for op in ops {
        buf.apply(op);
    }
    assert_ne!(buf.string(), "");
    for _ in 0..count {
        buf.undo();
    }
    assert_eq!(buf.string(), "");
    assert_eq!(buf.get_cursor(), 0);
    assert_eq!(buf.get_length(), 0);
    assert!(buf.get_new_lines().is_empty());
    buf.undo();
    assert_eq!(buf.string(), "");
}

fn index_is_consistent(buf: &TextBuffer) {
    let content = buf.get_content();
    let mut expected = Vec::new();
    for (i, cell) in content.iter().enumerate() {
        if (i < buf.get_cursor() || i >= buf.get_gap_end()) && *cell == b'\n' {
            expected.push(i);
        }
    }
    assert_eq!(buf.get_new_lines(), &expected);
    assert!(buf.get_cursor() <= buf.get_gap_end());
    assert!(buf.get_gap_end() <= buf.get_length_raw());
    assert_eq!(
        buf.get_length(),
        buf.get_cursor() + (buf.get_length_raw() - buf.get_gap_end())
    );
}

#[test]
fn index_and_gap_stay_consistent() {
    let mut buf = TextBuffer::new();
    index_is_consistent(&buf);
    let ops: Vec<Operation> = vec![
        Operation::InsertString(InsertString::new("a\nbb\n\nccc\n".to_string())),
        Operation::CursorLeft(CursorLeft(6)),
        Operation::InsertLinebreak(InsertLinebreak),
        Operation::CursorRight(CursorRight(3)),
        Operation::DeleteBack(DeleteBack::new(4)),
        Operation::UpLine(UpLine::new(1)),
        Operation::InsertString(InsertString::new("x".repeat(300))),
        Operation::CursorLeft(CursorLeft(301)),
        Operation::DownLine(DownLine::new(2)),
        Operation::EndOfLine(EndOfLine::new()),
    ];
    for op in ops {
        buf.apply(op);
        index_is_consistent(&buf);
    }
    for _ in 0..10 {
        buf.undo();
        index_is_consistent(&buf);
    }
}

#[test]
fn moves_out_of_bounds_are_left_out() {
    let mut buf = typed("ab");
    buf.apply(Operation::CursorRight(CursorRight(1)));
    assert_eq!(buf.get_cursor(), 2);
    buf.apply(Operation::CursorLeft(CursorLeft(3)));
    assert_eq!(buf.get_cursor(), 2);
    buf.apply(Operation::DeleteBack(DeleteBack::new(3)));
    assert_eq!(buf.string(), "ab");
    buf.apply(Operation::UpLine(UpLine::new(1)));
    buf.apply(Operation::DownLine(DownLine::new(1)));
    assert_eq!(buf.get_cursor(), 2);
    assert_eq!(buf.operation_count(), 2);
}

#[test]
fn the_gap_grows_by_what_is_asked_for() {
    let mut buf = TextBuffer::new();
    assert_eq!(buf.get_length_raw(), 200);
    assert!(buf.get_content().iter().all(|cell| *cell == b' '));
    buf.apply(Operation::InsertString(InsertString::new("y".repeat(200))));
    assert_eq!(buf.get_gap_end() - buf.get_cursor(), 0);
    buf.apply(Operation::InsertChar(InsertChar('z')));
    // grown by the default size, then one cell taken
    assert_eq!(buf.get_length_raw(), 400);
    assert_eq!(buf.get_gap_end() - buf.get_cursor(), 199);
    buf.apply(Operation::InsertString(InsertString::new("w".repeat(500))));
    // grown by the five hundred cells asked for
    assert_eq!(buf.get_length_raw(), 900);
    assert_eq!(buf.get_gap_end() - buf.get_cursor(), 199);
    assert_eq!(buf.get_length(), 701);
    let gap_end = buf.get_gap_end();
    buf.realloc_gap(7);
    assert_eq!(buf.get_gap_end(), gap_end + 7);
    assert_eq!(buf.get_gap_end() - buf.get_cursor(), 206);
    buf.realloc_gap(3);
    assert_eq!(buf.get_gap_end() - buf.get_cursor(), 209);
    let cursor = buf.get_cursor();
    assert!(buf.get_content()[cursor + 199..cursor + 209].iter().all(|cell| *cell == b' '));
    assert_eq!(buf.get_length(), 701);
}

#[test]
fn a_long_insertion_into_a_new_buffer() {
    let mut buf = TextBuffer::new();
    let text = "x".repeat(300);
    buf.apply(Operation::InsertString(InsertString::new(text.clone())));
    assert_eq!(buf.string(), text);
    assert_eq!(buf.get_cursor(), 300);
    assert!(buf.get_length_raw() >= 500);
    assert_eq!(buf.get_length_raw(), 500);
}

#[test]
fn lines_up_and_down_keep_the_column() {
    let mut buf = typed("hello\nhi\nworld!");
    // on the last line, column 6
    assert_eq!(buf.get_cursor_row(), 2);
    assert_eq!(buf.get_cursor_col(), 6);
    buf.apply(Operation::UpLine(UpLine::new(1)));
    // the line above has two bytes only
    assert_eq!(buf.get_cursor(), 8);
    assert_eq!(buf.get_cursor_row(), 1);
    assert_eq!(buf.get_cursor_col(), 2);
    buf.apply(Operation::UpLine(UpLine::new(1)));
    assert_eq!(buf.get_cursor(), 2);
    buf.apply(Operation::DownLine(DownLine::new(2)));
    assert_eq!(buf.get_cursor(), 11);
    buf.undo();
    assert_eq!(buf.get_cursor(), 2);
    buf.apply(Operation::EndOfLine(EndOfLine::new()));
    assert_eq!(buf.get_cursor(), 5);
    buf.undo();
    assert_eq!(buf.get_cursor(), 2);
    buf.apply(Operation::DownLine(DownLine::new(3)));
    assert_eq!(buf.get_cursor(), 2);
    assert_eq!(buf.string(), "hello\nhi\nworld!");
}

#[test]
fn undo_before_apply_is_a_logic_error() {
    let mut store = GapBuffer::new();
    store.put(b'a');
    assert!(matches!(
        DeleteBack::new(0).undo(&mut store),
        Err(TBOperationError::LogicError(Some(_)))
    ));
    assert!(matches!(
        DownLine::new(1).undo(&mut store),
        Err(TBOperationError::LogicError(None))
    ));
    assert!(matches!(
        DeleteBack::new(2).apply(&mut store),
        Err(TBOperationError::MovesOutOfBounds)
    ));
    assert!(matches!(
        InsertString::new("x".repeat(300)).apply(&mut store),
        Err(TBOperationError::GapTooSmall { required: 300 })
    ));
    assert!(InsertChar('b').modifies());
    assert!(!EndOfLine::new().modifies());
    assert_eq!(current_line(1, store.get_metrics()), 0);
}

#[test]
fn characters_are_cut_to_a_byte() {
    let mut buf = TextBuffer::new();
    buf.apply(Operation::InsertChar(InsertChar('\u{141}')));
    assert_eq!(buf.text_bytes(), vec![0x41]);
    assert_eq!(buf.string_raw().len(), 200);
}

#[test]
fn moves_by_lines_do_not_count_as_modifying() {
    assert!(Operation::InsertChar(InsertChar('a')).modifies());
    assert!(Operation::InsertLinebreak(InsertLinebreak).modifies());
    assert!(Operation::InsertString(InsertString::new("ab".to_string())).modifies());
    assert!(Operation::DeleteBack(DeleteBack::new(1)).modifies());
    assert!(Operation::CursorLeft(CursorLeft(1)).modifies());
    assert!(Operation::CursorRight(CursorRight(1)).modifies());
    assert!(!Operation::DownLine(DownLine::new(1)).modifies());
    assert!(!Operation::UpLine(UpLine::new(1)).modifies());
    assert!(!Operation::EndOfLine(EndOfLine::new()).modifies());
}
