use demys::textedit::buffer::{Operation, TextBuffer};
use demys::textedit::operation::{
    CursorLeft, CursorRight, DeleteBack, InsertChar, InsertLinebreak, InsertString,
};

fn insert_char_op(c: char) -> Operation {
    Operation::InsertChar(InsertChar(c))
}

fn left(count: usize) -> Operation {
    Operation::CursorLeft(CursorLeft(count))
}

fn right(count: usize) -> Operation {
    Operation::CursorRight(CursorRight(count))
}

#[test]
fn insert_char() {
    let mut buf = TextBuffer::new();

    buf.apply(insert_char_op('1'));

    assert_eq!(buf.get_cursor(), 1);
    assert_eq!(buf.get_length(), 1);
    assert_eq!("1".to_string(), buf.string());

    buf.apply(insert_char_op('2'));
    buf.apply(insert_char_op('3'));
    buf.apply(insert_char_op('4'));

    assert_eq!(buf.get_cursor(), 4);
    assert_eq!(buf.get_length(), 4);
    assert_eq!("1234".to_string(), buf.string());
}

#[test]
fn insert_string() {
    let mut buf = TextBuffer::new();

    let string1 = "foobar".to_string();

    buf.apply(Operation::InsertString(InsertString::new(string1.clone())));

    assert_eq!(buf.string(), string1);
}

#[test]
fn cursor_movements() {
    let mut buf = TextBuffer::new();

    buf.apply(insert_char_op('0'));
    buf.apply(insert_char_op('1'));
    buf.apply(insert_char_op('2'));

    buf.apply(left(1));
    assert_eq!(buf.get_cursor(), 2);

    buf.apply(insert_char_op('N'));
    assert_eq!("01N2".to_string(), buf.string());

    buf.apply(left(3));
    assert_eq!(buf.get_cursor(), 0);

    buf.apply(insert_char_op('A'));
    buf.apply(insert_char_op('B'));
    assert_eq!("AB01N2".to_string(), buf.string());

    buf.apply(right(2));
    assert_eq!(buf.get_cursor(), 4);
    buf.apply(insert_char_op(' '));
    assert_eq!("AB01 N2".to_string(), buf.string());
}

#[test]
fn gap_reallocates_correctly() {
    let mut buf = TextBuffer::new();
    buf.apply(insert_char_op('0'));
    buf.apply(insert_char_op('1'));
    buf.apply(insert_char_op('2'));
    buf.apply(insert_char_op('3'));
    buf.apply(left(2));

    buf.realloc_gap(2);

    assert_eq!("0123".to_string(), buf.string());

    buf.apply(insert_char_op('X'));
    assert_eq!("01X23".to_string(), buf.string());
}

#[test]
fn apply_operation_undo() {
    let mut buf = TextBuffer::new();

    buf.apply(insert_char_op('0'));
    buf.apply(insert_char_op('1'));
    buf.apply(insert_char_op('2'));

    assert_eq!("012".to_string(), buf.string());

    buf.undo();
    assert_eq!("01".to_string(), buf.string());

    buf.undo();
    assert_eq!("0".to_string(), buf.string());
}

#[test]
fn cursor_movements_undo() {
    let mut buf = TextBuffer::new();

    buf.apply(insert_char_op('0'));
    buf.apply(insert_char_op('1'));
    buf.apply(insert_char_op('2'));

    buf.apply(left(1));
    assert_eq!(buf.get_cursor(), 2);
    buf.undo();
    assert_eq!(buf.get_cursor(), 3);

    buf.apply(left(2));
    buf.apply(right(1));
    assert_eq!(buf.get_cursor(), 2);
    buf.undo();
    assert_eq!(buf.get_cursor(), 1);
}

#[test]
fn insert_char_reallocs() {
    let mut buf = TextBuffer::new();

    buf.apply(insert_char_op('0'));
    buf.apply(insert_char_op('1'));

    buf.apply(left(1));

    buf.apply(insert_char_op('2'));
    assert!(buf.get_gap_end() - buf.get_cursor() > 2);
    assert_eq!("021".to_string(), buf.string());
}

#[test]
fn insert_string_reallocs() {
    let mut buf = TextBuffer::new();

    let string1 = "foobar".to_string();

    buf.apply(Operation::InsertString(InsertString::new(string1.clone())));
    assert!(buf.get_gap_end() - buf.get_cursor() > 2);
    assert_eq!(buf.string(), string1);
}

#[test]
fn linebreaks_tracked_across_delete() {
    let mut buf = TextBuffer::new();
    buf.apply(insert_char_op('0'));

    buf.apply(Operation::InsertLinebreak(InsertLinebreak));
    assert_eq!(buf.get_new_lines()[0], 1);
    assert_eq!(buf.linebreak_order(buf.get_new_lines()[0]), 0);

    buf.apply(Operation::DeleteBack(DeleteBack::new(1)));
    assert_eq!(buf.get_new_lines().len(), 0);

    buf.undo();
    assert_eq!(buf.get_new_lines()[0], 1);
    assert_eq!(buf.linebreak_order(buf.get_new_lines()[0]), 0);
}

#[test]
fn get_line() {
    let mut buf = TextBuffer::new();
    buf.apply(insert_char_op('0'));
    buf.apply(insert_char_op('1'));
    buf.apply(insert_char_op('2'));
    buf.apply(Operation::InsertLinebreak(InsertLinebreak));
    buf.apply(insert_char_op('3'));

    buf.apply(left(1));

    buf.apply(left(1));
}

#[test]
fn linebreaks_tracked() {
    let mut buf = TextBuffer::new();
    buf.apply(insert_char_op('0'));

    buf.apply(Operation::InsertLinebreak(InsertLinebreak));
    assert_eq!(buf.get_new_lines().len(), 1);
    assert_eq!(buf.get_new_lines()[0], 1);
    assert_eq!(buf.linebreak_order(buf.get_new_lines()[0]), 0);

    buf.apply(insert_char_op('1'));

    assert_eq!(buf.get_new_lines()[0], 1);
    assert_eq!(buf.linebreak_order(buf.get_new_lines()[0]), 0);

    buf.undo();
    buf.undo();
    assert_eq!(buf.get_new_lines().len(), 0);
}

#[test]
fn linebreaks_tracked_across_gap() {
    let mut buf = TextBuffer::new();
    buf.apply(insert_char_op('0'));

    buf.apply(Operation::InsertLinebreak(InsertLinebreak));
    assert_eq!(buf.get_new_lines()[0], 1);
    assert_eq!(buf.linebreak_order(buf.get_new_lines()[0]), 0);

    // the linebreak is carried over the gap: it is the first byte behind it
    buf.apply(left(1));
    assert_eq!(buf.get_new_lines()[0], buf.get_gap_end());
    assert_eq!(buf.get_content()[buf.get_gap_end()], b'\n');

    buf.apply(right(1));
    assert_eq!(buf.get_new_lines()[0], 1);
}
