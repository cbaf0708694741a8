use demys::plot::Plot;
use demys::textedit::buffer_display::wrap_content;

fn bytes(text: &str) -> Vec<u8> {
    text.as_bytes().to_vec()
}

#[test]
fn test_wraps_content() {
    let content = "012345\n678910X\nthis line is extraaa long".to_string();

    let dim = Plot::new(10, 6);
    let (wrapped, _) = wrap_content(content.clone(), dim, 0);

    assert_eq!(wrapped[0], vec![bytes("012345")]);
    assert_eq!(wrapped[1], vec![bytes("678910"), bytes("X")]);
    assert_eq!(wrapped[2].len(), 5);
}

#[test]
fn test_cursor() {
    let content = "012345\n678910X\nthis line is extraaa long".to_string();

    let dim = Plot::new(10, 6);

    let (_, cursor) = wrap_content(content.clone(), dim, 0);
    assert_eq!(cursor, Plot::new(0, 0));

    let (_, cursor) = wrap_content(content.clone(), dim, 5);
    assert_eq!(cursor, Plot::new(0, 5));

    let (_, cursor) = wrap_content(content.clone(), dim, 6);
    assert_eq!(cursor, Plot::new(0, 6));

    let (_, cursor) = wrap_content(content.clone(), dim, 13);
    assert_eq!(cursor, Plot::new(2, 0));

    // behind the last byte of the last subline of its line
    let (_, cursor) = wrap_content(content.clone(), dim, 14);
    assert_eq!(cursor, Plot::new(2, 1));
}

#[test]
fn test_cursor_empty_lines() {
    let content = "012345\n\n\nthis line is extraa long".to_string();
    let dim = Plot::new(10, 6);

    let (_, cursor) = wrap_content(content.clone(), dim, 0);
    assert_eq!(cursor, Plot::new(0, 0));

    let (_, cursor) = wrap_content(content.clone(), dim, 6);
    assert_eq!(cursor, Plot::new(0, 6));

    let (_, cursor) = wrap_content(content.clone(), dim, 7);
    assert_eq!(cursor, Plot::new(1, 0));

    let (_, cursor) = wrap_content(content.clone(), dim, 8);
    assert_eq!(cursor, Plot::new(2, 0));
}

#[test]
fn the_cursor_stays_within_the_columns() {
    let content = "abcdefghij".to_string();
    let dim = Plot::new(10, 3);
    for at in 0..10 {
        let (_, cursor) = wrap_content(content.clone(), dim, at);
        assert_eq!(cursor, Plot::new(at / 3, at % 3));
    }
    // behind the last byte of the text
    let (_, cursor) = wrap_content(content.clone(), dim, 10);
    assert_eq!(cursor, Plot::new(3, 1));
    let (_, cursor) = wrap_content("abcdef".to_string(), dim, 6);
    assert_eq!(cursor, Plot::new(1, 3));
}

#[test]
fn cursor_past_the_end_is_at_the_origin() {
    let (lines, cursor) = wrap_content("ab".to_string(), Plot::new(5, 5), 100);
    assert_eq!(lines, vec![vec![bytes("ab")]]);
    assert_eq!(cursor, Plot::new(0, 0));
}

#[test]
fn empty_lines_take_a_row_each() {
    let (lines, cursor) = wrap_content("a\n\nb\n".to_string(), Plot::new(9, 3), 3);
    assert_eq!(
        lines,
        vec![vec![bytes("a")], vec![bytes("")], vec![bytes("b")], vec![bytes("")]]
    );
    assert_eq!(cursor, Plot::new(2, 0));
}

#[test]
fn a_line_gets_no_subline_beyond_the_rows() {
    let (lines, _) = wrap_content("abcdefgh\nxy".to_string(), Plot::new(2, 2), 0);
    assert_eq!(lines, vec![vec![bytes("ab"), bytes("cd")], vec![bytes("xy")]]);
}
