use gn_language_server::line_index::{LineIndex, Position};

#[test]
fn line_index() {
    let input = "\n\nfoo\n\n";
    let index = LineIndex::new(input);

    assert_eq!(index.position(0), Position::new(0, 0));
    assert_eq!(index.position(1), Position::new(1, 0));
    assert_eq!(index.position(2), Position::new(2, 0));
    assert_eq!(index.position(3), Position::new(2, 1));
    assert_eq!(index.position(4), Position::new(2, 2));
    assert_eq!(index.position(5), Position::new(2, 3));
    assert_eq!(index.position(6), Position::new(3, 0));
    assert_eq!(index.position(7), Position::new(4, 0));

    assert_eq!(index.offset(Position::new(0, 0)), Some(0));
    assert_eq!(index.offset(Position::new(1, 0)), Some(1));
    assert_eq!(index.offset(Position::new(2, 0)), Some(2));
    assert_eq!(index.offset(Position::new(2, 1)), Some(3));
    assert_eq!(index.offset(Position::new(2, 2)), Some(4));
    assert_eq!(index.offset(Position::new(2, 3)), Some(5));
    assert_eq!(index.offset(Position::new(3, 0)), Some(6));
    assert_eq!(index.offset(Position::new(4, 0)), Some(7));
    assert_eq!(index.offset(Position::new(4, 1)), None);
    assert_eq!(index.offset(Position::new(5, 0)), None);
}

#[test]
fn line_index_no_last_newline() {
    let input = "\n\nfoo";
    let index = LineIndex::new(input);

    assert_eq!(index.position(0), Position::new(0, 0));
    assert_eq!(index.position(1), Position::new(1, 0));
    assert_eq!(index.position(2), Position::new(2, 0));
    assert_eq!(index.position(3), Position::new(2, 1));
    assert_eq!(index.position(4), Position::new(2, 2));
    assert_eq!(index.position(5), Position::new(2, 3));

    assert_eq!(index.offset(Position::new(0, 0)), Some(0));
    assert_eq!(index.offset(Position::new(1, 0)), Some(1));
    assert_eq!(index.offset(Position::new(2, 0)), Some(2));
    assert_eq!(index.offset(Position::new(2, 1)), Some(3));
    assert_eq!(index.offset(Position::new(2, 2)), Some(4));
    assert_eq!(index.offset(Position::new(2, 3)), Some(5));
    assert_eq!(index.offset(Position::new(3, 0)), None);
}

#[test]
fn line_index_empty() {
    let input = "";
    let index = LineIndex::new(input);

    assert_eq!(index.position(0), Position::new(0, 0));

    assert_eq!(index.offset(Position::new(0, 0)), Some(0));
    assert_eq!(index.offset(Position::new(1, 0)), None);
    assert_eq!(index.offset(Position::new(0, 1)), None);
}

#[test]
fn line_index_roundtrip_multibyte() {
    // "é" takes two bytes and one UTF-16 unit; "😀" takes four bytes and two units.
    let input = "aé\n😀b";
    let index = LineIndex::new(input);
    assert_eq!(index.position(3), Position::new(0, 2));
    assert_eq!(index.position(8), Position::new(1, 2));
    assert_eq!(index.position(9), Position::new(1, 3));
    // Inside a character: column 0.
    assert_eq!(index.position(2), Position::new(0, 0));
    for offset in [0usize, 1, 3, 4, 8, 9] {
        assert_eq!(index.offset(index.position(offset)), Some(offset));
    }
}
