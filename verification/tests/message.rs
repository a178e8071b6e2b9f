use matrixise::message::{copy_cells, BLANK, BOLD};
use matrixise::{ColorChar, Message};

#[test]
fn color_char_new_keeps_both_fields() {
    let c = ColorChar::new(65, 256);
    assert_eq!(c.data, 65);
    assert_eq!(c.attr, 256);
    assert_eq!(c, ColorChar { data: 65, attr: 256 });
}

#[test]
fn blank_is_a_space() {
    assert_eq!(BLANK, ' ' as u32);
}

#[test]
fn message_new_keeps_contents_and_id() {
    let cells = vec![ColorChar::new(72, 1), ColorChar::new(105, 2)];
    let m = Message::new(cells.clone(), "greeting");
    assert_eq!(m.contents, cells);
    assert_eq!(m.id, "greeting");
    assert_eq!(m.len(), 2);
}

#[test]
fn new_simple_makes_one_cell_per_byte() {
    let m = Message::new_simple("Hi!", 512, "0");
    assert_eq!(
        m.contents,
        vec![ColorChar::new(72, 512), ColorChar::new(105, 512), ColorChar::new(33, 512)]
    );
    assert_eq!(m.id, "0");
    assert_eq!(m.len(), 3);
}

#[test]
fn new_simple_of_nothing_is_empty() {
    let m = Message::new_simple("", 512, "none");
    assert_eq!(m.len(), 0);
    assert!(m.contents.is_empty());
}

#[test]
fn new_simple_counts_bytes_not_characters() {
    let m = Message::new_simple("é", 0, "e");
    assert_eq!(m.len(), 2);
    assert_eq!(m.contents[0].data, 0xc3);
    assert_eq!(m.contents[1].data, 0xa9);
}

#[test]
fn new_with_title_makes_the_title_bold() {
    let m = Message::new_with_title("M0", "+1", 256, "0");
    assert_eq!(BOLD, 1 << 21);
    assert_eq!(
        m.contents,
        vec![
            ColorChar::new(77, 256 | (1 << 21)),
            ColorChar::new(48, 256 | (1 << 21)),
            ColorChar::new(43, 256),
            ColorChar::new(49, 256),
        ]
    );
    assert_eq!(m.id, "0");
    assert_eq!(m.len(), 4);
}

#[test]
fn new_with_title_without_title_or_body() {
    let only_body = Message::new_with_title("", "b", 3, "x");
    assert_eq!(only_body.contents, vec![ColorChar::new(98, 3)]);
    let only_title = Message::new_with_title("t", "", 3, "x");
    assert_eq!(only_title.contents, vec![ColorChar::new(116, 3 | BOLD)]);
}

#[test]
fn clone_copies_contents_and_id() {
    let m = Message::new_simple("copy me", 9, "c");
    let n = m.clone();
    assert_eq!(n.contents, m.contents);
    assert_eq!(n.id, m.id);
}

#[test]
fn copy_cells_copies() {
    let cells = vec![ColorChar::new(1, 2), ColorChar::new(3, 4)];
    assert_eq!(copy_cells(&cells), cells);
    assert_eq!(copy_cells(&Vec::new()), Vec::new());
}
