use csview::cells::Cell;

#[test]
fn cell_new_stores_newline_as_hidden_escape() {
    let cell = Cell::new("a\nb");

    assert_eq!(cell.content, "ab");
    assert_eq!(cell.escape_sequences.len(), 1);
    assert_eq!(cell.escape_sequences[0].seq, "\n");
    assert_eq!(cell.escape_sequences[0].start, 1);
    assert_eq!(cell.escape_sequences[0].len, 1);
}

#[test]
fn raw_content_reinserts_hidden_escapes() {
    let cell = Cell::new("a\nb\x1b[31mc");

    assert_eq!(cell.content, "abc");
    assert_eq!(cell.raw_content(), "a\nb\x1b[31mc");
}

#[test]
fn raw_content_of_plain_text_is_the_text() {
    let cell = Cell::new("plain text");
    assert_eq!(cell.content, "plain text");
    assert_eq!(cell.escape_sequences.len(), 0);
    assert_eq!(cell.raw_content(), "plain text");
}

#[test]
fn escape_at_start_is_kept_with_its_position() {
    let cell = Cell::new("\x1b[1mbold\x1b[0m");
    assert_eq!(cell.content, "bold");
    assert_eq!(cell.escape_sequences.len(), 2);
    assert_eq!(cell.escape_sequences[0].seq, "\x1b[1m");
    assert_eq!(cell.escape_sequences[0].start, 0);
    assert_eq!(cell.escape_sequences[1].seq, "\x1b[0m");
    assert_eq!(cell.escape_sequences[1].start, 4);
    assert_eq!(cell.raw_content(), "\x1b[1mbold\x1b[0m");
}
