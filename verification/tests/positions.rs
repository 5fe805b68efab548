use ayml_lsp::text::{offset_to_position, position_to_offset, Position};

#[test]
fn position_offset_roundtrip() {
    let input = "line0\nline1\nline2";
    for offset in 0..input.len() {
        let pos = offset_to_position(input, offset);
        let back = position_to_offset(input, pos);
        assert_eq!(
            back, offset,
            "roundtrip failed for offset {offset} -> pos ({}, {}) -> {back}",
            pos.line, pos.character
        );
    }
}

#[test]
fn offset_to_position_counts_lines_and_characters() {
    let input = "ab\ncd\r\nef";
    assert_eq!(offset_to_position(input, 0), Position::new(0, 0));
    assert_eq!(offset_to_position(input, 4), Position::new(1, 1));
    // A `\r\n` pair is one line break.
    assert_eq!(offset_to_position(input, 6), Position::new(2, 0));
    assert_eq!(offset_to_position(input, 7), Position::new(2, 0));
    // Past the end is the end.
    assert_eq!(offset_to_position(input, 100), Position::new(2, 2));
}

#[test]
fn offset_to_position_counts_characters_not_bytes() {
    let input = "é: x";
    assert_eq!(offset_to_position(input, 2), Position::new(0, 1));
    assert_eq!(offset_to_position(input, 5), Position::new(0, 4));
}

#[test]
fn position_past_end_of_line_lands_on_line_break() {
    let input = "ab\ncd";
    assert_eq!(position_to_offset(input, Position::new(0, 7)), 2);
    assert_eq!(position_to_offset(input, Position::new(1, 1)), 4);
    assert_eq!(position_to_offset(input, Position::new(5, 0)), 5);
}

#[test]
fn position_roundtrip_with_multibyte_characters() {
    let input = "ä: ü\nß: 1";
    for (offset, _) in input.char_indices() {
        let pos = offset_to_position(input, offset);
        assert_eq!(position_to_offset(input, pos), offset);
    }
    let end = offset_to_position(input, input.len());
    assert_eq!(position_to_offset(input, end), input.len());
}

#[test]
fn crlf_is_one_line_break_for_offsets() {
    let input = "a\r\nb";
    assert_eq!(offset_to_position(input, 1), Position::new(0, 1));
    assert_eq!(offset_to_position(input, 3), Position::new(1, 0));
    assert_eq!(offset_to_position(input, 4), Position::new(1, 1));
    // Reading a position counts the `\r` and the `\n` as two line breaks.
    assert_eq!(position_to_offset(input, Position::new(1, 0)), 2);
    assert_eq!(position_to_offset(input, Position::new(2, 0)), 3);
    assert_eq!(position_to_offset(input, Position::new(0, 7)), 1);
    assert_eq!(offset_to_position("a\r\rb", 3), Position::new(2, 0));
    assert_eq!(offset_to_position("a\n\rb", 3), Position::new(2, 0));
}
