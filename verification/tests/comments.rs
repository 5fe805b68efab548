use ayml_lsp::text::is_in_comment;

#[test]
fn full_comment_line() {
    let input = "  # this is a comment\nkey: val";
    // Every position on the comment line should be detected.
    for col in 0..21 {
        let offset = col;
        assert!(
            is_in_comment(input, offset),
            "offset {offset} should be in comment"
        );
    }
}

#[test]
fn not_in_comment_on_key_value() {
    let input = "key: value";
    for offset in 0..input.len() {
        assert!(
            !is_in_comment(input, offset),
            "offset {offset} should not be in comment"
        );
    }
}

#[test]
fn inline_comment_detected() {
    let input = "key: value # comment";
    // Offsets on "key: value" (0..10) are not in comment.
    for offset in 0..10 {
        assert!(
            !is_in_comment(input, offset),
            "offset {offset} should not be in comment"
        );
    }
    // The space before `#` (offset 10) is not in comment.
    assert!(!is_in_comment(input, 10));
    // The `#` itself (offset 11) and after are in comment.
    for offset in 11..input.len() {
        assert!(
            is_in_comment(input, offset),
            "offset {offset} should be in comment"
        );
    }
}

#[test]
fn hash_in_quoted_string_not_comment() {
    let input = "key: \"foo#bar\"";
    // No position should be detected as comment.
    for offset in 0..input.len() {
        assert!(
            !is_in_comment(input, offset),
            "offset {offset} should not be in comment (hash is inside quotes)"
        );
    }
}

#[test]
fn schema_directive_line_is_comment() {
    let input = "# language-server: $schema=https://example.com\nkey: val";
    assert!(is_in_comment(input, 0));
    assert!(is_in_comment(input, 10));
    // After the newline, on "key: val" line.
    let key_offset = input.find("key").unwrap();
    assert!(!is_in_comment(input, key_offset));
}

#[test]
fn comment_after_quoted_hash_is_detected() {
    let input = "key: \"a#b\" # note";
    let hash = input.rfind('#').unwrap();
    assert!(!is_in_comment(input, hash - 1));
    assert!(is_in_comment(input, hash));
}

#[test]
fn comment_line_reaches_only_its_own_line() {
    let input = "a: 1\n  # note\nb: 2";
    let note = input.find('#').unwrap();
    assert!(is_in_comment(input, note - 1));
    let b = input.find('b').unwrap();
    assert!(!is_in_comment(input, b));
}

#[test]
fn blank_line_before_comment_line_is_not_comment() {
    // The line holding the offset is blank; the next line is a comment,
    // and the search for the first non-blank byte runs into the line break.
    let input = "   \n# c";
    assert!(!is_in_comment(input, 1));
}

#[test]
fn offset_at_end_of_text() {
    assert!(is_in_comment("x # y", 5));
    assert!(!is_in_comment("x: y", 4));
    assert!(!is_in_comment("", 0));
}

#[test]
fn hash_without_blank_before_is_not_comment() {
    let input = "key: foo#bar";
    for offset in 0..=input.len() {
        assert!(!is_in_comment(input, offset), "offset {offset} should not be in comment");
    }
    let tab = "key: foo\t#bar";
    assert!(!is_in_comment(tab, 8));
    assert!(is_in_comment(tab, 9));
}

#[test]
fn answer_depends_only_on_the_line() {
    let line = "key: value # comment\n";
    for offset in 0..line.len() {
        let alone = is_in_comment(line, offset);
        let framed = format!("# head\nother: \"#\n{line}tail # x");
        assert_eq!(is_in_comment(&framed, 17 + offset), alone, "offset {offset}");
    }
}
