use nixdoc::format::{handle_indentation, shift_headings};
use nixdoc::legacy::parse_doc_comment;

#[test]
fn indentation_common_to_the_later_lines_is_removed() {
    assert_eq!(
        handle_indentation(" foo is\n     the value:\n       10\n  "),
        Some("foo is\nthe value:\n  10".to_string())
    );
}

#[test]
fn blank_lines_do_not_count_for_the_indentation() {
    assert_eq!(
        handle_indentation("a\n    b\n\n  \n      c"),
        Some("a\nb\n\n\n  c".to_string())
    );
}

#[test]
fn only_one_blank_line_is_dropped_at_the_end() {
    assert_eq!(handle_indentation("a\n\n"), Some("a\n".to_string()));
    assert_eq!(handle_indentation("a\n"), Some("a".to_string()));
    assert_eq!(handle_indentation("a"), Some("a".to_string()));
}

#[test]
fn nothing_is_left_of_an_empty_text() {
    assert_eq!(handle_indentation(""), None);
    assert_eq!(handle_indentation("   "), None);
    assert_eq!(handle_indentation("\n"), None);
}

#[test]
fn a_first_line_that_is_blank_stays() {
    assert_eq!(handle_indentation("\n    Docs\n  "), Some("\nDocs".to_string()));
}

#[test]
fn stripping_twice_is_stripping_once() {
    for raw in [" foo\n   bar\n     baz\n", "x\n\ty\n\t\tz", "\n  a\n b", "one line", "a\n\n  b\n"] {
        let once = handle_indentation(raw).unwrap();
        assert_eq!(handle_indentation(&once), Some(once.clone()), "for {raw:?}");
    }
}

#[test]
fn two_blank_lines_at_the_end_go_one_at_a_time() {
    let once = handle_indentation("a\n\n").unwrap();
    assert_eq!(once, "a\n");
    assert_eq!(handle_indentation(&once), Some("a".to_string()));
}

#[test]
fn headings_move_down_by_the_levels_given() {
    assert_eq!(
        shift_headings("# Title\ntext\n## Sub\n  # no heading\n", 2),
        "### Title\ntext\n#### Sub\n  # no heading\n"
    );
}

#[test]
fn headings_are_not_capped() {
    assert_eq!(shift_headings("###### deep", 3), "######### deep");
}

#[test]
fn shifting_by_nothing_changes_nothing() {
    let text = "# a\n\nb\n## c\n#\n";
    assert_eq!(shift_headings(text, 0), text);
    assert_eq!(shift_headings("", 0), "");
}

#[test]
fn shifting_twice_adds_up() {
    let text = "intro\n# one\n### three\nend";
    assert_eq!(shift_headings(&shift_headings(text, 1), 2), shift_headings(text, 3));
    assert_eq!(shift_headings(&shift_headings(text, 0), 4), shift_headings(text, 4));
}

#[test]
fn a_comment_is_split_into_its_sections() {
    let comment = parse_doc_comment("Does X.\nType: a -> b\nExample: f 1");
    assert_eq!(comment.doc, "Does X.");
    assert_eq!(comment.doc_type.as_deref(), Some("a -> b"));
    assert_eq!(comment.example.as_deref(), Some("f 1"));
}

#[test]
fn sections_keep_their_lines_until_the_next_marker() {
    let comment = parse_doc_comment(
        " Adds.\n\n   More words.\n\n   Type:\n     add :: int\n       -> int\n\n   Example:\n     add 1 2\n     => 3\n",
    );
    assert_eq!(comment.doc, "Adds.\n\nMore words.\n");
    assert_eq!(comment.doc_type.as_deref(), Some("\nadd :: int\n  -> int\n"));
    assert_eq!(comment.example.as_deref(), Some("\nadd 1 2\n=> 3"));
}

#[test]
fn there_is_no_way_back_to_the_documentation() {
    let comment = parse_doc_comment("one\nExample: e\nType: t\nmore type\nExample: again\nlast");
    assert_eq!(comment.doc, "one");
    assert_eq!(comment.doc_type.as_deref(), Some("t\nmore type"));
    assert_eq!(comment.example.as_deref(), Some("e\n again\nlast"));
}

#[test]
fn a_comment_without_markers_has_neither_type_nor_example() {
    let comment = parse_doc_comment("just words");
    assert_eq!(comment.doc, "just words");
    assert_eq!(comment.doc_type, None);
    assert_eq!(comment.example, None);
    let empty = parse_doc_comment("");
    assert_eq!(empty.doc, "");
    assert_eq!(empty.doc_type, None);
}
