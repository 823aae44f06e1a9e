use nixdoc::commonmark::ManualEntry;

#[test]
fn test_empty_prefix() {
    let test_entry = ManualEntry {
        args: vec![],
        category: "test".to_string(),
        location: None,
        description: vec![],
        example: None,
        fn_type: None,
        name: "mapSimple'".to_string(),
        prefix: "".to_string(),
    };

    let (ident, title) = test_entry.get_ident_title();

    assert_eq!(ident, "test.mapSimple-prime");
    assert_eq!(title, "test.mapSimple'");
}
