use nixdoc::parse::{parse_module, MAX_SOURCE_CHARS};
use nixdoc::syntax::Kind;

#[test]
fn parses_an_attribute_set() {
    let tree = parse_module("{ a = 1; }").expect("the text parses");
    let kinds: Vec<(Kind, usize, String)> =
        tree.elements.iter().map(|e| (e.kind, e.depth, e.text.clone())).collect();
    assert_eq!(kinds[0], (Kind::Expr, 0, String::new()));
    assert_eq!(kinds[1], (Kind::AttrSet, 1, String::new()));
    assert_eq!(kinds[2], (Kind::Token, 2, "{".to_string()));
    assert_eq!(kinds[3], (Kind::Whitespace, 2, " ".to_string()));
    assert_eq!(kinds[4], (Kind::AttrpathValue, 2, String::new()));
    assert_eq!(kinds[5], (Kind::Attrpath, 3, String::new()));
    assert_eq!(kinds[6], (Kind::Ident, 4, String::new()));
    assert_eq!(kinds[7], (Kind::Token, 5, "a".to_string()));
    assert_eq!(tree.source_text(4).iter().collect::<String>(), "a = 1;");
    assert_eq!(tree.child_list(1), vec![2, 3, 4, 14, 15]);
}

#[test]
fn rejects_a_text_that_does_not_parse() {
    assert!(parse_module("{ a = ; ").is_none());
}

#[test]
fn a_text_too_long_for_the_parser_has_no_tree() {
    assert_eq!(MAX_SOURCE_CHARS, 1 << 30);
    let src = " ".repeat(MAX_SOURCE_CHARS);
    assert!(parse_module(&src).is_none());
}
