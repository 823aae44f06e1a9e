use nixdoc::legacy::Locations;
use nixdoc::resolve::{collect_entries, extract_file_doc, resolve_let_ident, retrieve_description};
use nixdoc::syntax::{Element, Kind, Pick};
use nixdoc::{parse_module, ManualEntry, SyntaxTree};

fn entries_of(src: &str, export: Option<Vec<String>>) -> Vec<ManualEntry> {
    let tree = parse_module(src).expect("failed to parse input");
    collect_entries(&tree, "lib", "test", &Locations::new(), &export)
}

fn names_of(entries: &[ManualEntry]) -> Vec<String> {
    entries.iter().map(|e| e.name.clone()).collect()
}

#[test]
fn test_file_doc_no_doc() {
    // A file without a file-level doc comment
    let src = "{ foo = 1; }";
    let nix = parse_module(src).expect("failed to parse input");

    let doc = extract_file_doc(&nix);
    assert!(doc.is_none());
}

#[test]
fn file_doc_is_read_from_a_leading_comment() {
    let tree = parse_module("/* About this file.\n   More. */\n{ foo = 1; }").unwrap();
    assert_eq!(extract_file_doc(&tree), Some("About this file.\nMore. ".to_string()));
    assert_eq!(
        retrieve_description(&tree, "Debug", "debug"),
        "# Debug {#sec-functions-library-debug}\nAbout this file.\nMore. \n"
    );
    assert_eq!(retrieve_description(&tree, "", ""), "");
}

#[test]
fn documented_bindings_of_an_attribute_set_are_entries() {
    let src = "{\n  /* Adds one.\n     Type: int -> int\n     Example: inc 1 */\n  inc = x: x + 1;\n\n  /** Takes one away. */\n  dec = x: x - 1;\n}";
    let entries = entries_of(src, None);
    assert_eq!(names_of(&entries), vec!["inc", "dec"]);
    assert_eq!(entries[0].description, vec!["Adds one."]);
    assert_eq!(entries[0].fn_type.as_deref(), Some("int -> int"));
    assert_eq!(entries[0].example.as_deref(), Some("inc 1"));
    assert_eq!(entries[0].args.len(), 1);
    assert_eq!(entries[1].description, vec!["Takes one away. "]);
    assert_eq!(entries[1].fn_type, None);
    assert_eq!(entries[1].args.len(), 0);
    assert_eq!(entries[0].prefix, "lib");
    assert_eq!(entries[0].category, "test");
}

#[test]
fn a_binding_without_a_comment_is_left_out() {
    let with = "{\n  /* a */\n  a = 1;\n  b = 2;\n  /* c */\n  c = 3;\n}";
    let without = "{\n  /* a */\n  a = 1;\n  /* c */\n  c = 3;\n}";
    assert_eq!(names_of(&entries_of(with, None)), vec!["a", "c"]);
    assert_eq!(names_of(&entries_of(without, None)), vec!["a", "c"]);
}

#[test]
fn an_alias_chain_leads_to_the_value() {
    let tree = parse_module("let x = y; y = 5; in x").unwrap();
    let let_in = tree.find_scope_node().unwrap();
    assert_eq!(tree.elements[let_in].kind, Kind::LetIn);
    let body = tree.first_child(let_in, Pick::AnyExpr).unwrap();
    assert_eq!(tree.elements[body].kind, Kind::Ident);
    let value = resolve_let_ident(&tree, let_in, body).unwrap();
    assert_eq!(tree.source_text(value).iter().collect::<String>(), "5");
}

#[test]
fn an_alias_that_goes_in_a_circle_stands_for_nothing() {
    let tree = parse_module("let x = y; y = x; in x").unwrap();
    let let_in = tree.find_scope_node().unwrap();
    let body = tree.first_child(let_in, Pick::AnyExpr).unwrap();
    assert_eq!(resolve_let_ident(&tree, let_in, body), None);
    assert!(collect_entries(&tree, "", "", &Locations::new(), &None).is_empty());
}

#[test]
fn the_body_of_a_let_block_may_name_the_set() {
    let src = "let\n  self = other;\n  other = {\n    /* One */\n    one = 1;\n  };\nin self";
    assert_eq!(names_of(&entries_of(src, None)), vec!["one"]);
}

#[test]
fn inherit_brings_in_documented_bindings_of_the_block() {
    let src = "let\n  /* f */\n  f = x: x;\n  g = 1;\n  /* h */\n  h = 2;\nin {\n  inherit h g f;\n  inherit (other) z;\n  /* own */\n  own = 3;\n}";
    assert_eq!(names_of(&entries_of(src, None)), vec!["h", "f", "own"]);
}

#[test]
fn an_export_list_decides_names_and_order() {
    let src = "let\n  /* a */\n  exportedFunc = 1;\n  /* b */\n  anotherExported = 2;\n  /* c */\n  hidden = 3;\nin {\n  /* n */\n  notExported = 4;\n}";
    let export = vec!["anotherExported".to_string(), "missing".to_string(), "exportedFunc".to_string()];
    assert_eq!(names_of(&entries_of(src, Some(export))), vec!["anotherExported", "exportedFunc"]);
    assert_eq!(names_of(&entries_of(src, None)), vec!["notExported"]);
}

#[test]
fn patterns_are_no_scope() {
    let src = "{ a ? { /* no */ inner = 1; }, ... }:\n{\n  /* yes */\n  outer = 2;\n}";
    assert_eq!(names_of(&entries_of(src, None)), vec!["outer"]);
}

#[test]
fn line_comments_above_one_another_are_one_comment() {
    let src = "{ f =\n  # The first\n  # and second.\n  x:\n  x;\n}";
    let tree = parse_module(src).unwrap();
    let param = (0..tree.elements.len()).find(|&i| tree.elements[i].kind == Kind::IdentParam).unwrap();
    assert_eq!(
        nixdoc::legacy::retrieve_legacy_comment(&tree, param, true),
        Some("The first and second.".to_string())
    );
    assert_eq!(nixdoc::legacy::retrieve_legacy_comment(&tree, param, false), None);
}

#[test]
fn places_of_definition_are_looked_up_by_name() {
    let mut locs = Locations::new();
    locs.insert("a".to_string(), "[a.nix:1](https://example.org/a.nix#L1)".to_string());
    let tree = parse_module("{\n  /* a */\n  a = 1;\n  /* b */\n  b = 1;\n}").unwrap();
    let entries = collect_entries(&tree, "lib", "test", &locs, &None);
    assert_eq!(entries[0].location.as_deref(), Some("[a.nix:1](https://example.org/a.nix#L1)"));
    assert_eq!(entries[1].location, None);
}

#[test]
fn arguments_are_read_from_curried_lambdas() {
    let src = "{\n  /* Does it. */\n  f =\n    # The first.\n    a:\n    { b\n    , # About c.\n      c ? 1\n    , /** About d. */ d\n    }:\n    e: a;\n}";
    let entries = entries_of(src, None);
    assert_eq!(entries.len(), 1);
    let shown: Vec<String> = entries[0].args.iter().map(|a| format!("{:?}", a)).collect();
    assert_eq!(
        shown,
        vec![
            "Flat(SingleArg { name: \"a\", doc: Some(\"The first.\") })",
            "Pattern([SingleArg { name: \"b\", doc: None }, SingleArg { name: \"c\", doc: Some(\"About c.\") }, SingleArg { name: \"d\", doc: Some(\"About d. \") }])",
            "Flat(SingleArg { name: \"e\", doc: None })",
        ]
    );
}

#[test]
fn a_documentation_comment_gives_no_arguments() {
    let entries = entries_of("{\n  /** Doc. */\n  f = a: b: a;\n}", None);
    assert_eq!(entries[0].args.len(), 0);
}

#[test]
fn headings_of_a_documentation_comment_move_two_levels_down() {
    let src = "{\n  /**\n    Words.\n\n    # Inputs\n\n    `x`\n    : a value\n  */\n  f = x: x;\n}";
    let entries = entries_of(src, None);
    assert_eq!(
        entries[0].description,
        vec!["", "Words.", "", "### Inputs", "", "`x`", ": a value"]
    );
    let tree = parse_module(src).unwrap();
    let binding = (0..tree.elements.len()).find(|&i| tree.elements[i].kind == Kind::AttrpathValue).unwrap();
    assert_eq!(
        nixdoc::retrieve_doc_comment(&tree, binding, Some(0)),
        Some("\nWords.\n\n# Inputs\n\n`x`\n: a value".to_string())
    );
    assert_eq!(
        nixdoc::retrieve_doc_comment(&tree, binding, None),
        Some("\nWords.\n\n### Inputs\n\n`x`\n: a value".to_string())
    );
}

#[test]
fn a_documentation_comment_comes_before_one_without_a_marker() {
    let src = "{\n  /** Doc. */\n  /* Plain. */\n  f = 1;\n}";
    let entries = entries_of(src, None);
    assert_eq!(entries[0].description, vec!["Doc. "]);
}

#[test]
fn comments_that_open_with_three_stars_are_no_documentation() {
    let src = "{\n  /*** Box ***/\n  f = 1;\n  /**/\n  g = 2;\n}";
    let tree = parse_module(src).unwrap();
    let bindings: Vec<usize> =
        (0..tree.elements.len()).filter(|&i| tree.elements[i].kind == Kind::AttrpathValue).collect();
    assert_eq!(tree.get_doc_comment(bindings[0]), None);
    assert_eq!(tree.get_expr_docs(bindings[1]), None);
    assert_eq!(nixdoc::comment::doc_text("/** x */"), Some(" x ".to_string()));
    assert_eq!(nixdoc::comment::doc_text("/*** x */"), None);
    assert_eq!(nixdoc::comment::doc_text("/**/"), None);
    assert_eq!(nixdoc::comment::doc_text("/* x */"), None);
}

#[test]
fn keys_that_are_no_identifiers_make_no_entry() {
    let src = "{\n  /* a */\n  \"quoted\" = 1;\n  /* b */\n  ${dyn} = 2;\n  /* c */\n  a.b = 3;\n}";
    assert_eq!(names_of(&entries_of(src, None)), vec!["a.b"]);
}

#[test]
fn only_the_first_attribute_set_counts() {
    let src = "{\n  /* a */\n  a = {\n    /* inner */\n    inner = 1;\n  };\n}";
    assert_eq!(names_of(&entries_of(src, None)), vec!["a"]);
    let under_lambda = "{ pkgs }:\n{\n  /* a */\n  a = 1;\n}";
    assert_eq!(names_of(&entries_of(under_lambda, None)), vec!["a"]);
    assert!(entries_of("1 + 1", None).is_empty());
}

#[test]
fn of_two_bindings_with_one_name_the_later_is_inherited() {
    let src = "let\n  /* first */\n  f = 1;\n  /* second */\n  f = 2;\nin { inherit f; }";
    let export = Some(vec!["f".to_string()]);
    let tree = parse_module(src).unwrap();
    let entries = collect_entries(&tree, "", "", &Locations::new(), &export);
    assert_eq!(entries.len(), 1);
    assert_eq!(entries[0].description, vec!["second "]);
    assert_eq!(entries_of(src, None)[0].description, vec!["second "]);
}

#[test]
fn a_tree_can_be_written_by_hand() {
    let element = |kind: Kind, depth: usize, text: &str| Element { kind, depth, text: text.to_string() };
    let tree = SyntaxTree {
        elements: vec![
            element(Kind::Expr, 0, ""),
            element(Kind::AttrSet, 1, ""),
            element(Kind::Token, 2, "{"),
            element(Kind::Comment, 2, "/* Says a. */"),
            element(Kind::AttrpathValue, 2, ""),
            element(Kind::Attrpath, 3, ""),
            element(Kind::Ident, 4, ""),
            element(Kind::Token, 5, "a"),
            element(Kind::Token, 3, "="),
            element(Kind::Expr, 3, ""),
            element(Kind::Token, 4, "1"),
            element(Kind::Token, 3, ";"),
            element(Kind::Token, 2, "}"),
        ],
    };
    assert_eq!(tree.child_list(1), vec![2, 3, 4, 12]);
    assert_eq!(tree.child_list(99), Vec::<usize>::new());
    assert_eq!(tree.parent_of(4), Some(1));
    assert_eq!(tree.parent_of(0), None);
    assert_eq!(tree.prev_sibling_of(4), Some(3));
    assert_eq!(tree.prev_sibling_of(2), None);
    assert_eq!(tree.first_token_of(4), Some(7));
    assert_eq!(tree.prev_token_of(7), Some(3));
    assert_eq!(tree.end_of(4), 12);
    assert_eq!(tree.end_of(0), 13);
    assert_eq!(tree.first_child(4, Pick::AnyExpr), Some(9));
    assert_eq!(tree.first_child(4, Pick::Only(Kind::Lambda)), None);
    assert_eq!(tree.source_text(4).iter().collect::<String>(), "a=1;");
    let entries = collect_entries(&tree, "lib", "cat", &Locations::new(), &None);
    assert_eq!(names_of(&entries), vec!["a"]);
    assert_eq!(entries[0].description, vec!["Says a. "]);
}

#[test]
fn the_list_for_other_tools_has_version_one() {
    let entries = entries_of("{\n  /* a */\n  a = 1;\n}", None);
    let list = nixdoc::JsonFormat::new(entries);
    assert_eq!(list.version, 1);
    assert_eq!(list.entries.len(), 1);
    assert_eq!(list.entries[0].name, "a");
}
