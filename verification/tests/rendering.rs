use nixdoc::commonmark::{render_manual, Argument, ManualEntry, SingleArg};

fn entry(name: &str) -> ManualEntry {
    ManualEntry {
        prefix: "lib".to_string(),
        category: "strings".to_string(),
        location: None,
        name: name.to_string(),
        fn_type: None,
        description: vec![],
        example: None,
        args: vec![],
    }
}

#[test]
fn a_bare_entry_is_a_heading() {
    let mut out = String::from("before\n");
    let whole = entry("concat").write_section("function-library-", &mut out);
    assert_eq!(out, "before\n## `lib.strings.concat` {#function-library-strings-concat}\n\n");
    assert_eq!(whole, out);
}

#[test]
fn apostrophes_and_dots_are_spelled_out_in_the_anchor() {
    let mut e = entry("a.b'");
    e.category = "my.cat".to_string();
    assert_eq!(e.anchor("p-"), "p-my-cat-a-b-prime");
    assert_eq!(e.get_ident_title().0, "lib.my.cat.a.b-prime");
    assert_eq!(e.get_ident_title().1, "lib.my.cat.a.b'");
}

#[test]
fn empty_parts_are_left_out_of_identifier_and_title() {
    let mut e = entry("f");
    e.prefix = String::new();
    e.category = String::new();
    assert_eq!(e.get_ident_title(), ("f".to_string(), "f".to_string()));
    e.prefix = "lib".to_string();
    assert_eq!(e.get_ident_title(), ("lib.f".to_string(), "lib.f".to_string()));
}

#[test]
fn a_full_entry_has_every_part_in_order() {
    let e = ManualEntry {
        prefix: "lib".to_string(),
        category: "math".to_string(),
        location: Some("[math.nix:3](https://example.org/math.nix#L3)".to_string()),
        name: "add".to_string(),
        fn_type: Some("int -> int -> int".to_string()),
        description: vec!["Adds two numbers.".to_string(), "".to_string(), "Really.".to_string()],
        example: Some("add 1 2\n=> 3".to_string()),
        args: vec![
            Argument::Flat(SingleArg { name: "a".to_string(), doc: Some("The first.".to_string()) }),
            Argument::Pattern(vec![
                SingleArg { name: "b".to_string(), doc: None },
                SingleArg { name: "c".to_string(), doc: Some("The third.".to_string()) },
            ]),
        ],
    };
    let mut out = String::new();
    e.write_section("fn-", &mut out);
    assert_eq!(
        out,
        "## `lib.math.add` {#fn-math-add}\n\n\
         Adds two numbers.\n\nReally.\n\n\
         **Type:**\n\n```\nint -> int -> int\n```\n\n\
         `a`\n\n: The first.\n\n\
         structured function argument\n\n  `b`\n\n  : Function argument\n\n  `c`\n\n  : The third.\n\n\
         **Example:**\n\n```nix\nadd 1 2\n=> 3\n```\n\n\
         Located at [math.nix:3](https://example.org/math.nix#L3).\n\n"
    );
}

#[test]
fn a_manual_is_the_description_and_the_sections() {
    let entries = vec![entry("a"), entry("b")];
    assert_eq!(
        render_manual("# Strings {#sec-functions-library-strings}\n\n", &entries, "x-"),
        "# Strings {#sec-functions-library-strings}\n\n\n\
         ## `lib.strings.a` {#x-strings-a}\n\n\
         ## `lib.strings.b` {#x-strings-b}\n\n"
    );
    assert_eq!(render_manual("", &Vec::new(), ""), "\n");
}

#[test]
fn a_copy_holds_the_same() {
    let mut e = entry("f");
    e.description = vec!["one".to_string(), "two".to_string()];
    e.args = vec![Argument::Pattern(vec![SingleArg { name: "x".to_string(), doc: None }])];
    e.example = Some("f 1".to_string());
    let copy = e.copy();
    assert_eq!(format!("{:?}", copy), format!("{:?}", e));
}
