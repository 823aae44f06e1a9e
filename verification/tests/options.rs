use nixdoc::options::{
    format_option_value, make_anchor_id, md_escape, render_option, render_options_document,
    render_options_to_commonmark, DeclarationLoc, Description, OptionDef, OptionValue, OptionsMap,
    RenderOptions, TaggedValue,
};
use nixdoc::order::{compare_option_names, order_option_names, segment_priority};
use std::cmp::Ordering;

fn bare() -> OptionDef {
    OptionDef {
        loc: vec![],
        description: None,
        option_type: None,
        default: None,
        example: None,
        declarations: vec![],
        read_only: false,
        related_packages: None,
    }
}

fn literal(text: &str) -> OptionValue {
    OptionValue::Tagged(TaggedValue {
        value_type: "literalExpression".to_string(),
        text: Some(text.to_string()),
    })
}

#[test]
fn test_render_option() {
    let mut options = OptionsMap::new();
    options.insert(
        "test.enable".to_string(),
        OptionDef {
            loc: vec!["test".to_string(), "enable".to_string()],
            description: Some(Description::Plain("Whether to enable test.".to_string())),
            option_type: Some("boolean".to_string()),
            default: Some(literal("false")),
            example: Some(literal("true")),
            declarations: vec![],
            read_only: false,
            related_packages: None,
        },
    );
    let output = render_options_to_commonmark(&options, &RenderOptions::default());

    assert!(output.contains("## `test.enable`"));
    assert!(output.contains("**Type:** `boolean`"));
    assert!(output.contains("**Default:** `false`"));
    assert!(output.contains("Whether to enable test."));
    assert!(output.contains("**Example:** `true`"));
    assert_eq!(
        output,
        "## `test.enable` {#opt-test-enable}\n\n**Type:** `boolean`\n\n**Default:** `false`\n\n\
         Whether to enable test.\n\n**Example:** `true`\n\n"
    );
}

#[test]
fn the_default_settings_are_as_documented() {
    let opts = RenderOptions::default();
    assert_eq!(opts.anchor_prefix, "opt-");
    assert!(opts.include_declarations);
    assert_eq!(opts.declarations_base_url, None);
    assert_eq!(opts.revision, None);
}

#[test]
fn enable_and_package_come_first() {
    let mut options = OptionsMap::new();
    for name in ["svc.port", "svc.package", "svc.enable"] {
        options.insert(name.to_string(), bare());
    }
    assert_eq!(
        render_options_to_commonmark(&options, &RenderOptions::default()),
        "## `svc.enable` {#opt-svc-enable}\n\n## `svc.package` {#opt-svc-package}\n\n\
         ## `svc.port` {#opt-svc-port}\n\n"
    );
}

#[test]
fn names_are_ordered_segment_by_segment() {
    assert_eq!(compare_option_names("svc.enable", "svc.package"), Ordering::Less);
    assert_eq!(compare_option_names("svc.package", "svc.port"), Ordering::Less);
    assert_eq!(compare_option_names("svc.port", "svc.enable"), Ordering::Greater);
    assert_eq!(compare_option_names("a.b", "a.b"), Ordering::Equal);
    assert_eq!(compare_option_names("a", "a.enable"), Ordering::Less);
    assert_eq!(compare_option_names("a.z", "b.enable"), Ordering::Less);
    assert_eq!(compare_option_names("zzz.enable", "enableAll.x"), Ordering::Greater);
    assert_eq!(compare_option_names("a.enableFoo", "a.enable"), Ordering::Greater);
    assert_eq!(compare_option_names("a.packages", "a.enable"), Ordering::Greater);
    assert_eq!(compare_option_names("a.b", "a.c"), Ordering::Less);
    assert_eq!(compare_option_names("a.\u{e9}", "a.z"), Ordering::Greater);
    assert_eq!(order_option_names("x.y", "x"), 1);
    assert_eq!(order_option_names("x", "x.y"), -1);
    assert_eq!(order_option_names("x", "x"), 0);
}

#[test]
fn segments_fall_into_three_groups() {
    assert_eq!(segment_priority("enable"), 0);
    assert_eq!(segment_priority("enableACME"), 0);
    assert_eq!(segment_priority("package"), 1);
    assert_eq!(segment_priority("packages"), 1);
    assert_eq!(segment_priority("port"), 2);
    assert_eq!(segment_priority("enabl"), 2);
    assert_eq!(segment_priority(""), 2);
}

#[test]
fn special_characters_are_escaped() {
    assert_eq!(md_escape("a*b_c[d]<e>`f\\g"), "a\\*b\\_c\\[d\\]\\<e\\>\\`f\\\\g");
    assert_eq!(md_escape("plain text."), "plain text.");
}

#[test]
fn anchors_are_made_of_safe_characters() {
    assert_eq!(make_anchor_id("services.nginx.enable", "opt-"), "opt-services-nginx-enable");
    assert_eq!(make_anchor_id("users.<name>.*", ""), "users-_name_-_");
}

#[test]
fn values_are_rendered_by_their_shape() {
    assert_eq!(format_option_value(&literal("false")), "`false`");
    assert_eq!(format_option_value(&literal("{\n  a = 1;\n}")), "```nix\n{\n  a = 1;\n}\n```");
    let no_text = |kind: &str| OptionValue::Tagged(TaggedValue { value_type: kind.to_string(), text: None });
    let with_text = |kind: &str| {
        OptionValue::Tagged(TaggedValue { value_type: kind.to_string(), text: Some("*x*".to_string()) })
    };
    assert_eq!(format_option_value(&no_text("literalExpression")), "`...`");
    assert_eq!(format_option_value(&with_text("literalMD")), "*x*");
    assert_eq!(format_option_value(&no_text("literalMD")), "");
    assert_eq!(format_option_value(&with_text("derivation")), "`<derivation>: *x*`");
    assert_eq!(format_option_value(&no_text("derivation")), "`<derivation>: ...`");
    assert_eq!(format_option_value(&OptionValue::String("hi".to_string())), "`\"hi\"`");
    assert_eq!(format_option_value(&OptionValue::Bool(true)), "`true`");
    assert_eq!(format_option_value(&OptionValue::Bool(false)), "`false`");
    assert_eq!(format_option_value(&OptionValue::Number(serde_json::Number::from(42u64))), "`42`");
    assert_eq!(format_option_value(&OptionValue::Number(serde_json::Number::from(-7i64))), "`-7`");
    assert_eq!(format_option_value(&OptionValue::Array(vec![])), "`[ ]`");
    let items = vec![
        serde_json::Value::from(1),
        serde_json::Value::from("two"),
        serde_json::Value::Null,
        serde_json::Value::Array(vec![serde_json::Value::from(true)]),
    ];
    assert_eq!(format_option_value(&OptionValue::Array(items)), "`[ 1 \"two\" null [true] ]`");
    assert_eq!(format_option_value(&OptionValue::Object(serde_json::Map::new())), "`{ ... }`");
    assert_eq!(format_option_value(&OptionValue::Null), "`null`");
}

#[test]
fn a_value_can_be_cloned() {
    let mut map = serde_json::Map::new();
    map.insert("k".to_string(), serde_json::Value::from(1));
    let object = OptionValue::Object(map.clone());
    match object.clone() {
        OptionValue::Object(copy) => assert_eq!(copy, map),
        _ => panic!("an object stays an object"),
    }
    let number = OptionValue::Number(serde_json::Number::from(5u64));
    assert_eq!(format_option_value(&number.clone()), "`5`");
}

#[test]
fn a_full_option_has_every_part_in_order() {
    let opt = OptionDef {
        loc: vec![],
        description: Some(Description::MdDoc { _type: "mdDoc".to_string(), text: "Words.".to_string() }),
        option_type: Some("attribute set".to_string()),
        default: Some(literal("{\n}")),
        example: Some(OptionValue::Bool(true)),
        declarations: vec![
            DeclarationLoc::Path("modules/a_b.nix".to_string()),
            DeclarationLoc::Named { name: "x*".to_string(), url: Some("https://x.org".to_string()) },
            DeclarationLoc::Named { name: "y".to_string(), url: None },
        ],
        read_only: true,
        related_packages: Some("- pkg".to_string()),
    };
    let opts = RenderOptions {
        anchor_prefix: "opt-".to_string(),
        include_declarations: true,
        declarations_base_url: Some("https://github.com/example/repo//".to_string()),
        revision: Some("main".to_string()),
    };
    assert_eq!(
        render_option("a.b", &opt, &opts),
        "## `a.b` {#opt-a-b}\n\n\
         **Type:** `attribute set` *(read only)*\n\n\
         **Default:**\n\n```nix\n{\n}\n```\n\n\
         Words.\n\n\
         **Example:** `true`\n\n\
         **Related packages:**\n\n- pkg\n\n\
         **Declared by:**\n\n\
         - [modules/a\\_b.nix](https://github.com/example/repo/blob/main/modules/a_b.nix)\n\
         - [x\\*](https://x.org)\n\
         - [y](https://github.com/example/repo/blob/main/y)\n\n"
    );
}

#[test]
fn declarations_link_to_master_or_stand_as_code() {
    let mut opt = bare();
    opt.declarations = vec![DeclarationLoc::Path("m.nix".to_string())];
    let mut opts = RenderOptions::default();
    assert_eq!(render_option("o", &opt, &opts), "## `o` {#opt-o}\n\n**Declared by:**\n\n- `m.nix`\n\n");
    opts.declarations_base_url = Some("https://h/r".to_string());
    assert_eq!(
        render_option("o", &opt, &opts),
        "## `o` {#opt-o}\n\n**Declared by:**\n\n- [m.nix](https://h/r/blob/master/m.nix)\n\n"
    );
    opts.include_declarations = false;
    assert_eq!(render_option("o", &opt, &opts), "## `o` {#opt-o}\n\n");
}

#[test]
fn empty_texts_are_left_out() {
    let mut opt = bare();
    opt.description = Some(Description::Plain(String::new()));
    opt.related_packages = Some(String::new());
    assert_eq!(render_option("o", &opt, &RenderOptions::default()), "## `o` {#opt-o}\n\n");
}

#[test]
fn a_document_has_title_preamble_and_options() {
    let mut options = OptionsMap::new();
    options.insert("b".to_string(), bare());
    options.insert("a".to_string(), bare());
    let opts = RenderOptions::default();
    assert_eq!(
        render_options_document(&options, "Module Options", Some("These are the available module options."), &opts),
        "# Module Options\n\nThese are the available module options.\n\n## `a` {#opt-a}\n\n## `b` {#opt-b}\n\n"
    );
    assert_eq!(
        render_options_document(&OptionsMap::new(), "T", None, &opts),
        "# T\n\n"
    );
}

#[test]
fn a_name_has_one_record() {
    let mut options = OptionsMap::new();
    assert_eq!(options.len(), 0);
    options.insert("a".to_string(), bare());
    let mut second = bare();
    second.read_only = true;
    options.insert("b".to_string(), bare());
    options.insert("a".to_string(), second);
    assert_eq!(options.len(), 2);
    assert!(options.get("a").unwrap().read_only);
    assert!(!options.get("b").unwrap().read_only);
    assert!(options.get("c").is_none());
    assert_eq!(options.name_at(0), "a");
}

#[test]
fn getters_give_the_text() {
    assert_eq!(Description::Plain("p".to_string()).as_str(), "p");
    assert_eq!(Description::MdDoc { _type: "mdDoc".to_string(), text: "m".to_string() }.as_str(), "m");
    let path = DeclarationLoc::Path("p.nix".to_string());
    assert_eq!(path.name(), "p.nix");
    assert_eq!(path.url(), None);
    let named = DeclarationLoc::Named { name: "n".to_string(), url: Some("u".to_string()) };
    assert_eq!(named.name(), "n");
    assert_eq!(named.url(), Some("u"));
}
