//! Rendering of module option metadata as CommonMark.
//!
//! An option is described by a record of the shape that
//! `lib.optionAttrSetToDocList` produces: a description, a type, a default
//! and an example value, the places where it is declared.

use crate::lines::{join_chars, joined_with, lines_view};
use crate::map::TextMap;
use crate::order::{
    inserted, lemma_listed_names, lemma_strict_order_is_unique, listed_names, listing_order,
    listing_prefix, order_option_names,
};
use crate::text::{
    contains_char, from_chars, same_text, to_chars, trim_end_char, without_trailing,
};
use vstd::prelude::*;
use vstd::string::*;

verus! {

/// `serde_json::Number`, carried through as it is.
#[verifier::external_type_specification]
#[verifier::external_body]
pub struct ExJsonNumber(serde_json::Number);

/// `serde_json::Value`, carried through as it is.
#[verifier::external_type_specification]
#[verifier::external_body]
pub struct ExJsonValue(serde_json::Value);

/// `serde_json::Map`, carried through as it is.
#[verifier::external_type_specification]
#[verifier::external_body]
#[verifier::reject_recursive_types(K)]
#[verifier::reject_recursive_types(V)]
pub struct ExJsonMap<K, V>(serde_json::Map<K, V>);

/// `serde_json::Error`, what the serialiser fails with.
#[verifier::external_type_specification]
#[verifier::external_body]
pub struct ExJsonError(serde_json::Error);

/// Cloning a JSON number gives the same number.
pub assume_specification[ <serde_json::Number as Clone>::clone ](
    number: &serde_json::Number,
) -> (out: serde_json::Number)
    ensures
        out == *number,
;

/// Cloning a JSON object gives the same object.
pub assume_specification[ <serde_json::Map<std::string::String, serde_json::Value> as Clone>::clone ](
    map: &serde_json::Map<std::string::String, serde_json::Value>,
) -> (out: serde_json::Map<std::string::String, serde_json::Value>)
    ensures
        out == *map,
;

/// The compact JSON text of a value, where it can be serialised.
pub uninterp spec fn json_text(value: serde_json::Value) -> Option<Seq<char>>;

/// The decimal text of a JSON number.
pub uninterp spec fn number_text(number: serde_json::Number) -> Seq<char>;

/// `serde_json::to_string` on a JSON value: the value's compact JSON text,
/// or the error that the serialiser reported. The text depends on the value
/// alone.
#[verifier::external_body]
fn to_json_text(value: &serde_json::Value) -> (out: Result<String, serde_json::Error>)
    ensures
        out is Ok <==> json_text(*value) is Some,
        out matches Ok(text) ==> json_text(*value) == Some(text@),
{
    serde_json::to_string(value)
}

/// The `Display` form of `serde_json::Number`: the number's decimal text,
/// which depends on the number alone.
#[verifier::external_body]
fn display_number(number: &serde_json::Number) -> (out: String)
    ensures
        out@ == number_text(*number),
{
    number.to_string()
}

/// A default or example value: tagged by `_type`, or raw JSON.
#[derive(Debug, Clone)]
pub enum OptionValue {
    /// A tagged value such as `{ _type = "literalExpression"; text = "..."; }`.
    Tagged(TaggedValue),
    /// A raw string.
    String(String),
    /// A raw boolean.
    Bool(bool),
    /// A raw number.
    Number(serde_json::Number),
    /// A raw array.
    Array(Vec<serde_json::Value>),
    /// A raw object without `_type`.
    Object(serde_json::Map<String, serde_json::Value>),
    /// Null.
    Null,
}

/// A value with a `_type` field.
#[derive(Debug, Clone)]
pub struct TaggedValue {
    pub value_type: String,
    pub text: Option<String>,
}

/// A description: a plain string, or an `mdDoc` object.
#[derive(Debug, Clone)]
pub enum Description {
    Plain(String),
    MdDoc { _type: String, text: String },
}

impl Description {
    /// The description's text.
    pub open spec fn text(self) -> Seq<char> {
        match self {
            Description::Plain(s) => s@,
            Description::MdDoc { _type, text } => text@,
        }
    }

    pub fn as_str(&self) -> (out: &str)
        ensures
            out@ == self.text(),
    {
        match self {
            Description::Plain(s) => s.as_str(),
            Description::MdDoc { text, .. } => text.as_str(),
        }
    }
}

/// Where an option is declared: a path, or a name with an optional URL.
#[derive(Debug, Clone)]
pub enum DeclarationLoc {
    Path(String),
    Named { name: String, url: Option<String> },
}

impl DeclarationLoc {
    /// The path, or the name.
    pub open spec fn name_text(self) -> Seq<char> {
        match self {
            DeclarationLoc::Path(p) => p@,
            DeclarationLoc::Named { name, url } => name@,
        }
    }

    /// The URL that a named location carries.
    pub open spec fn url_text(self) -> Option<Seq<char>> {
        match self {
            DeclarationLoc::Path(p) => None,
            DeclarationLoc::Named { name, url } => match url {
                Some(u) => Some(u@),
                None => None,
            },
        }
    }

    pub fn name(&self) -> (out: &str)
        ensures
            out@ == self.name_text(),
    {
        match self {
            DeclarationLoc::Path(p) => p.as_str(),
            DeclarationLoc::Named { name, .. } => name.as_str(),
        }
    }

    pub fn url(&self) -> (out: Option<&str>)
        ensures
            out is Some <==> self.url_text() is Some,
            out matches Some(u) ==> self.url_text() == Some(u@),
    {
        match self {
            DeclarationLoc::Path(_) => None,
            DeclarationLoc::Named { url, .. } => match url {
                Some(u) => Some(u.as_str()),
                None => None,
            },
        }
    }
}

/// The metadata of one option.
#[derive(Debug, Clone)]
pub struct OptionDef {
    /// The option's path, segment by segment. Rendering goes by the name.
    pub loc: Vec<String>,
    pub description: Option<Description>,
    /// A description of the type, such as "list of string".
    pub option_type: Option<String>,
    pub default: Option<OptionValue>,
    pub example: Option<OptionValue>,
    pub declarations: Vec<DeclarationLoc>,
    pub read_only: bool,
    /// Markdown about related packages, rendered as it is.
    pub related_packages: Option<String>,
}


/// How options are rendered.
#[derive(Debug, Clone)]
pub struct RenderOptions {
    /// What every anchor starts with, such as "opt-".
    pub anchor_prefix: String,
    /// Whether the places of declaration are listed.
    pub include_declarations: bool,
    /// The repository that relative declaration paths are linked to.
    pub declarations_base_url: Option<String>,
    /// The revision that such links point at; "master" if none is given.
    pub revision: Option<String>,
}

impl Default for RenderOptions {
    fn default() -> (out: Self)
        ensures
            out.anchor_prefix@ == "opt-"@,
            out.include_declarations,
            out.declarations_base_url is None,
            out.revision is None,
    {
        RenderOptions {
            anchor_prefix: "opt-".to_owned(),
            include_declarations: true,
            declarations_base_url: None,
            revision: None,
        }
    }
}

/// The characters that CommonMark gives a meaning to.
pub open spec fn needs_escape(c: char) -> bool {
    c == '\\' || c == '*' || c == '_' || c == '[' || c == ']' || c == '<' || c == '>' || c == '`'
}

/// `text` with a backslash before each character that needs one.
pub open spec fn escaped(text: Seq<char>) -> Seq<char>
    decreases text.len(),
{
    if text.len() == 0 {
        Seq::empty()
    } else if needs_escape(text.last()) {
        escaped(text.drop_last()).push('\\').push(text.last())
    } else {
        escaped(text.drop_last()).push(text.last())
    }
}

/// Escapes the characters that CommonMark gives a meaning to.
pub fn md_escape(text: &str) -> (out: String)
    ensures
        out@ == escaped(text@),
{
    let chars = to_chars(text);
    let mut out: Vec<char> = Vec::new();
    let mut i: usize = 0;
    while i < chars.len()
        invariant
            i <= chars.len(),
            out@ == escaped(chars@.take(i as int)),
        decreases chars.len() - i,
    {
        proof {
            assert(chars@.take(i + 1).drop_last() == chars@.take(i as int));
        }
        let c = chars[i];
        if c == '\\' || c == '*' || c == '_' || c == '[' || c == ']' || c == '<' || c == '>' || c
            == '`' {
            out.push('\\');
        }
        out.push(c);
        i += 1;
    }
    assert(chars@.take(chars.len() as int) == chars@);
    from_chars(&out)
}

/// What a character of an option name becomes in an anchor.
pub open spec fn anchor_char(c: char) -> char {
    if c == '.' {
        '-'
    } else if c == '<' || c == '>' || c == '*' {
        '_'
    } else {
        c
    }
}

/// The anchor of an option: the prefix, then the name with its dots as
/// hyphens and its `<`, `>` and `*` as underscores.
pub open spec fn anchor_id(name: Seq<char>, prefix: Seq<char>) -> Seq<char> {
    prefix + Seq::new(name.len(), |i: int| anchor_char(name[i]))
}

/// Makes the anchor of an option from its name.
pub fn make_anchor_id(name: &str, prefix: &str) -> (out: String)
    ensures
        out@ == anchor_id(name@, prefix@),
{
    let chars = to_chars(name);
    let mut out: Vec<char> = to_chars(prefix);
    let mut i: usize = 0;
    while i < chars.len()
        invariant
            i <= chars.len(),
            out@ == prefix@ + Seq::new(i as nat, |k: int| anchor_char(chars@[k])),
        decreases chars.len() - i,
    {
        let c = chars[i];
        let mapped = if c == '.' {
            '-'
        } else if c == '<' || c == '>' || c == '*' {
            '_'
        } else {
            c
        };
        out.push(mapped);
        assert(out@ =~= prefix@ + Seq::new((i + 1) as nat, |k: int| anchor_char(chars@[k])));
        i += 1;
    }
    assert(out@ =~= anchor_id(name@, prefix@));
    from_chars(&out)
}

/// The text of a tagged value: a literal expression as code, inline or in a
/// fenced block if it has several lines; literal Markdown as it is; any
/// other tag named, with the text behind it.
pub open spec fn tagged_value_text(tagged: TaggedValue) -> Seq<char> {
    if tagged.value_type@ == "literalExpression"@ {
        match tagged.text {
            Some(text) => if text@.contains('\n') {
                "```nix\n"@ + text@ + "\n```"@
            } else {
                "`"@ + text@ + "`"@
            },
            None => "`...`"@,
        }
    } else if tagged.value_type@ == "literalMD"@ {
        match tagged.text {
            Some(text) => text@,
            None => Seq::empty(),
        }
    } else {
        "`<"@ + tagged.value_type@ + ">: "@ + (match tagged.text {
            Some(text) => text@,
            None => "..."@,
        }) + "`"@
    }
}

/// The text that stands for an item of an array: its JSON, or three dots.
pub open spec fn array_item_text(item: serde_json::Value) -> Seq<char> {
    match json_text(item) {
        Some(text) => text,
        None => "..."@,
    }
}

pub open spec fn array_item_texts(items: Seq<serde_json::Value>) -> Seq<Seq<char>> {
    Seq::new(items.len(), |i: int| array_item_text(items[i]))
}

/// The text of an array whose items have the texts `items`.
pub open spec fn array_text(items: Seq<Seq<char>>) -> Seq<char> {
    if items.len() == 0 {
        "`[ ]`"@
    } else {
        "`[ "@ + joined_with(items, ' ') + " ]`"@
    }
}

/// The text of a default or example value.
pub open spec fn option_value_text(value: OptionValue) -> Seq<char> {
    match value {
        OptionValue::Tagged(tagged) => tagged_value_text(tagged),
        OptionValue::String(s) => "`\""@ + s@ + "\"`"@,
        OptionValue::Bool(b) => "`"@ + (if b {
            "true"@
        } else {
            "false"@
        }) + "`"@,
        OptionValue::Number(n) => "`"@ + number_text(n) + "`"@,
        OptionValue::Array(items) => array_text(array_item_texts(items@)),
        OptionValue::Object(_) => "`{ ... }`"@,
        OptionValue::Null => "`null`"@,
    }
}

fn format_tagged_value(tagged: &TaggedValue) -> (out: String)
    ensures
        out@ == tagged_value_text(*tagged),
{
    let kind = tagged.value_type.as_str();
    if same_text(kind, "literalExpression") {
        match &tagged.text {
            Some(text) => {
                if contains_char(text.as_str(), '\n') {
                    let mut out = "```nix\n".to_owned();
                    out.append(text.as_str());
                    out.append("\n```");
                    out
                } else {
                    let mut out = "`".to_owned();
                    out.append(text.as_str());
                    out.append("`");
                    out
                }
            },
            None => "`...`".to_owned(),
        }
    } else if same_text(kind, "literalMD") {
        match &tagged.text {
            Some(text) => text.clone(),
            None => String::new(),
        }
    } else {
        let mut out = "`<".to_owned();
        out.append(kind);
        out.append(">: ");
        match &tagged.text {
            Some(text) => out.append(text.as_str()),
            None => out.append("..."),
        }
        out.append("`");
        out
    }
}

/// Renders an array from the texts of its items.
pub fn format_array_items(items: &Vec<Vec<char>>) -> (out: String)
    ensures
        out@ == array_text(lines_view(items@)),
{
    if items.len() == 0 {
        "`[ ]`".to_owned()
    } else {
        let mut out = "`[ ".to_owned();
        let inner = from_chars(&join_chars(items, ' '));
        out.append(inner.as_str());
        out.append(" ]`");
        out
    }
}

/// Renders a default or example value.
pub fn format_option_value(value: &OptionValue) -> (out: String)
    ensures
        out@ == option_value_text(*value),
{
    match value {
        OptionValue::Tagged(tagged) => format_tagged_value(tagged),
        OptionValue::String(s) => {
            let mut out = "`\"".to_owned();
            out.append(s.as_str());
            out.append("\"`");
            out
        },
        OptionValue::Bool(b) => {
            let mut out = "`".to_owned();
            if *b {
                out.append("true");
            } else {
                out.append("false");
            }
            out.append("`");
            out
        },
        OptionValue::Number(n) => {
            let mut out = "`".to_owned();
            let digits = display_number(n);
            out.append(digits.as_str());
            out.append("`");
            out
        },
        OptionValue::Array(arr) => {
            let mut items: Vec<Vec<char>> = Vec::new();
            let mut i: usize = 0;
            while i < arr.len()
                invariant
                    i <= arr.len(),
                    lines_view(items@) == array_item_texts(arr@.take(i as int)),
                decreases arr.len() - i,
            {
                let ghost before = lines_view(items@);
                let item = match to_json_text(&arr[i]) {
                    Ok(text) => to_chars(text.as_str()),
                    Err(_) => to_chars("..."),
                };
                items.push(item);
                assert(lines_view(items@) =~= before.push(array_item_text(arr@[i as int])));
                assert(lines_view(items@) =~= array_item_texts(arr@.take(i + 1)));
                i += 1;
            }
            assert(arr@.take(arr.len() as int) == arr@);
            format_array_items(&items)
        },
        OptionValue::Object(_) => "`{ ... }`".to_owned(),
        OptionValue::Null => "`null`".to_owned(),
    }
}


/// The heading of an option's section, with its anchor.
pub open spec fn heading_text(name: Seq<char>, anchor: Seq<char>) -> Seq<char> {
    "## `"@ + name + "` {#"@ + anchor + "}\n\n"@
}

/// The line that gives an option's type, marked where the option is read
/// only; nothing without a type.
pub open spec fn type_text(opt: OptionDef) -> Seq<char> {
    match opt.option_type {
        Some(t) => if opt.read_only {
            "**Type:** `"@ + t@ + "`"@ + " *(read only)*"@ + "\n\n"@
        } else {
            "**Type:** `"@ + t@ + "`"@ + "\n\n"@
        },
        None => Seq::empty(),
    }
}

/// A default or example value under its label: on the label's line, or in a
/// block of its own if its text has several lines.
pub open spec fn value_block_text(label: Seq<char>, value: Option<OptionValue>) -> Seq<char> {
    match value {
        Some(v) => if option_value_text(v).contains('\n') {
            "**"@ + label + ":**\n\n"@ + option_value_text(v) + "\n\n"@
        } else {
            "**"@ + label + ":** "@ + option_value_text(v) + "\n\n"@
        },
        None => Seq::empty(),
    }
}

/// The description as a paragraph, unless there is none or it is empty.
pub open spec fn description_text(opt: OptionDef) -> Seq<char> {
    match opt.description {
        Some(d) => if d.text().len() == 0 {
            Seq::empty()
        } else {
            d.text() + "\n\n"@
        },
        None => Seq::empty(),
    }
}

/// The related packages under their label, unless there are none.
pub open spec fn related_packages_text(opt: OptionDef) -> Seq<char> {
    match opt.related_packages {
        Some(r) => if r@.len() == 0 {
            Seq::empty()
        } else {
            "**Related packages:**\n\n"@ + r@ + "\n\n"@
        },
        None => Seq::empty(),
    }
}

/// The link target for a declaration without a URL of its own, below the
/// repository at `base`.
pub open spec fn blob_url(base: Seq<char>, revision: Option<String>, path: Seq<char>) -> Seq<
    char,
> {
    without_trailing(base, '/') + "/blob/"@ + (match revision {
        Some(r) => r@,
        None => "master"@,
    }) + "/"@ + path
}

/// The list item for one declaration: a link to its own URL, else a link
/// below the base URL if one is configured, else the path as code.
pub open spec fn declaration_text(decl: DeclarationLoc, opts: RenderOptions) -> Seq<char> {
    match decl.url_text() {
        Some(url) => "- ["@ + escaped(decl.name_text()) + "]("@ + url + ")\n"@,
        None => match opts.declarations_base_url {
            Some(base) => "- ["@ + escaped(decl.name_text()) + "]("@ + blob_url(
                base@,
                opts.revision,
                decl.name_text(),
            ) + ")\n"@,
            None => "- `"@ + decl.name_text() + "`\n"@,
        },
    }
}

pub open spec fn declarations_text(decls: Seq<DeclarationLoc>, opts: RenderOptions) -> Seq<char>
    decreases decls.len(),
{
    if decls.len() == 0 {
        Seq::empty()
    } else {
        declarations_text(decls.drop_last(), opts) + declaration_text(decls.last(), opts)
    }
}

/// The list of declarations under its label, where it is asked for and not
/// empty.
pub open spec fn declared_by_text(opt: OptionDef, opts: RenderOptions) -> Seq<char> {
    if opts.include_declarations && opt.declarations@.len() > 0 {
        "**Declared by:**\n\n"@ + declarations_text(opt.declarations@, opts) + "\n"@
    } else {
        Seq::empty()
    }
}

/// The section of one option.
pub open spec fn option_text(name: Seq<char>, opt: OptionDef, opts: RenderOptions) -> Seq<char> {
    heading_text(name, anchor_id(name, opts.anchor_prefix@)) + type_text(opt) + value_block_text(
        "Default"@,
        opt.default,
    ) + description_text(opt) + value_block_text("Example"@, opt.example)
        + related_packages_text(opt) + declared_by_text(opt, opts)
}

fn render_type(opt: &OptionDef) -> (out: String)
    ensures
        out@ == type_text(*opt),
{
    match &opt.option_type {
        Some(t) => {
            let mut out = "**Type:** `".to_owned();
            out.append(t.as_str());
            out.append("`");
            if opt.read_only {
                out.append(" *(read only)*");
            }
            out.append("\n\n");
            out
        },
        None => String::new(),
    }
}

fn render_value_block(label: &str, value: &Option<OptionValue>) -> (out: String)
    ensures
        out@ == value_block_text(label@, *value),
{
    match value {
        Some(v) => {
            let formatted = format_option_value(v);
            let mut out = "**".to_owned();
            out.append(label);
            if contains_char(formatted.as_str(), '\n') {
                out.append(":**\n\n");
            } else {
                out.append(":** ");
            }
            out.append(formatted.as_str());
            out.append("\n\n");
            out
        },
        None => String::new(),
    }
}

fn render_description(opt: &OptionDef) -> (out: String)
    ensures
        out@ == description_text(*opt),
{
    match &opt.description {
        Some(d) => {
            let text = d.as_str();
            if text.is_empty() {
                String::new()
            } else {
                let mut out = text.to_owned();
                out.append("\n\n");
                out
            }
        },
        None => String::new(),
    }
}

fn render_related_packages(opt: &OptionDef) -> (out: String)
    ensures
        out@ == related_packages_text(*opt),
{
    match &opt.related_packages {
        Some(r) => {
            if r.as_str().is_empty() {
                String::new()
            } else {
                let mut out = "**Related packages:**\n\n".to_owned();
                out.append(r.as_str());
                out.append("\n\n");
                out
            }
        },
        None => String::new(),
    }
}

fn render_declaration(decl: &DeclarationLoc, opts: &RenderOptions) -> (out: String)
    ensures
        out@ == declaration_text(*decl, *opts),
{
    let name = decl.name();
    match decl.url() {
        Some(url) => {
            let mut out = "- [".to_owned();
            out.append(md_escape(name).as_str());
            out.append("](");
            out.append(url);
            out.append(")\n");
            out
        },
        None => match &opts.declarations_base_url {
            Some(base) => {
                let mut url = trim_end_char(base.as_str(), '/');
                url.append("/blob/");
                match &opts.revision {
                    Some(rev) => url.append(rev.as_str()),
                    None => url.append("master"),
                }
                url.append("/");
                url.append(name);
                let mut out = "- [".to_owned();
                out.append(md_escape(name).as_str());
                out.append("](");
                out.append(url.as_str());
                out.append(")\n");
                out
            },
            None => {
                let mut out = "- `".to_owned();
                out.append(name);
                out.append("`\n");
                out
            },
        },
    }
}

fn render_declared_by(opt: &OptionDef, opts: &RenderOptions) -> (out: String)
    ensures
        out@ == declared_by_text(*opt, *opts),
{
    if opts.include_declarations && opt.declarations.len() > 0 {
        let mut out = "**Declared by:**\n\n".to_owned();
        let ghost head = out@;
        let mut i: usize = 0;
        while i < opt.declarations.len()
            invariant
                i <= opt.declarations.len(),
                out@ == head + declarations_text(opt.declarations@.take(i as int), *opts),
            decreases opt.declarations.len() - i,
        {
            proof {
                assert(opt.declarations@.take(i + 1).drop_last() == opt.declarations@.take(
                    i as int,
                ));
            }
            let line = render_declaration(&opt.declarations[i], opts);
            out.append(line.as_str());
            assert(out@ =~= head + declarations_text(opt.declarations@.take(i + 1), *opts));
            i += 1;
        }
        assert(opt.declarations@.take(opt.declarations.len() as int) == opt.declarations@);
        out.append("\n");
        out
    } else {
        String::new()
    }
}

/// Renders the section of one option: its heading with the anchor, its type,
/// default, description, example and related packages, and the places where
/// it is declared.
pub fn render_option(name: &str, opt: &OptionDef, opts: &RenderOptions) -> (out: String)
    ensures
        out@ == option_text(name@, *opt, *opts),
{
    let anchor = make_anchor_id(name, opts.anchor_prefix.as_str());
    let mut out = "## `".to_owned();
    out.append(name);
    out.append("` {#");
    out.append(anchor.as_str());
    out.append("}\n\n");
    out.append(render_type(opt).as_str());
    out.append(render_value_block("Default", &opt.default).as_str());
    out.append(render_description(opt).as_str());
    out.append(render_value_block("Example", &opt.example).as_str());
    out.append(render_related_packages(opt).as_str());
    out.append(render_declared_by(opt, opts).as_str());
    out
}


/// The options of a module set, each under its dotted name.
pub type OptionsMap = TextMap<OptionDef>;

/// The indices of the options in the order of the listing.
fn listing(options: &OptionsMap) -> (order: Vec<usize>)
    ensures
        order@ == listing_order(options.names()),
        forall|i: int| 0 <= i < order.len() ==> order[i] < options.names().len(),
{
    let ghost names = options.names();
    let mut order: Vec<usize> = Vec::new();
    let mut k: usize = 0;
    while k < options.len()
        invariant
            k <= options.names().len(),
            names == options.names(),
            order@ == listing_prefix(names, k as nat),
            forall|i: int| 0 <= i < order.len() ==> order[i] < k,
        decreases options.names().len() - k,
    {
        let ghost before = order@;
        let mut at: usize = order.len();
        assert(before.take(at as int) =~= before && before.skip(at as int) =~= Seq::empty());
        while at > 0 && order_option_names(
            options.name_at(order[at - 1]),
            options.name_at(k),
        ) > 0
            invariant
                at <= order.len(),
                k < options.names().len(),
                order@ == before,
                names == options.names(),
                forall|i: int| 0 <= i < order.len() ==> order[i] < k,
                inserted(before, names, k) == inserted(before.take(at as int), names, k)
                    + before.skip(at as int),
            decreases at,
        {
            proof {
                let part = before.take(at as int);
                assert(part.last() == before[at - 1]);
                assert(part.drop_last() =~= before.take(at - 1));
                assert(inserted(part.drop_last(), names, k).push(part.last()) + before.skip(
                    at as int,
                ) =~= inserted(part.drop_last(), names, k) + before.skip(at - 1));
            }
            at -= 1;
        }
        proof {
            let part = before.take(at as int);
            if at > 0 {
                assert(part.last() == before[at - 1]);
            }
            assert(inserted(part, names, k) =~= part.push(k));
            assert(part.push(k) + before.skip(at as int) =~= before.insert(at as int, k));
        }
        order.insert(at, k);
        k += 1;
    }
    order
}

/// The sections of the options at the indices in `order`, one after the
/// other.
pub open spec fn sections_text(
    names: Seq<Seq<char>>,
    defs: Seq<OptionDef>,
    order: Seq<usize>,
    opts: RenderOptions,
) -> Seq<char>
    decreases order.len(),
{
    if order.len() == 0 {
        Seq::empty()
    } else {
        sections_text(names, defs, order.drop_last(), opts) + option_text(
            names[order.last() as int],
            defs[order.last() as int],
            opts,
        )
    }
}

/// The sections of all options, in the order of the listing.
pub open spec fn options_text(options: OptionsMap, opts: RenderOptions) -> Seq<char> {
    sections_text(options.names(), options.values(), listing_order(options.names()), opts)
}

/// The document: the title as a heading, the preamble if there is one, and
/// the sections of all options.
pub open spec fn document_text(
    options: OptionsMap,
    title: Seq<char>,
    preamble: Option<Seq<char>>,
    opts: RenderOptions,
) -> Seq<char> {
    match preamble {
        Some(pre) => "# "@ + title + "\n\n"@ + pre + "\n\n"@ + options_text(options, opts),
        None => "# "@ + title + "\n\n"@ + options_text(options, opts),
    }
}

/// Renders the sections of all options, in the order of the listing.
pub fn render_options_to_commonmark(options: &OptionsMap, render_opts: &RenderOptions) -> (out:
    String)
    ensures
        out@ == options_text(*options, *render_opts),
{
    let order = listing(options);
    let mut out = String::new();
    let mut i: usize = 0;
    while i < order.len()
        invariant
            i <= order.len(),
            forall|k: int| 0 <= k < order.len() ==> order[k] < options.names().len(),
            out@ == sections_text(
                options.names(),
                options.values(),
                order@.take(i as int),
                *render_opts,
            ),
        decreases order.len() - i,
    {
        let at = order[i];
        proof {
            assert(order@.take(i + 1).drop_last() == order@.take(i as int));
        }
        let section = render_option(options.name_at(at), options.value_at(at), render_opts);
        out.append(section.as_str());
        i += 1;
    }
    assert(order@.take(order.len() as int) == order@);
    out
}

/// Renders the document: the title, the preamble if there is one, and the
/// sections of all options.
pub fn render_options_document(
    options: &OptionsMap,
    title: &str,
    preamble: Option<&str>,
    render_opts: &RenderOptions,
) -> (out: String)
    ensures
        out@ == document_text(
            *options,
            title@,
            match preamble {
                Some(pre) => Some(pre@),
                None => None,
            },
            *render_opts,
        ),
{
    let mut out = "# ".to_owned();
    out.append(title);
    out.append("\n\n");
    match preamble {
        Some(pre) => {
            out.append(pre);
            out.append("\n\n");
        },
        None => {},
    }
    out.append(render_options_to_commonmark(options, render_opts).as_str());
    out
}


/// The sections of the options named by `names`, one after the other; a
/// name without an option has none.
pub open spec fn named_sections_text(options: OptionsMap, names: Seq<Seq<char>>, opts: RenderOptions)
    -> Seq<char>
    decreases names.len(),
{
    if names.len() == 0 {
        Seq::empty()
    } else {
        named_sections_text(options, names.drop_last(), opts) + match options.value_of(
            names.last(),
        ) {
            Some(def) => option_text(names.last(), def, opts),
            None => Seq::empty(),
        }
    }
}

proof fn lemma_sections_by_name(options: OptionsMap, order: Seq<usize>, opts: RenderOptions)
    requires
        options.wf(),
        forall|i: int| 0 <= i < order.len() ==> (#[trigger] order[i]) < options.names().len(),
    ensures
        sections_text(options.names(), options.values(), order, opts) == named_sections_text(
            options,
            Seq::new(order.len(), |i: int| options.names()[order[i] as int]),
            opts,
        ),
    decreases order.len(),
{
    let names = Seq::new(order.len(), |i: int| options.names()[order[i] as int]);
    if order.len() > 0 {
        let front = order.drop_last();
        lemma_sections_by_name(options, front, opts);
        assert(names.drop_last() =~= Seq::new(
            front.len(),
            |i: int| options.names()[front[i] as int],
        ));
        assert(order[order.len() - 1] == order.last());
        options.lemma_value_at_index(order.last() as int);
    }
}

proof fn lemma_named_sections_agree(
    one: OptionsMap,
    other: OptionsMap,
    names: Seq<Seq<char>>,
    opts: RenderOptions,
)
    requires
        forall|name: Seq<char>| one.value_of(name) == other.value_of(name),
    ensures
        named_sections_text(one, names, opts) == named_sections_text(other, names, opts),
    decreases names.len(),
{
    if names.len() > 0 {
        lemma_named_sections_agree(one, other, names.drop_last(), opts);
    }
}

/// The rendering of a set of options does not depend on the order in which
/// the options were put in: two maps that hold the same options under the
/// same names render alike.
pub proof fn lemma_rendering_ignores_insertion_order(
    one: OptionsMap,
    other: OptionsMap,
    opts: RenderOptions,
)
    requires
        one.wf(),
        other.wf(),
        forall|name: Seq<char>| one.value_of(name) == other.value_of(name),
    ensures
        options_text(one, opts) == options_text(other, opts),
{
    one.lemma_names_fit();
    other.lemma_names_fit();
    lemma_listed_names(one.names());
    lemma_listed_names(other.names());
    assert forall|x: Seq<char>|
        listed_names(one.names()).contains(x) <==> listed_names(other.names()).contains(x) by {
        assert(one.has(x) <==> one.value_of(x) is Some);
        assert(other.has(x) <==> other.value_of(x) is Some);
    }
    lemma_strict_order_is_unique(listed_names(one.names()), listed_names(other.names()));
    lemma_sections_by_name(one, listing_order(one.names()), opts);
    lemma_sections_by_name(other, listing_order(other.names()), opts);
    assert(listed_names(one.names()) =~= Seq::new(
        listing_order(one.names()).len(),
        |i: int| one.names()[listing_order(one.names())[i] as int],
    ));
    assert(listed_names(other.names()) =~= Seq::new(
        listing_order(other.names()).len(),
        |i: int| other.names()[listing_order(other.names())[i] as int],
    ));
    lemma_named_sections_agree(one, other, listed_names(one.names()), opts);
}

} // verus!
