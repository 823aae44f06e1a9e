//! The entries of a manual and their rendering as CommonMark.

use crate::lines::{join_lines, joined, lines_view};
use crate::text::{append_chars, from_chars, text_of, to_chars};
use vstd::prelude::*;
use vstd::string::*;

verus! {

/// The name of a function argument and what is said of it.
#[derive(Debug, Clone)]
pub struct SingleArg {
    pub name: String,
    pub doc: Option<String>,
}

/// An argument of a function: an identifier, or a pattern of several.
#[derive(Debug, Clone)]
pub enum Argument {
    /// An argument such as `n` in `n: n * 2`.
    Flat(SingleArg),
    /// An argument such as `{ name, age }` in `{ name, age }: ...`.
    Pattern(Vec<SingleArg>),
}

/// The section of a manual that describes one binding.
#[derive(Debug, Clone)]
pub struct ManualEntry {
    /// What the category's name is prefixed with, such as `lib`.
    pub prefix: String,
    /// The category, such as `strings`.
    pub category: String,
    /// Where the binding is defined.
    pub location: Option<String>,
    /// The binding's name.
    pub name: String,
    /// The type signature.
    pub fn_type: Option<String>,
    /// The documentation, line by line.
    pub description: Vec<String>,
    /// An example of use.
    pub example: Option<String>,
    /// The arguments, in order.
    pub args: Vec<Argument>,
}

/// The entries of a manual as they are handed to other tools: a list with
/// the version of its format.
#[derive(Debug, Clone)]
pub struct JsonFormat {
    pub version: u32,
    pub entries: Vec<ManualEntry>,
}

impl JsonFormat {
    /// The list of `entries`, as they are, in version 1 of the format.
    pub fn new(entries: Vec<ManualEntry>) -> (out: Self)
        ensures
            out.version == 1,
            out.entries == entries,
    {
        JsonFormat { version: 1, entries }
    }
}

/// A `SingleArg` as texts.
pub struct SingleArgView {
    pub name: Seq<char>,
    pub doc: Option<Seq<char>>,
}

/// An `Argument` as texts.
pub enum ArgumentView {
    Flat(SingleArgView),
    Pattern(Seq<SingleArgView>),
}

/// A `ManualEntry` as texts.
pub struct EntryView {
    pub prefix: Seq<char>,
    pub category: Seq<char>,
    pub location: Option<Seq<char>>,
    pub name: Seq<char>,
    pub fn_type: Option<Seq<char>>,
    pub description: Seq<Seq<char>>,
    pub example: Option<Seq<char>>,
    pub args: Seq<ArgumentView>,
}

impl View for SingleArg {
    type V = SingleArgView;

    open spec fn view(&self) -> SingleArgView {
        SingleArgView { name: self.name@, doc: text_of(self.doc) }
    }
}

pub open spec fn single_args_view(args: Seq<SingleArg>) -> Seq<SingleArgView> {
    Seq::new(args.len(), |i: int| args[i]@)
}

impl View for Argument {
    type V = ArgumentView;

    open spec fn view(&self) -> ArgumentView {
        match self {
            Argument::Flat(single) => ArgumentView::Flat(single@),
            Argument::Pattern(entries) => ArgumentView::Pattern(single_args_view(entries@)),
        }
    }
}

pub open spec fn arguments_view(args: Seq<Argument>) -> Seq<ArgumentView> {
    Seq::new(args.len(), |i: int| args[i]@)
}

impl View for ManualEntry {
    type V = EntryView;

    open spec fn view(&self) -> EntryView {
        EntryView {
            prefix: self.prefix@,
            category: self.category@,
            location: text_of(self.location),
            name: self.name@,
            fn_type: text_of(self.fn_type),
            description: description_lines(self.description@),
            example: text_of(self.example),
            args: arguments_view(self.args@),
        }
    }
}

pub open spec fn entries_view(entries: Seq<ManualEntry>) -> Seq<EntryView> {
    Seq::new(entries.len(), |i: int| entries[i]@)
}

/// A copy of a text that may be absent.
pub fn copy_text(text: &Option<String>) -> (out: Option<String>)
    ensures
        text_of(out) == text_of(*text),
{
    match text {
        Some(t) => Some(t.clone()),
        None => None,
    }
}

impl SingleArg {
    pub fn copy(&self) -> (out: Self)
        ensures
            out@ == self@,
    {
        SingleArg { name: self.name.clone(), doc: copy_text(&self.doc) }
    }
}

impl Argument {
    pub fn copy(&self) -> (out: Self)
        ensures
            out@ == self@,
    {
        match self {
            Argument::Flat(single) => Argument::Flat(single.copy()),
            Argument::Pattern(entries) => {
                let mut out: Vec<SingleArg> = Vec::new();
                let mut i: usize = 0;
                while i < entries.len()
                    invariant
                        i <= entries.len(),
                        single_args_view(out@) == single_args_view(entries@.take(i as int)),
                    decreases entries.len() - i,
                {
                    let ghost before = single_args_view(out@);
                    out.push(entries[i].copy());
                    assert(single_args_view(out@) =~= before.push(entries@[i as int]@));
                    assert(single_args_view(entries@.take(i + 1)) =~= before.push(
                        entries@[i as int]@,
                    ));
                    i += 1;
                }
                assert(entries@.take(entries.len() as int) == entries@);
                Argument::Pattern(out)
            },
        }
    }
}

/// The parts that are not empty, with a dot between each two.
pub open spec fn dotted(parts: Seq<Seq<char>>) -> Seq<char>
    decreases parts.len(),
{
    if parts.len() == 0 {
        Seq::empty()
    } else if parts.last().len() == 0 {
        dotted(parts.drop_last())
    } else if dotted(parts.drop_last()).len() == 0 {
        parts.last()
    } else {
        dotted(parts.drop_last()).push('.') + parts.last()
    }
}

/// `name` with `-prime` in place of each apostrophe.
pub open spec fn primed(name: Seq<char>) -> Seq<char>
    decreases name.len(),
{
    if name.len() == 0 {
        Seq::empty()
    } else if name.last() == '\'' {
        primed(name.drop_last()) + "-prime"@
    } else {
        primed(name.drop_last()).push(name.last())
    }
}

/// `text` with a hyphen in place of each dot.
pub open spec fn hyphenated(text: Seq<char>) -> Seq<char> {
    Seq::new(
        text.len(),
        |i: int|
            if text[i] == '.' {
                '-'
            } else {
                text[i]
            },
    )
}

/// The identifier of an entry: prefix, category and name, the name with its
/// apostrophes spelled out, those of them that are not empty joined by dots.
pub open spec fn ident_text(entry: ManualEntry) -> Seq<char> {
    dotted(seq![entry.prefix@, entry.category@, primed(entry.name@)])
}

/// The title of an entry: prefix, category and name, those of them that are
/// not empty joined by dots.
pub open spec fn title_text(entry: ManualEntry) -> Seq<char> {
    dotted(seq![entry.prefix@, entry.category@, entry.name@])
}

/// The anchor of an entry: the anchor prefix, the category, a hyphen, and
/// the name with its apostrophes spelled out; every dot is a hyphen.
pub open spec fn anchor_text(entry: ManualEntry, anchor_prefix: Seq<char>) -> Seq<char> {
    anchor_prefix + hyphenated(entry.category@) + seq!['-'] + hyphenated(primed(entry.name@))
}

/// What is said of an argument, or that it is one.
pub open spec fn arg_doc_text(arg: SingleArg) -> Seq<char> {
    match arg.doc {
        Some(doc) => doc@,
        None => "Function argument"@,
    }
}

/// An identifier as an item of a definition list.
pub open spec fn single_arg_text(arg: SingleArg) -> Seq<char> {
    "`"@ + arg.name@ + "`\n\n: "@ + arg_doc_text(arg) + "\n\n"@
}

/// An entry of a pattern as an item of a definition list, indented.
pub open spec fn pattern_arg_text(arg: SingleArg) -> Seq<char> {
    "  `"@ + arg.name@ + "`\n\n  : "@ + arg_doc_text(arg) + "\n\n"@
}

pub open spec fn pattern_args_text(args: Seq<SingleArg>) -> Seq<char>
    decreases args.len(),
{
    if args.len() == 0 {
        Seq::empty()
    } else {
        pattern_args_text(args.drop_last()) + pattern_arg_text(args.last())
    }
}

/// An argument: an identifier as an item of a definition list, a pattern
/// under a line that announces it, entry by entry.
pub open spec fn argument_text(arg: Argument) -> Seq<char> {
    match arg {
        Argument::Flat(single) => single_arg_text(single),
        Argument::Pattern(entries) => "structured function argument\n\n"@ + pattern_args_text(
            entries@,
        ),
    }
}

pub open spec fn arguments_text(args: Seq<Argument>) -> Seq<char>
    decreases args.len(),
{
    if args.len() == 0 {
        Seq::empty()
    } else {
        arguments_text(args.drop_last()) + argument_text(args.last())
    }
}

/// The texts of the lines of a description.
pub open spec fn description_lines(description: Seq<String>) -> Seq<Seq<char>> {
    Seq::new(description.len(), |i: int| description[i]@)
}

/// The documentation as a paragraph; nothing where there is none.
pub open spec fn body_text(description: Seq<String>) -> Seq<char> {
    if description.len() == 0 {
        Seq::empty()
    } else {
        joined(description_lines(description)) + "\n\n"@
    }
}

/// The type in a fenced block under its label.
pub open spec fn type_block_text(fn_type: Option<String>) -> Seq<char> {
    match fn_type {
        Some(t) => "**Type:**\n\n```\n"@ + t@ + "\n```\n\n"@,
        None => Seq::empty(),
    }
}

/// The example in a fenced block of Nix code under its label.
pub open spec fn example_block_text(example: Option<String>) -> Seq<char> {
    match example {
        Some(e) => "**Example:**\n\n```nix\n"@ + e@ + "\n```\n\n"@,
        None => Seq::empty(),
    }
}

/// The place of definition, as it was given.
pub open spec fn location_text(location: Option<String>) -> Seq<char> {
    match location {
        Some(loc) => "Located at "@ + loc@ + ".\n\n"@,
        None => Seq::empty(),
    }
}

/// The section of an entry: a heading of the second level with the title and
/// the anchor, the documentation, the type, the arguments, the example, and
/// the place of definition.
pub open spec fn section_text(entry: ManualEntry, anchor_prefix: Seq<char>) -> Seq<char> {
    "## `"@ + title_text(entry) + "` {#"@ + anchor_text(entry, anchor_prefix) + "}\n\n"@
        + body_text(entry.description@) + type_block_text(entry.fn_type) + arguments_text(
        entry.args@,
    ) + example_block_text(entry.example) + location_text(entry.location)
}

/// The sections of `entries`, one after the other.
pub open spec fn sections_text(entries: Seq<ManualEntry>, anchor_prefix: Seq<char>) -> Seq<char>
    decreases entries.len(),
{
    if entries.len() == 0 {
        Seq::empty()
    } else {
        sections_text(entries.drop_last(), anchor_prefix) + section_text(
            entries.last(),
            anchor_prefix,
        )
    }
}

/// The manual: the description of the category, an empty line, and the
/// sections of the entries.
pub open spec fn manual_text(
    description: Seq<char>,
    entries: Seq<ManualEntry>,
    anchor_prefix: Seq<char>,
) -> Seq<char> {
    description + "\n"@ + sections_text(entries, anchor_prefix)
}

fn join_dotted(a: &str, b: &str, c: &Vec<char>) -> (out: Vec<char>)
    ensures
        out@ == dotted(seq![a@, b@, c@]),
{
    let ghost parts = seq![a@, b@, c@];
    let first = to_chars(a);
    let second = to_chars(b);
    let mut out: Vec<char> = Vec::new();
    proof {
        assert(parts.drop_last() =~= seq![a@, b@]);
        assert(parts.drop_last().drop_last() =~= seq![a@]);
        assert(parts.drop_last().drop_last().drop_last() =~= Seq::<Seq<char>>::empty());
        assert(dotted(Seq::<Seq<char>>::empty()) =~= Seq::<char>::empty());
    }
    if first.len() > 0 {
        append_chars(&mut out, &first);
    }
    assert(out@ =~= dotted(seq![a@]));
    if second.len() > 0 {
        if out.len() > 0 {
            out.push('.');
        }
        append_chars(&mut out, &second);
    }
    assert(out@ =~= dotted(seq![a@, b@]));
    if c.len() > 0 {
        if out.len() > 0 {
            out.push('.');
        }
        append_chars(&mut out, c);
    }
    out
}

fn prime_name(name: &str) -> (out: Vec<char>)
    ensures
        out@ == primed(name@),
{
    let chars = to_chars(name);
    let suffix = to_chars("-prime");
    let mut out: Vec<char> = Vec::new();
    let mut i: usize = 0;
    while i < chars.len()
        invariant
            i <= chars.len(),
            suffix@ == "-prime"@,
            out@ == primed(chars@.take(i as int)),
        decreases chars.len() - i,
    {
        proof {
            assert(chars@.take(i + 1).drop_last() == chars@.take(i as int));
        }
        if chars[i] == '\'' {
            append_chars(&mut out, &suffix);
        } else {
            out.push(chars[i]);
        }
        i += 1;
    }
    assert(chars@.take(chars.len() as int) == chars@);
    out
}

fn hyphenate(text: &Vec<char>) -> (out: Vec<char>)
    ensures
        out@ == hyphenated(text@),
{
    let mut out: Vec<char> = Vec::new();
    let mut i: usize = 0;
    while i < text.len()
        invariant
            i <= text.len(),
            out@ == hyphenated(text@.take(i as int)),
        decreases text.len() - i,
    {
        let c = if text[i] == '.' {
            '-'
        } else {
            text[i]
        };
        out.push(c);
        assert(out@ =~= hyphenated(text@.take(i + 1)));
        i += 1;
    }
    assert(text@.take(text.len() as int) == text@);
    out
}

fn render_single_arg(arg: &SingleArg, indent: bool) -> (out: String)
    ensures
        out@ == if indent {
            pattern_arg_text(*arg)
        } else {
            single_arg_text(*arg)
        },
{
    let mut out = if indent {
        "  `".to_owned()
    } else {
        "`".to_owned()
    };
    out.append(arg.name.as_str());
    if indent {
        out.append("`\n\n  : ");
    } else {
        out.append("`\n\n: ");
    }
    match &arg.doc {
        Some(doc) => out.append(doc.as_str()),
        None => out.append("Function argument"),
    }
    out.append("\n\n");
    out
}

impl Argument {
    /// Renders the argument as an item of a definition list.
    pub fn format_argument(&self) -> (out: String)
        ensures
            out@ == argument_text(*self),
    {
        match self {
            Argument::Flat(single) => render_single_arg(single, false),
            Argument::Pattern(entries) => {
                let mut out = "structured function argument\n\n".to_owned();
                let ghost head = out@;
                let mut i: usize = 0;
                while i < entries.len()
                    invariant
                        i <= entries.len(),
                        out@ == head + pattern_args_text(entries@.take(i as int)),
                    decreases entries.len() - i,
                {
                    proof {
                        assert(entries@.take(i + 1).drop_last() == entries@.take(i as int));
                    }
                    let item = render_single_arg(&entries[i], true);
                    out.append(item.as_str());
                    assert(out@ =~= head + pattern_args_text(entries@.take(i + 1)));
                    i += 1;
                }
                assert(entries@.take(entries.len() as int) == entries@);
                out
            },
        }
    }
}

impl ManualEntry {
    /// An entry that holds the same as this one.
    pub fn copy(&self) -> (out: Self)
        ensures
            out@ == self@,
    {
        let mut description: Vec<String> = Vec::new();
        let mut i: usize = 0;
        while i < self.description.len()
            invariant
                i <= self.description.len(),
                description_lines(description@) == description_lines(
                    self.description@.take(i as int),
                ),
            decreases self.description.len() - i,
        {
            let ghost before = description_lines(description@);
            description.push(self.description[i].clone());
            assert(description_lines(description@) =~= before.push(self.description@[i as int]@));
            assert(description_lines(self.description@.take(i + 1)) =~= before.push(
                self.description@[i as int]@,
            ));
            i += 1;
        }
        assert(self.description@.take(self.description.len() as int) == self.description@);
        let mut args: Vec<Argument> = Vec::new();
        let mut k: usize = 0;
        while k < self.args.len()
            invariant
                k <= self.args.len(),
                arguments_view(args@) == arguments_view(self.args@.take(k as int)),
            decreases self.args.len() - k,
        {
            let ghost before = arguments_view(args@);
            args.push(self.args[k].copy());
            assert(arguments_view(args@) =~= before.push(self.args@[k as int]@));
            assert(arguments_view(self.args@.take(k + 1)) =~= before.push(self.args@[k as int]@));
            k += 1;
        }
        assert(self.args@.take(self.args.len() as int) == self.args@);
        ManualEntry {
            prefix: self.prefix.clone(),
            category: self.category.clone(),
            location: copy_text(&self.location),
            name: self.name.clone(),
            fn_type: copy_text(&self.fn_type),
            description,
            example: copy_text(&self.example),
            args,
        }
    }

    /// The identifier and the title of the entry. Both are made of prefix,
    /// category and name, those of them that are not empty, joined by dots; in
    /// the identifier each apostrophe of the name is spelled `-prime`.
    pub fn get_ident_title(&self) -> (out: (String, String))
        ensures
            out.0@ == ident_text(*self),
            out.1@ == title_text(*self),
    {
        let name_prime = prime_name(self.name.as_str());
        let ident = join_dotted(self.prefix.as_str(), self.category.as_str(), &name_prime);
        let name = to_chars(self.name.as_str());
        let title = join_dotted(self.prefix.as_str(), self.category.as_str(), &name);
        (from_chars(&ident), from_chars(&title))
    }

    /// The anchor of the entry's section.
    pub fn anchor(&self, anchor_prefix: &str) -> (out: String)
        ensures
            out@ == anchor_text(*self, anchor_prefix@),
    {
        let mut out = to_chars(anchor_prefix);
        append_chars(&mut out, &hyphenate(&to_chars(self.category.as_str())));
        out.push('-');
        append_chars(&mut out, &hyphenate(&prime_name(self.name.as_str())));
        from_chars(&out)
    }

    /// Writes the entry's section at the end of `output`, and returns the
    /// whole of it.
    pub fn write_section(&self, anchor_prefix: &str, output: &mut String) -> (out: String)
        ensures
            final(output)@ == old(output)@ + section_text(*self, anchor_prefix@),
            out@ == final(output)@,
    {
        let ghost start = output@;
        let (_, title) = self.get_ident_title();
        let mut section = "## `".to_owned();
        section.append(title.as_str());
        section.append("` {#");
        section.append(self.anchor(anchor_prefix).as_str());
        section.append("}\n\n");
        if self.description.len() > 0 {
            let mut lines: Vec<Vec<char>> = Vec::new();
            let mut i: usize = 0;
            while i < self.description.len()
                invariant
                    i <= self.description.len(),
                    lines_view(lines@) == description_lines(self.description@.take(i as int)),
                decreases self.description.len() - i,
            {
                let ghost before = lines_view(lines@);
                lines.push(to_chars(self.description[i].as_str()));
                assert(lines_view(lines@) =~= before.push(self.description@[i as int]@));
                assert(lines_view(lines@) =~= description_lines(self.description@.take(i + 1)));
                i += 1;
            }
            assert(self.description@.take(self.description.len() as int) == self.description@);
            section.append(from_chars(&join_lines(&lines)).as_str());
            section.append("\n\n");
        }
        match &self.fn_type {
            Some(t) => {
                let mut block = "**Type:**\n\n```\n".to_owned();
                block.append(t.as_str());
                block.append("\n```\n\n");
                section.append(block.as_str());
            },
            None => {},
        }
        let ghost head = section@;
        let mut i: usize = 0;
        while i < self.args.len()
            invariant
                i <= self.args.len(),
                section@ == head + arguments_text(self.args@.take(i as int)),
            decreases self.args.len() - i,
        {
            proof {
                assert(self.args@.take(i + 1).drop_last() == self.args@.take(i as int));
            }
            section.append(self.args[i].format_argument().as_str());
            assert(section@ =~= head + arguments_text(self.args@.take(i + 1)));
            i += 1;
        }
        assert(self.args@.take(self.args.len() as int) == self.args@);
        match &self.example {
            Some(e) => {
                let mut block = "**Example:**\n\n```nix\n".to_owned();
                block.append(e.as_str());
                block.append("\n```\n\n");
                section.append(block.as_str());
            },
            None => {},
        }
        match &self.location {
            Some(loc) => {
                let mut line = "Located at ".to_owned();
                line.append(loc.as_str());
                line.append(".\n\n");
                section.append(line.as_str());
            },
            None => {},
        }
        assert(section@ =~= section_text(*self, anchor_prefix@));
        output.append(section.as_str());
        output.clone()
    }
}

/// Renders the manual of a category: its description, an empty line, and
/// the sections of the entries in their order.
pub fn render_manual(description: &str, entries: &Vec<ManualEntry>, anchor_prefix: &str) -> (out:
    String)
    ensures
        out@ == manual_text(description@, entries@, anchor_prefix@),
{
    let mut out = description.to_owned();
    out.append("\n");
    let ghost head = out@;
    let mut i: usize = 0;
    while i < entries.len()
        invariant
            i <= entries.len(),
            out@ == head + sections_text(entries@.take(i as int), anchor_prefix@),
        decreases entries.len() - i,
    {
        proof {
            assert(entries@.take(i + 1).drop_last() == entries@.take(i as int));
        }
        entries[i].write_section(anchor_prefix, &mut out);
        assert(out@ =~= head + sections_text(entries@.take(i + 1), anchor_prefix@));
        i += 1;
    }
    assert(entries@.take(entries.len() as int) == entries@);
    out
}

} // verus!
