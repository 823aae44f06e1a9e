//! Comments without a marker: free text in which a line that starts with
//! `Type:` or `Example:` opens the section of that name.

use crate::comment::retrieve_doc_comment;
use crate::commonmark::{
    arguments_view, description_lines, single_args_view, Argument, ArgumentView, EntryView,
    ManualEntry, SingleArg, SingleArgView,
};
use crate::format::{normalize_chars, normalized, without_indentation};
use crate::map::TextMap;
use crate::syntax::{Kind, Pick, SyntaxTree};
use crate::lines::{lines_of, lines_view, split_lines};
use crate::text::{
    append_chars, from_chars, slice_chars, starts_with, text_of, to_chars, trim, trimmed,
};
use vstd::prelude::*;
use vstd::string::*;

verus! {

/// What a comment says of a binding.
#[derive(Debug, Clone)]
pub struct DocComment {
    /// The documentation itself.
    pub doc: String,
    /// The type of the thing documented; only comments without a marker
    /// have one.
    pub doc_type: Option<String>,
    /// Examples of use, taken as one block of code; only comments without a
    /// marker have them.
    pub example: Option<String>,
}

/// The section that the scanner is in.
#[derive(Debug, Clone, Copy, PartialEq, Eq, Structural)]
pub enum Section {
    Doc,
    Type,
    Example,
}

/// What follows `marker` on `line`, if the line starts with it once the
/// whitespace round the line is dropped.
pub open spec fn marker_rest(line: Seq<char>, marker: Seq<char>) -> Option<Seq<char>> {
    if marker.is_prefix_of(trimmed(line)) {
        Some(trimmed(line).skip(marker.len() as int))
    } else {
        None
    }
}

/// The scanner's state after one more line: the section it is in and the
/// texts of the three sections. A marker line opens its section and gives
/// it the rest of the line; any other line goes to the current section as it
/// is, with its newline unless it is the text's last.
pub open spec fn scan_step(
    state: (Section, Seq<char>, Seq<char>, Seq<char>),
    line: Seq<char>,
    last: bool,
) -> (Section, Seq<char>, Seq<char>, Seq<char>) {
    let whole = if last {
        line
    } else {
        line.push('\n')
    };
    match marker_rest(line, "Type:"@) {
        Some(rest) => (Section::Type, state.1, state.2 + rest.push('\n'), state.3),
        None => match marker_rest(line, "Example:"@) {
            Some(rest) => (Section::Example, state.1, state.2, state.3 + rest.push('\n')),
            None => match state.0 {
                Section::Doc => (Section::Doc, state.1 + whole, state.2, state.3),
                Section::Type => (Section::Type, state.1, state.2 + whole, state.3),
                Section::Example => (Section::Example, state.1, state.2, state.3 + whole),
            },
        },
    }
}

/// The scanner's state after the first `n` of `lines`. It starts in the
/// documentation, with all three texts empty.
pub open spec fn scanned(lines: Seq<Seq<char>>, n: nat) -> (
    Section,
    Seq<char>,
    Seq<char>,
    Seq<char>,
)
    decreases n,
{
    if n == 0 {
        (Section::Doc, Seq::empty(), Seq::empty(), Seq::empty())
    } else {
        scan_step(scanned(lines, (n - 1) as nat), lines[n - 1], n == lines.len())
    }
}

/// The raw texts of the documentation, the type and the example of a
/// comment.
pub open spec fn sections_of(raw: Seq<char>) -> (Seq<char>, Seq<char>, Seq<char>) {
    let end = scanned(lines_of(raw), lines_of(raw).len());
    (end.1, end.2, end.3)
}

/// Once the scanner has left the documentation it does not come back: no
/// later line adds to the documentation.
pub proof fn lemma_documentation_is_closed(lines: Seq<Seq<char>>, n: nat, m: nat)
    requires
        n <= m <= lines.len(),
        scanned(lines, n).0 != Section::Doc,
    ensures
        scanned(lines, m).0 != Section::Doc,
        scanned(lines, m).1 == scanned(lines, n).1,
    decreases m,
{
    if m > n {
        lemma_documentation_is_closed(lines, n, (m - 1) as nat);
    }
}

/// Splits the text of a comment into documentation, type and example, and
/// removes the indentation of each. A type or an example of which nothing is
/// left is absent; the documentation is then empty.
pub fn parse_doc_comment(raw: &str) -> (out: DocComment)
    ensures
        out.doc@ == without_indentation(sections_of(raw@).0),
        text_of(out.doc_type) == normalized(sections_of(raw@).1),
        text_of(out.example) == normalized(sections_of(raw@).2),
{
    let lines = split_lines(&to_chars(raw));
    let ghost all = lines_view(lines@);
    let type_marker = to_chars("Type:");
    let example_marker = to_chars("Example:");
    let mut section = Section::Doc;
    let mut doc: Vec<char> = Vec::new();
    let mut doc_type: Vec<char> = Vec::new();
    let mut example: Vec<char> = Vec::new();
    let mut i: usize = 0;
    while i < lines.len()
        invariant
            i <= lines.len(),
            all == lines_view(lines@),
            type_marker@ == "Type:"@,
            example_marker@ == "Example:"@,
            (section, doc@, doc_type@, example@) == scanned(all, i as nat),
        decreases lines.len() - i,
    {
        let line = &lines[i];
        assert(all[i as int] == line@);
        let core = trim(line);
        if starts_with(&core, &type_marker) {
            section = Section::Type;
            let rest = slice_chars(&core, type_marker.len(), core.len());
            append_chars(&mut doc_type, &rest);
            doc_type.push('\n');
        } else if starts_with(&core, &example_marker) {
            section = Section::Example;
            let rest = slice_chars(&core, example_marker.len(), core.len());
            append_chars(&mut example, &rest);
            example.push('\n');
        } else {
            match section {
                Section::Doc => {
                    append_chars(&mut doc, line);
                    if i + 1 < lines.len() {
                        doc.push('\n');
                    }
                },
                Section::Type => {
                    append_chars(&mut doc_type, line);
                    if i + 1 < lines.len() {
                        doc_type.push('\n');
                    }
                },
                Section::Example => {
                    append_chars(&mut example, line);
                    if i + 1 < lines.len() {
                        example.push('\n');
                    }
                },
            }
        }
        proof {
            let before = scanned(all, i as nat);
            let after = scan_step(before, line@, i + 1 == lines.len());
            assert(after.1 =~= doc@);
            assert(after.2 =~= doc_type@);
            assert(after.3 =~= example@);
        }
        i += 1;
    }
    let text = match normalize_chars(&doc) {
        Some(text) => text,
        None => String::new(),
    };
    DocComment { doc: text, doc_type: normalize_chars(&doc_type), example: normalize_chars(&example) }
}


/// A line comment: it opens with `#`.
pub open spec fn is_line_comment(text: Seq<char>) -> bool {
    text.len() > 0 && text[0] == '#'
}

/// A block comment: it opens with `/*` and closes with `*/`.
pub open spec fn is_block_comment(text: Seq<char>) -> bool {
    &&& text.len() >= 4
    &&& text[0] == '/'
    &&& text[1] == '*'
    &&& text[text.len() - 2] == '*'
    &&& text[text.len() - 1] == '/'
}

/// What a block comment holds between `/*` and `*/`.
pub open spec fn block_comment_body(text: Seq<char>) -> Seq<char> {
    text.subrange(2, text.len() - 2)
}

/// Whitespace that leads from the end of one line to the next line, with no
/// empty line between.
pub open spec fn continues_line(space: Seq<char>) -> bool {
    space.len() > 0 && space[0] == '\n' && !space.skip(1).contains('\n')
}

fn chars_continue_line(space: &Vec<char>) -> (yes: bool)
    ensures
        yes == continues_line(space@),
{
    if space.len() == 0 || space[0] != '\n' {
        return false;
    }
    let mut i: usize = 1;
    while i < space.len()
        invariant
            1 <= i <= space.len(),
            forall|k: int| 1 <= k < i ==> space@[k] != '\n',
        decreases space.len() - i,
    {
        if space[i] == '\n' {
            assert(space@.skip(1)[i - 1] == '\n');
            return false;
        }
        i += 1;
    }
    assert forall|k: int| 0 <= k < space@.skip(1).len() implies space@.skip(1)[k] != '\n' by {
        assert(space@.skip(1)[k] == space@[k + 1]);
    }
    true
}

impl SyntaxTree {
    /// The comment that stands before the element at `t` in the source, with
    /// at most one token of whitespace between the two.
    pub open spec fn comment_before(self, t: int) -> Option<usize> {
        match self.prev_token(t) {
            Some(a) => if self.kind(a as int) == Kind::Whitespace {
                match self.prev_token(a as int) {
                    Some(b) => if self.kind(b as int) == Kind::Comment {
                        Some(b)
                    } else {
                        None
                    },
                    None => None,
                }
            } else if self.kind(a as int) == Kind::Comment {
                Some(a)
            } else {
                None
            },
            None => None,
        }
    }

    /// The comment that stands before the element at `t` and may document
    /// it: the nearest one, or, where line comments do not count, the nearest
    /// that is reached over line comments alone and is none itself.
    pub open spec fn legacy_comment_token(self, t: int, allow_line_comments: bool) -> Option<
        usize,
    >
        decreases t,
    {
        match self.comment_before(t) {
            Some(c) => if !allow_line_comments && is_line_comment(self.text(c as int)) {
                if c < t {
                    self.legacy_comment_token(c as int, allow_line_comments)
                } else {
                    None
                }
            } else {
                Some(c)
            },
            None => None,
        }
    }

    /// The line comment at `c` and the line comments on the lines just above
    /// it, as one text: each without its `#` and the whitespace round it, with
    /// a space between each two.
    pub open spec fn merged_line_comments(self, c: int) -> Seq<char>
        decreases c,
    {
        if !(0 <= c < self.len() && self.kind(c) == Kind::Comment && is_line_comment(
            self.text(c),
        )) {
            Seq::empty()
        } else {
            let own = trimmed(self.text(c).skip(1));
            match self.prev_token(c) {
                Some(w) => if w < c && self.kind(w as int) == Kind::Whitespace && continues_line(
                    self.text(w as int),
                ) {
                    match self.prev_token(w as int) {
                        Some(d) => if d < w && self.kind(d as int) == Kind::Comment
                            && is_line_comment(self.text(d as int)) {
                            self.merged_line_comments(d as int) + seq![' '] + own
                        } else {
                            own
                        },
                        None => own,
                    }
                } else {
                    own
                },
                None => own,
            }
        }
    }

    /// The text of the comment without a marker that documents the element
    /// at `node`: what a block comment holds, or the line comments above the
    /// element as one text.
    pub open spec fn legacy_comment(self, node: int, allow_line_comments: bool) -> Option<
        Seq<char>,
    > {
        match self.first_token(node) {
            Some(t) => match self.legacy_comment_token(t as int, allow_line_comments) {
                Some(c) => if is_block_comment(self.text(c as int)) {
                    Some(block_comment_body(self.text(c as int)))
                } else if is_line_comment(self.text(c as int)) {
                    Some(self.merged_line_comments(c as int))
                } else {
                    None
                },
                None => None,
            },
            None => None,
        }
    }

    fn find_comment_before(&self, t: usize) -> (out: Option<usize>)
        ensures
            out == self.comment_before(t as int),
            out matches Some(c) ==> c < t && c < self.len(),
    {
        match self.prev_token_of(t) {
            Some(a) => match self.elements[a].kind {
                Kind::Whitespace => match self.prev_token_of(a) {
                    Some(b) => match self.elements[b].kind {
                        Kind::Comment => Some(b),
                        _ => None,
                    },
                    None => None,
                },
                Kind::Comment => Some(a),
                _ => None,
            },
            None => None,
        }
    }

    fn find_legacy_comment_token(&self, t: usize, allow_line_comments: bool) -> (out: Option<
        usize,
    >)
        ensures
            out == self.legacy_comment_token(t as int, allow_line_comments),
            out matches Some(c) ==> c < self.len(),
    {
        let mut at: usize = t;
        loop
            invariant
                self.legacy_comment_token(t as int, allow_line_comments)
                    == self.legacy_comment_token(at as int, allow_line_comments),
            decreases at,
        {
            match self.find_comment_before(at) {
                Some(c) => {
                    let text = to_chars(self.elements[c].text.as_str());
                    if !allow_line_comments && text.len() > 0 && text[0] == '#' {
                        at = c;
                    } else {
                        return Some(c);
                    }
                },
                None => {
                    return None;
                },
            }
        }
    }

    fn merge_line_comments(&self, c: usize) -> (out: Vec<char>)
        ensures
            out@ == self.merged_line_comments(c as int),
        decreases c,
    {
        if c >= self.elements.len() {
            return Vec::new();
        }
        let text = to_chars(self.elements[c].text.as_str());
        let is_comment = match self.elements[c].kind {
            Kind::Comment => true,
            _ => false,
        };
        if !(is_comment && text.len() > 0 && text[0] == '#') {
            return Vec::new();
        }
        assert(text@.subrange(1, text.len() as int) == text@.skip(1));
        let own = trim(&slice_chars(&text, 1, text.len()));
        let mut out: Vec<char> = Vec::new();
        match self.prev_token_of(c) {
            Some(w) => {
                let is_space = match self.elements[w].kind {
                    Kind::Whitespace => true,
                    _ => false,
                };
                if is_space && chars_continue_line(&to_chars(self.elements[w].text.as_str())) {
                    match self.prev_token_of(w) {
                        Some(d) => {
                            let above = to_chars(self.elements[d].text.as_str());
                            let is_line = match self.elements[d].kind {
                                Kind::Comment => above.len() > 0 && above[0] == '#',
                                _ => false,
                            };
                            if is_line {
                                out = self.merge_line_comments(d);
                                out.push(' ');
                            }
                        },
                        None => {},
                    }
                }
            },
            None => {},
        }
        append_chars(&mut out, &own);
        out
    }
}

/// The text of the comment without a marker that documents the element at
/// `node`. The comment stands before the element's first token, with at most
/// one token of whitespace between. For a block comment the text is what it
/// holds; for line comments it is theirs, line by line, as one text. Where
/// line comments do not count, the comment is sought above them.
pub fn retrieve_legacy_comment(tree: &SyntaxTree, node: usize, allow_line_comments: bool) -> (out:
    Option<String>)
    ensures
        text_of(out) == tree.legacy_comment(node as int, allow_line_comments),
{
    match tree.first_token_of(node) {
        Some(t) => match tree.find_legacy_comment_token(t, allow_line_comments) {
            Some(c) => {
                let text = to_chars(tree.elements[c].text.as_str());
                let n = text.len();
                if n >= 4 && text[0] == '/' && text[1] == '*' && text[n - 2] == '*' && text[n
                    - 1] == '/' {
                    Some(from_chars(&slice_chars(&text, 2, n - 2)))
                } else if n > 0 && text[0] == '#' {
                    Some(from_chars(&tree.merge_line_comments(c)))
                } else {
                    None
                }
            },
            None => None,
        },
        None => None,
    }
}


/// Where bindings are defined, each under its name.
pub type Locations = TextMap<String>;

/// The text, or the empty text where there is none.
pub open spec fn text_or_empty(text: Option<Seq<char>>) -> Seq<char> {
    match text {
        Some(t) => t,
        None => Seq::empty(),
    }
}

impl SyntaxTree {
    /// The argument that the identifier parameter at `p` stands for: its name
    /// and what the comment before it says.
    pub open spec fn ident_param_arg(self, p: int) -> SingleArgView {
        SingleArgView {
            name: self.source(p),
            doc: normalized(text_or_empty(self.legacy_comment(p, true))),
        }
    }

    /// The argument that the entry at `e` of a pattern stands for: the name
    /// of its identifier and what the comment before it says, a documentation
    /// comment first.
    pub open spec fn pat_entry_arg(self, e: int) -> SingleArgView {
        SingleArgView {
            name: match self.child(e, Pick::Only(Kind::Ident)) {
                Some(x) => self.source(x as int),
                None => Seq::empty(),
            },
            doc: normalized(
                match self.doc_comment(e, 1) {
                    Some(docs) => docs,
                    None => text_or_empty(self.legacy_comment(e, true)),
                },
            ),
        }
    }

    /// The arguments that the pattern entries among `list` stand for.
    pub open spec fn pattern_args(self, list: Seq<usize>) -> Seq<SingleArgView>
        decreases list.len(),
    {
        if list.len() == 0 {
            Seq::empty()
        } else if list.last() < self.len() && self.kind(list.last() as int) == Kind::PatEntry {
            self.pattern_args(list.drop_last()).push(self.pat_entry_arg(list.last() as int))
        } else {
            self.pattern_args(list.drop_last())
        }
    }

    /// The argument of the lambda at `lambda`, if it has a parameter.
    pub open spec fn param_arg(self, lambda: int) -> Seq<ArgumentView> {
        match self.child(lambda, Pick::AnyParam) {
            Some(p) => if self.kind(p as int) == Kind::IdentParam {
                seq![ArgumentView::Flat(self.ident_param_arg(p as int))]
            } else {
                seq![ArgumentView::Pattern(self.pattern_args(self.children(p as int)))]
            },
            None => Seq::empty(),
        }
    }

    /// The arguments of the lambda at `lambda` and of the lambdas that
    /// follow as body of one another.
    pub open spec fn lambda_args(self, lambda: int) -> Seq<ArgumentView>
        decreases self.len() - lambda,
    {
        if !(0 <= lambda < self.len()) {
            Seq::empty()
        } else {
            match self.child(lambda, Pick::AnyExpr) {
                Some(b) => if lambda < b < self.len() && self.kind(b as int) == Kind::Lambda {
                    self.param_arg(lambda) + self.lambda_args(b as int)
                } else {
                    self.param_arg(lambda)
                },
                None => self.param_arg(lambda),
            }
        }
    }

    fn collect_pattern_args(&self, pattern: usize) -> (out: Vec<SingleArg>)
        ensures
            single_args_view(out@) == self.pattern_args(self.children(pattern as int)),
    {
        let list = self.child_list(pattern);
        let mut out: Vec<SingleArg> = Vec::new();
        let mut i: usize = 0;
        while i < list.len()
            invariant
                i <= list.len(),
                forall|k: int| 0 <= k < list.len() ==> #[trigger] list[k] < self.len(),
                single_args_view(out@) == self.pattern_args(list@.take(i as int)),
            decreases list.len() - i,
        {
            let e = list[i];
            proof {
                assert(list@.take(i + 1).drop_last() == list@.take(i as int));
                assert(list@.take(i + 1).last() == e);
            }
            let is_entry = match self.elements[e].kind {
                Kind::PatEntry => true,
                _ => false,
            };
            if is_entry {
                let name = match self.first_child(e, Pick::Only(Kind::Ident)) {
                    Some(x) => from_chars(&self.source_text(x)),
                    None => String::new(),
                };
                let raw = match retrieve_doc_comment(self, e, Some(1)) {
                    Some(docs) => docs,
                    None => match retrieve_legacy_comment(self, e, true) {
                        Some(text) => text,
                        None => String::new(),
                    },
                };
                let doc = normalize_chars(&to_chars(raw.as_str()));
                let ghost before = single_args_view(out@);
                let arg = SingleArg { name, doc };
                assert(arg@ == self.pat_entry_arg(e as int));
                out.push(arg);
                assert(single_args_view(out@) =~= before.push(self.pat_entry_arg(e as int)));
            }
            i += 1;
        }
        assert(list@.take(list.len() as int) == list@);
        out
    }
}

/// The arguments of the lambda at `lambda` and of the lambdas that follow
/// as body of one another, each with what the comment before it says. An
/// identifier gives a flat argument, a pattern one with its entries.
pub fn collect_lambda_args_legacy(tree: &SyntaxTree, lambda: usize) -> (out: Vec<Argument>)
    ensures
        arguments_view(out@) == tree.lambda_args(lambda as int),
{
    let mut args: Vec<Argument> = Vec::new();
    let mut at: usize = lambda;
    assert(arguments_view(args@) + tree.lambda_args(at as int) =~= tree.lambda_args(at as int));
    while at < tree.elements.len()
        invariant
            tree.lambda_args(lambda as int) == arguments_view(args@) + tree.lambda_args(
                at as int,
            ),
        decreases tree.elements.len() - at,
    {
        let ghost before = arguments_view(args@);
        match tree.first_child(at, Pick::AnyParam) {
            Some(p) => {
                let is_ident = match tree.elements[p].kind {
                    Kind::IdentParam => true,
                    _ => false,
                };
                if is_ident {
                    let raw = match retrieve_legacy_comment(tree, p, true) {
                        Some(text) => text,
                        None => String::new(),
                    };
                    let single = SingleArg {
                        name: from_chars(&tree.source_text(p)),
                        doc: normalize_chars(&to_chars(raw.as_str())),
                    };
                    assert(single@ == tree.ident_param_arg(p as int));
                    args.push(Argument::Flat(single));
                } else {
                    args.push(Argument::Pattern(tree.collect_pattern_args(p)));
                }
                assert(arguments_view(args@) =~= before + tree.param_arg(at as int));
            },
            None => {
                assert(arguments_view(args@) =~= before + tree.param_arg(at as int));
            },
        }
        let next = match tree.first_child(at, Pick::AnyExpr) {
            Some(b) => match tree.elements[b].kind {
                Kind::Lambda => Some(b),
                _ => None,
            },
            None => None,
        };
        match next {
            Some(b) => {
                assert(before + (tree.param_arg(at as int) + tree.lambda_args(b as int))
                    =~= arguments_view(args@) + tree.lambda_args(b as int));
                at = b;
            },
            None => {
                assert(arguments_view(args@) + Seq::<ArgumentView>::empty() =~= arguments_view(
                    args@,
                ));
                return args;
            },
        }
    }
    assert(arguments_view(args@) + Seq::<ArgumentView>::empty() =~= arguments_view(args@));
    args
}

/// A binding with its comment without a marker and its arguments.
#[derive(Debug, Clone)]
pub struct LegacyDocItem {
    pub name: String,
    pub comment: DocComment,
    pub args: Vec<Argument>,
}

/// A documented binding as texts.
pub struct ItemView {
    pub name: Seq<char>,
    pub doc: Seq<char>,
    pub doc_type: Option<Seq<char>>,
    pub example: Option<Seq<char>>,
    pub args: Seq<ArgumentView>,
}

impl View for LegacyDocItem {
    type V = ItemView;

    open spec fn view(&self) -> ItemView {
        ItemView {
            name: self.name@,
            doc: self.comment.doc@,
            doc_type: text_of(self.comment.doc_type),
            example: text_of(self.comment.example),
            args: arguments_view(self.args@),
        }
    }
}

/// The entry that a documented binding makes in the category `category`
/// under `prefix`: its documentation line by line, or without lines if there
/// is none; its place of definition as `locs` has it under its name.
pub open spec fn entry_of(item: ItemView, prefix: Seq<char>, category: Seq<char>, locs: Locations)
    -> EntryView {
    EntryView {
        prefix,
        category,
        location: text_of(locs.value_of(item.name)),
        name: item.name,
        fn_type: item.doc_type,
        description: if item.doc.len() == 0 {
            Seq::empty()
        } else {
            lines_of(item.doc)
        },
        example: item.example,
        args: item.args,
    }
}

impl LegacyDocItem {
    /// Makes the item an entry of the manual.
    pub fn into_entry(self, prefix: &str, category: &str, locs: &Locations) -> (out: ManualEntry)
        ensures
            out@ == entry_of(self@, prefix@, category@, *locs),
    {
        let location = match locs.get(self.name.as_str()) {
            Some(place) => Some(place.clone()),
            None => None,
        };
        let mut description: Vec<String> = Vec::new();
        if self.comment.doc.as_str().unicode_len() > 0 {
            let lines = split_lines(&to_chars(self.comment.doc.as_str()));
            let mut i: usize = 0;
            while i < lines.len()
                invariant
                    i <= lines.len(),
                    description_lines(description@) == lines_view(lines@).take(i as int),
                decreases lines.len() - i,
            {
                let ghost before = description_lines(description@);
                description.push(from_chars(&lines[i]));
                assert(description_lines(description@) =~= before.push(lines@[i as int]@));
                assert(lines_view(lines@).take(i + 1) =~= before.push(lines@[i as int]@));
                i += 1;
            }
            assert(lines_view(lines@).take(lines.len() as int) == lines_view(lines@));
        } else {
            assert(description_lines(description@) =~= Seq::empty());
        }
        ManualEntry {
            prefix: prefix.to_owned(),
            category: category.to_owned(),
            location,
            name: self.name,
            fn_type: self.comment.doc_type,
            description,
            example: self.comment.example,
            args: self.args,
        }
    }
}

} // verus!
