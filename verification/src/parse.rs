//! Reading a Nix file into a syntax tree, with the parser of `rnix`.

use crate::syntax::{Element, Kind, SyntaxTree};
use crate::text::text_of;
use rnix::ast::Expr;
use rnix::SyntaxKind;
use rowan::ast::AstNode;
use vstd::prelude::*;
use vstd::string::*;

verus! {

/// `rnix::SyntaxKind`, the parser's kind of a node or token.
#[verifier::external_type_specification]
#[verifier::external_body]
pub struct ExSyntaxKind(rnix::SyntaxKind);

/// A node or a token as the parser hands it out.
pub struct RawElement {
    /// The number of nodes from the element up to the root; a node counts
    /// itself.
    pub ancestors: usize,
    /// The parser's kind.
    pub kind: rnix::SyntaxKind,
    /// The text of a token; nothing for a node.
    pub text: Option<String>,
}

/// A `RawElement`, its text as characters.
pub struct RawView {
    pub ancestors: usize,
    pub kind: rnix::SyntaxKind,
    pub text: Option<Seq<char>>,
}

impl View for RawElement {
    type V = RawView;

    open spec fn view(&self) -> RawView {
        RawView { ancestors: self.ancestors, kind: self.kind, text: text_of(self.text) }
    }
}

/// The elements that the parser handed out, their texts as characters.
pub open spec fn raw_view(raw: Seq<RawElement>) -> Seq<RawView> {
    Seq::new(raw.len(), |i: int| raw[i]@)
}

/// The number of characters that a source text must stay below to be
/// parsed. The parser counts the bytes of a text in 32 bits, and a character
/// takes four bytes at most.
pub const MAX_SOURCE_CHARS: usize = 0x4000_0000;

/// The nodes and tokens that the parser finds in a source text, in the order
/// of the text; nothing where the text does not parse.
pub uninterp spec fn rnix_elements(src: Seq<char>) -> Option<Seq<RawView>>;

/// The kind that this crate gives to a node of the parser's kind `kind`.
pub uninterp spec fn rnix_node_kind(kind: rnix::SyntaxKind) -> Kind;

/// The kind that this crate gives to a token of the parser's kind `kind`.
pub uninterp spec fn rnix_token_kind(kind: rnix::SyntaxKind) -> Kind;

/// `rnix::Root::parse`, then `descendants_with_tokens` on the root: every
/// node and token in preorder, each with the count of `ancestors()`, its
/// kind, and for a token its text. Nothing if the parser reports an error.
/// What comes back depends on the source text alone. The parser adds up the
/// lengths of the tokens as 32-bit numbers of bytes and panics where one does
/// not fit: the text has to stay below `MAX_SOURCE_CHARS` characters.
#[verifier::external_body]
fn walk_source(src: &str) -> (out: Option<Vec<RawElement>>)
    requires
        src@.len() < MAX_SOURCE_CHARS,
    ensures
        match out {
            Some(raw) => rnix_elements(src@) == Some(raw_view(raw@)),
            None => rnix_elements(src@) is None,
        },
{
    let root = rnix::Root::parse(src).ok().ok()?;
    let walk = root.syntax().descendants_with_tokens();
    Some(
        walk.map(
            |e|
                RawElement {
                    ancestors: e.ancestors().count(),
                    kind: e.kind(),
                    text: e.as_token().map(|t| t.text().to_string()),
                },
        ).collect(),
    )
}

/// Tells the node kinds of `rnix` apart: each kind that this crate reads has
/// a kind of its own here; of the others, `Kind::Expr` stands for those that
/// `rnix::ast::Expr` can be cast from and `Kind::Node` for the rest.
#[verifier::external_body]
fn node_kind(kind: rnix::SyntaxKind) -> (out: Kind)
    ensures
        out == rnix_node_kind(kind),
{
    match kind {
        SyntaxKind::NODE_PATTERN => Kind::Pattern,
        SyntaxKind::NODE_LET_IN => Kind::LetIn,
        SyntaxKind::NODE_ATTR_SET => Kind::AttrSet,
        SyntaxKind::NODE_ATTRPATH_VALUE => Kind::AttrpathValue,
        SyntaxKind::NODE_ATTRPATH => Kind::Attrpath,
        SyntaxKind::NODE_INHERIT => Kind::Inherit,
        SyntaxKind::NODE_INHERIT_FROM => Kind::InheritFrom,
        SyntaxKind::NODE_IDENT => Kind::Ident,
        SyntaxKind::NODE_LAMBDA => Kind::Lambda,
        SyntaxKind::NODE_IDENT_PARAM => Kind::IdentParam,
        SyntaxKind::NODE_PAT_ENTRY => Kind::PatEntry,
        other if Expr::can_cast(other) => Kind::Expr,
        _ => Kind::Node,
    }
}

/// Tells the token kinds of `rnix` apart: whitespace, comments, and the
/// rest.
#[verifier::external_body]
fn token_kind(kind: rnix::SyntaxKind) -> (out: Kind)
    ensures
        out == rnix_token_kind(kind),
{
    match kind {
        SyntaxKind::TOKEN_WHITESPACE => Kind::Whitespace,
        SyntaxKind::TOKEN_COMMENT => Kind::Comment,
        _ => Kind::Token,
    }
}

/// Whether `tree` holds the elements `raw`, one for one: a token with its
/// text and the number of nodes above it, a node without text and without
/// itself among the nodes above it.
pub open spec fn lowered(raw: Seq<RawView>, tree: SyntaxTree) -> bool {
    &&& tree.len() == raw.len()
    &&& forall|i: int|
        0 <= i < raw.len() ==> match (#[trigger] raw[i]).text {
            Some(text) => {
                &&& tree.kind(i) == rnix_token_kind(raw[i].kind)
                &&& tree.depth(i) == raw[i].ancestors
                &&& tree.text(i) == text
            },
            None => {
                &&& tree.kind(i) == rnix_node_kind(raw[i].kind)
                &&& tree.depth(i) == if raw[i].ancestors > 0 {
                    raw[i].ancestors - 1
                } else {
                    0
                }
                &&& tree.text(i).len() == 0
            },
        }
}

/// Builds the tree of the elements that the parser handed out.
pub fn lower(raw: &Vec<RawElement>) -> (tree: SyntaxTree)
    ensures
        lowered(raw_view(raw@), tree),
{
    let ghost all = raw_view(raw@);
    let mut elements: Vec<Element> = Vec::new();
    let mut i: usize = 0;
    while i < raw.len()
        invariant
            i <= raw.len(),
            all == raw_view(raw@),
            lowered(all.take(i as int), SyntaxTree { elements }),
        decreases raw.len() - i,
    {
        let item = &raw[i];
        let element = match &item.text {
            Some(text) => Element {
                kind: token_kind(item.kind),
                depth: item.ancestors,
                text: text.clone(),
            },
            None => Element {
                kind: node_kind(item.kind),
                depth: if item.ancestors > 0 {
                    item.ancestors - 1
                } else {
                    0
                },
                text: String::new(),
            },
        };
        let ghost before = SyntaxTree { elements };
        elements.push(element);
        proof {
            let now = SyntaxTree { elements };
            assert(all[i as int] == raw@[i as int]@);
            assert forall|k: int| 0 <= k < i + 1 implies match (#[trigger] all.take(i + 1)[k]).text {
                Some(text) => {
                    &&& now.kind(k) == rnix_token_kind(all.take(i + 1)[k].kind)
                    &&& now.depth(k) == all.take(i + 1)[k].ancestors
                    &&& now.text(k) == text
                },
                None => {
                    &&& now.kind(k) == rnix_node_kind(all.take(i + 1)[k].kind)
                    &&& now.depth(k) == if all.take(i + 1)[k].ancestors > 0 {
                        all.take(i + 1)[k].ancestors - 1
                    } else {
                        0
                    }
                    &&& now.text(k).len() == 0
                },
            } by {
                if k < i {
                    assert(all.take(i as int)[k] == all.take(i + 1)[k]);
                    assert(before.elements@[k] == now.elements@[k]);
                }
            }
        }
        i += 1;
    }
    assert(all.take(raw.len() as int) == all);
    SyntaxTree { elements }
}

/// Parses the source text of a Nix file. There is no tree where the text
/// has `MAX_SOURCE_CHARS` characters or more, nor where the parser reports an
/// error.
pub fn parse_module(src: &str) -> (out: Option<SyntaxTree>)
    ensures
        out is Some <==> src@.len() < MAX_SOURCE_CHARS && rnix_elements(src@) is Some,
        out matches Some(tree) ==> lowered(rnix_elements(src@)->0, tree),
{
    if src.unicode_len() >= MAX_SOURCE_CHARS {
        return None;
    }
    match walk_source(src) {
        Some(raw) => Some(lower(&raw)),
        None => None,
    }
}

} // verus!
