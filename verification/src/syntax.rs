//! The syntax tree of a Nix file, as this crate reads it.
//!
//! The tree is kept as the list of its nodes and tokens in the order of the
//! source text, each with its depth below the root: an element's subtree is
//! the run of deeper elements that follows it, and its children are those of
//! them that are one level deeper.

use crate::text::{append_chars, to_chars};
use vstd::prelude::*;

verus! {

/// What an element is, as far as this crate tells elements apart.
#[derive(Debug, Clone, Copy, PartialEq, Eq, Structural)]
pub enum Kind {
    /// The pattern of a lambda: `{ a, b }` in `{ a, b }: a`.
    Pattern,
    /// `let ... in ...`.
    LetIn,
    /// An attribute set.
    AttrSet,
    /// A binding `path = value;`.
    AttrpathValue,
    /// The path of a binding.
    Attrpath,
    /// An `inherit` clause.
    Inherit,
    /// The source of an `inherit (source) ...` clause.
    InheritFrom,
    /// An identifier.
    Ident,
    /// A lambda.
    Lambda,
    /// The parameter of a lambda that is an identifier.
    IdentParam,
    /// An entry of a pattern.
    PatEntry,
    /// Any other expression.
    Expr,
    /// Any other node.
    Node,
    /// A token of whitespace.
    Whitespace,
    /// A comment.
    Comment,
    /// Any other token.
    Token,
}

/// A node or a token.
#[derive(Debug, Clone)]
pub struct Element {
    pub kind: Kind,
    /// The number of nodes that the element lies in.
    pub depth: usize,
    /// The text of a token; empty for a node.
    pub text: String,
}

/// A syntax tree: its elements in the order of the source text.
#[derive(Debug, Clone)]
pub struct SyntaxTree {
    pub elements: Vec<Element>,
}

pub open spec fn is_token(kind: Kind) -> bool {
    kind == Kind::Whitespace || kind == Kind::Comment || kind == Kind::Token
}

/// Whether a node of this kind is an expression.
pub open spec fn is_expr(kind: Kind) -> bool {
    kind == Kind::LetIn || kind == Kind::AttrSet || kind == Kind::Ident || kind == Kind::Lambda
        || kind == Kind::Expr
}

/// Which elements a search accepts.
#[derive(Debug, Clone, Copy)]
pub enum Pick {
    /// The elements of one kind.
    Only(Kind),
    /// All expressions.
    AnyExpr,
    /// The parameters of lambdas: identifiers and patterns.
    AnyParam,
    /// All nodes.
    AnyNode,
}

pub open spec fn accepts(pick: Pick, kind: Kind) -> bool {
    match pick {
        Pick::Only(wanted) => kind == wanted,
        Pick::AnyExpr => is_expr(kind),
        Pick::AnyParam => kind == Kind::IdentParam || kind == Kind::Pattern,
        Pick::AnyNode => !is_token(kind),
    }
}

pub fn kind_is_token(kind: Kind) -> (yes: bool)
    ensures
        yes == is_token(kind),
{
    kind == Kind::Whitespace || kind == Kind::Comment || kind == Kind::Token
}

pub fn pick_accepts(pick: Pick, kind: Kind) -> (yes: bool)
    ensures
        yes == accepts(pick, kind),
{
    match pick {
        Pick::Only(wanted) => kind == wanted,
        Pick::AnyExpr => kind == Kind::LetIn || kind == Kind::AttrSet || kind == Kind::Ident
            || kind == Kind::Lambda || kind == Kind::Expr,
        Pick::AnyParam => kind == Kind::IdentParam || kind == Kind::Pattern,
        Pick::AnyNode => !kind_is_token(kind),
    }
}

impl SyntaxTree {
    pub open spec fn len(self) -> int {
        self.elements@.len() as int
    }

    pub open spec fn kind(self, i: int) -> Kind {
        self.elements@[i].kind
    }

    pub open spec fn depth(self, i: int) -> int {
        self.elements@[i].depth as int
    }

    pub open spec fn text(self, i: int) -> Seq<char> {
        self.elements@[i].text@
    }

    /// Whether the element at `j` lies in the subtree of the one at `p`, for
    /// a `j` that no element outside that subtree stands before.
    pub open spec fn inside(self, p: int, j: int) -> bool {
        0 <= p < j < self.len() && self.depth(j) > self.depth(p)
    }

    /// The children of `p` from `j` on, in order.
    pub open spec fn children_from(self, p: int, j: int) -> Seq<usize>
        decreases self.len() - j,
    {
        if !self.inside(p, j) {
            Seq::empty()
        } else if self.depth(j) == self.depth(p) + 1 {
            seq![j as usize] + self.children_from(p, j + 1)
        } else {
            self.children_from(p, j + 1)
        }
    }

    /// The children of the node at `p`, nodes and tokens, in order.
    pub open spec fn children(self, p: int) -> Seq<usize> {
        self.children_from(p, p + 1)
    }

    /// The first element of `list` that `pick` accepts.
    pub open spec fn first_picked(self, list: Seq<usize>, pick: Pick) -> Option<usize>
        decreases list.len(),
    {
        if list.len() == 0 {
            None
        } else if list[0] < self.len() && accepts(pick, self.kind(list[0] as int)) {
            Some(list[0])
        } else {
            self.first_picked(list.skip(1), pick)
        }
    }

    /// The first child of `p` that `pick` accepts.
    pub open spec fn child(self, p: int, pick: Pick) -> Option<usize> {
        self.first_picked(self.children(p), pick)
    }

    /// The texts of the tokens in the subtree of `p` from `j` on, one after
    /// the other.
    pub open spec fn text_from(self, p: int, j: int) -> Seq<char>
        decreases self.len() - j,
    {
        if j == p && 0 <= p < self.len() || self.inside(p, j) {
            if is_token(self.kind(j)) {
                self.text(j) + self.text_from(p, j + 1)
            } else {
                self.text_from(p, j + 1)
            }
        } else {
            Seq::empty()
        }
    }

    /// The source text of the element at `p`.
    pub open spec fn source(self, p: int) -> Seq<char> {
        self.text_from(p, p)
    }

    /// The nearest element before `j` that is less deep than `i`.
    pub open spec fn parent_below(self, i: int, j: int) -> Option<usize>
        decreases j,
    {
        if j <= 0 || j > self.len() || !(0 <= i < self.len()) {
            None
        } else if self.depth(j - 1) < self.depth(i) {
            Some((j - 1) as usize)
        } else {
            self.parent_below(i, j - 1)
        }
    }

    /// The node that the element at `i` is a child of.
    pub open spec fn parent(self, i: int) -> Option<usize> {
        self.parent_below(i, i)
    }

    /// The nearest element before `j` that is as deep as `i`, unless one
    /// less deep comes first.
    pub open spec fn sibling_below(self, i: int, j: int) -> Option<usize>
        decreases j,
    {
        if j <= 0 || j > self.len() || !(0 <= i < self.len()) {
            None
        } else if self.depth(j - 1) < self.depth(i) {
            None
        } else if self.depth(j - 1) == self.depth(i) {
            Some((j - 1) as usize)
        } else {
            self.sibling_below(i, j - 1)
        }
    }

    /// The child of `i`'s parent that stands before `i`.
    pub open spec fn prev_sibling(self, i: int) -> Option<usize> {
        self.sibling_below(i, i)
    }

    /// The nearest token before `j`.
    pub open spec fn token_below(self, j: int) -> Option<usize>
        decreases j,
    {
        if j <= 0 || j > self.len() {
            None
        } else if is_token(self.kind(j - 1)) {
            Some((j - 1) as usize)
        } else {
            self.token_below(j - 1)
        }
    }

    /// The token that stands before the element at `i` in the source.
    pub open spec fn prev_token(self, i: int) -> Option<usize> {
        self.token_below(i)
    }

    /// The first token in the subtree of `p` from `j` on.
    pub open spec fn token_from(self, p: int, j: int) -> Option<usize>
        decreases self.len() - j,
    {
        if j == p && 0 <= p < self.len() || self.inside(p, j) {
            if is_token(self.kind(j)) {
                Some(j as usize)
            } else {
                self.token_from(p, j + 1)
            }
        } else {
            None
        }
    }

    /// The first token of the element at `p`: itself, if it is one.
    pub open spec fn first_token(self, p: int) -> Option<usize> {
        self.token_from(p, p)
    }

    /// The children of the node at `p`, nodes and tokens, in order.
    pub fn child_list(&self, p: usize) -> (out: Vec<usize>)
        ensures
            out@ == self.children(p as int),
            forall|k: int| 0 <= k < out.len() ==> p < #[trigger] out[k] < self.len(),
    {
        let mut out: Vec<usize> = Vec::new();
        if p >= self.elements.len() {
            return out;
        }
        let mut j: usize = p + 1;
        while j < self.elements.len() && self.elements[j].depth > self.elements[p].depth
            invariant
                p < j <= self.elements.len(),
                self.children(p as int) == out@ + self.children_from(p as int, j as int),
                forall|k: int| 0 <= k < out.len() ==> p < #[trigger] out[k] < self.len(),
            decreases self.elements.len() - j,
        {
            let ghost before = out@;
            if self.elements[j].depth - 1 == self.elements[p].depth {
                out.push(j);
                assert(before + (seq![j] + self.children_from(p as int, j + 1)) =~= out@
                    + self.children_from(p as int, j + 1));
            }
            j += 1;
        }
        assert(out@ + Seq::<usize>::empty() =~= out@);
        out
    }

    /// The first element of `list` that `pick` accepts.
    pub fn pick_first(&self, list: &Vec<usize>, pick: Pick) -> (out: Option<usize>)
        ensures
            out == self.first_picked(list@, pick),
            out matches Some(i) ==> i < self.len() && list@.contains(i),
    {
        let mut k: usize = 0;
        assert(list@.skip(0) =~= list@);
        while k < list.len()
            invariant
                k <= list.len(),
                self.first_picked(list@, pick) == self.first_picked(list@.skip(k as int), pick),
            decreases list.len() - k,
        {
            let i = list[k];
            proof {
                assert(list@.skip(k as int)[0] == i);
                assert(list@.skip(k as int).skip(1) =~= list@.skip(k + 1));
            }
            if i < self.elements.len() && pick_accepts(pick, self.elements[i].kind) {
                return Some(i);
            }
            k += 1;
        }
        None
    }

    /// The first child of `p` that `pick` accepts.
    pub fn first_child(&self, p: usize, pick: Pick) -> (out: Option<usize>)
        ensures
            out == self.child(p as int, pick),
            out matches Some(i) ==> p < i < self.len(),
    {
        let list = self.child_list(p);
        self.pick_first(&list, pick)
    }

    /// The source text of the element at `p`.
    pub fn source_text(&self, p: usize) -> (out: Vec<char>)
        ensures
            out@ == self.source(p as int),
    {
        let mut out: Vec<char> = Vec::new();
        if p >= self.elements.len() {
            return out;
        }
        let mut j: usize = p;
        while j < self.elements.len() && (j == p || self.elements[j].depth
            > self.elements[p].depth)
            invariant
                p <= j <= self.elements.len(),
                p < self.elements.len(),
                self.source(p as int) == out@ + self.text_from(p as int, j as int),
            decreases self.elements.len() - j,
        {
            let ghost before = out@;
            if kind_is_token(self.elements[j].kind) {
                let text = to_chars(self.elements[j].text.as_str());
                append_chars(&mut out, &text);
                assert(before + (self.text(j as int) + self.text_from(p as int, j + 1)) =~= out@
                    + self.text_from(p as int, j + 1));
            }
            j += 1;
        }
        assert(out@ + Seq::<char>::empty() =~= out@);
        out
    }

    /// The node that the element at `i` is a child of.
    pub fn parent_of(&self, i: usize) -> (out: Option<usize>)
        ensures
            out == self.parent(i as int),
            out matches Some(p) ==> p < i,
    {
        if i >= self.elements.len() {
            return None;
        }
        let mut j: usize = i;
        while j > 0
            invariant
                j <= i < self.elements.len(),
                self.parent(i as int) == self.parent_below(i as int, j as int),
            decreases j,
        {
            if self.elements[j - 1].depth < self.elements[i].depth {
                return Some(j - 1);
            }
            j -= 1;
        }
        None
    }

    /// The child of `i`'s parent that stands before `i`.
    pub fn prev_sibling_of(&self, i: usize) -> (out: Option<usize>)
        ensures
            out == self.prev_sibling(i as int),
            out matches Some(s) ==> s < i,
    {
        if i >= self.elements.len() {
            return None;
        }
        let mut j: usize = i;
        while j > 0
            invariant
                j <= i < self.elements.len(),
                self.prev_sibling(i as int) == self.sibling_below(i as int, j as int),
            decreases j,
        {
            if self.elements[j - 1].depth < self.elements[i].depth {
                return None;
            }
            if self.elements[j - 1].depth == self.elements[i].depth {
                return Some(j - 1);
            }
            j -= 1;
        }
        None
    }

    /// The token that stands before the element at `i` in the source.
    pub fn prev_token_of(&self, i: usize) -> (out: Option<usize>)
        ensures
            out == self.prev_token(i as int),
            out matches Some(t) ==> t < i && t < self.len() && is_token(self.kind(t as int)),
    {
        if i > self.elements.len() {
            return None;
        }
        let mut j: usize = i;
        while j > 0
            invariant
                j <= i <= self.elements.len(),
                self.prev_token(i as int) == self.token_below(j as int),
            decreases j,
        {
            if kind_is_token(self.elements[j - 1].kind) {
                return Some(j - 1);
            }
            j -= 1;
        }
        None
    }

    /// The first token of the element at `p`.
    pub fn first_token_of(&self, p: usize) -> (out: Option<usize>)
        ensures
            out == self.first_token(p as int),
            out matches Some(t) ==> p <= t < self.len() && is_token(self.kind(t as int)),
    {
        if p >= self.elements.len() {
            return None;
        }
        let mut j: usize = p;
        while j < self.elements.len() && (j == p || self.elements[j].depth
            > self.elements[p].depth)
            invariant
                p <= j <= self.elements.len(),
                p < self.elements.len(),
                self.first_token(p as int) == self.token_from(p as int, j as int),
            decreases self.elements.len() - j,
        {
            if kind_is_token(self.elements[j].kind) {
                return Some(j);
            }
            j += 1;
        }
        None
    }
}


impl SyntaxTree {
    /// Whether the element at `j` is a child of the one at `p`: it is one
    /// level deeper, and every element between the two is deeper than `p`.
    pub open spec fn is_child(self, p: int, j: int) -> bool {
        &&& 0 <= p < j < self.len()
        &&& self.depth(j) == self.depth(p) + 1
        &&& forall|m: int| p < m < j ==> self.depth(m) > self.depth(p)
    }
}

proof fn lemma_children_from(tree: SyntaxTree, p: int, j: int)
    requires
        0 <= p < j <= tree.len(),
        forall|m: int| p < m < j ==> tree.depth(m) > tree.depth(p),
    ensures
        forall|k: int|
            0 <= k < tree.children_from(p, j).len() ==> j <= #[trigger] tree.children_from(
                p,
                j,
            )[k] && tree.is_child(p, tree.children_from(p, j)[k] as int),
        forall|e: int|
            j <= e && tree.is_child(p, e) ==> tree.children_from(p, j).contains(e as usize),
        forall|a: int, b: int|
            0 <= a < b < tree.children_from(p, j).len() ==> tree.children_from(p, j)[a]
                < tree.children_from(p, j)[b],
    decreases tree.len() - j,
{
    let list = tree.children_from(p, j);
    assert(tree.elements.len() == tree.len());
    if tree.inside(p, j) {
        lemma_children_from(tree, p, j + 1);
        let rest = tree.children_from(p, j + 1);
        if tree.depth(j) == tree.depth(p) + 1 {
            assert(list[0] == j as usize);
            assert forall|k: int| 0 <= k < list.len() implies j <= #[trigger] list[k]
                && tree.is_child(p, list[k] as int) by {
                if k > 0 {
                    assert(list[k] == rest[k - 1]);
                }
            }
            assert forall|e: int| j <= e && tree.is_child(p, e) implies list.contains(
                e as usize,
            ) by {
                if e > j {
                    let k = choose|k: int| 0 <= k < rest.len() && rest[k] == e as usize;
                    assert(list[k + 1] == rest[k]);
                }
            }
            assert forall|a: int, b: int| 0 <= a < b < list.len() implies list[a] < list[b] by {
                assert(list[b] == rest[b - 1]);
                if a > 0 {
                    assert(list[a] == rest[a - 1]);
                }
            }
        } else {
            assert forall|e: int| j <= e && tree.is_child(p, e) implies list.contains(
                e as usize,
            ) by {
                assert(e > j);
            }
        }
    } else {
        assert forall|e: int| j <= e && tree.is_child(p, e) implies list.contains(e as usize) by {
            if j < tree.len() {
                assert(tree.depth(j) <= tree.depth(p));
                assert(e == j || (p < j < e));
            }
        }
    }
}

/// The children of an element are the elements one level below it that
/// follow it before any element that is no deeper than it: each of them is
/// listed once, in the order of the source.
pub proof fn lemma_children(tree: SyntaxTree, p: int)
    requires
        0 <= p < tree.len(),
    ensures
        forall|k: int|
            0 <= k < tree.children(p).len() ==> tree.is_child(
                p,
                #[trigger] tree.children(p)[k] as int,
            ),
        forall|e: int| tree.is_child(p, e) ==> tree.children(p).contains(e as usize),
        forall|a: int, b: int|
            0 <= a < b < tree.children(p).len() ==> tree.children(p)[a] < tree.children(p)[b],
{
    lemma_children_from(tree, p, p + 1);
}

} // verus!
