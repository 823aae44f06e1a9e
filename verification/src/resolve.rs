//! Which bindings of a file are entries of the manual, and in what order.
//!
//! A file is an attribute set, or a `let` block whose body is one or names
//! one. The bindings of that set that carry a comment are the entries; an
//! `inherit` clause brings in the documented bindings of the `let` block
//! that it names.

use crate::comment::retrieve_doc_comment;
use crate::commonmark::{entries_view, ArgumentView, EntryView, ManualEntry};
use crate::format::{normalize_chars, normalized, without_indentation};
use crate::legacy::{
    collect_lambda_args_legacy, entry_of, parse_doc_comment, retrieve_legacy_comment,
    sections_of, text_or_empty, DocComment, ItemView, LegacyDocItem, Locations,
};
use crate::syntax::{is_token, kind_is_token, Kind, Pick, SyntaxTree};
use crate::text::{from_chars, same_text, text_of, texts_of, to_chars};
use vstd::prelude::*;
use vstd::string::*;

verus! {

/// A binding with its documentation comment.
#[derive(Debug, Clone)]
pub struct DocItem {
    pub name: String,
    pub comment: DocComment,
}

/// A documented binding, by the kind of its comment.
#[derive(Debug, Clone)]
pub enum DocItemOrLegacy {
    /// The comment has no marker.
    LegacyDocItem(LegacyDocItem),
    /// The comment is a documentation comment.
    DocItem(DocItem),
}

/// Whether the item's comment has no marker, and the item as texts.
pub open spec fn doc_item_view(item: DocItemOrLegacy) -> (bool, ItemView) {
    match item {
        DocItemOrLegacy::LegacyDocItem(legacy) => (true, legacy@),
        DocItemOrLegacy::DocItem(doc) => (
            false,
            ItemView {
                name: doc.name@,
                doc: doc.comment.doc@,
                doc_type: text_of(doc.comment.doc_type),
                example: text_of(doc.comment.example),
                args: Seq::empty(),
            },
        ),
    }
}

/// The last entry of `scope` that has the name `name`.
pub open spec fn last_named(scope: Seq<EntryView>, name: Seq<char>) -> Option<EntryView>
    decreases scope.len(),
{
    if scope.len() == 0 {
        None
    } else if scope.last().name == name {
        Some(scope.last())
    } else {
        last_named(scope.drop_last(), name)
    }
}

impl SyntaxTree {
    /// The text of the path of the binding at `apv`.
    pub open spec fn path_text(self, apv: int) -> Option<Seq<char>> {
        match self.child(apv, Pick::Only(Kind::Attrpath)) {
            Some(a) => Some(self.source(a as int)),
            None => None,
        }
    }

    /// Whether every node of `list` is an identifier.
    pub open spec fn only_idents(self, list: Seq<usize>) -> bool
        decreases list.len(),
    {
        list.len() == 0 || (self.only_idents(list.drop_last()) && (list.last() >= self.len()
            || is_token(self.kind(list.last() as int)) || self.kind(list.last() as int)
            == Kind::Ident))
    }

    /// The name of the binding at `apv`: the text of its path, if the path
    /// is made of identifiers.
    pub open spec fn binding_name(self, apv: int) -> Option<Seq<char>> {
        match self.child(apv, Pick::Only(Kind::Attrpath)) {
            Some(a) => if self.only_idents(self.children(a as int)) {
                Some(self.source(a as int))
            } else {
                None
            },
            None => None,
        }
    }

    /// The binding at `apv` with what its comment says, and whether that
    /// comment has no marker. A documentation comment comes first and gives
    /// the documentation alone, its headings two levels down; a comment
    /// without a marker gives documentation, type and example.
    pub open spec fn doc_item(self, apv: int) -> Option<(bool, ItemView)> {
        match self.binding_name(apv) {
            Some(name) => match self.doc_comment(apv, 2) {
                Some(docs) => Some(
                    (
                        false,
                        ItemView {
                            name,
                            doc: docs,
                            doc_type: None,
                            example: None,
                            args: Seq::empty(),
                        },
                    ),
                ),
                None => match self.legacy_comment(apv, false) {
                    Some(raw) => Some(
                        (
                            true,
                            ItemView {
                                name,
                                doc: without_indentation(sections_of(raw).0),
                                doc_type: normalized(sections_of(raw).1),
                                example: normalized(sections_of(raw).2),
                                args: Seq::empty(),
                            },
                        ),
                    ),
                    None => None,
                },
            },
            None => None,
        }
    }

    /// The arguments of the value of the binding at `apv`, if it is a
    /// lambda.
    pub open spec fn value_args(self, apv: int) -> Seq<ArgumentView> {
        match self.child(apv, Pick::AnyExpr) {
            Some(v) => if self.kind(v as int) == Kind::Lambda {
                self.lambda_args(v as int)
            } else {
                Seq::empty()
            },
            None => Seq::empty(),
        }
    }

    /// The binding at `apv` as it is documented: nothing without a comment;
    /// with the arguments of its value where the comment has no marker.
    pub open spec fn binding_item(self, apv: int) -> Option<ItemView> {
        match self.doc_item(apv) {
            Some((legacy, item)) => if legacy {
                Some(
                    ItemView {
                        name: item.name,
                        doc: item.doc,
                        doc_type: item.doc_type,
                        example: item.example,
                        args: self.value_args(apv),
                    },
                )
            } else {
                Some(item)
            },
            None => None,
        }
    }

    /// The text of the path of the binding at `apv`, and whether the path is
    /// made of identifiers.
    fn path_of(&self, apv: usize) -> (out: Option<(String, bool)>)
        ensures
            match out {
                Some((text, plain)) => self.path_text(apv as int) == Some(text@) && (plain
                    <==> self.binding_name(apv as int) is Some),
                None => self.path_text(apv as int) is None && self.binding_name(apv as int)
                    is None,
            },
    {
        match self.first_child(apv, Pick::Only(Kind::Attrpath)) {
            Some(a) => {
                let list = self.child_list(a);
                let mut plain = true;
                let mut i: usize = 0;
                while i < list.len()
                    invariant
                        i <= list.len(),
                        plain == self.only_idents(list@.take(i as int)),
                    decreases list.len() - i,
                {
                    proof {
                        assert(list@.take(i + 1).drop_last() == list@.take(i as int));
                        assert(list@.take(i + 1).last() == list@[i as int]);
                    }
                    let c = list[i];
                    if c < self.elements.len() {
                        let kind = self.elements[c].kind;
                        if !kind_is_token(kind) && kind != Kind::Ident {
                            plain = false;
                        }
                    }
                    i += 1;
                }
                assert(list@.take(list.len() as int) == list@);
                Some((from_chars(&self.source_text(a)), plain))
            },
            None => None,
        }
    }
}

/// The binding at `node` with what its comment says: a documentation
/// comment if it has one, else a comment without a marker; nothing without
/// either, or where the binding's path is not made of identifiers.
pub fn retrieve_doc_item(tree: &SyntaxTree, node: usize) -> (out: Option<DocItemOrLegacy>)
    ensures
        match out {
            Some(item) => tree.doc_item(node as int) == Some(doc_item_view(item)),
            None => tree.doc_item(node as int) is None,
        },
{
    let name = match tree.path_of(node) {
        Some((text, plain)) => {
            if !plain {
                return None;
            }
            text
        },
        None => {
            return None;
        },
    };
    match retrieve_doc_comment(tree, node, Some(2)) {
        Some(comment) => Some(
            DocItemOrLegacy::DocItem(
                DocItem { name, comment: DocComment { doc: comment, doc_type: None, example: None } },
            ),
        ),
        None => match retrieve_legacy_comment(tree, node, false) {
            Some(comment) => {
                let item = LegacyDocItem {
                    name,
                    comment: parse_doc_comment(comment.as_str()),
                    args: Vec::new(),
                };
                assert(item@.args =~= Seq::empty());
                Some(DocItemOrLegacy::LegacyDocItem(item))
            },
            None => None,
        },
    }
}

/// The binding at `entry` as it is documented, with the arguments of its
/// value where the value is a lambda and the comment has no marker.
pub fn collect_entry_information(tree: &SyntaxTree, entry: usize) -> (out: Option<LegacyDocItem>)
    ensures
        match out {
            Some(item) => tree.binding_item(entry as int) == Some(item@),
            None => tree.binding_item(entry as int) is None,
        },
{
    match retrieve_doc_item(tree, entry) {
        Some(DocItemOrLegacy::LegacyDocItem(v)) => {
            let lambda = match tree.first_child(entry, Pick::AnyExpr) {
                Some(value) => match tree.elements[value].kind {
                    Kind::Lambda => Some(value),
                    _ => None,
                },
                None => None,
            };
            match lambda {
                Some(l) => Some(
                    LegacyDocItem {
                        name: v.name,
                        comment: v.comment,
                        args: collect_lambda_args_legacy(tree, l),
                    },
                ),
                None => {
                    assert(v@.args =~= tree.value_args(entry as int));
                    Some(v)
                },
            }
        },
        Some(DocItemOrLegacy::DocItem(v)) => {
            let item = LegacyDocItem { name: v.name, comment: v.comment, args: Vec::new() };
            assert(item@.args =~= Seq::empty());
            Some(item)
        },
        None => None,
    }
}


impl SyntaxTree {
    /// The first attribute set in the subtree of `node` from `j` on.
    pub open spec fn attr_set_from(self, node: int, j: int) -> Option<usize>
        decreases self.len() - j,
    {
        if j == node && 0 <= node < self.len() || self.inside(node, j) {
            if self.kind(j) == Kind::AttrSet {
                Some(j as usize)
            } else {
                self.attr_set_from(node, j + 1)
            }
        } else {
            None
        }
    }

    /// The first attribute set that is the element at `node` or lies in it.
    pub open spec fn first_attr_set(self, node: int) -> Option<usize> {
        self.attr_set_from(node, node)
    }

    /// The entries that an `inherit` clause with the children `list` brings
    /// in: for each identifier, the entry that `scope` has under its name.
    pub open spec fn inherited(self, list: Seq<usize>, scope: Seq<EntryView>) -> Seq<EntryView>
        decreases list.len(),
    {
        if list.len() == 0 {
            Seq::empty()
        } else if list.last() < self.len() && self.kind(list.last() as int) == Kind::Ident {
            match last_named(scope, self.source(list.last() as int)) {
                Some(entry) => self.inherited(list.drop_last(), scope).push(entry),
                None => self.inherited(list.drop_last(), scope),
            }
        } else {
            self.inherited(list.drop_last(), scope)
        }
    }

    /// The entries that the child at `c` of an attribute set contributes: a
    /// binding its own, if it is documented; an `inherit` clause without a
    /// source those that it brings in; anything else none.
    pub open spec fn child_entries(
        self,
        c: int,
        prefix: Seq<char>,
        category: Seq<char>,
        locs: Locations,
        scope: Seq<EntryView>,
    ) -> Seq<EntryView> {
        if !(0 <= c < self.len()) {
            Seq::empty()
        } else if self.kind(c) == Kind::AttrpathValue {
            match self.binding_item(c) {
                Some(item) => seq![entry_of(item, prefix, category, locs)],
                None => Seq::empty(),
            }
        } else if self.kind(c) == Kind::Inherit && self.child(c, Pick::Only(Kind::InheritFrom))
            is None {
            self.inherited(self.children(c), scope)
        } else {
            Seq::empty()
        }
    }

    /// The entries that the children `list` of an attribute set contribute,
    /// in the order of the children.
    pub open spec fn list_entries(
        self,
        list: Seq<usize>,
        prefix: Seq<char>,
        category: Seq<char>,
        locs: Locations,
        scope: Seq<EntryView>,
    ) -> Seq<EntryView>
        decreases list.len(),
    {
        if list.len() == 0 {
            Seq::empty()
        } else {
            self.list_entries(list.drop_last(), prefix, category, locs, scope)
                + self.child_entries(list.last() as int, prefix, category, locs, scope)
        }
    }

    /// The entries of the first attribute set at or in `node`; none where
    /// there is no attribute set.
    pub open spec fn bindings(
        self,
        node: int,
        prefix: Seq<char>,
        category: Seq<char>,
        locs: Locations,
        scope: Seq<EntryView>,
    ) -> Seq<EntryView> {
        match self.first_attr_set(node) {
            Some(set) => self.list_entries(self.children(set as int), prefix, category, locs, scope),
            None => Seq::empty(),
        }
    }

    /// The first attribute set that is the element at `node` or lies in it.
    pub fn find_attr_set(&self, node: usize) -> (out: Option<usize>)
        ensures
            out == self.first_attr_set(node as int),
            out matches Some(set) ==> set < self.len(),
    {
        if node >= self.elements.len() {
            return None;
        }
        let mut j: usize = node;
        while j < self.elements.len() && (j == node || self.elements[j].depth
            > self.elements[node].depth)
            invariant
                node <= j <= self.elements.len(),
                node < self.elements.len(),
                self.first_attr_set(node as int) == self.attr_set_from(node as int, j as int),
            decreases self.elements.len() - j,
        {
            if self.elements[j].kind == Kind::AttrSet {
                return Some(j);
            }
            j += 1;
        }
        None
    }
}

/// The last entry of `scope` with the name `name`.
fn find_last_named<'a>(scope: &'a Vec<ManualEntry>, name: &str) -> (out: Option<&'a ManualEntry>)
    ensures
        match out {
            Some(entry) => last_named(entries_view(scope@), name@) == Some(entry@),
            None => last_named(entries_view(scope@), name@) is None,
        },
{
    let ghost all = entries_view(scope@);
    let mut i: usize = scope.len();
    assert(all.take(i as int) =~= all);
    while i > 0
        invariant
            i <= scope.len(),
            all == entries_view(scope@),
            last_named(all, name@) == last_named(all.take(i as int), name@),
        decreases i,
    {
        proof {
            assert(all.take(i as int).drop_last() =~= all.take(i - 1));
            assert(all.take(i as int).last() == scope@[i - 1]@);
        }
        if same_text(scope[i - 1].name.as_str(), name) {
            return Some(&scope[i - 1]);
        }
        i -= 1;
    }
    None
}

/// The entries of the first attribute set at or in `node`, in the order of
/// its children: each documented binding, and for each `inherit` clause
/// without a source the entries that `scope` has under the names inherited.
pub fn collect_bindings(
    tree: &SyntaxTree,
    node: usize,
    prefix: &str,
    category: &str,
    locs: &Locations,
    scope: &Vec<ManualEntry>,
) -> (out: Vec<ManualEntry>)
    ensures
        entries_view(out@) == tree.bindings(
            node as int,
            prefix@,
            category@,
            *locs,
            entries_view(scope@),
        ),
{
    let mut entries: Vec<ManualEntry> = Vec::new();
    let set = match tree.find_attr_set(node) {
        Some(set) => set,
        None => {
            assert(entries_view(entries@) =~= Seq::empty());
            return entries;
        },
    };
    let list = tree.child_list(set);
    let ghost known = entries_view(scope@);
    let mut i: usize = 0;
    assert(entries_view(entries@) =~= Seq::empty());
    while i < list.len()
        invariant
            i <= list.len(),
            known == entries_view(scope@),
            forall|k: int| 0 <= k < list.len() ==> #[trigger] list[k] < tree.len(),
            entries_view(entries@) == tree.list_entries(
                list@.take(i as int),
                prefix@,
                category@,
                *locs,
                known,
            ),
        decreases list.len() - i,
    {
        let c = list[i];
        let ghost before = entries_view(entries@);
        proof {
            assert(list@.take(i + 1).drop_last() == list@.take(i as int));
            assert(list@.take(i + 1).last() == c);
        }
        match tree.elements[c].kind {
            Kind::AttrpathValue => {
                match collect_entry_information(tree, c) {
                    Some(item) => {
                        let entry = item.into_entry(prefix, category, locs);
                        entries.push(entry);
                        assert(entries_view(entries@) =~= before + seq![entry@]);
                    },
                    None => {
                        assert(before + Seq::<EntryView>::empty() =~= before);
                    },
                }
            },
            Kind::Inherit => {
                if tree.first_child(c, Pick::Only(Kind::InheritFrom)).is_none() {
                    let names = tree.child_list(c);
                    let mut k: usize = 0;
                    assert(before + tree.inherited(names@.take(0), known) =~= before);
                    while k < names.len()
                        invariant
                            k <= names.len(),
                            known == entries_view(scope@),
                            forall|m: int|
                                0 <= m < names.len() ==> #[trigger] names[m] < tree.len(),
                            entries_view(entries@) == before + tree.inherited(
                                names@.take(k as int),
                                known,
                            ),
                        decreases names.len() - k,
                    {
                        let a = names[k];
                        let ghost sofar = entries_view(entries@);
                        proof {
                            assert(names@.take(k + 1).drop_last() == names@.take(k as int));
                            assert(names@.take(k + 1).last() == a);
                        }
                        if tree.elements[a].kind == Kind::Ident {
                            let name = from_chars(&tree.source_text(a));
                            match find_last_named(scope, name.as_str()) {
                                Some(found) => {
                                    let entry = found.copy();
                                    entries.push(entry);
                                    assert(entries_view(entries@) =~= sofar.push(found@));
                                    assert(sofar.push(found@) =~= before + tree.inherited(
                                        names@.take(k as int),
                                        known,
                                    ).push(found@));
                                },
                                None => {},
                            }
                        }
                        k += 1;
                    }
                    assert(names@.take(names.len() as int) == names@);
                } else {
                    assert(before + Seq::<EntryView>::empty() =~= before);
                }
            },
            _ => {
                assert(before + Seq::<EntryView>::empty() =~= before);
            },
        }
        i += 1;
    }
    assert(list@.take(list.len() as int) == list@);
    entries
}


/// The names to export, as texts.
pub open spec fn export_view(export: Option<Vec<String>>) -> Option<Seq<Seq<char>>> {
    match export {
        Some(names) => Some(texts_of(names@)),
        None => None,
    }
}

/// For each of `names`, the entry that `scope` has under it, in the order
/// of the names; a name without an entry gives none.
pub open spec fn exported(scope: Seq<EntryView>, names: Seq<Seq<char>>) -> Seq<EntryView>
    decreases names.len(),
{
    if names.len() == 0 {
        Seq::empty()
    } else {
        match last_named(scope, names.last()) {
            Some(entry) => exported(scope, names.drop_last()).push(entry),
            None => exported(scope, names.drop_last()),
        }
    }
}

impl SyntaxTree {
    /// The index behind the subtree of `p`, found from `j` on.
    pub open spec fn end_from(self, p: int, j: int) -> int
        decreases self.len() - j,
    {
        if self.inside(p, j) {
            self.end_from(p, j + 1)
        } else {
            j
        }
    }

    /// The index behind the subtree of `p`; `p` itself where there is no
    /// such element.
    pub open spec fn subtree_end(self, p: int) -> int {
        if 0 <= p < self.len() {
            self.end_from(p, p + 1)
        } else {
            p
        }
    }

    /// The entries of the documented bindings among the children `list` of
    /// a `let` block, in order.
    pub open spec fn scope_entries(
        self,
        list: Seq<usize>,
        prefix: Seq<char>,
        category: Seq<char>,
        locs: Locations,
    ) -> Seq<EntryView>
        decreases list.len(),
    {
        if list.len() == 0 {
            Seq::empty()
        } else if list.last() < self.len() && self.kind(list.last() as int)
            == Kind::AttrpathValue {
            match self.binding_item(list.last() as int) {
                Some(item) => self.scope_entries(list.drop_last(), prefix, category, locs).push(
                    entry_of(item, prefix, category, locs),
                ),
                None => self.scope_entries(list.drop_last(), prefix, category, locs),
            }
        } else {
            self.scope_entries(list.drop_last(), prefix, category, locs)
        }
    }

    /// The scope of the `let` block at `let_in`: the entries of its
    /// documented bindings. Of two with one name the later one counts.
    pub open spec fn let_scope(
        self,
        let_in: int,
        prefix: Seq<char>,
        category: Seq<char>,
        locs: Locations,
    ) -> Seq<EntryView> {
        self.scope_entries(self.children(let_in), prefix, category, locs)
    }

    /// The first binding among `list` whose path reads `name`.
    pub open spec fn binding_named(self, list: Seq<usize>, name: Seq<char>) -> Option<usize>
        decreases list.len(),
    {
        if list.len() == 0 {
            None
        } else if list[0] < self.len() && self.kind(list[0] as int) == Kind::AttrpathValue
            && self.path_text(list[0] as int) == Some(name) {
            Some(list[0])
        } else {
            self.binding_named(list.skip(1), name)
        }
    }

    /// The binding of `name` in the `let` block at `let_in`.
    pub open spec fn let_binding(self, let_in: int, name: Seq<char>) -> Option<usize> {
        self.binding_named(self.children(let_in), name)
    }

    /// The value that the identifier at `ident` stands for in the `let` block
    /// at `let_in`, reached in at most `fuel` steps: the value of the binding
    /// of that name, or what that value stands for if it is an identifier
    /// itself.
    pub open spec fn resolved(self, let_in: int, ident: int, fuel: nat) -> Option<usize>
        decreases fuel,
    {
        if fuel == 0 {
            None
        } else {
            match self.let_binding(let_in, self.source(ident)) {
                Some(apv) => match self.child(apv as int, Pick::AnyExpr) {
                    Some(value) => if self.kind(value as int) == Kind::Ident {
                        self.resolved(let_in, value as int, (fuel - 1) as nat)
                    } else {
                        Some(value)
                    },
                    None => None,
                },
                None => None,
            }
        }
    }

    /// The value that the identifier at `ident` stands for in the `let` block
    /// at `let_in`. A chain of identifiers with more links than the tree has
    /// elements goes in a circle, and stands for nothing.
    pub open spec fn let_value(self, let_in: int, ident: int) -> Option<usize> {
        self.resolved(let_in, ident, self.len() as nat)
    }

    /// The first `let` block or attribute set from `j` on that lies in no
    /// pattern.
    pub open spec fn scope_node_from(self, j: int) -> Option<usize>
        decreases self.len() - j,
    {
        if !(0 <= j < self.len()) {
            None
        } else if self.kind(j) == Kind::Pattern {
            if j < self.subtree_end(j) <= self.len() {
                self.scope_node_from(self.subtree_end(j))
            } else {
                None
            }
        } else if self.kind(j) == Kind::LetIn || self.kind(j) == Kind::AttrSet {
            Some(j as usize)
        } else {
            self.scope_node_from(j + 1)
        }
    }

    /// The node that the file's entries are read from: the first `let` block
    /// or attribute set that lies in no pattern.
    pub open spec fn scope_node(self) -> Option<usize> {
        self.scope_node_from(0)
    }

    /// The entries of the `let` block at `let_in`, read from its body: those
    /// of the first attribute set of the body, or of the value that the body
    /// stands for if it is an identifier of the block.
    pub open spec fn let_entries(
        self,
        let_in: int,
        prefix: Seq<char>,
        category: Seq<char>,
        locs: Locations,
    ) -> Seq<EntryView> {
        match self.child(let_in, Pick::AnyExpr) {
            Some(body) => self.bindings(
                if self.kind(body as int) == Kind::Ident {
                    match self.let_value(let_in, body as int) {
                        Some(value) => value as int,
                        None => body as int,
                    }
                } else {
                    body as int
                },
                prefix,
                category,
                locs,
                self.let_scope(let_in, prefix, category, locs),
            ),
            None => Seq::empty(),
        }
    }

    /// The entries of the file. Of a `let` block they are the documented
    /// bindings named in `export`, in that order, where names are given, and
    /// else those that the body hands out; of an attribute set its own.
    pub open spec fn entries(
        self,
        prefix: Seq<char>,
        category: Seq<char>,
        locs: Locations,
        export: Option<Seq<Seq<char>>>,
    ) -> Seq<EntryView> {
        match self.scope_node() {
            Some(n) => if self.kind(n as int) == Kind::LetIn {
                match export {
                    Some(names) => exported(
                        self.let_scope(n as int, prefix, category, locs),
                        names,
                    ),
                    None => self.let_entries(n as int, prefix, category, locs),
                }
            } else {
                self.bindings(n as int, prefix, category, locs, Seq::empty())
            },
            None => Seq::empty(),
        }
    }

    /// The documentation of the file: that of the first node below the
    /// root, from a documentation comment with its headings as they are, else
    /// from a comment without a marker; without its indentation.
    pub open spec fn file_doc(self) -> Option<Seq<char>> {
        match self.child(0, Pick::AnyNode) {
            Some(n) => match self.doc_comment(n as int, 0) {
                Some(docs) => normalized(docs),
                None => match self.legacy_comment(n as int, false) {
                    Some(text) => normalized(text),
                    None => None,
                },
            },
            None => None,
        }
    }

    /// The index behind the subtree of `p`.
    pub fn end_of(&self, p: usize) -> (out: usize)
        ensures
            out == self.subtree_end(p as int),
            p < self.len() ==> p < out <= self.len(),
    {
        if p >= self.elements.len() {
            return p;
        }
        let mut j: usize = p + 1;
        while j < self.elements.len() && self.elements[j].depth > self.elements[p].depth
            invariant
                p < j <= self.elements.len(),
                self.subtree_end(p as int) == self.end_from(p as int, j as int),
            decreases self.elements.len() - j,
        {
            j += 1;
        }
        j
    }

    /// The node that the file's entries are read from.
    pub fn find_scope_node(&self) -> (out: Option<usize>)
        ensures
            out == self.scope_node(),
            out matches Some(n) ==> n < self.len(),
    {
        let mut j: usize = 0;
        while j < self.elements.len()
            invariant
                self.scope_node() == self.scope_node_from(j as int),
            decreases self.elements.len() - j,
        {
            match self.elements[j].kind {
                Kind::Pattern => {
                    j = self.end_of(j);
                },
                Kind::LetIn => {
                    return Some(j);
                },
                Kind::AttrSet => {
                    return Some(j);
                },
                _ => {
                    j += 1;
                },
            }
        }
        None
    }
}

/// The binding of `name` in the `let` block at `let_in`: the first whose
/// path reads `name`.
pub fn find_let_binding(tree: &SyntaxTree, let_in: usize, name: &str) -> (out: Option<usize>)
    ensures
        out == tree.let_binding(let_in as int, name@),
        out matches Some(apv) ==> apv < tree.len(),
{
    let list = tree.child_list(let_in);
    let mut i: usize = 0;
    assert(list@.skip(0) =~= list@);
    while i < list.len()
        invariant
            i <= list.len(),
            forall|k: int| 0 <= k < list.len() ==> #[trigger] list[k] < tree.len(),
            tree.let_binding(let_in as int, name@) == tree.binding_named(
                list@.skip(i as int),
                name@,
            ),
        decreases list.len() - i,
    {
        let c = list[i];
        proof {
            assert(list@.skip(i as int)[0] == c);
            assert(list@.skip(i as int).skip(1) =~= list@.skip(i + 1));
        }
        if tree.elements[c].kind == Kind::AttrpathValue {
            match tree.path_of(c) {
                Some((path, _)) => {
                    if same_text(path.as_str(), name) {
                        return Some(c);
                    }
                },
                None => {},
            }
        }
        i += 1;
    }
    None
}

/// The value that the identifier at `ident` stands for in the `let` block at
/// `let_in`: that of the binding of its name, followed through identifiers.
pub fn resolve_let_ident(tree: &SyntaxTree, let_in: usize, ident: usize) -> (out: Option<usize>)
    ensures
        out == tree.let_value(let_in as int, ident as int),
        out matches Some(value) ==> value < tree.len(),
{
    let mut at: usize = ident;
    let mut fuel: usize = tree.elements.len();
    while fuel > 0
        invariant
            tree.let_value(let_in as int, ident as int) == tree.resolved(
                let_in as int,
                at as int,
                fuel as nat,
            ),
        decreases fuel,
    {
        let name = from_chars(&tree.source_text(at));
        let apv = match find_let_binding(tree, let_in, name.as_str()) {
            Some(apv) => apv,
            None => {
                return None;
            },
        };
        let value = match tree.first_child(apv, Pick::AnyExpr) {
            Some(value) => value,
            None => {
                return None;
            },
        };
        if tree.elements[value].kind == Kind::Ident {
            at = value;
            fuel -= 1;
        } else {
            return Some(value);
        }
    }
    None
}

/// The scope of the `let` block at `let_in`: the entries of its documented
/// bindings, in order.
pub fn collect_scope(
    tree: &SyntaxTree,
    let_in: usize,
    prefix: &str,
    category: &str,
    locs: &Locations,
) -> (out: Vec<ManualEntry>)
    ensures
        entries_view(out@) == tree.let_scope(let_in as int, prefix@, category@, *locs),
{
    let list = tree.child_list(let_in);
    let mut scope: Vec<ManualEntry> = Vec::new();
    let mut i: usize = 0;
    assert(entries_view(scope@) =~= Seq::empty());
    while i < list.len()
        invariant
            i <= list.len(),
            forall|k: int| 0 <= k < list.len() ==> #[trigger] list[k] < tree.len(),
            entries_view(scope@) == tree.scope_entries(
                list@.take(i as int),
                prefix@,
                category@,
                *locs,
            ),
        decreases list.len() - i,
    {
        let c = list[i];
        proof {
            assert(list@.take(i + 1).drop_last() == list@.take(i as int));
            assert(list@.take(i + 1).last() == c);
        }
        if tree.elements[c].kind == Kind::AttrpathValue {
            match collect_entry_information(tree, c) {
                Some(item) => {
                    let ghost before = entries_view(scope@);
                    let entry = item.into_entry(prefix, category, locs);
                    scope.push(entry);
                    assert(entries_view(scope@) =~= before.push(entry@));
                },
                None => {},
            }
        }
        i += 1;
    }
    assert(list@.take(list.len() as int) == list@);
    scope
}

/// For each of `names`, a copy of the entry that `scope` has under it, in
/// the order of the names.
pub fn export_entries(scope: &Vec<ManualEntry>, names: &Vec<String>) -> (out: Vec<ManualEntry>)
    ensures
        entries_view(out@) == exported(entries_view(scope@), texts_of(names@)),
{
    let ghost wanted = texts_of(names@);
    let mut entries: Vec<ManualEntry> = Vec::new();
    let mut i: usize = 0;
    assert(entries_view(entries@) =~= Seq::empty());
    while i < names.len()
        invariant
            i <= names.len(),
            wanted == texts_of(names@),
            entries_view(entries@) == exported(entries_view(scope@), wanted.take(i as int)),
        decreases names.len() - i,
    {
        proof {
            assert(wanted.take(i + 1).drop_last() == wanted.take(i as int));
            assert(wanted.take(i + 1).last() == names@[i as int]@);
        }
        match find_last_named(scope, names[i].as_str()) {
            Some(found) => {
                let ghost before = entries_view(entries@);
                entries.push(found.copy());
                assert(entries_view(entries@) =~= before.push(found@));
            },
            None => {},
        }
        i += 1;
    }
    assert(wanted.take(names.len() as int) == wanted);
    entries
}

/// The entries of a file, in order. The first `let` block or attribute set
/// that lies in no pattern decides. Of a `let` block with a list of exports
/// the entries are the documented bindings of the block that the list names,
/// in the order of the list. Of a `let` block without one they are those of
/// the attribute set that the body is, or that the body stands for as an
/// identifier of the block; `inherit` clauses in it bring in documented
/// bindings of the block. Of an attribute set they are its documented
/// bindings.
pub fn collect_entries(
    tree: &SyntaxTree,
    prefix: &str,
    category: &str,
    locs: &Locations,
    export: &Option<Vec<String>>,
) -> (out: Vec<ManualEntry>)
    ensures
        entries_view(out@) == tree.entries(prefix@, category@, *locs, export_view(*export)),
{
    let n = match tree.find_scope_node() {
        Some(n) => n,
        None => {
            let none: Vec<ManualEntry> = Vec::new();
            assert(entries_view(none@) =~= Seq::empty());
            return none;
        },
    };
    if tree.elements[n].kind == Kind::LetIn {
        let scope = collect_scope(tree, n, prefix, category, locs);
        match export {
            Some(names) => {
                return export_entries(&scope, names);
            },
            None => {},
        }
        let body = match tree.first_child(n, Pick::AnyExpr) {
            Some(body) => body,
            None => {
                let none: Vec<ManualEntry> = Vec::new();
                assert(entries_view(none@) =~= Seq::empty());
                return none;
            },
        };
        if tree.elements[body].kind == Kind::Ident {
            match resolve_let_ident(tree, n, body) {
                Some(value) => {
                    return collect_bindings(tree, value, prefix, category, locs, &scope);
                },
                None => {},
            }
        }
        collect_bindings(tree, body, prefix, category, locs, &scope)
    } else {
        let scope: Vec<ManualEntry> = Vec::new();
        assert(entries_view(scope@) =~= Seq::empty());
        collect_bindings(tree, n, prefix, category, locs, &scope)
    }
}

/// The documentation of the file: the comment before the first node below
/// the root, without its indentation.
pub fn extract_file_doc(tree: &SyntaxTree) -> (out: Option<String>)
    ensures
        text_of(out) == tree.file_doc(),
{
    match tree.first_child(0, Pick::AnyNode) {
        Some(n) => {
            let found = match retrieve_doc_comment(tree, n, Some(0)) {
                Some(docs) => Some(docs),
                None => retrieve_legacy_comment(tree, n, false),
            };
            match found {
                Some(text) => normalize_chars(&to_chars(text.as_str())),
                None => None,
            }
        },
        None => None,
    }
}

/// The heading of a category with the documentation of its file.
pub open spec fn description_text(
    tree: SyntaxTree,
    description: Seq<char>,
    category: Seq<char>,
) -> Seq<char> {
    if description.len() == 0 && category.len() == 0 {
        Seq::empty()
    } else {
        "# "@ + description + " {#sec-functions-library-"@ + category + "}\n"@ + text_or_empty(
            tree.file_doc(),
        ) + "\n"@
    }
}

/// The heading of a category, with the category's anchor, and below it the
/// documentation of the file. Nothing where neither a description nor a
/// category is given.
pub fn retrieve_description(tree: &SyntaxTree, description: &str, category: &str) -> (out: String)
    ensures
        out@ == description_text(*tree, description@, category@),
{
    if description.is_empty() && category.is_empty() {
        return String::new();
    }
    let mut out = "# ".to_owned();
    out.append(description);
    out.append(" {#sec-functions-library-");
    out.append(category);
    out.append("}\n");
    match extract_file_doc(tree) {
        Some(doc) => out.append(doc.as_str()),
        None => {
            assert(out@ + Seq::<char>::empty() =~= out@);
        },
    }
    out.append("\n");
    out
}


/// The names of `entries`, in order.
pub open spec fn entry_names(entries: Seq<EntryView>) -> Seq<Seq<char>> {
    Seq::new(entries.len(), |i: int| entries[i].name)
}

/// The entry that a scope has under a name bears that name.
pub proof fn lemma_last_named(scope: Seq<EntryView>, name: Seq<char>)
    ensures
        last_named(scope, name) matches Some(entry) ==> entry.name == name && scope.contains(entry),
        last_named(scope, name) is None ==> forall|i: int|
            0 <= i < scope.len() ==> (#[trigger] scope[i]).name != name,
    decreases scope.len(),
{
    if scope.len() > 0 {
        let front = scope.drop_last();
        lemma_last_named(front, name);
        if scope.last().name == name {
            assert(scope[scope.len() - 1] == scope.last());
        } else {
            match last_named(front, name) {
                Some(entry) => {
                    let i = choose|i: int| 0 <= i < front.len() && front[i] == entry;
                    assert(scope[i] == entry);
                },
                None => {
                    assert forall|i: int| 0 <= i < scope.len() implies (#[trigger] scope[i]).name
                        != name by {
                        if i < front.len() {
                            assert(front[i] == scope[i]);
                        }
                    }
                },
            }
        }
    }
}

/// Where the scope has an entry under each name of an export list, the
/// entries exported bear exactly the names of the list, in its order.
pub proof fn lemma_exported_names(scope: Seq<EntryView>, names: Seq<Seq<char>>)
    requires
        forall|i: int| 0 <= i < names.len() ==> last_named(scope, #[trigger] names[i]) is Some,
    ensures
        entry_names(exported(scope, names)) == names,
    decreases names.len(),
{
    if names.len() > 0 {
        let front = names.drop_last();
        assert forall|i: int| 0 <= i < front.len() implies last_named(scope, #[trigger] front[i])
            is Some by {
            assert(front[i] == names[i]);
        }
        lemma_exported_names(scope, front);
        assert(names[names.len() - 1] == names.last());
        lemma_last_named(scope, names.last());
        assert(entry_names(exported(scope, names)) =~= entry_names(exported(scope, front)).push(
            names.last(),
        ));
        assert(front.push(names.last()) =~= names);
    } else {
        assert(entry_names(exported(scope, names)) =~= names);
    }
}

/// With an export list the entries of a `let` block are those that the list
/// picks from the block's scope. Neither the body of the block nor the order
/// of its bindings has a say: two files whose blocks have the same scope
/// give the same entries, and where every name of the list is documented the
/// entries bear the names of the list, in its order.
pub proof fn lemma_export_list_decides(
    one: SyntaxTree,
    other: SyntaxTree,
    prefix: Seq<char>,
    category: Seq<char>,
    locs: Locations,
    names: Seq<Seq<char>>,
)
    requires
        one.scope_node() matches Some(n) && one.kind(n as int) == Kind::LetIn,
        other.scope_node() matches Some(n) && other.kind(n as int) == Kind::LetIn,
        one.let_scope(one.scope_node()->0 as int, prefix, category, locs) == other.let_scope(
            other.scope_node()->0 as int,
            prefix,
            category,
            locs,
        ),
    ensures
        one.entries(prefix, category, locs, Some(names)) == other.entries(
            prefix,
            category,
            locs,
            Some(names),
        ),
        (forall|i: int|
            0 <= i < names.len() ==> last_named(
                one.let_scope(one.scope_node()->0 as int, prefix, category, locs),
                #[trigger] names[i],
            ) is Some) ==> entry_names(one.entries(prefix, category, locs, Some(names))) == names,
{
    let scope = one.let_scope(one.scope_node()->0 as int, prefix, category, locs);
    if forall|i: int| 0 <= i < names.len() ==> last_named(scope, #[trigger] names[i]) is Some {
        lemma_exported_names(scope, names);
    }
}

/// The entries of a list of children are those of its front and those of its
/// back, one after the other.
pub proof fn lemma_list_entries_concat(
    tree: SyntaxTree,
    front: Seq<usize>,
    back: Seq<usize>,
    prefix: Seq<char>,
    category: Seq<char>,
    locs: Locations,
    scope: Seq<EntryView>,
)
    ensures
        tree.list_entries(front + back, prefix, category, locs, scope) == tree.list_entries(
            front,
            prefix,
            category,
            locs,
            scope,
        ) + tree.list_entries(back, prefix, category, locs, scope),
    decreases back.len(),
{
    if back.len() == 0 {
        assert(front + back =~= front);
        assert(tree.list_entries(front, prefix, category, locs, scope) + Seq::<EntryView>::empty()
            =~= tree.list_entries(front, prefix, category, locs, scope));
    } else {
        lemma_list_entries_concat(tree, front, back.drop_last(), prefix, category, locs, scope);
        assert((front + back).drop_last() =~= front + back.drop_last());
        assert((front + back).last() == back.last());
        let last = tree.child_entries(back.last() as int, prefix, category, locs, scope);
        assert(tree.list_entries(front, prefix, category, locs, scope) + tree.list_entries(
            back.drop_last(),
            prefix,
            category,
            locs,
            scope,
        ) + last =~= tree.list_entries(front, prefix, category, locs, scope) + (tree.list_entries(
            back.drop_last(),
            prefix,
            category,
            locs,
            scope,
        ) + last));
    }
}

/// A binding without a comment of either kind makes no entry, and the
/// entries of its siblings are what they are without it, in the same order.
pub proof fn lemma_undocumented_binding_is_left_out(
    tree: SyntaxTree,
    list: Seq<usize>,
    i: int,
    prefix: Seq<char>,
    category: Seq<char>,
    locs: Locations,
    scope: Seq<EntryView>,
)
    requires
        0 <= i < list.len(),
        list[i] < tree.len(),
        tree.kind(list[i] as int) == Kind::AttrpathValue,
        tree.doc_comment(list[i] as int, 2) is None,
        tree.legacy_comment(list[i] as int, false) is None,
    ensures
        tree.child_entries(list[i] as int, prefix, category, locs, scope).len() == 0,
        tree.list_entries(list, prefix, category, locs, scope) == tree.list_entries(
            list.remove(i),
            prefix,
            category,
            locs,
            scope,
        ),
{
    let front = list.take(i);
    let one = seq![list[i]];
    let back = list.skip(i + 1);
    assert(list =~= front + one + back);
    assert(list.remove(i) =~= front + back);
    lemma_list_entries_concat(tree, front + one, back, prefix, category, locs, scope);
    lemma_list_entries_concat(tree, front, one, prefix, category, locs, scope);
    lemma_list_entries_concat(tree, front, back, prefix, category, locs, scope);
    assert(one.drop_last() =~= Seq::<usize>::empty());
    assert(one.last() == list[i]);
    assert(tree.doc_item(list[i] as int) is None);
    assert(tree.binding_item(list[i] as int) is None);
    assert(tree.child_entries(list[i] as int, prefix, category, locs, scope)
        =~= Seq::<EntryView>::empty());
    assert(tree.list_entries(one.drop_last(), prefix, category, locs, scope)
        =~= Seq::<EntryView>::empty());
    assert(tree.list_entries(one, prefix, category, locs, scope) =~= Seq::<EntryView>::empty());
    assert(tree.list_entries(front, prefix, category, locs, scope) + Seq::<EntryView>::empty()
        =~= tree.list_entries(front, prefix, category, locs, scope));
}

} // verus!
