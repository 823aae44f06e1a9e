//! Documentation comments: block comments that open with `/**`.

use crate::format::{
    normalize_chars, shift_headings, with_shifted_headings, without_indentation,
};
use crate::syntax::{Kind, SyntaxTree};
use crate::text::{from_chars, slice_chars, text_of, to_chars};
use vstd::prelude::*;

verus! {

/// Whether `text` is a documentation comment: it opens with `/**`, goes on
/// with something other than `*` or `/`, and closes with `*/`.
pub open spec fn is_doc_comment(text: Seq<char>) -> bool {
    &&& text.len() >= 5
    &&& text[0] == '/'
    &&& text[1] == '*'
    &&& text[2] == '*'
    &&& text[3] != '*'
    &&& text[3] != '/'
    &&& text[text.len() - 2] == '*'
    &&& text[text.len() - 1] == '/'
}

/// What a documentation comment holds between `/**` and `*/`.
pub open spec fn doc_comment_body(text: Seq<char>) -> Seq<char> {
    text.subrange(3, text.len() - 2)
}

fn chars_are_doc_comment(text: &Vec<char>) -> (yes: bool)
    ensures
        yes == is_doc_comment(text@),
{
    let n = text.len();
    n >= 5 && text[0] == '/' && text[1] == '*' && text[2] == '*' && text[3] != '*' && text[3]
        != '/' && text[n - 2] == '*' && text[n - 1] == '/'
}

/// What the documentation comment `text` holds, if it is one.
pub fn doc_text(text: &str) -> (out: Option<String>)
    ensures
        out is Some <==> is_doc_comment(text@),
        out matches Some(body) ==> body@ == doc_comment_body(text@),
{
    let chars = to_chars(text);
    if chars_are_doc_comment(&chars) {
        Some(from_chars(&slice_chars(&chars, 3, chars.len() - 2)))
    } else {
        None
    }
}

impl SyntaxTree {
    /// Whether the element at `i` is a comment that documents.
    pub open spec fn documents(self, i: int) -> bool {
        0 <= i < self.len() && self.kind(i) == Kind::Comment && is_doc_comment(self.text(i))
    }

    /// The documentation comment that stands before the element at `i` among
    /// its siblings, with nothing but whitespace and other comments between
    /// the two.
    pub open spec fn doc_comment_before(self, i: int) -> Option<usize>
        decreases i,
    {
        match self.prev_sibling(i) {
            Some(s) => if !(s < i) {
                None
            } else if self.documents(s as int) {
                Some(s)
            } else if self.kind(s as int) == Kind::Whitespace || self.kind(s as int)
                == Kind::Comment {
                self.doc_comment_before(s as int)
            } else {
                None
            },
            None => None,
        }
    }

    /// The documentation of the expression at `i`: what the documentation
    /// comment before it holds, or, where there is none and the expression
    /// is part of a binding, what the one before the binding holds.
    pub open spec fn expr_docs(self, i: int) -> Option<Seq<char>> {
        match self.doc_comment_before(i) {
            Some(c) => Some(doc_comment_body(self.text(c as int))),
            None => match self.parent(i) {
                Some(p) => if self.kind(p as int) == Kind::AttrpathValue {
                    match self.doc_comment_before(p as int) {
                        Some(c) => Some(doc_comment_body(self.text(c as int))),
                        None => None,
                    }
                } else {
                    None
                },
                None => None,
            },
        }
    }

    /// The documentation of the element at `i` as it is rendered: without
    /// its indentation, its headings moved down by `levels`.
    pub open spec fn doc_comment(self, i: int, levels: nat) -> Option<Seq<char>> {
        match self.expr_docs(i) {
            Some(docs) => Some(with_shifted_headings(without_indentation(docs), levels)),
            None => None,
        }
    }

    /// The documentation comment that stands before the element at `i`.
    pub fn get_doc_comment(&self, i: usize) -> (out: Option<usize>)
        ensures
            out == self.doc_comment_before(i as int),
            out matches Some(c) ==> self.documents(c as int),
    {
        let mut at: usize = i;
        loop
            invariant
                self.doc_comment_before(i as int) == self.doc_comment_before(at as int),
            decreases at,
        {
            match self.prev_sibling_of(at) {
                Some(s) => {
                    let element = &self.elements[s];
                    match element.kind {
                        Kind::Comment => {
                            let text = to_chars(element.text.as_str());
                            if chars_are_doc_comment(&text) {
                                return Some(s);
                            }
                        },
                        Kind::Whitespace => {},
                        _ => {
                            return None;
                        },
                    }
                    at = s;
                },
                None => {
                    return None;
                },
            }
        }
    }

    /// The body of the documentation comment at `c`.
    fn doc_body_at(&self, c: usize) -> (out: String)
        requires
            self.documents(c as int),
        ensures
            out@ == doc_comment_body(self.text(c as int)),
    {
        let chars = to_chars(self.elements[c].text.as_str());
        from_chars(&slice_chars(&chars, 3, chars.len() - 2))
    }

    /// The documentation of the expression at `i`.
    pub fn get_expr_docs(&self, i: usize) -> (out: Option<String>)
        ensures
            text_of(out) == self.expr_docs(i as int),
    {
        match self.get_doc_comment(i) {
            Some(c) => Some(self.doc_body_at(c)),
            None => match self.parent_of(i) {
                Some(p) => match self.elements[p].kind {
                    Kind::AttrpathValue => match self.get_doc_comment(p) {
                        Some(c) => Some(self.doc_body_at(c)),
                        None => None,
                    },
                    _ => None,
                },
                None => None,
            },
        }
    }
}

/// The documentation comment of the element at `node`, without its
/// indentation and with its headings moved down: by `shift_headings_by`
/// levels, or by two where none is given, so that they come below the
/// headings of the category and of the entry.
pub fn retrieve_doc_comment(tree: &SyntaxTree, node: usize, shift_headings_by: Option<usize>) -> (out:
    Option<String>)
    ensures
        text_of(out) == tree.doc_comment(
            node as int,
            match shift_headings_by {
                Some(levels) => levels as nat,
                None => 2,
            },
        ),
{
    let levels = match shift_headings_by {
        Some(levels) => levels,
        None => 2,
    };
    match tree.get_expr_docs(node) {
        Some(docs) => {
            let body = match normalize_chars(&to_chars(docs.as_str())) {
                Some(body) => body,
                None => String::new(),
            };
            Some(shift_headings(body.as_str(), levels))
        },
        None => None,
    }
}

} // verus!
