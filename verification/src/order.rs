//! The order in which options are listed.
//!
//! Names are compared segment by segment. At each position a segment that
//! starts with `enable` comes before one that starts with `package`, which
//! comes before any other; within one of these groups segments are ordered as
//! strings are. Of two names of which one continues the other, the shorter
//! comes first.

use crate::lines::{lemma_pieces_of, lines_view, pieces_of, split_chars};
use crate::text::{starts_with, to_chars};
use std::cmp::Ordering;
use vstd::prelude::*;

verus! {

/// The group of a segment: 0 if it starts with `enable`, 1 if it starts with
/// `package`, 2 otherwise.
pub open spec fn segment_rank(segment: Seq<char>) -> nat {
    if "enable"@.is_prefix_of(segment) {
        0
    } else if "package"@.is_prefix_of(segment) {
        1
    } else {
        2
    }
}

/// The order of two texts, character by character: negative if `a` comes
/// first, positive if `b` does, 0 if they are equal.
pub open spec fn text_order(a: Seq<char>, b: Seq<char>) -> int
    decreases a.len(),
{
    if a.len() == 0 {
        if b.len() == 0 {
            0
        } else {
            -1
        }
    } else if b.len() == 0 {
        1
    } else if (a[0] as u32) < (b[0] as u32) {
        -1
    } else if (a[0] as u32) > (b[0] as u32) {
        1
    } else {
        text_order(a.skip(1), b.skip(1))
    }
}

/// The order of two segments: by group, then as texts.
pub open spec fn segment_order(a: Seq<char>, b: Seq<char>) -> int {
    if segment_rank(a) < segment_rank(b) {
        -1
    } else if segment_rank(a) > segment_rank(b) {
        1
    } else {
        text_order(a, b)
    }
}

/// The order of two names given by their segments: that of the first pair of
/// segments that differ, else the shorter name first.
pub open spec fn segments_order(a: Seq<Seq<char>>, b: Seq<Seq<char>>) -> int
    decreases a.len(),
{
    if a.len() == 0 {
        if b.len() == 0 {
            0
        } else {
            -1
        }
    } else if b.len() == 0 {
        1
    } else if segment_order(a[0], b[0]) != 0 {
        segment_order(a[0], b[0])
    } else {
        segments_order(a.skip(1), b.skip(1))
    }
}

/// The order of two option names: negative if `a` is listed first, positive
/// if `b` is, 0 if neither.
pub open spec fn option_name_order(a: Seq<char>, b: Seq<char>) -> int {
    segments_order(pieces_of(a, '.'), pieces_of(b, '.'))
}

fn segment_rank_of(segment: &Vec<char>) -> (rank: u8)
    ensures
        rank == segment_rank(segment@),
{
    if starts_with(segment, &to_chars("enable")) {
        0
    } else if starts_with(segment, &to_chars("package")) {
        1
    } else {
        2
    }
}

fn order_texts(a: &Vec<char>, b: &Vec<char>) -> (order: i8)
    ensures
        order == text_order(a@, b@),
{
    let mut i: usize = 0;
    assert(a@.skip(0) =~= a@ && b@.skip(0) =~= b@);
    while i < a.len() && i < b.len()
        invariant
            i <= a.len(),
            i <= b.len(),
            text_order(a@, b@) == text_order(a@.skip(i as int), b@.skip(i as int)),
        decreases a.len() - i,
    {
        let x = a[i] as u32;
        let y = b[i] as u32;
        proof {
            assert(a@.skip(i as int)[0] == a@[i as int]);
            assert(b@.skip(i as int)[0] == b@[i as int]);
            assert(a@.skip(i as int).skip(1) =~= a@.skip(i + 1));
            assert(b@.skip(i as int).skip(1) =~= b@.skip(i + 1));
        }
        if x < y {
            return -1;
        }
        if x > y {
            return 1;
        }
        i += 1;
    }
    if i < b.len() {
        -1
    } else if i < a.len() {
        1
    } else {
        0
    }
}

fn order_segments(a: &Vec<char>, b: &Vec<char>) -> (order: i8)
    ensures
        order == segment_order(a@, b@),
{
    let ra = segment_rank_of(a);
    let rb = segment_rank_of(b);
    if ra < rb {
        -1
    } else if ra > rb {
        1
    } else {
        order_texts(a, b)
    }
}

/// The order of two option names as a number: negative if `a` is listed
/// first, positive if `b` is, 0 if neither.
pub fn order_option_names(a: &str, b: &str) -> (order: i8)
    ensures
        order == option_name_order(a@, b@),
{
    let left = split_chars(&to_chars(a), '.');
    let right = split_chars(&to_chars(b), '.');
    let ghost l = lines_view(left@);
    let ghost r = lines_view(right@);
    let mut i: usize = 0;
    assert(l.skip(0) =~= l && r.skip(0) =~= r);
    while i < left.len() && i < right.len()
        invariant
            i <= left.len(),
            i <= right.len(),
            l == lines_view(left@),
            r == lines_view(right@),
            l == pieces_of(a@, '.'),
            r == pieces_of(b@, '.'),
            segments_order(l, r) == segments_order(l.skip(i as int), r.skip(i as int)),
        decreases left.len() - i,
    {
        proof {
            assert(l.skip(i as int)[0] == left@[i as int]@);
            assert(r.skip(i as int)[0] == right@[i as int]@);
            assert(l.skip(i as int).skip(1) =~= l.skip(i + 1));
            assert(r.skip(i as int).skip(1) =~= r.skip(i + 1));
        }
        let order = order_segments(&left[i], &right[i]);
        if order != 0 {
            return order;
        }
        i += 1;
    }
    if i < right.len() {
        -1
    } else if i < left.len() {
        1
    } else {
        0
    }
}

/// The group of a segment of an option name: 0 for `enable...`, 1 for
/// `package...`, 2 for any other.
pub fn segment_priority(segment: &str) -> (rank: u8)
    ensures
        rank == segment_rank(segment@),
{
    segment_rank_of(&to_chars(segment))
}


/// Compares two option names for the listing.
pub fn compare_option_names(a: &str, b: &str) -> (out: Ordering)
    ensures
        option_name_order(a@, b@) < 0 <==> out == Ordering::Less,
        option_name_order(a@, b@) == 0 <==> out == Ordering::Equal,
        option_name_order(a@, b@) > 0 <==> out == Ordering::Greater,
{
    let order = order_option_names(a, b);
    if order < 0 {
        Ordering::Less
    } else if order == 0 {
        Ordering::Equal
    } else {
        Ordering::Greater
    }
}

/// Two characters have the same code only if they are the same.
proof fn lemma_char_code(x: char, y: char)
    ensures
        (x as u32) == (y as u32) <==> x == y,
{
}

/// Texts are ordered one way or the other, and only equal texts are ordered
/// neither way.
pub proof fn lemma_text_order(a: Seq<char>, b: Seq<char>)
    ensures
        -1 <= text_order(a, b) <= 1,
        text_order(b, a) == -text_order(a, b),
        text_order(a, b) == 0 <==> a == b,
    decreases a.len(),
{
    if a.len() > 0 && b.len() > 0 {
        lemma_text_order(a.skip(1), b.skip(1));
        if a[0] == b[0] && a.skip(1) == b.skip(1) {
            assert(a =~= seq![a[0]] + a.skip(1));
            assert(b =~= seq![b[0]] + b.skip(1));
        }
        lemma_char_code(a[0], b[0]);
    } else if a.len() == 0 && b.len() == 0 {
        assert(a =~= b);
    }
}

/// The order of texts is transitive.
pub proof fn lemma_text_order_transitive(a: Seq<char>, b: Seq<char>, c: Seq<char>)
    requires
        text_order(a, b) <= 0,
        text_order(b, c) <= 0,
    ensures
        text_order(a, c) <= 0,
        text_order(a, c) == 0 ==> text_order(a, b) == 0 && text_order(b, c) == 0,
    decreases a.len(),
{
    if a.len() > 0 && b.len() > 0 && c.len() > 0 {
        lemma_char_code(a[0], b[0]);
        lemma_char_code(b[0], c[0]);
        lemma_char_code(a[0], c[0]);
        if a[0] == b[0] && b[0] == c[0] {
            lemma_text_order_transitive(a.skip(1), b.skip(1), c.skip(1));
        }
    }
}

/// Segments are ordered one way or the other, and only equal segments are
/// ordered neither way.
pub proof fn lemma_segment_order(a: Seq<char>, b: Seq<char>)
    ensures
        -1 <= segment_order(a, b) <= 1,
        segment_order(b, a) == -segment_order(a, b),
        segment_order(a, b) == 0 <==> a == b,
{
    lemma_text_order(a, b);
}

/// The order of segments is transitive.
pub proof fn lemma_segment_order_transitive(a: Seq<char>, b: Seq<char>, c: Seq<char>)
    requires
        segment_order(a, b) <= 0,
        segment_order(b, c) <= 0,
    ensures
        segment_order(a, c) <= 0,
        segment_order(a, c) == 0 ==> segment_order(a, b) == 0 && segment_order(b, c) == 0,
{
    lemma_text_order(a, b);
    lemma_text_order(b, c);
    lemma_text_order(a, c);
    if segment_rank(a) == segment_rank(b) && segment_rank(b) == segment_rank(c) {
        lemma_text_order_transitive(a, b, c);
    }
}

proof fn lemma_segments_order(a: Seq<Seq<char>>, b: Seq<Seq<char>>)
    ensures
        -1 <= segments_order(a, b) <= 1,
        segments_order(b, a) == -segments_order(a, b),
        segments_order(a, b) == 0 <==> a == b,
    decreases a.len(),
{
    if a.len() > 0 && b.len() > 0 {
        lemma_segment_order(a[0], b[0]);
        lemma_segments_order(a.skip(1), b.skip(1));
        if a[0] == b[0] && a.skip(1) == b.skip(1) {
            assert(a =~= seq![a[0]] + a.skip(1));
            assert(b =~= seq![b[0]] + b.skip(1));
        }
    } else if a.len() == 0 && b.len() == 0 {
        assert(a =~= b);
    }
}

proof fn lemma_segments_order_transitive(a: Seq<Seq<char>>, b: Seq<Seq<char>>, c: Seq<Seq<char>>)
    requires
        segments_order(a, b) <= 0,
        segments_order(b, c) <= 0,
    ensures
        segments_order(a, c) <= 0,
    decreases a.len(),
{
    if a.len() > 0 && b.len() > 0 && c.len() > 0 {
        lemma_segment_order(a[0], b[0]);
        lemma_segment_order(b[0], c[0]);
        lemma_segment_order(a[0], c[0]);
        lemma_segment_order_transitive(a[0], b[0], c[0]);
        if segment_order(a[0], c[0]) == 0 {
            lemma_segments_order_transitive(a.skip(1), b.skip(1), c.skip(1));
        }
    }
}

/// Of two option names one is listed before the other, whichever way they
/// are compared, and only a name and itself are listed in neither order.
pub proof fn lemma_option_name_order(a: Seq<char>, b: Seq<char>)
    ensures
        -1 <= option_name_order(a, b) <= 1,
        option_name_order(b, a) == -option_name_order(a, b),
        option_name_order(a, b) == 0 <==> a == b,
{
    lemma_segments_order(pieces_of(a, '.'), pieces_of(b, '.'));
    lemma_pieces_of(a, '.');
    lemma_pieces_of(b, '.');
}

/// A name that is listed no later than a second, which is listed no later
/// than a third, is listed no later than the third.
pub proof fn lemma_option_name_order_transitive(a: Seq<char>, b: Seq<char>, c: Seq<char>)
    requires
        option_name_order(a, b) <= 0,
        option_name_order(b, c) <= 0,
    ensures
        option_name_order(a, c) <= 0,
{
    lemma_segments_order_transitive(pieces_of(a, '.'), pieces_of(b, '.'), pieces_of(c, '.'));
}


/// `order` with the index `k` put in behind the last index whose name is
/// listed no later than the name at `k`.
pub open spec fn inserted(order: Seq<usize>, names: Seq<Seq<char>>, k: usize) -> Seq<usize>
    decreases order.len(),
{
    if order.len() == 0 {
        seq![k]
    } else if option_name_order(names[order.last() as int], names[k as int]) <= 0 {
        order.push(k)
    } else {
        inserted(order.drop_last(), names, k).push(order.last())
    }
}

/// The first `n` indices of `names` in the order of the listing.
pub open spec fn listing_prefix(names: Seq<Seq<char>>, n: nat) -> Seq<usize>
    decreases n,
{
    if n == 0 {
        Seq::empty()
    } else {
        inserted(listing_prefix(names, (n - 1) as nat), names, (n - 1) as usize)
    }
}

/// The indices of `names` in the order in which the names are listed.
pub open spec fn listing_order(names: Seq<Seq<char>>) -> Seq<usize> {
    listing_prefix(names, names.len())
}

/// Whether no name at an index of `order` is listed after the name at a
/// later one.
pub open spec fn in_listing_order(names: Seq<Seq<char>>, order: Seq<usize>) -> bool {
    forall|i: int, j: int|
        0 <= i < j < order.len() ==> option_name_order(
            names[#[trigger] order[i] as int],
            names[#[trigger] order[j] as int],
        ) <= 0
}

proof fn lemma_inserted(order: Seq<usize>, names: Seq<Seq<char>>, k: usize)
    requires
        in_listing_order(names, order),
        order.no_duplicates(),
        !order.contains(k),
    ensures
        inserted(order, names, k).len() == order.len() + 1,
        forall|x: usize| #[trigger]
            inserted(order, names, k).contains(x) <==> order.contains(x) || x == k,
        inserted(order, names, k).no_duplicates(),
        in_listing_order(names, inserted(order, names, k)),
    decreases order.len(),
{
    let out = inserted(order, names, k);
    if order.len() == 0 {
        assert(out[0] == k);
        assert forall|x: usize| out.contains(x) <==> order.contains(x) || x == k by {
            if out.contains(x) {
                let i = choose|i: int| 0 <= i < out.len() && out[i] == x;
            }
        }
    } else if option_name_order(names[order.last() as int], names[k as int]) <= 0 {
        assert(out[order.len() as int] == k);
        assert forall|x: usize| out.contains(x) <==> order.contains(x) || x == k by {
            if out.contains(x) {
                let i = choose|i: int| 0 <= i < out.len() && out[i] == x;
                if i < order.len() {
                    assert(order[i] == x);
                }
            }
            if order.contains(x) {
                let i = choose|i: int| 0 <= i < order.len() && order[i] == x;
                assert(out[i] == x);
            }
        }
        assert forall|i: int, j: int| 0 <= i < j < out.len() implies option_name_order(
            names[#[trigger] out[i] as int],
            names[#[trigger] out[j] as int],
        ) <= 0 by {
            if j == order.len() {
                let last = order.len() - 1;
                if i < last {
                    assert(option_name_order(
                        names[order[i] as int],
                        names[order[last] as int],
                    ) <= 0);
                    lemma_option_name_order_transitive(
                        names[order[i] as int],
                        names[order[last] as int],
                        names[k as int],
                    );
                }
            } else {
                assert(out[i] == order[i] && out[j] == order[j]);
            }
        }
    } else {
        let front = order.drop_last();
        let last = order.last();
        let mid = inserted(front, names, k);
        assert forall|i: int, j: int| 0 <= i < j < front.len() implies option_name_order(
            names[#[trigger] front[i] as int],
            names[#[trigger] front[j] as int],
        ) <= 0 by {
            assert(front[i] == order[i] && front[j] == order[j]);
        }
        assert(!front.contains(k)) by {
            if front.contains(k) {
                let i = choose|i: int| 0 <= i < front.len() && front[i] == k;
                assert(order[i] == k);
            }
        }
        assert(!front.contains(last)) by {
            if front.contains(last) {
                let i = choose|i: int| 0 <= i < front.len() && front[i] == last;
                assert(order[i] == last);
            }
        }
        lemma_inserted(front, names, k);
        assert(out[mid.len() as int] == last);
        assert forall|x: usize| out.contains(x) <==> order.contains(x) || x == k by {
            if out.contains(x) {
                let i = choose|i: int| 0 <= i < out.len() && out[i] == x;
                if i < mid.len() {
                    assert(mid[i] == x);
                    assert(mid.contains(x));
                    if front.contains(x) {
                        let j = choose|j: int| 0 <= j < front.len() && front[j] == x;
                        assert(order[j] == x);
                    }
                } else {
                    assert(order[order.len() - 1] == x);
                }
            }
            if order.contains(x) {
                let i = choose|i: int| 0 <= i < order.len() && order[i] == x;
                if i < front.len() {
                    assert(front[i] == x);
                    assert(front.contains(x));
                    assert(mid.contains(x));
                    let j = choose|j: int| 0 <= j < mid.len() && mid[j] == x;
                    assert(out[j] == x);
                }
            }
            if x == k {
                assert(mid.contains(x));
                let j = choose|j: int| 0 <= j < mid.len() && mid[j] == x;
                assert(out[j] == x);
            }
        }
        assert forall|i: int, j: int| 0 <= i < j < out.len() && i != j implies out[i]
            != out[j] by {
            if j == mid.len() {
                assert(mid[i] == out[i]);
                assert(mid.contains(out[i]));
            } else {
                assert(mid[i] == out[i] && mid[j] == out[j]);
            }
        }
        assert forall|i: int, j: int| 0 <= i < j < out.len() implies option_name_order(
            names[#[trigger] out[i] as int],
            names[#[trigger] out[j] as int],
        ) <= 0 by {
            if j == mid.len() {
                let x = out[i];
                assert(mid[i] == x);
                assert(mid.contains(x));
                if x == k {
                    lemma_option_name_order(names[last as int], names[k as int]);
                } else {
                    assert(front.contains(x));
                    let m = choose|m: int| 0 <= m < front.len() && front[m] == x;
                    assert(order[m] == x);
                    assert(order[order.len() - 1] == last);
                }
            } else {
                assert(mid[i] == out[i] && mid[j] == out[j]);
            }
        }
    }
}

proof fn lemma_listing_prefix(names: Seq<Seq<char>>, n: nat)
    requires
        n <= usize::MAX,
    ensures
        listing_prefix(names, n).len() == n,
        forall|x: usize| #[trigger] listing_prefix(names, n).contains(x) <==> x < n,
        listing_prefix(names, n).no_duplicates(),
        in_listing_order(names, listing_prefix(names, n)),
    decreases n,
{
    if n > 0 {
        let before = listing_prefix(names, (n - 1) as nat);
        lemma_listing_prefix(names, (n - 1) as nat);
        assert(!before.contains((n - 1) as usize));
        lemma_inserted(before, names, (n - 1) as usize);
        assert forall|x: usize| #[trigger]
            listing_prefix(names, n).contains(x) <==> x < n by {
            assert(before.contains(x) <==> x < n - 1);
        }
    } else {
        let none = listing_prefix(names, n);
        assert forall|x: usize| !none.contains(x) by {
            if none.contains(x) {
                let i = choose|i: int| 0 <= i < none.len() && none[i] == x;
            }
        }
    }
}

/// The listing holds every index once, and no name in it stands before one
/// that the order of option names puts first.
pub proof fn lemma_listing_order(names: Seq<Seq<char>>)
    requires
        names.len() <= usize::MAX,
    ensures
        listing_order(names).len() == names.len(),
        forall|x: usize| #[trigger] listing_order(names).contains(x) <==> x < names.len(),
        listing_order(names).no_duplicates(),
        in_listing_order(names, listing_order(names)),
{
    lemma_listing_prefix(names, names.len());
}


/// The names in the order in which they are listed.
pub open spec fn listed_names(names: Seq<Seq<char>>) -> Seq<Seq<char>> {
    Seq::new(names.len(), |i: int| names[listing_order(names)[i] as int])
}

/// Whether each name is listed before every name that follows it.
pub open spec fn strictly_ordered(names: Seq<Seq<char>>) -> bool {
    forall|i: int, j: int|
        0 <= i < j < names.len() ==> option_name_order(#[trigger] names[i], #[trigger] names[j])
            < 0
}

/// Names that differ from one another are listed each before the next, and
/// the listing holds the same names.
pub proof fn lemma_listed_names(names: Seq<Seq<char>>)
    requires
        names.len() <= usize::MAX,
        names.no_duplicates(),
    ensures
        listing_order(names).len() == names.len(),
        forall|i: int| 0 <= i < names.len() ==> (#[trigger] listing_order(names)[i]) < names.len(),
        strictly_ordered(listed_names(names)),
        forall|x: Seq<char>| #[trigger] listed_names(names).contains(x) <==> names.contains(x),
{
    lemma_listing_order(names);
    let order = listing_order(names);
    let listed = listed_names(names);
    assert forall|i: int| 0 <= i < names.len() implies (#[trigger] order[i]) < names.len() by {
        assert(order.contains(order[i]));
    }
    assert forall|i: int, j: int| 0 <= i < j < listed.len() implies option_name_order(
        #[trigger] listed[i],
        #[trigger] listed[j],
    ) < 0 by {
        assert(order.contains(order[i]) && order.contains(order[j]));
        assert(order[i] != order[j]);
        assert(option_name_order(names[order[i] as int], names[order[j] as int]) <= 0);
        lemma_option_name_order(listed[i], listed[j]);
    }
    assert forall|x: Seq<char>| #[trigger] listed.contains(x) <==> names.contains(x) by {
        if listed.contains(x) {
            let i = choose|i: int| 0 <= i < listed.len() && listed[i] == x;
            assert(order.contains(order[i]));
            assert(names[order[i] as int] == x);
        }
        if names.contains(x) {
            let k = choose|k: int| 0 <= k < names.len() && names[k] == x;
            assert(order.contains(k as usize));
            let i = choose|i: int| 0 <= i < order.len() && order[i] == k as usize;
            assert(listed[i] == x);
        }
    }
}

/// There is one way only to list given names each before the next.
pub proof fn lemma_strict_order_is_unique(one: Seq<Seq<char>>, other: Seq<Seq<char>>)
    requires
        strictly_ordered(one),
        strictly_ordered(other),
        forall|x: Seq<char>| one.contains(x) <==> other.contains(x),
    ensures
        one == other,
    decreases one.len(),
{
    if one.len() == 0 {
        if other.len() > 0 {
            assert(other.contains(other[0]));
        }
        assert(one =~= other);
    } else {
        let x = one.last();
        assert(one.contains(one[one.len() - 1]));
        assert(other.contains(x));
        assert(other.len() > 0);
        let y = other.last();
        assert(other.contains(other[other.len() - 1]));
        assert(one.contains(y));
        let i = choose|i: int| 0 <= i < one.len() && one[i] == y;
        let j = choose|j: int| 0 <= j < other.len() && other[j] == x;
        lemma_option_name_order(x, y);
        lemma_option_name_order(y, x);
        if i < one.len() - 1 {
            assert(option_name_order(one[i], one[one.len() - 1]) < 0);
        }
        if j < other.len() - 1 {
            assert(option_name_order(other[j], other[other.len() - 1]) < 0);
        }
        assert(x == y);
        let front = one.drop_last();
        let other_front = other.drop_last();
        assert forall|a: int, b: int| 0 <= a < b < front.len() implies option_name_order(
            #[trigger] front[a],
            #[trigger] front[b],
        ) < 0 by {
            assert(front[a] == one[a] && front[b] == one[b]);
        }
        assert forall|a: int, b: int| 0 <= a < b < other_front.len() implies option_name_order(
            #[trigger] other_front[a],
            #[trigger] other_front[b],
        ) < 0 by {
            assert(other_front[a] == other[a] && other_front[b] == other[b]);
        }
        assert forall|z: Seq<char>| front.contains(z) <==> other_front.contains(z) by {
            lemma_option_name_order(z, x);
            if front.contains(z) {
                let a = choose|a: int| 0 <= a < front.len() && front[a] == z;
                assert(one[a] == z);
                assert(option_name_order(one[a], one[one.len() - 1]) < 0);
                assert(one.contains(z));
                let b = choose|b: int| 0 <= b < other.len() && other[b] == z;
                assert(b < other.len() - 1);
                assert(other_front[b] == z);
            }
            if other_front.contains(z) {
                let b = choose|b: int| 0 <= b < other_front.len() && other_front[b] == z;
                assert(other[b] == z);
                assert(option_name_order(other[b], other[other.len() - 1]) < 0);
                assert(other.contains(z));
                let a = choose|a: int| 0 <= a < one.len() && one[a] == z;
                assert(a < one.len() - 1);
                assert(front[a] == z);
            }
        }
        lemma_strict_order_is_unique(front, other_front);
        assert(one =~= front.push(x));
        assert(other =~= other_front.push(y));
    }
}

} // verus!
