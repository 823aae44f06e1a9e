//! Character-level helpers shared by the comment parser and the renderers.
//!
//! Every text in this crate is modelled as its sequence of characters, the
//! view of `str` and `String`.

use vstd::prelude::*;
use vstd::string::*;

verus! {

/// `String::push` appends exactly one character.
pub assume_specification[ std::string::String::push ](s: &mut std::string::String, c: char)
    ensures
        final(s)@ == old(s)@.push(c),
;

/// The characters of `s`, in order.
pub fn to_chars(s: &str) -> (out: Vec<char>)
    ensures
        out@ == s@,
{
    let mut out: Vec<char> = Vec::new();
    for c in it: s.chars()
        invariant
            it.seq() == s@,
            out@ == s@.take(it.index()),
    {
        out.push(c);
    }
    out
}

/// The string made of the characters of `v`, in order.
pub fn from_chars(v: &Vec<char>) -> (out: String)
    ensures
        out@ == v@,
{
    let mut out = String::new();
    let mut i: usize = 0;
    while i < v.len()
        invariant
            i <= v.len(),
            out@ == v@.take(i as int),
        decreases v.len() - i,
    {
        out.push(v[i]);
        i += 1;
    }
    out
}


/// Whether `c` has the Unicode property `White_Space`.
pub open spec fn is_whitespace(c: char) -> bool {
    let n = c as u32;
    ||| 0x09 <= n <= 0x0D
    ||| n == 0x20
    ||| n == 0x85
    ||| n == 0xA0
    ||| n == 0x1680
    ||| 0x2000 <= n <= 0x200A
    ||| n == 0x2028
    ||| n == 0x2029
    ||| n == 0x202F
    ||| n == 0x205F
    ||| n == 0x3000
}

pub fn char_is_whitespace(c: char) -> (b: bool)
    ensures
        b == is_whitespace(c),
{
    let n: u32 = c as u32;
    (0x09 <= n && n <= 0x0D) || n == 0x20 || n == 0x85 || n == 0xA0 || n == 0x1680 || (0x2000 <= n
        && n <= 0x200A) || n == 0x2028 || n == 0x2029 || n == 0x202F || n == 0x205F || n == 0x3000
}

/// The number of whitespace characters at the start of `line`.
pub open spec fn leading_whitespace(line: Seq<char>) -> nat
    decreases line.len(),
{
    if line.len() == 0 || !is_whitespace(line[0]) {
        0
    } else {
        1 + leading_whitespace(line.skip(1))
    }
}

/// The number of whitespace characters at the end of `line`.
pub open spec fn trailing_whitespace(line: Seq<char>) -> nat
    decreases line.len(),
{
    if line.len() == 0 || !is_whitespace(line.last()) {
        0
    } else {
        1 + trailing_whitespace(line.drop_last())
    }
}

/// A line is blank when it holds nothing but whitespace.
pub open spec fn is_blank(line: Seq<char>) -> bool {
    leading_whitespace(line) == line.len()
}

/// `line` without its leading whitespace.
pub open spec fn trimmed_start(line: Seq<char>) -> Seq<char> {
    line.skip(leading_whitespace(line) as int)
}

/// `line` without its leading and trailing whitespace.
pub open spec fn trimmed(line: Seq<char>) -> Seq<char> {
    let rest = trimmed_start(line);
    rest.take(rest.len() - trailing_whitespace(rest))
}

/// The leading whitespace of a line is a prefix of it, made of whitespace
/// only, and ends at the line's end or at a character that is no whitespace.
pub proof fn lemma_leading_whitespace(line: Seq<char>)
    ensures
        leading_whitespace(line) <= line.len(),
        forall|i: int| 0 <= i < leading_whitespace(line) ==> is_whitespace(#[trigger] line[i]),
        leading_whitespace(line) < line.len() ==> !is_whitespace(
            line[leading_whitespace(line) as int],
        ),
    decreases line.len(),
{
    if line.len() == 0 || !is_whitespace(line[0]) {
    } else {
        let rest = line.skip(1);
        lemma_leading_whitespace(rest);
        assert forall|i: int| 0 <= i < leading_whitespace(line) implies is_whitespace(
            #[trigger] line[i],
        ) by {
            if i > 0 {
                assert(line[i] == rest[i - 1]);
            }
        }
        assert(rest[leading_whitespace(rest) as int] == line[leading_whitespace(line) as int]
            || leading_whitespace(line) >= line.len());
    }
}

/// The leading whitespace of `line` has width `n` as soon as the first `n`
/// characters are whitespace and the next one, if any, is not.
pub proof fn lemma_leading_whitespace_is(line: Seq<char>, n: nat)
    requires
        n <= line.len(),
        forall|i: int| 0 <= i < n ==> is_whitespace(#[trigger] line[i]),
        n < line.len() ==> !is_whitespace(line[n as int]),
    ensures
        leading_whitespace(line) == n,
    decreases n,
{
    if n > 0 {
        let rest = line.skip(1);
        assert forall|i: int| 0 <= i < n - 1 implies is_whitespace(#[trigger] rest[i]) by {
            assert(rest[i] == line[i + 1]);
        }
        if n < line.len() {
            assert(rest[n - 1] == line[n as int]);
        }
        lemma_leading_whitespace_is(rest, (n - 1) as nat);
    }
}

/// Counts the whitespace characters at the start of `line`.
pub fn count_leading_whitespace(line: &Vec<char>) -> (n: usize)
    ensures
        n == leading_whitespace(line@),
        n <= line.len(),
{
    let mut n: usize = 0;
    while n < line.len() && char_is_whitespace(line[n])
        invariant
            n <= line.len(),
            forall|i: int| 0 <= i < n ==> is_whitespace(#[trigger] line@[i]),
        decreases line.len() - n,
    {
        n += 1;
    }
    proof {
        lemma_leading_whitespace_is(line@, n as nat);
    }
    n
}

/// The characters of `line` from `from` up to, not including, `to`.
pub fn slice_chars(line: &Vec<char>, from: usize, to: usize) -> (out: Vec<char>)
    requires
        from <= to <= line.len(),
    ensures
        out@ == line@.subrange(from as int, to as int),
{
    let mut out: Vec<char> = Vec::new();
    let mut i: usize = from;
    while i < to
        invariant
            from <= i <= to <= line.len(),
            out@ == line@.subrange(from as int, i as int),
        decreases to - i,
    {
        out.push(line[i]);
        i += 1;
    }
    out
}

/// `line` without its leading whitespace.
pub fn trim_start(line: &Vec<char>) -> (out: Vec<char>)
    ensures
        out@ == trimmed_start(line@),
{
    let n = count_leading_whitespace(line);
    slice_chars(line, n, line.len())
}

/// `line` without its leading and trailing whitespace.
pub fn trim(line: &Vec<char>) -> (out: Vec<char>)
    ensures
        out@ == trimmed(line@),
{
    let rest = trim_start(line);
    let mut end: usize = rest.len();
    assert(rest@.take(end as int) == rest@);
    while end > 0 && char_is_whitespace(rest[end - 1])
        invariant
            end <= rest.len(),
            trailing_whitespace(rest@) == trailing_whitespace(rest@.take(end as int)) + (
            rest.len() - end),
        decreases end,
    {
        proof {
            assert(rest@.take(end as int).drop_last() == rest@.take(end - 1));
        }
        end -= 1;
    }
    assert(rest@.subrange(0, end as int) == rest@.take(end as int));
    slice_chars(&rest, 0, end)
}


/// Whether `c` occurs in `s`.
pub fn contains_char(s: &str, c: char) -> (found: bool)
    ensures
        found == s@.contains(c),
{
    let chars = to_chars(s);
    let mut i: usize = 0;
    while i < chars.len()
        invariant
            i <= chars.len(),
            chars@ == s@,
            forall|k: int| 0 <= k < i ==> chars@[k] != c,
        decreases chars.len() - i,
    {
        if chars[i] == c {
            return true;
        }
        i += 1;
    }
    false
}

/// The number of times that `c` stands at the end of `s`.
pub open spec fn trailing_run(s: Seq<char>, c: char) -> nat
    decreases s.len(),
{
    if s.len() == 0 || s.last() != c {
        0
    } else {
        1 + trailing_run(s.drop_last(), c)
    }
}

/// `s` without the `c`s that it ends in.
pub open spec fn without_trailing(s: Seq<char>, c: char) -> Seq<char> {
    s.take(s.len() - trailing_run(s, c))
}

/// `s` without the `c`s that it ends in.
pub fn trim_end_char(s: &str, c: char) -> (out: String)
    ensures
        out@ == without_trailing(s@, c),
{
    let chars = to_chars(s);
    let mut end: usize = chars.len();
    assert(chars@.take(end as int) == chars@);
    while end > 0 && chars[end - 1] == c
        invariant
            end <= chars.len(),
            trailing_run(chars@, c) == trailing_run(chars@.take(end as int), c) + (chars.len()
                - end),
        decreases end,
    {
        proof {
            assert(chars@.take(end as int).drop_last() == chars@.take(end - 1));
        }
        end -= 1;
    }
    assert(chars@.subrange(0, end as int) == chars@.take(end as int));
    let kept = slice_chars(&chars, 0, end);
    from_chars(&kept)
}


/// Whether two texts hold the same characters.
pub fn same_text(a: &str, b: &str) -> (same: bool)
    ensures
        same == (a@ == b@),
{
    a.to_owned() == b.to_owned()
}


/// Whether `s` starts with `prefix`.
pub fn starts_with(s: &Vec<char>, prefix: &Vec<char>) -> (yes: bool)
    ensures
        yes == prefix@.is_prefix_of(s@),
{
    if prefix.len() > s.len() {
        return false;
    }
    let mut i: usize = 0;
    while i < prefix.len()
        invariant
            i <= prefix.len() <= s.len(),
            forall|k: int| 0 <= k < i ==> s@[k] == prefix@[k],
        decreases prefix.len() - i,
    {
        if s[i] != prefix[i] {
            return false;
        }
        i += 1;
    }
    assert(s@.subrange(0, prefix.len() as int) =~= prefix@);
    true
}


/// The characters of a text that may be absent.
pub open spec fn text_of(s: Option<String>) -> Option<Seq<char>> {
    match s {
        Some(text) => Some(text@),
        None => None,
    }
}

/// Appends the characters of `tail` to `out`.
pub fn append_chars(out: &mut Vec<char>, tail: &Vec<char>)
    ensures
        final(out)@ == old(out)@ + tail@,
{
    let ghost start = out@;
    let mut j: usize = 0;
    while j < tail.len()
        invariant
            j <= tail.len(),
            out@ == start + tail@.take(j as int),
        decreases tail.len() - j,
    {
        out.push(tail[j]);
        j += 1;
    }
    assert(tail@.take(tail.len() as int) == tail@);
}


/// The characters of each of `texts`.
pub open spec fn texts_of(texts: Seq<String>) -> Seq<Seq<char>> {
    Seq::new(texts.len(), |i: int| texts[i]@)
}

} // verus!
