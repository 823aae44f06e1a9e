//! Splitting a text at a separator character and joining the pieces again.

use vstd::prelude::*;

verus! {

/// The pieces of `s` between the occurrences of `sep`. A text without the
/// separator is one piece; a text that ends in it has an empty last piece.
pub open spec fn pieces_of(s: Seq<char>, sep: char) -> Seq<Seq<char>>
    decreases s.len(),
{
    if s.len() == 0 {
        seq![Seq::empty()]
    } else {
        let before = pieces_of(s.drop_last(), sep);
        if s.last() == sep {
            before.push(Seq::empty())
        } else {
            before.drop_last().push(before.last().push(s.last()))
        }
    }
}

/// The pieces with `sep` between each two neighbours.
pub open spec fn joined_with(lines: Seq<Seq<char>>, sep: char) -> Seq<char>
    decreases lines.len(),
{
    if lines.len() == 0 {
        Seq::empty()
    } else if lines.len() == 1 {
        lines[0]
    } else {
        joined_with(lines.drop_last(), sep).push(sep) + lines.last()
    }
}

pub open spec fn without_char(line: Seq<char>, sep: char) -> bool {
    forall|i: int| 0 <= i < line.len() ==> line[i] != sep
}

pub open spec fn all_without(lines: Seq<Seq<char>>, sep: char) -> bool {
    forall|i: int| 0 <= i < lines.len() ==> without_char(#[trigger] lines[i], sep)
}

/// The texts that a vector of lines stands for.
pub open spec fn lines_view(lines: Seq<Vec<char>>) -> Seq<Seq<char>> {
    Seq::new(lines.len(), |i: int| lines[i]@)
}

/// Splitting never yields nothing, no piece holds the separator, and joining
/// the pieces gives the text back.
pub proof fn lemma_pieces_of(s: Seq<char>, sep: char)
    ensures
        pieces_of(s, sep).len() >= 1,
        all_without(pieces_of(s, sep), sep),
        joined_with(pieces_of(s, sep), sep) == s,
    decreases s.len(),
{
    if s.len() == 0 {
        assert(joined_with(pieces_of(s, sep), sep) =~= s);
    } else {
        let front = s.drop_last();
        let before = pieces_of(front, sep);
        lemma_pieces_of(front, sep);
        if s.last() == sep {
            let now = before.push(Seq::empty());
            assert(now.drop_last() == before);
            assert(joined_with(now, sep) =~= s);
        } else {
            let line = before.last().push(s.last());
            let now = before.drop_last().push(line);
            assert(now.drop_last() == before.drop_last());
            assert(without_char(before.last(), sep));
            if before.len() == 1 {
                assert(joined_with(now, sep) =~= s);
            } else {
                assert(joined_with(now, sep) =~= joined_with(before, sep).push(s.last()));
                assert(joined_with(now, sep) =~= s);
            }
        }
    }
}

/// Appending a text without the separator extends the last piece.
pub proof fn lemma_pieces_of_append(s: Seq<char>, tail: Seq<char>, sep: char)
    requires
        without_char(tail, sep),
    ensures
        pieces_of(s, sep).len() >= 1,
        pieces_of(s + tail, sep) == pieces_of(s, sep).drop_last().push(pieces_of(s, sep).last() + tail),
    decreases tail.len(),
{
    lemma_pieces_of(s, sep);
    let before = pieces_of(s, sep);
    if tail.len() == 0 {
        assert(s + tail =~= s);
        assert(before.last() + tail =~= before.last());
        assert(before.drop_last().push(before.last()) =~= before);
    } else {
        let front = tail.drop_last();
        lemma_pieces_of_append(s, front, sep);
        assert((s + tail).drop_last() =~= s + front);
        assert((s + tail).last() == tail.last());
        let mid = pieces_of(s + front, sep);
        assert(mid.drop_last() =~= before.drop_last());
        assert(mid.last().push(tail.last()) =~= before.last() + tail);
    }
}

/// Splitting undoes joining, for pieces that do not hold the separator.
pub proof fn lemma_pieces_of_joined(lines: Seq<Seq<char>>, sep: char)
    requires
        lines.len() >= 1,
        all_without(lines, sep),
    ensures
        pieces_of(joined_with(lines, sep), sep) == lines,
    decreases lines.len(),
{
    if lines.len() == 1 {
        let empty = Seq::<char>::empty();
        lemma_pieces_of_append(empty, lines[0], sep);
        assert(empty + lines[0] =~= lines[0]);
        assert(pieces_of(empty, sep) =~= seq![empty]);
        assert(pieces_of(joined_with(lines, sep), sep) =~= lines);
    } else {
        let front = lines.drop_last();
        lemma_pieces_of_joined(front, sep);
        let head = joined_with(front, sep).push(sep);
        assert(head.drop_last() =~= joined_with(front, sep));
        assert(pieces_of(head, sep) == front.push(Seq::empty()));
        lemma_pieces_of_append(head, lines.last(), sep);
        assert(Seq::<char>::empty() + lines.last() =~= lines.last());
        assert(pieces_of(joined_with(lines, sep), sep) =~= lines);
    }
}

/// Splits `s` at each occurrence of `sep`.
pub fn split_chars(s: &Vec<char>, sep: char) -> (out: Vec<Vec<char>>)
    ensures
        lines_view(out@) == pieces_of(s@, sep),
        out.len() >= 1,
{
    let mut out: Vec<Vec<char>> = Vec::new();
    let mut cur: Vec<char> = Vec::new();
    let mut i: usize = 0;
    assert(lines_view(out@).push(cur@) =~= pieces_of(s@.take(0), sep));
    while i < s.len()
        invariant
            i <= s.len(),
            lines_view(out@).push(cur@) == pieces_of(s@.take(i as int), sep),
        decreases s.len() - i,
    {
        let ghost before = lines_view(out@).push(cur@);
        proof {
            assert(s@.take(i + 1).drop_last() == s@.take(i as int));
            assert(before.drop_last() =~= lines_view(out@));
        }
        let c = s[i];
        if c == sep {
            out.push(cur);
            cur = Vec::new();
            assert(lines_view(out@).push(cur@) =~= before.push(Seq::empty()));
        } else {
            cur.push(c);
            assert(lines_view(out@).push(cur@) =~= before.drop_last().push(before.last().push(c)));
        }
        i += 1;
    }
    assert(s@.take(s.len() as int) == s@);
    let ghost before = lines_view(out@).push(cur@);
    out.push(cur);
    assert(lines_view(out@) =~= before);
    out
}

/// Joins `lines` with `sep` between each two neighbours.
pub fn join_chars(lines: &Vec<Vec<char>>, sep: char) -> (out: Vec<char>)
    ensures
        out@ == joined_with(lines_view(lines@), sep),
{
    let mut out: Vec<char> = Vec::new();
    let mut i: usize = 0;
    let ghost all = lines_view(lines@);
    while i < lines.len()
        invariant
            i <= lines.len(),
            all == lines_view(lines@),
            out@ == joined_with(all.take(i as int), sep),
        decreases lines.len() - i,
    {
        proof {
            assert(all.take(i + 1).drop_last() == all.take(i as int));
            assert(all.take(i + 1).last() == lines@[i as int]@);
        }
        if i > 0 {
            out.push(sep);
        }
        let line = &lines[i];
        let ghost start = out@;
        let mut j: usize = 0;
        while j < line.len()
            invariant
                j <= line.len(),
                out@ == start + line@.take(j as int),
            decreases line.len() - j,
        {
            out.push(line[j]);
            j += 1;
        }
        assert(line@.take(line.len() as int) == line@);
        assert(start + line@ =~= joined_with(all.take(i + 1), sep));
        i += 1;
    }
    assert(all.take(lines.len() as int) == all);
    out
}

/// The lines of `s`: the pieces between its newline characters.
pub open spec fn lines_of(s: Seq<char>) -> Seq<Seq<char>> {
    pieces_of(s, '\n')
}

/// The lines with a newline between each two neighbours.
pub open spec fn joined(lines: Seq<Seq<char>>) -> Seq<char> {
    joined_with(lines, '\n')
}

pub open spec fn no_newline(line: Seq<char>) -> bool {
    without_char(line, '\n')
}

pub open spec fn all_single_lines(lines: Seq<Seq<char>>) -> bool {
    all_without(lines, '\n')
}

/// A text has at least one line, no line holds a newline, and joining the
/// lines gives the text back.
pub proof fn lemma_lines_of(s: Seq<char>)
    ensures
        lines_of(s).len() >= 1,
        all_single_lines(lines_of(s)),
        joined(lines_of(s)) == s,
{
    lemma_pieces_of(s, '\n');
}

/// Splitting into lines undoes joining, for lines that hold no newline.
pub proof fn lemma_lines_of_joined(lines: Seq<Seq<char>>)
    requires
        lines.len() >= 1,
        all_single_lines(lines),
    ensures
        lines_of(joined(lines)) == lines,
{
    lemma_pieces_of_joined(lines, '\n');
}

/// Splits `s` at its newline characters.
pub fn split_lines(s: &Vec<char>) -> (out: Vec<Vec<char>>)
    ensures
        lines_view(out@) == lines_of(s@),
        out.len() >= 1,
{
    split_chars(s, '\n')
}

/// Joins `lines` with a newline between each two neighbours.
pub fn join_lines(lines: &Vec<Vec<char>>) -> (out: Vec<char>)
    ensures
        out@ == joined(lines_view(lines@)),
{
    join_chars(lines, '\n')
}

} // verus!
