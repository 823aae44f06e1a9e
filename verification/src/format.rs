//! Normalisation of comment text: removal of common indentation and
//! shifting of Markdown heading levels.

use crate::lines::{
    all_single_lines, join_lines, joined, lemma_lines_of, lemma_lines_of_joined, lines_of,
    lines_view, no_newline, split_lines,
};
use crate::text::{
    count_leading_whitespace, from_chars, is_blank, is_whitespace, leading_whitespace,
    lemma_leading_whitespace, lemma_leading_whitespace_is, slice_chars, text_of, to_chars, trim_start,
    trimmed_start,
};
use vstd::prelude::*;

verus! {

pub open spec fn all_blank(lines: Seq<Seq<char>>) -> bool {
    forall|i: int| 0 <= i < lines.len() ==> is_blank(#[trigger] lines[i])
}

/// The least indentation among the lines that are not blank; 0 where every
/// line is blank.
pub open spec fn common_indent(lines: Seq<Seq<char>>) -> nat
    decreases lines.len(),
{
    if lines.len() == 0 {
        0
    } else {
        let front = lines.drop_last();
        let line = lines.last();
        if is_blank(line) {
            common_indent(front)
        } else if all_blank(front) || leading_whitespace(line) < common_indent(front) {
            leading_whitespace(line)
        } else {
            common_indent(front)
        }
    }
}

/// `line` without its first `width` columns, or without its indentation
/// where that is narrower.
pub open spec fn dedented(line: Seq<char>, width: nat) -> Seq<char> {
    if leading_whitespace(line) < width {
        trimmed_start(line)
    } else {
        line.skip(width as int)
    }
}

pub open spec fn dedented_lines(lines: Seq<Seq<char>>, width: nat) -> Seq<Seq<char>> {
    Seq::new(lines.len(), |i: int| dedented(lines[i], width))
}

/// The lines of `raw` after normalisation: the first without its leading
/// whitespace, the others without their common indentation, and without the
/// last line if there are several and it is blank.
pub open spec fn normalized_lines(raw: Seq<char>) -> Seq<Seq<char>> {
    let lines = lines_of(raw);
    let rest = lines.skip(1);
    let all = seq![trimmed_start(lines[0])] + dedented_lines(rest, common_indent(rest));
    if all.len() > 1 && is_blank(all.last()) {
        all.drop_last()
    } else {
        all
    }
}

/// `raw` without its indentation.
pub open spec fn without_indentation(raw: Seq<char>) -> Seq<char> {
    joined(normalized_lines(raw))
}

/// `raw` without its indentation, or nothing where nothing is left of it.
pub open spec fn normalized(raw: Seq<char>) -> Option<Seq<char>> {
    if without_indentation(raw).len() == 0 {
        None
    } else {
        Some(without_indentation(raw))
    }
}

/// A text whose last two lines are both blank, beyond its first line.
pub open spec fn ends_in_two_blank_lines(raw: Seq<char>) -> bool {
    let lines = lines_of(raw);
    lines.len() >= 3 && is_blank(lines[lines.len() - 1]) && is_blank(lines[lines.len() - 2])
}

/// `line` with `levels` more `#` in front if it starts with one.
pub open spec fn shifted_line(line: Seq<char>, levels: nat) -> Seq<char> {
    if line.len() > 0 && line[0] == '#' {
        Seq::new(levels, |i: int| '#') + line
    } else {
        line
    }
}

pub open spec fn shifted_lines(lines: Seq<Seq<char>>, levels: nat) -> Seq<Seq<char>> {
    Seq::new(lines.len(), |i: int| shifted_line(lines[i], levels))
}

/// `raw` with every heading line moved `levels` levels down.
pub open spec fn with_shifted_headings(raw: Seq<char>, levels: nat) -> Seq<char> {
    joined(shifted_lines(lines_of(raw), levels))
}

/// The common indentation is 0 where all lines are blank; otherwise some line
/// that is not blank has exactly that indentation and none has less.
pub proof fn lemma_common_indent(lines: Seq<Seq<char>>)
    ensures
        all_blank(lines) ==> common_indent(lines) == 0,
        !all_blank(lines) ==> exists|i: int|
            0 <= i < lines.len() && !is_blank(#[trigger] lines[i]) && leading_whitespace(lines[i])
                == common_indent(lines),
        forall|i: int|
            0 <= i < lines.len() && !is_blank(#[trigger] lines[i]) ==> common_indent(lines)
                <= leading_whitespace(lines[i]),
    decreases lines.len(),
{
    if lines.len() > 0 {
        let front = lines.drop_last();
        let line = lines.last();
        lemma_common_indent(front);
        assert forall|i: int| 0 <= i < front.len() implies front[i] == lines[i] by {}
        if all_blank(lines) {
            assert forall|i: int| 0 <= i < front.len() implies is_blank(#[trigger] front[i]) by {
                assert(front[i] == lines[i]);
            }
        }
        if !all_blank(lines) {
            if is_blank(line) {
                if all_blank(front) {
                    assert forall|i: int| 0 <= i < lines.len() implies is_blank(
                        #[trigger] lines[i],
                    ) by {
                        if i < front.len() {
                            assert(front[i] == lines[i]);
                        }
                    }
                }
                let i = choose|i: int|
                    0 <= i < front.len() && !is_blank(#[trigger] front[i]) && leading_whitespace(
                        front[i],
                    ) == common_indent(front);
                assert(lines[i] == front[i]);
            } else if all_blank(front) || leading_whitespace(line) < common_indent(front) {
                assert(lines[lines.len() - 1] == line);
            } else {
                let i = choose|i: int|
                    0 <= i < front.len() && !is_blank(#[trigger] front[i]) && leading_whitespace(
                        front[i],
                    ) == common_indent(front);
                assert(lines[i] == front[i]);
            }
        }
        assert forall|i: int|
            0 <= i < lines.len() && !is_blank(#[trigger] lines[i]) implies common_indent(lines)
            <= leading_whitespace(lines[i]) by {
            if i < front.len() {
                assert(front[i] == lines[i]);
            }
        }
    }
}


proof fn lemma_all_blank_push(front: Seq<Seq<char>>, line: Seq<char>)
    ensures
        all_blank(front.push(line)) == (all_blank(front) && is_blank(line)),
{
    let lines = front.push(line);
    if all_blank(lines) {
        assert(lines[front.len() as int] == line);
        assert forall|i: int| 0 <= i < front.len() implies is_blank(#[trigger] front[i]) by {
            assert(front[i] == lines[i]);
        }
    }
    if all_blank(front) && is_blank(line) {
        assert forall|i: int| 0 <= i < lines.len() implies is_blank(#[trigger] lines[i]) by {
            if i < front.len() {
                assert(front[i] == lines[i]);
            }
        }
    }
}

/// The common indentation of the lines after the first.
fn common_indentation(lines: &Vec<Vec<char>>) -> (width: usize)
    requires
        lines.len() >= 1,
    ensures
        width == common_indent(lines_view(lines@).skip(1)),
{
    let ghost all = lines_view(lines@);
    let mut width: usize = 0;
    let mut found = false;
    let mut i: usize = 1;
    assert(all.subrange(1, 1) =~= Seq::empty());
    while i < lines.len()
        invariant
            1 <= i <= lines.len(),
            all == lines_view(lines@),
            found == !all_blank(all.subrange(1, i as int)),
            width == common_indent(all.subrange(1, i as int)),
        decreases lines.len() - i,
    {
        let line = &lines[i];
        let n = count_leading_whitespace(line);
        proof {
            let front = all.subrange(1, i as int);
            let now = all.subrange(1, i + 1);
            assert(now.drop_last() =~= front);
            assert(now.last() == line@);
            assert(now =~= front.push(line@));
            lemma_all_blank_push(front, line@);
        }
        if n < line.len() && (!found || n < width) {
            width = n;
            found = true;
        }
        i += 1;
    }
    assert(all.subrange(1, lines.len() as int) =~= all.skip(1));
    width
}

/// Removes the indentation of a comment's text: the first line loses its
/// leading whitespace, the lines after it lose the indentation that is common
/// to those of them that are not blank, and a blank last line is dropped.
pub fn strip_indentation(raw: &Vec<char>) -> (out: Vec<char>)
    ensures
        out@ == without_indentation(raw@),
{
    let lines = split_lines(raw);
    let ghost all = lines_view(lines@);
    let ghost rest = all.skip(1);
    let width = common_indentation(&lines);
    let mut kept: Vec<Vec<char>> = Vec::new();
    kept.push(trim_start(&lines[0]));
    let mut i: usize = 1;
    assert(lines_view(kept@) =~= seq![trimmed_start(all[0])] + dedented_lines(
        rest.take(0),
        width as nat,
    ));
    while i < lines.len()
        invariant
            1 <= i <= lines.len(),
            all == lines_view(lines@),
            rest == all.skip(1),
            lines_view(kept@) == seq![trimmed_start(all[0])] + dedented_lines(
                rest.take(i - 1),
                width as nat,
            ),
        decreases lines.len() - i,
    {
        let line = &lines[i];
        let n = count_leading_whitespace(line);
        let from = if n < width {
            n
        } else {
            width
        };
        let ghost before = lines_view(kept@);
        kept.push(slice_chars(line, from, line.len()));
        proof {
            assert(line@.subrange(from as int, line.len() as int) =~= dedented(
                line@,
                width as nat,
            ));
            assert(rest[i - 1] == line@);
            assert(lines_view(kept@) =~= before.push(dedented(line@, width as nat)));
            assert(lines_view(kept@) =~= seq![trimmed_start(all[0])] + dedented_lines(
                rest.take(i as int),
                width as nat,
            ));
        }
        i += 1;
    }
    assert(rest.take(lines.len() - 1) =~= rest);
    let last = kept.len() - 1;
    if kept.len() > 1 && count_leading_whitespace(&kept[last]) == kept[last].len() {
        let ghost before = lines_view(kept@);
        assert(before.last() == kept@[last as int]@);
        kept.pop();
        assert(lines_view(kept@) =~= before.drop_last());
    } else {
        assert(kept.len() > 1 ==> lines_view(kept@).last() == kept@[last as int]@);
    }
    join_lines(&kept)
}

/// Removes the indentation of a text given by its characters. Nothing is
/// returned where nothing is left.
pub fn normalize_chars(raw: &Vec<char>) -> (out: Option<String>)
    ensures
        text_of(out) == normalized(raw@),
{
    let stripped = strip_indentation(raw);
    if stripped.len() == 0 {
        None
    } else {
        Some(from_chars(&stripped))
    }
}

/// Removes the indentation of a comment's text, as `strip_indentation` does.
/// Nothing is returned where nothing is left.
pub fn handle_indentation(raw: &str) -> (out: Option<String>)
    ensures
        text_of(out) == normalized(raw@),
{
    let chars = to_chars(raw);
    normalize_chars(&chars)
}

fn shift_line(line: &Vec<char>, levels: usize) -> (out: Vec<char>)
    ensures
        out@ == shifted_line(line@, levels as nat),
{
    let mut out: Vec<char> = Vec::new();
    if line.len() > 0 && line[0] == '#' {
        let mut k: usize = 0;
        while k < levels
            invariant
                k <= levels,
                out@ == Seq::new(k as nat, |i: int| '#'),
            decreases levels - k,
        {
            out.push('#');
            assert(out@ =~= Seq::new((k + 1) as nat, |i: int| '#'));
            k += 1;
        }
    }
    let ghost start = out@;
    let mut j: usize = 0;
    while j < line.len()
        invariant
            j <= line.len(),
            out@ == start + line@.take(j as int),
        decreases line.len() - j,
    {
        out.push(line[j]);
        j += 1;
    }
    assert(line@.take(line.len() as int) == line@);
    assert(Seq::<char>::empty() + line@ =~= line@);
    out
}

/// Moves every heading of a Markdown text `levels` levels down: each line
/// that starts with `#` gets `levels` more of them. No other line changes,
/// and no depth is too deep.
pub fn shift_headings(raw: &str, levels: usize) -> (out: String)
    ensures
        out@ == with_shifted_headings(raw@, levels as nat),
{
    let chars = to_chars(raw);
    let lines = split_lines(&chars);
    let ghost all = lines_view(lines@);
    let mut moved: Vec<Vec<char>> = Vec::new();
    let mut i: usize = 0;
    while i < lines.len()
        invariant
            i <= lines.len(),
            all == lines_view(lines@),
            lines_view(moved@) == shifted_lines(all.take(i as int), levels as nat),
        decreases lines.len() - i,
    {
        let ghost before = lines_view(moved@);
        moved.push(shift_line(&lines[i], levels));
        assert(lines_view(moved@) =~= before.push(shifted_line(all[i as int], levels as nat)));
        assert(lines_view(moved@) =~= shifted_lines(all.take(i + 1), levels as nat));
        i += 1;
    }
    assert(all.take(lines.len() as int) == all);
    let text = join_lines(&moved);
    from_chars(&text)
}


/// Dropping part of a line's indentation leaves the rest of it.
pub proof fn lemma_leading_whitespace_skip(line: Seq<char>, k: nat)
    requires
        k <= leading_whitespace(line),
    ensures
        k <= line.len(),
        leading_whitespace(line.skip(k as int)) == leading_whitespace(line) - k,
{
    lemma_leading_whitespace(line);
    let rest = line.skip(k as int);
    let n = (leading_whitespace(line) - k) as nat;
    assert forall|i: int| 0 <= i < n implies is_whitespace(#[trigger] rest[i]) by {
        assert(rest[i] == line[i + k]);
    }
    if n < rest.len() {
        assert(rest[n as int] == line[leading_whitespace(line) as int]);
    }
    lemma_leading_whitespace_is(rest, n);
}

/// Removing indentation from a line turns no line blank and none into
/// several, and leaves what indentation was not removed.
pub proof fn lemma_dedented(line: Seq<char>, width: nat)
    ensures
        is_blank(dedented(line, width)) == is_blank(line),
        no_newline(line) ==> no_newline(dedented(line, width)),
        width <= leading_whitespace(line) ==> leading_whitespace(dedented(line, width))
            == leading_whitespace(line) - width,
        width > leading_whitespace(line) ==> leading_whitespace(dedented(line, width)) == 0,
{
    lemma_leading_whitespace(line);
    let k = if leading_whitespace(line) < width {
        leading_whitespace(line)
    } else {
        width
    };
    lemma_leading_whitespace_skip(line, k);
    let rest = line.skip(k as int);
    assert(rest == dedented(line, width));
    if no_newline(line) {
        assert forall|i: int| 0 <= i < rest.len() implies rest[i] != '\n' by {
            assert(rest[i] == line[i + k]);
        }
    }
}

/// Once the common indentation is removed, none is left.
pub proof fn lemma_common_indent_dedented(lines: Seq<Seq<char>>)
    ensures
        common_indent(dedented_lines(lines, common_indent(lines))) == 0,
{
    let width = common_indent(lines);
    let after = dedented_lines(lines, width);
    lemma_common_indent(lines);
    lemma_common_indent(after);
    assert forall|i: int| 0 <= i < lines.len() implies is_blank(#[trigger] after[i]) == is_blank(
        lines[i],
    ) by {
        lemma_dedented(lines[i], width);
    }
    if all_blank(lines) {
        assert forall|i: int| 0 <= i < after.len() implies is_blank(#[trigger] after[i]) by {
            assert(is_blank(lines[i]));
        }
    } else {
        let i = choose|i: int|
            0 <= i < lines.len() && !is_blank(#[trigger] lines[i]) && leading_whitespace(lines[i])
                == width;
        lemma_dedented(lines[i], width);
        assert(!is_blank(after[i]));
        assert(leading_whitespace(after[i]) == 0);
    }
}

/// Normalising a text whose indentation was already removed changes
/// nothing, unless the text ended in two blank lines: then one of them was
/// dropped the first time and the other goes now.
pub proof fn lemma_without_indentation_idempotent(raw: Seq<char>)
    requires
        !ends_in_two_blank_lines(raw),
    ensures
        without_indentation(without_indentation(raw)) == without_indentation(raw),
        normalized(raw) matches Some(text) ==> normalized(text) == Some(text),
{
    let lines = lines_of(raw);
    lemma_lines_of(raw);
    let rest = lines.skip(1);
    let width = common_indent(rest);
    let moved = dedented_lines(rest, width);
    let first = trimmed_start(lines[0]);
    let all = seq![first] + moved;
    let kept = normalized_lines(raw);
    lemma_leading_whitespace(lines[0]);
    lemma_leading_whitespace_skip(lines[0], leading_whitespace(lines[0]));
    assert(no_newline(first)) by {
        assert forall|i: int| 0 <= i < first.len() implies first[i] != '\n' by {
            assert(first[i] == lines[0][i + leading_whitespace(lines[0])]);
        }
    }
    assert forall|i: int| 0 <= i < moved.len() implies no_newline(#[trigger] moved[i])
        && is_blank(moved[i]) == is_blank(rest[i]) by {
        assert(rest[i] == lines[i + 1]);
        lemma_dedented(rest[i], width);
    }
    assert forall|i: int| 0 <= i < all.len() implies no_newline(#[trigger] all[i]) by {
        if i > 0 {
            assert(all[i] == moved[i - 1]);
        }
    }
    assert(all_single_lines(kept)) by {
        assert forall|i: int| 0 <= i < kept.len() implies no_newline(#[trigger] kept[i]) by {
            assert(kept[i] == all[i]);
        }
    }
    lemma_lines_of_joined(kept);
    let text = joined(kept);
    assert(lines_of(text) == kept);
    assert(kept[0] == first);
    assert(trimmed_start(first) =~= first);
    let rest2 = kept.skip(1);
    lemma_common_indent_dedented(rest);
    assert(common_indent(rest2) == 0) by {
        if all.len() > 1 && is_blank(all.last()) {
            assert(moved.last() == all.last());
            assert(rest2 =~= moved.drop_last());
        } else {
            assert(rest2 =~= moved);
        }
    }
    assert(dedented_lines(rest2, 0) =~= rest2) by {
        assert forall|i: int| 0 <= i < rest2.len() implies dedented(rest2[i], 0) == rest2[i] by {
            assert(rest2[i].skip(0) =~= rest2[i]);
        }
    }
    let all2 = seq![trimmed_start(kept[0])] + dedented_lines(rest2, 0);
    assert(all2 =~= kept);
    if kept.len() > 1 && is_blank(kept.last()) {
        if all.len() > 1 && is_blank(all.last()) {
            let n = lines.len() as int;
            assert(all[n - 1] == moved[n - 2]);
            assert(all[n - 2] == moved[n - 3]);
            assert(kept.last() == all[n - 2]);
            assert(rest[n - 2] == lines[n - 1]);
            assert(rest[n - 3] == lines[n - 2]);
            assert(false);
        }
    }
    assert(normalized_lines(text) == kept);
}

/// Shifting headings by no level changes nothing.
pub proof fn lemma_shift_headings_zero(raw: Seq<char>)
    ensures
        with_shifted_headings(raw, 0) == raw,
{
    let lines = lines_of(raw);
    lemma_lines_of(raw);
    assert(shifted_lines(lines, 0) =~= lines) by {
        assert forall|i: int| 0 <= i < lines.len() implies shifted_line(lines[i], 0)
            == lines[i] by {
            assert(Seq::new(0, |i: int| '#') + lines[i] =~= lines[i]);
        }
    }
}

/// Shifting headings by `a` levels and then by `b` is shifting them by
/// `a + b`.
pub proof fn lemma_shift_headings_additive(raw: Seq<char>, a: nat, b: nat)
    ensures
        with_shifted_headings(with_shifted_headings(raw, a), b) == with_shifted_headings(
            raw,
            a + b,
        ),
{
    let lines = lines_of(raw);
    lemma_lines_of(raw);
    let once = shifted_lines(lines, a);
    assert(all_single_lines(once)) by {
        assert forall|i: int| 0 <= i < once.len() implies no_newline(#[trigger] once[i]) by {
            let line = lines[i];
            assert(no_newline(line));
            assert forall|j: int| 0 <= j < once[i].len() implies once[i][j] != '\n' by {
                if line.len() > 0 && line[0] == '#' {
                    if j >= a {
                        assert(once[i][j] == line[j - a]);
                    }
                }
            }
        }
    }
    lemma_lines_of_joined(once);
    assert(shifted_lines(once, b) =~= shifted_lines(lines, a + b)) by {
        assert forall|i: int| 0 <= i < lines.len() implies shifted_line(once[i], b)
            == shifted_line(lines[i], a + b) by {
            let line = lines[i];
            if line.len() > 0 && line[0] == '#' {
                let mid = Seq::new(a, |i: int| '#') + line;
                assert(mid[0] == '#');
                assert(Seq::new(b, |i: int| '#') + mid =~= Seq::new(a + b, |i: int| '#') + line);
            }
        }
    }
}

} // verus!
