//! Finding the description of a file in its leading lines.

use vstd::prelude::*;
use crate::text::{slice_to_string, to_chars, trim, trim_range};

verus! {

/// Whether a trimmed line is an interpreter line such as `#!/bin/sh`.
pub open spec fn is_shebang(t: Seq<char>) -> bool {
    t.len() >= 2 && t[0] == '#' && t[1] == '!'
}

/// The comment marker that a trimmed line begins with: `#`, `//` or `;`.
/// Empty where it begins with none of them.
pub open spec fn comment_marker(t: Seq<char>) -> Seq<char> {
    if t.len() >= 1 && t[0] == '#' {
        seq!['#']
    } else if t.len() >= 2 && t[0] == '/' && t[1] == '/' {
        seq!['/', '/']
    } else if t.len() >= 1 && t[0] == ';' {
        seq![';']
    } else {
        Seq::empty()
    }
}

/// Whether `t` begins with the text `m`.
pub open spec fn starts_with(t: Seq<char>, m: Seq<char>) -> bool {
    m.len() <= t.len() && t.take(m.len() as int) == m
}

/// `t` with every leading repetition of `marker` removed.
pub open spec fn strip_marker(t: Seq<char>, marker: Seq<char>) -> Seq<char>
    decreases t.len(),
{
    if marker.len() > 0 && starts_with(t, marker) {
        strip_marker(t.skip(marker.len() as int), marker)
    } else {
        t
    }
}

/// The description that one line offers: the text behind its comment
/// marker, trimmed, if the line is a comment, no interpreter line, and
/// anything is left of it.
pub open spec fn comment_candidate(line: Seq<char>) -> Option<Seq<char>> {
    let t = trim(line);
    let marker = comment_marker(t);
    if is_shebang(t) || marker.len() == 0 {
        None
    } else {
        let content = trim(strip_marker(t, marker));
        if content.len() > 0 {
            Some(content)
        } else {
            None
        }
    }
}

/// What a line that may have been unreadable offers.
pub open spec fn line_candidate(line: Option<Seq<char>>) -> Option<Seq<char>> {
    match line {
        Some(l) => comment_candidate(l),
        None => None,
    }
}

/// The first description offered by the lines `i..`, looking no further than
/// the first `budget` lines.
pub open spec fn first_comment_from(lines: Seq<Option<Seq<char>>>, budget: int, i: int) -> Option<
    Seq<char>,
>
    decreases budget - i,
{
    if i < 0 || i >= budget || i >= lines.len() {
        None
    } else {
        match line_candidate(lines[i]) {
            Some(c) => Some(c),
            None => first_comment_from(lines, budget, i + 1),
        }
    }
}

/// The description of a file whose leading lines are `lines`: what the first
/// of the first `budget` lines that offers one offers.
pub open spec fn first_comment(lines: Seq<Option<Seq<char>>>, budget: int) -> Option<Seq<char>> {
    first_comment_from(lines, budget, 0)
}

/// The lines of a file as plain text; `None` stands for a line that could
/// not be read.
pub open spec fn line_texts(lines: Seq<Option<String>>) -> Seq<Option<Seq<char>>> {
    Seq::new(
        lines.len(),
        |i: int|
            match lines[i] {
                Some(s) => Some(s@),
                None => None,
            },
    )
}

/// Whether none of the lines `from..to` offers a description.
pub open spec fn no_comment_within(lines: Seq<Option<Seq<char>>>, from: int, to: int) -> bool {
    forall|j: int| from <= j < to && j < lines.len() ==> line_candidate(#[trigger] lines[j]) is None
}

proof fn first_comment_from_is_first(lines: Seq<Option<Seq<char>>>, budget: int, i: int)
    requires
        0 <= i,
    ensures
        match first_comment_from(lines, budget, i) {
            Some(d) => exists|k: int|
                i <= k < lines.len() && k < budget && line_candidate(#[trigger] lines[k]) == Some(d)
                    && no_comment_within(lines, i, k),
            None => no_comment_within(lines, i, budget),
        },
    decreases budget - i,
{
    if i < budget && i < lines.len() && line_candidate(lines[i]) is None {
        first_comment_from_is_first(lines, budget, i + 1);
    }
}

/// The description of a file is what the first of its lines that offers one
/// offers, and that line is among the first `budget` lines. Where none of
/// these offers one there is no description.
pub proof fn first_comment_is_first(lines: Seq<Option<Seq<char>>>, budget: int)
    ensures
        match first_comment(lines, budget) {
            Some(d) => exists|k: int|
                0 <= k < lines.len() && k < budget && line_candidate(#[trigger] lines[k]) == Some(d)
                    && no_comment_within(lines, 0, k),
            None => no_comment_within(lines, 0, budget),
        },
{
    first_comment_from_is_first(lines, budget, 0);
}

/// A comment behind the budget is not found: where none of the first
/// `budget` lines offers a description, the file has none, whatever its
/// later lines hold.
pub proof fn comment_beyond_budget_is_not_found(lines: Seq<Option<Seq<char>>>, budget: int)
    requires
        no_comment_within(lines, 0, budget),
    ensures
        first_comment(lines, budget) is None,
{
    first_comment_is_first(lines, budget);
}

proof fn later_lines_do_not_count_from(lines: Seq<Option<Seq<char>>>, budget: int, i: int)
    requires
        0 <= i,
        0 <= budget <= lines.len(),
    ensures
        first_comment_from(lines.take(budget), budget, i) == first_comment_from(lines, budget, i),
    decreases budget - i,
{
    if i < budget {
        later_lines_do_not_count_from(lines, budget, i + 1);
    }
}

/// The lines behind the budget do not count: a file cut off behind its first
/// `budget` lines has the description of the whole file.
pub proof fn later_lines_do_not_count(lines: Seq<Option<Seq<char>>>, budget: int)
    requires
        0 <= budget <= lines.len(),
    ensures
        first_comment(lines.take(budget), budget) == first_comment(lines, budget),
{
    later_lines_do_not_count_from(lines, budget, 0);
}

/// Length of the comment marker at `v[a..b]`, 0 if there is none.
fn marker_len_at(v: &Vec<char>, a: usize, b: usize) -> (n: usize)
    requires
        a <= b <= v.len(),
    ensures
        n == comment_marker(v@.subrange(a as int, b as int)).len(),
        n <= b - a,
{
    if a < b && v[a] == '#' {
        1
    } else if b - a >= 2 && v[a] == '/' && v[a + 1] == '/' {
        2
    } else if a < b && v[a] == ';' {
        1
    } else {
        0
    }
}

/// Whether the `n` characters at `i` equal those at `a`.
fn repeats_at(v: &Vec<char>, a: usize, i: usize, b: usize, n: usize) -> (r: bool)
    requires
        a + n <= i <= b <= v.len(),
        1 <= n <= 2,
    ensures
        r == starts_with(v@.subrange(i as int, b as int), v@.subrange(a as int, a + n)),
{
    let ghost t = v@.subrange(i as int, b as int);
    let ghost m = v@.subrange(a as int, a + n);
    if b - i < n {
        return false;
    }
    let r = v[i] == v[a] && (n == 1 || v[i + 1] == v[a + 1]);
    proof {
        if r {
            assert(t.take(n as int) =~= m);
        } else {
            if v[i as int] != v[a as int] {
                assert(t.take(n as int)[0] != m[0]);
            } else {
                assert(t.take(n as int)[1] != m[1]);
            }
        }
    }
    r
}

/// The description that the line `line` offers.
pub fn line_comment(line: &str) -> (r: Option<String>)
    ensures
        match r {
            Some(d) => comment_candidate(line@) == Some(d@),
            None => comment_candidate(line@) is None,
        },
{
    let v = to_chars(line);
    let (a, b) = trim_range(&v, 0, v.len());
    assert(v@.subrange(0, v.len() as int) == v@);
    let ghost t = v@.subrange(a as int, b as int);
    if b - a >= 2 && v[a] == '#' && v[a + 1] == '!' {
        return None;
    }
    let n = marker_len_at(&v, a, b);
    if n == 0 {
        return None;
    }
    let ghost marker = comment_marker(t);
    let mut i: usize = a + n;
    assert(strip_marker(t, marker) == strip_marker(v@.subrange(i as int, b as int), marker)) by {
        assert(t.take(n as int) == marker);
        assert(t.skip(n as int) == v@.subrange(i as int, b as int));
    }
    while repeats_at(&v, a, i, b, n)
        invariant
            a + n <= i <= b <= v.len(),
            1 <= n <= 2,
            marker == v@.subrange(a as int, a + n),
            strip_marker(t, marker) == strip_marker(v@.subrange(i as int, b as int), marker),
        decreases b - i,
    {
        assert(v@.subrange(i as int, b as int).skip(n as int) == v@.subrange(i + n, b as int));
        i += n;
    }
    let (c, d) = trim_range(&v, i, b);
    if c < d {
        Some(slice_to_string(line, c, d))
    } else {
        None
    }
}

/// The description of a file from its leading lines: the first comment line
/// among the first `max_lines` lines that is no interpreter line and has
/// text behind its marker. Lines past `max_lines` are never looked at.
pub fn first_comment_line(lines: &Vec<Option<String>>, max_lines: usize) -> (r: Option<String>)
    ensures
        match r {
            Some(d) => first_comment(line_texts(lines@), max_lines as int) == Some(d@),
            None => first_comment(line_texts(lines@), max_lines as int) is None,
        },
{
    let ghost texts = line_texts(lines@);
    let mut i: usize = 0;
    while i < lines.len() && i < max_lines
        invariant
            i <= lines.len(),
            texts == line_texts(lines@),
            first_comment_from(texts, max_lines as int, i as int) == first_comment(
                texts,
                max_lines as int,
            ),
        decreases lines.len() - i,
    {
        if let Some(line) = &lines[i] {
            if let Some(d) = line_comment(line.as_str()) {
                return Some(d);
            }
        }
        i += 1;
    }
    None
}

} // verus!
