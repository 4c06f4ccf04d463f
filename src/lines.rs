//! Splitting a text into lines and selecting the lines that a pattern accepts.
use crate::matcher::Matcher;
use vstd::prelude::*;

verus! {

/// The length of the first line of `t`, its `'\n'` terminator included when
/// there is one.
pub open spec fn first_line_len(t: Seq<char>) -> nat
    decreases t.len(),
{
    if t.len() == 0 {
        0
    } else if t[0] == '\n' {
        1
    } else {
        1 + first_line_len(t.drop_first())
    }
}

/// The lines of `t` in order, each keeping its terminator (`"\n"`, or
/// `"\r\n"`); a last line without a terminator is a line too.
pub open spec fn lines_of(t: Seq<char>) -> Seq<Seq<char>>
    decreases t.len(),
    via lines_of_decreases
{
    if t.len() == 0 {
        seq![]
    } else {
        let k = first_line_len(t);
        seq![t.take(k as int)] + lines_of(t.skip(k as int))
    }
}

proof fn lemma_first_line_bounds(t: Seq<char>)
    ensures
        t.len() > 0 ==> 1 <= first_line_len(t) <= t.len(),
    decreases t.len(),
{
    if t.len() > 0 {
        lemma_first_line_bounds(t.drop_first());
        assert(first_line_len(t) == if t[0] == '\n' {
            1
        } else {
            1 + first_line_len(t.drop_first())
        });
    }
}

#[via_fn]
proof fn lines_of_decreases(t: Seq<char>) {
    lemma_first_line_bounds(t);
}

/// Whether `line` is kept: a match in normal mode, no match in inverted mode.
pub open spec fn accepts(m: Matcher, invert: bool, line: Seq<char>) -> bool {
    m.finds(line) != invert
}

/// The lines of `lines` that are kept, in their order.
pub open spec fn accepted(lines: Seq<Seq<char>>, m: Matcher, invert: bool) -> Seq<Seq<char>>
    decreases lines.len(),
{
    if lines.len() == 0 {
        seq![]
    } else {
        let rest = accepted(lines.drop_last(), m, invert);
        if accepts(m, invert, lines.last()) {
            rest.push(lines.last())
        } else {
            rest
        }
    }
}

proof fn lemma_first_line_len(t: Seq<char>, j: int)
    requires
        0 <= j <= t.len(),
        forall|k: int| 0 <= k < j ==> t[k] != '\n',
        j < t.len() ==> t[j] == '\n',
    ensures
        first_line_len(t) == if j < t.len() {
            j + 1
        } else {
            j
        },
    decreases j,
{
    if j > 0 {
        lemma_first_line_len(t.drop_first(), j - 1);
    }
}

/// Splits `text` into its lines, each keeping its terminator.
pub fn split_lines(text: &str) -> (r: Vec<String>)
    ensures
        r.deep_view() == lines_of(text@),
{
    let n = text.unicode_len();
    let mut out: Vec<String> = Vec::new();
    let mut start: usize = 0;
    let mut i: usize = 0;
    assert(text@.skip(0) =~= text@);
    while i < n
        invariant
            n == text@.len(),
            start <= i <= n,
            forall|k: int| start <= k < i ==> text@[k] != '\n',
            out.deep_view() + lines_of(text@.skip(start as int)) == lines_of(text@),
        decreases n - i,
    {
        let c = text.get_char(i);
        if c == '\n' {
            let ghost rest = text@.skip(start as int);
            proof {
                lemma_first_line_len(rest, (i - start) as int);
                assert(rest.take((i + 1 - start) as int) =~= text@.subrange(start as int, i + 1));
                assert(rest.skip((i + 1 - start) as int) =~= text@.skip(i + 1));
            }
            let line = text.substring_char(start, i + 1).to_owned();
            let ghost before = out.deep_view();
            out.push(line);
            proof {
                assert(out.deep_view() =~= before.push(text@.subrange(start as int, i + 1)));
                assert(lines_of(rest) =~= seq![text@.subrange(start as int, i + 1)] + lines_of(
                    text@.skip(i + 1),
                ));
                assert(out.deep_view() + lines_of(text@.skip(i + 1)) =~= before + lines_of(rest));
            }
            start = i + 1;
        }
        i = i + 1;
    }
    if start < n {
        let ghost rest = text@.skip(start as int);
        proof {
            lemma_first_line_len(rest, (n - start) as int);
            assert(rest.take((n - start) as int) =~= text@.subrange(start as int, n as int));
            assert(rest.skip((n - start) as int) =~= text@.skip(n as int));
        }
        let line = text.substring_char(start, n).to_owned();
        let ghost before = out.deep_view();
        out.push(line);
        proof {
            assert(out.deep_view() =~= before.push(text@.subrange(start as int, n as int)));
            assert(lines_of(rest) =~= seq![text@.subrange(start as int, n as int)] + lines_of(
                text@.skip(n as int),
            ));
            assert(out.deep_view() + lines_of(text@.skip(n as int)) =~= before + lines_of(rest));
        }
    }
    proof {
        assert(text@.skip(n as int) =~= Seq::<char>::empty());
    }
    out
}

/// The lines of `lines` that `pattern` accepts (matches when `invert_match`
/// is false, fails to match when it is true), in their order.
pub fn select_lines(lines: &Vec<String>, pattern: &Matcher, invert_match: bool) -> (r: Vec<
    String,
>)
    ensures
        r.deep_view() == accepted(lines.deep_view(), *pattern, invert_match),
{
    let mut out: Vec<String> = Vec::new();
    let mut i: usize = 0;
    while i < lines.len()
        invariant
            i <= lines.len(),
            out.deep_view() == accepted(lines.deep_view().take(i as int), *pattern, invert_match),
        decreases lines.len() - i,
    {
        let ghost prefix = lines.deep_view().take(i as int + 1);
        proof {
            assert(prefix.drop_last() =~= lines.deep_view().take(i as int));
        }
        if pattern.is_match(lines[i].as_str()) != invert_match {
            let ghost before = out.deep_view();
            out.push(lines[i].clone());
            proof {
                assert(out.deep_view() =~= before.push(lines[i as int]@));
            }
        }
        i = i + 1;
    }
    proof {
        assert(lines.deep_view().take(lines.len() as int) =~= lines.deep_view());
    }
    out
}

/// The lines of `text` that `pattern` accepts, each keeping its terminator.
pub fn find_lines(text: &str, pattern: &Matcher, invert_match: bool) -> (r: Vec<String>)
    ensures
        r.deep_view() == accepted(lines_of(text@), *pattern, invert_match),
{
    let lines = split_lines(text);
    select_lines(&lines, pattern, invert_match)
}

/// A line is accepted exactly when the pattern's verdict on it differs from
/// the invert flag.
pub proof fn lemma_accepted_iff(lines: Seq<Seq<char>>, m: Matcher, invert: bool, line: Seq<char>)
    ensures
        accepted(lines, m, invert).contains(line) <==> (lines.contains(line) && m.finds(line)
            != invert),
    decreases lines.len(),
{
    if lines.len() > 0 {
        let init = lines.drop_last();
        lemma_accepted_iff(init, m, invert, line);
        assert(lines =~= init.push(lines.last()));
        if lines.contains(line) && line != lines.last() {
            let k = choose|k: int| 0 <= k < lines.len() && lines[k] == line;
            assert(init[k] == line);
        }
        if init.contains(line) {
            let k = choose|k: int| 0 <= k < init.len() && init[k] == line;
            assert(lines[k] == line);
        }
        let rest = accepted(init, m, invert);
        if accepts(m, invert, lines.last()) {
            assert(rest.push(lines.last())[rest.len() as int] == lines.last());
            if rest.contains(line) {
                let k = choose|k: int| 0 <= k < rest.len() && rest[k] == line;
                assert(rest.push(lines.last())[k] == line);
            }
            if rest.push(lines.last()).contains(line) && line != lines.last() {
                let k = choose|k: int| 0 <= k < rest.len() + 1 && rest.push(lines.last())[k] == line;
                assert(rest[k] == line);
            }
        }
    }
}

/// Scanning the same lines once in normal and once in inverted mode splits
/// them: each line is kept by exactly one of the two scans, and together the
/// scans keep as many lines as there are.
pub proof fn lemma_invert_partitions(lines: Seq<Seq<char>>, m: Matcher)
    ensures
        accepted(lines, m, false).len() + accepted(lines, m, true).len() == lines.len(),
        forall|line: Seq<char>|
            lines.contains(line) ==> (accepted(lines, m, false).contains(line) != accepted(
                lines,
                m,
                true,
            ).contains(line)),
    decreases lines.len(),
{
    if lines.len() > 0 {
        lemma_invert_partitions(lines.drop_last(), m);
    }
    assert forall|line: Seq<char>| lines.contains(line) implies (accepted(
        lines,
        m,
        false,
    ).contains(line) != accepted(lines, m, true).contains(line)) by {
        lemma_accepted_iff(lines, m, false, line);
        lemma_accepted_iff(lines, m, true, line);
    }
}

} // verus!
