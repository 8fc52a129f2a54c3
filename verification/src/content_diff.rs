//! Line diffs of two contents, and the short form that shows each change with
//! one line before it and two lines after it.
use crate::text::push_str;
use vstd::prelude::*;

verus! {

/// Where a line of a diff comes from.
#[derive(Clone, Copy, Debug, Eq, PartialEq, Structural)]
pub enum DiffKind {
    /// Only in the left text.
    Left,
    /// In both texts.
    Both,
    /// Only in the right text.
    Right,
}

/// A line of a diff.
#[derive(Clone, Debug, Eq, PartialEq)]
pub struct DiffLine {
    pub kind: DiffKind,
    pub text: String,
}

/// A line of a diff as the contracts see it.
pub open spec fn diff_line_model(line: DiffLine) -> (DiffKind, Seq<char>) {
    (line.kind, line.text@)
}

/// The lines of a diff as the contracts see them.
pub open spec fn diff_models(lines: Seq<DiffLine>) -> Seq<(DiffKind, Seq<char>)> {
    lines.map_values(|l: DiffLine| diff_line_model(l))
}

/// The line diff that the `diff` crate computes of two texts.
pub uninterp spec fn line_diff_of(left: Seq<char>, right: Seq<char>) -> Seq<(DiffKind, Seq<char>)>;

/// `diff::lines(left, right)`, each result as a line with its kind and, for a
/// line in both texts, the left text's line. The contract names the result
/// and says nothing more of it.
#[verifier::external_body]
pub(crate) fn line_diff(left: &str, right: &str) -> (r: Vec<DiffLine>)
    ensures
        diff_models(r@) == line_diff_of(left@, right@),
{
    diff::lines(left, right).into_iter().map(|result| match result {
        diff::Result::Left(l) => DiffLine { kind: DiffKind::Left, text: l.to_owned() },
        diff::Result::Both(l, _) => DiffLine { kind: DiffKind::Both, text: l.to_owned() },
        diff::Result::Right(r) => DiffLine { kind: DiffKind::Right, text: r.to_owned() },
    }).collect()
}

/// How a line of a diff is printed: `-`, ` ` or `+`, then the line.
pub open spec fn diff_line_text(line: (DiffKind, Seq<char>)) -> Seq<char> {
    match line.0 {
        DiffKind::Left => seq!['-'] + line.1,
        DiffKind::Both => seq![' '] + line.1,
        DiffKind::Right => seq!['+'] + line.1,
    }
}

/// The printed form of a line of a diff.
pub fn format_diff_line(line: &DiffLine) -> (r: String)
    ensures
        r@ == diff_line_text(diff_line_model(*line)),
{
    let mut r = String::new();
    proof {
        reveal_strlit("-");
        reveal_strlit(" ");
        reveal_strlit("+");
    }
    match line.kind {
        DiffKind::Left => push_str(&mut r, "-"),
        DiffKind::Both => push_str(&mut r, " "),
        DiffKind::Right => push_str(&mut r, "+"),
    }
    push_str(&mut r, line.text.as_str());
    r
}

/// The lines of the line diff of two texts, as they are printed.
pub fn diff_text_lines(left: &str, right: &str) -> (r: Vec<String>)
    ensures
        r@.len() == line_diff_of(left@, right@).len(),
        forall|i: int|
            0 <= i < r@.len() ==> #[trigger] r@[i]@ == diff_line_text(line_diff_of(left@, right@)[i]),
{
    let lines = line_diff(left, right);
    let ghost all = diff_models(lines@);
    let mut r: Vec<String> = Vec::new();
    let mut i: usize = 0;
    while i < lines.len()
        invariant
            i <= lines@.len(),
            all == diff_models(lines@),
            r@.len() == i,
            forall|k: int| 0 <= k < i ==> #[trigger] r@[k]@ == diff_line_text(all[k]),
        decreases lines.len() - i,
    {
        r.push(format_diff_line(&lines[i]));
        i = i + 1;
    }
    r
}

/// Line `i` is a change or one of the two lines after a change.
pub open spec fn near_change(changes: Seq<bool>, i: int) -> bool {
    changes[i] || (i >= 1 && changes[i - 1]) || (i >= 2 && changes[i - 2])
}

/// Line `i` is shown: it is a change, one of the two lines after a change, or
/// the line just before a change.
pub open spec fn shown(changes: Seq<bool>, i: int) -> bool {
    near_change(changes, i) || (i + 1 < changes.len() && changes[i + 1])
}

/// Which lines the short form shows, given which lines are changes. The
/// lines are read in order, keeping the last unshown line back in case a
/// change follows, and counting down the two lines that follow a change.
pub fn two_line_context(changes: &Vec<bool>) -> (r: Vec<bool>)
    ensures
        r@.len() == changes@.len(),
        forall|i: int| 0 <= i < r@.len() ==> #[trigger] r@[i] == shown(changes@, i),
{
    let n = changes.len();
    let mut shown_lines: Vec<bool> = Vec::new();
    let mut after: u8 = 0;
    let mut k: usize = 0;
    while k < n
        invariant
            n == changes@.len(),
            k <= n,
            shown_lines@.len() == k,
            forall|i: int| 0 <= i < k - 1 ==> #[trigger] shown_lines@[i] == shown(changes@, i),
            k >= 1 ==> shown_lines@[k - 1] == near_change(changes@, k - 1),
            after == (if k >= 1 && changes@[k - 1] {
                2u8
            } else if k >= 2 && changes@[k - 2] {
                1u8
            } else {
                0u8
            }),
        decreases n - k,
    {
        shown_lines.push(false);
        if changes[k] {
            if k > 0 && !shown_lines[k - 1] {
                shown_lines.set(k - 1, true);
            }
            shown_lines.set(k, true);
            after = 2;
        } else if after > 0 {
            after = after - 1;
            shown_lines.set(k, true);
        }
        k = k + 1;
    }
    shown_lines
}

/// The lines of a sequence where the mask is set, in order.
pub open spec fn masked<T>(s: Seq<T>, mask: Seq<bool>) -> Seq<T>
    decreases s.len(),
{
    if s.len() == 0 {
        Seq::empty()
    } else if mask[s.len() - 1] {
        masked(s.drop_last(), mask).push(s.last())
    } else {
        masked(s.drop_last(), mask)
    }
}

/// Whether each line of a diff is a change.
pub open spec fn changes_of(lines: Seq<(DiffKind, Seq<char>)>) -> Seq<bool> {
    lines.map_values(|l: (DiffKind, Seq<char>)| l.0 != DiffKind::Both)
}

/// The short diff of two texts: the lines of their line diff that
/// `two_line_context` shows.
pub fn two_line_diff(left: &str, right: &str) -> (r: Vec<DiffLine>)
    ensures
        diff_models(r@) == masked(
            line_diff_of(left@, right@),
            Seq::new(
                line_diff_of(left@, right@).len(),
                |i: int| shown(changes_of(line_diff_of(left@, right@)), i),
            ),
        ),
{
    let lines = line_diff(left, right);
    let ghost all = diff_models(lines@);
    let mut changes: Vec<bool> = Vec::new();
    let mut i: usize = 0;
    while i < lines.len()
        invariant
            i <= lines@.len(),
            all == diff_models(lines@),
            changes@ == changes_of(all).take(i as int),
        decreases lines.len() - i,
    {
        changes.push(lines[i].kind != DiffKind::Both);
        assert(changes@ =~= changes_of(all).take(i + 1));
        i = i + 1;
    }
    assert(changes@ =~= changes_of(all));
    let mask = two_line_context(&changes);
    let ghost gmask = Seq::new(all.len(), |i: int| shown(changes_of(all), i));
    assert(mask@ =~= gmask);
    let mut r: Vec<DiffLine> = Vec::new();
    let mut j: usize = 0;
    while j < lines.len()
        invariant
            j <= lines@.len(),
            all == diff_models(lines@),
            mask@ == gmask,
            gmask.len() == lines@.len(),
            diff_models(r@) == masked(all.take(j as int), gmask),
        decreases lines.len() - j,
    {
        proof {
            let t = all.take(j + 1);
            assert(t.drop_last() =~= all.take(j as int));
            assert(t.last() == all[j as int]);
        }
        if mask[j] {
            let line = DiffLine { kind: lines[j].kind, text: lines[j].text.clone() };
            r.push(line);
            assert(diff_models(r@) =~= masked(all.take(j + 1), gmask));
        } else {
            assert(diff_models(r@) =~= masked(all.take(j + 1), gmask));
        }
        j = j + 1;
    }
    assert(all.take(lines@.len() as int) =~= all);
    r
}

} // verus!
