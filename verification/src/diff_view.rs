//! Terminal diff viewer: the Myers diff algorithm, navigation between changes,
//! and side-by-side and unified rendering.

use vstd::prelude::*;
use crate::text::{chars_of, push_str, push_chars, lines_of, lines_of_str};
use crate::fmt::{decimal, pad_left, pad_right, pad_center, repeated, byte_len, byte_boundary, chars_in_bytes, usize_to_string, push_repeated, push_pad_left, push_pad_right, push_pad_center, utf8_len, byte_prefix, lemma_byte_len_bounds};



verus! {

/// Type of change in a diff line
#[derive(Debug, Clone, Copy, PartialEq, Eq, Structural)]
pub enum DiffLineType {
    /// Line was added in the new version
    Added,
    /// Line was removed from the old version
    Removed,
    /// Line exists in both versions unchanged
    Unchanged,
    /// Line was modified between versions
    Modified,
}

/// Represents a single line in a diff
#[derive(Debug)]
pub struct DiffLine {
    /// Type of change
    pub line_type: DiffLineType,
    /// Content from the left/old version
    pub left_content: Option<String>,
    /// Content from the right/new version
    pub right_content: Option<String>,
    /// Line number in the left/old version (1-indexed, None if added)
    pub left_line_num: Option<usize>,
    /// Line number in the right/new version (1-indexed, None if removed)
    pub right_line_num: Option<usize>,
}

/// A line is well formed when its contents and numbers are present exactly on
/// the sides its type speaks of, and an unchanged line shows the same text on both.
pub open spec fn wf_line(l: DiffLine) -> bool {
    match l.line_type {
        DiffLineType::Unchanged => {
            &&& l.left_content is Some
            &&& l.right_content is Some
            &&& l.left_content.unwrap()@ == l.right_content.unwrap()@
            &&& l.left_line_num is Some
            &&& l.right_line_num is Some
        },
        DiffLineType::Added => {
            &&& l.left_content is None
            &&& l.left_line_num is None
            &&& l.right_content is Some
            &&& l.right_line_num is Some
        },
        DiffLineType::Removed => {
            &&& l.left_content is Some
            &&& l.left_line_num is Some
            &&& l.right_content is None
            &&& l.right_line_num is None
        },
        DiffLineType::Modified => {
            &&& l.left_content is Some
            &&& l.left_line_num is Some
            &&& l.right_content is Some
            &&& l.right_line_num is Some
        },
    }
}

/// The (text, line number) pair a line shows on the old side, if any.
pub open spec fn left_entry(l: DiffLine) -> Seq<(Seq<char>, int)> {
    if l.left_content is Some && l.left_line_num is Some {
        seq![(l.left_content.unwrap()@, l.left_line_num.unwrap() as int)]
    } else {
        seq![]
    }
}

/// The (text, line number) pair a line shows on the new side, if any.
pub open spec fn right_entry(l: DiffLine) -> Seq<(Seq<char>, int)> {
    if l.right_content is Some && l.right_line_num is Some {
        seq![(l.right_content.unwrap()@, l.right_line_num.unwrap() as int)]
    } else {
        seq![]
    }
}

/// Everything the lines show on the old side, in order.
pub open spec fn lefts(ls: Seq<DiffLine>) -> Seq<(Seq<char>, int)>
    decreases ls.len(),
{
    if ls.len() == 0 {
        seq![]
    } else {
        lefts(ls.drop_last()) + left_entry(ls.last())
    }
}

/// Everything the lines show on the new side, in order.
pub open spec fn rights(ls: Seq<DiffLine>) -> Seq<(Seq<char>, int)>
    decreases ls.len(),
{
    if ls.len() == 0 {
        seq![]
    } else {
        rights(ls.drop_last()) + right_entry(ls.last())
    }
}

/// The lines of a text paired with their 1-based numbers.
pub open spec fn numbered(v: Seq<String>) -> Seq<(Seq<char>, int)> {
    Seq::new(v.len(), |i: int| (v[i]@, i + 1))
}

/// Number of lines of the given type.
pub open spec fn count_type(ls: Seq<DiffLine>, t: DiffLineType) -> nat
    decreases ls.len(),
{
    if ls.len() == 0 {
        0
    } else {
        count_type(ls.drop_last(), t) + if ls.last().line_type == t {
            1nat
        } else {
            0nat
        }
    }
}

proof fn lemma_push_sides(ls: Seq<DiffLine>, l: DiffLine)
    ensures
        lefts(ls.push(l)) == lefts(ls) + left_entry(l),
        rights(ls.push(l)) == rights(ls) + right_entry(l),
        forall|t: DiffLineType|
            #[trigger] count_type(ls.push(l), t) == count_type(ls, t) + if l.line_type == t {
                1nat
            } else {
                0nat
            },
{
    assert(ls.push(l).drop_last() =~= ls);
}

proof fn lemma_count_bound(ls: Seq<DiffLine>, t: DiffLineType)
    ensures
        count_type(ls, t) <= ls.len(),
    decreases ls.len(),
{
    if ls.len() > 0 {
        lemma_count_bound(ls.drop_last(), t);
    }
}

proof fn lemma_counts_total(ls: Seq<DiffLine>)
    ensures
        count_type(ls, DiffLineType::Added) + count_type(ls, DiffLineType::Removed) + count_type(
            ls,
            DiffLineType::Modified,
        ) + count_type(ls, DiffLineType::Unchanged) == ls.len(),
    decreases ls.len(),
{
    if ls.len() > 0 {
        lemma_counts_total(ls.drop_last());
    }
}

impl DiffLine {
    /// Create a new unchanged line
    pub fn unchanged(content: String, left_num: usize, right_num: usize) -> (l: Self)
        ensures
            l.line_type == DiffLineType::Unchanged,
            l.left_content == Some(content),
            l.right_content == Some(content),
            l.left_line_num == Some(left_num),
            l.right_line_num == Some(right_num),
            wf_line(l),
    {
        DiffLine {
            line_type: DiffLineType::Unchanged,
            left_content: Some(content.clone()),
            right_content: Some(content),
            left_line_num: Some(left_num),
            right_line_num: Some(right_num),
        }
    }

    /// Create a new added line
    pub fn added(content: String, right_num: usize) -> (l: Self)
        ensures
            l.line_type == DiffLineType::Added,
            l.left_content is None,
            l.right_content == Some(content),
            l.left_line_num is None,
            l.right_line_num == Some(right_num),
            wf_line(l),
    {
        DiffLine {
            line_type: DiffLineType::Added,
            left_content: None,
            right_content: Some(content),
            left_line_num: None,
            right_line_num: Some(right_num),
        }
    }

    /// Create a new removed line
    pub fn removed(content: String, left_num: usize) -> (l: Self)
        ensures
            l.line_type == DiffLineType::Removed,
            l.left_content == Some(content),
            l.right_content is None,
            l.left_line_num == Some(left_num),
            l.right_line_num is None,
            wf_line(l),
    {
        DiffLine {
            line_type: DiffLineType::Removed,
            left_content: Some(content),
            right_content: None,
            left_line_num: Some(left_num),
            right_line_num: None,
        }
    }

    /// Create a new modified line
    pub fn modified(left_content: String, right_content: String, left_num: usize, right_num: usize) -> (l: Self)
        ensures
            l.line_type == DiffLineType::Modified,
            l.left_content == Some(left_content),
            l.right_content == Some(right_content),
            l.left_line_num == Some(left_num),
            l.right_line_num == Some(right_num),
            wf_line(l),
    {
        DiffLine {
            line_type: DiffLineType::Modified,
            left_content: Some(left_content),
            right_content: Some(right_content),
            left_line_num: Some(left_num),
            right_line_num: Some(right_num),
        }
    }
}

/// Statistics about changes in a diff
#[derive(Debug, Clone, Copy, Default, PartialEq, Eq)]
pub struct DiffStats {
    /// Number of lines added
    pub added: usize,
    /// Number of lines removed
    pub removed: usize,
    /// Number of lines modified
    pub modified: usize,
    /// Number of lines unchanged
    pub unchanged: usize,
}

impl DiffStats {
    /// Get total number of changes (added + removed + modified)
    pub fn total_changes(&self) -> (r: usize)
        requires
            self.added + self.removed + self.modified <= usize::MAX,
        ensures
            r == self.added + self.removed + self.modified,
    {
        self.added + self.removed + self.modified
    }

    /// Get total number of lines
    pub fn total_lines(&self) -> (r: usize)
        requires
            self.added + self.removed + self.modified + self.unchanged <= usize::MAX,
        ensures
            r == self.added + self.removed + self.modified + self.unchanged,
    {
        self.added + self.removed + self.modified + self.unchanged
    }
}

/// Result of a diff operation
#[derive(Debug)]
pub struct DiffResult {
    /// List of diff lines
    pub lines: Vec<DiffLine>,
    /// Statistics about the diff
    pub stats: DiffStats,
}

/// The statistics count the lines of each type.
pub open spec fn stats_of(r: DiffResult) -> bool {
    &&& r.stats.added == count_type(r.lines@, DiffLineType::Added)
    &&& r.stats.removed == count_type(r.lines@, DiffLineType::Removed)
    &&& r.stats.modified == count_type(r.lines@, DiffLineType::Modified)
    &&& r.stats.unchanged == count_type(r.lines@, DiffLineType::Unchanged)
}

/// Whether line `i` is a change (anything but unchanged).
pub open spec fn is_change(ls: Seq<DiffLine>, i: int) -> bool {
    0 <= i < ls.len() && ls[i].line_type != DiffLineType::Unchanged
}

impl DiffResult {
    /// Create a new diff result from lines
    pub fn new(lines: Vec<DiffLine>) -> (r: Self)
        ensures
            r.lines@ == lines@,
            stats_of(r),
    {
        let mut added: usize = 0;
        let mut removed: usize = 0;
        let mut modified: usize = 0;
        let mut unchanged: usize = 0;
        let mut i: usize = 0;
        while i < lines.len()
            invariant
                i <= lines.len(),
                added == count_type(lines@.subrange(0, i as int), DiffLineType::Added),
                removed == count_type(lines@.subrange(0, i as int), DiffLineType::Removed),
                modified == count_type(lines@.subrange(0, i as int), DiffLineType::Modified),
                unchanged == count_type(lines@.subrange(0, i as int), DiffLineType::Unchanged),
            decreases lines.len() - i,
        {
            proof {
                assert(lines@.subrange(0, i + 1) =~= lines@.subrange(0, i as int).push(lines@[i as int]));
                lemma_push_sides(lines@.subrange(0, i as int), lines@[i as int]);
                lemma_count_bound(lines@.subrange(0, i as int), DiffLineType::Added);
                lemma_count_bound(lines@.subrange(0, i as int), DiffLineType::Removed);
                lemma_count_bound(lines@.subrange(0, i as int), DiffLineType::Modified);
                lemma_count_bound(lines@.subrange(0, i as int), DiffLineType::Unchanged);
            }
            match lines[i].line_type {
                DiffLineType::Added => added = added + 1,
                DiffLineType::Removed => removed = removed + 1,
                DiffLineType::Modified => modified = modified + 1,
                DiffLineType::Unchanged => unchanged = unchanged + 1,
            }
            i = i + 1;
        }
        assert(lines@.subrange(0, lines.len() as int) =~= lines@);
        DiffResult { lines, stats: DiffStats { added, removed, modified, unchanged } }
    }

    /// Get indices of all change lines (non-unchanged)
    pub fn change_indices(&self) -> (r: Vec<usize>)
        ensures
            forall|j: int, k: int| 0 <= j < k < r.len() ==> r@[j] < r@[k],
            forall|j: int| 0 <= j < r.len() ==> is_change(self.lines@, #[trigger] r@[j] as int),
            forall|i: int| is_change(self.lines@, i) ==> r@.contains(i as usize),
    {
        let mut r: Vec<usize> = Vec::new();
        let mut i: usize = 0;
        while i < self.lines.len()
            invariant
                i <= self.lines.len(),
                forall|j: int, k: int| 0 <= j < k < r.len() ==> r@[j] < r@[k],
                forall|j: int| 0 <= j < r.len() ==> r@[j] < i,
                forall|j: int| 0 <= j < r.len() ==> is_change(self.lines@, #[trigger] r@[j] as int),
                forall|t: int| 0 <= t < i && is_change(self.lines@, t) ==> r@.contains(t as usize),
            decreases self.lines.len() - i,
        {
            if self.lines[i].line_type != DiffLineType::Unchanged {
                let ghost old_r = r@;
                r.push(i);
                assert forall|t: int| 0 <= t < i + 1 && is_change(self.lines@, t) implies r@.contains(t as usize) by {
                    if t < i {
                        let w = choose|w: int| 0 <= w < old_r.len() && old_r[w] == t as usize;
                        assert(r@[w] == t as usize);
                    } else {
                        assert(r@[r.len() - 1] == t as usize);
                    }
                }
            }
            i = i + 1;
        }
        r
    }

    /// Find the next change after the given index
    pub fn next_change(&self, current_idx: usize) -> (r: Option<usize>)
        ensures
            match r {
                Some(idx) => idx > current_idx && is_change(self.lines@, idx as int) && forall|j: int|
                    current_idx < j < idx ==> !is_change(self.lines@, j),
                None => forall|j: int| current_idx < j ==> !is_change(self.lines@, j),
            },
    {
        let changes = self.change_indices();
        let mut p: usize = 0;
        while p < changes.len()
            invariant
                p <= changes.len(),
                forall|j: int, k: int| 0 <= j < k < changes.len() ==> changes@[j] < changes@[k],
                forall|j: int| 0 <= j < changes.len() ==> is_change(self.lines@, #[trigger] changes@[j] as int),
                forall|i: int| is_change(self.lines@, i) ==> changes@.contains(i as usize),
                forall|j: int| 0 <= j < p ==> changes@[j] <= current_idx,
            decreases changes.len() - p,
        {
            if changes[p] > current_idx {
                let idx = changes[p];
                assert forall|j: int| current_idx < j < idx implies !is_change(self.lines@, j) by {
                    if is_change(self.lines@, j) {
                        assert(changes@.contains(j as usize));
                        let w = choose|w: int| 0 <= w < changes.len() && changes@[w] == j as usize;
                        if w < p {
                        } else if w == p {
                        } else {
                            assert(changes@[p as int] < changes@[w]);
                        }
                    }
                }
                return Some(idx);
            }
            p = p + 1;
        }
        assert(p == changes.len());
        assert forall|j: int| current_idx < j implies !is_change(self.lines@, j) by {
            if is_change(self.lines@, j) {
                assert(0 <= j < self.lines@.len());
                assert(self.lines@.len() == self.lines.len());
                assert(changes@.contains(j as usize));
                let w = choose|w: int| 0 <= w < changes.len() && changes@[w] == j as usize;
                assert(0 <= w < p);
                assert(changes@[w] <= current_idx);
                assert(changes@[w] as int == j);
            }
        }
        None
    }

    /// Find the previous change before the given index
    pub fn prev_change(&self, current_idx: usize) -> (r: Option<usize>)
        ensures
            match r {
                Some(idx) => idx < current_idx && is_change(self.lines@, idx as int) && forall|j: int|
                    idx < j < current_idx ==> !is_change(self.lines@, j),
                None => forall|j: int| j < current_idx ==> !is_change(self.lines@, j),
            },
    {
        let changes = self.change_indices();
        let mut p: usize = changes.len();
        while p > 0
            invariant
                p <= changes.len(),
                forall|j: int, k: int| 0 <= j < k < changes.len() ==> changes@[j] < changes@[k],
                forall|j: int| 0 <= j < changes.len() ==> is_change(self.lines@, #[trigger] changes@[j] as int),
                forall|i: int| is_change(self.lines@, i) ==> changes@.contains(i as usize),
                forall|j: int| p <= j < changes.len() ==> changes@[j] >= current_idx,
            decreases p,
        {
            if changes[p - 1] < current_idx {
                let idx = changes[p - 1];
                assert forall|j: int| idx < j < current_idx implies !is_change(self.lines@, j) by {
                    if is_change(self.lines@, j) {
                        assert(changes@.contains(j as usize));
                        let w = choose|w: int| 0 <= w < changes.len() && changes@[w] == j as usize;
                        if w >= p {
                        } else if w == p - 1 {
                        } else {
                            assert(changes@[w] < changes@[p - 1]);
                        }
                    }
                }
                return Some(idx);
            }
            p = p - 1;
        }
        assert forall|j: int| j < current_idx implies !is_change(self.lines@, j) by {
            if is_change(self.lines@, j) {
                assert(changes@.contains(j as usize));
                let w = choose|w: int| 0 <= w < changes.len() && changes@[w] == j as usize;
                assert(changes@[w] >= current_idx);
            }
        }
        None
    }
}

/// Represents an edit operation
#[derive(Debug, Clone, Copy, PartialEq, Eq, Structural)]
enum Edit {
    /// Insert from new at position y
    Insert(usize),
    /// Delete from old at position x
    Delete(usize),
    /// Keep both at positions (x, y)
    Keep(usize, usize),
}

/// An edit script that, started at old line `x` and new line `y`, consumes the
/// rest of both texts, keeping only lines that are equal.
spec fn valid_script(old: Seq<String>, new: Seq<String>, x: int, y: int, es: Seq<Edit>) -> bool
    decreases es.len(),
{
    if es.len() == 0 {
        x == old.len() && y == new.len()
    } else {
        match es[0] {
            Edit::Keep(a, b) => a == x && b == y && 0 <= x < old.len() && 0 <= y < new.len()
                && old[x]@ == new[y]@ && valid_script(old, new, x + 1, y + 1, es.drop_first()),
            Edit::Delete(a) => a == x && 0 <= x < old.len() && valid_script(
                old,
                new,
                x + 1,
                y,
                es.drop_first(),
            ),
            Edit::Insert(b) => b == y && 0 <= y < new.len() && valid_script(
                old,
                new,
                x,
                y + 1,
                es.drop_first(),
            ),
        }
    }
}

proof fn lemma_prepend(old: Seq<String>, new: Seq<String>, x: int, y: int, e: Edit, rest: Seq<Edit>)
    ensures
        valid_script(old, new, x, y, seq![e] + rest) == match e {
            Edit::Keep(a, b) => a == x && b == y && 0 <= x < old.len() && 0 <= y < new.len()
                && old[x]@ == new[y]@ && valid_script(old, new, x + 1, y + 1, rest),
            Edit::Delete(a) => a == x && 0 <= x < old.len() && valid_script(old, new, x + 1, y, rest),
            Edit::Insert(b) => b == y && 0 <= y < new.len() && valid_script(old, new, x, y + 1, rest),
        },
{
    assert((seq![e] + rest).drop_first() =~= rest);
    assert((seq![e] + rest)[0] == e);
}

proof fn lemma_rev_push(s: Seq<Edit>, e: Edit)
    ensures
        s.push(e).reverse() == seq![e] + s.reverse(),
{
    assert(s.push(e).reverse() =~= seq![e] + s.reverse());
}

/// Length of a longest common subsequence of the first `i` lines of `a` and
/// the first `j` lines of `b` (lines compared by their text).
pub open spec fn lcs_prefix(a: Seq<String>, b: Seq<String>, i: nat, j: nat) -> nat
    decreases i + j,
{
    if i == 0 || j == 0 {
        0
    } else {
        let skip_a = lcs_prefix(a, b, (i - 1) as nat, j);
        let skip_b = lcs_prefix(a, b, i, (j - 1) as nat);
        let skip = if skip_a >= skip_b { skip_a } else { skip_b };
        if a[i - 1]@ == b[j - 1]@ && lcs_prefix(a, b, (i - 1) as nat, (j - 1) as nat) + 1 > skip {
            lcs_prefix(a, b, (i - 1) as nat, (j - 1) as nat) + 1
        } else {
            skip
        }
    }
}

/// Length of a longest common subsequence of two texts.
pub open spec fn lcs_len(a: Seq<String>, b: Seq<String>) -> nat {
    lcs_prefix(a, b, a.len(), b.len())
}

/// Number of lines an edit script keeps.
spec fn keeps(es: Seq<Edit>) -> nat
    decreases es.len(),
{
    if es.len() == 0 {
        0
    } else {
        keeps(es.drop_first()) + if es[0] is Keep { 1nat } else { 0nat }
    }
}

proof fn lemma_lcs_mono(a: Seq<String>, b: Seq<String>, i: nat, j: nat)
    ensures
        lcs_prefix(a, b, i, j) <= lcs_prefix(a, b, i + 1, j),
        lcs_prefix(a, b, i, j) <= lcs_prefix(a, b, i, j + 1),
{
}

proof fn lemma_lcs_step_i(a: Seq<String>, b: Seq<String>, i: nat, j: nat)
    ensures
        lcs_prefix(a, b, i + 1, j) <= lcs_prefix(a, b, i, j) + 1,
    decreases j,
{
    if j > 0 {
        lemma_lcs_step_i(a, b, i, (j - 1) as nat);
        lemma_lcs_mono(a, b, i, (j - 1) as nat);
    }
}

proof fn lemma_lcs_step_j(a: Seq<String>, b: Seq<String>, i: nat, j: nat)
    ensures
        lcs_prefix(a, b, i, j + 1) <= lcs_prefix(a, b, i, j) + 1,
    decreases i,
{
    if i > 0 {
        lemma_lcs_step_j(a, b, (i - 1) as nat, j);
        lemma_lcs_mono(a, b, (i - 1) as nat, j);
    }
}

proof fn lemma_lcs_match(a: Seq<String>, b: Seq<String>, i: nat, j: nat)
    requires
        i < a.len(),
        j < b.len(),
        a[i as int]@ == b[j as int]@,
    ensures
        lcs_prefix(a, b, i + 1, j + 1) == lcs_prefix(a, b, i, j) + 1,
{
    lemma_lcs_step_i(a, b, i, j + 1);
    lemma_lcs_step_j(a, b, i + 1, j);
    lemma_lcs_mono(a, b, i, j);
    lemma_lcs_step_j(a, b, i, j);
    lemma_lcs_step_i(a, b, i, j);
}

proof fn lemma_lcs_bound(a: Seq<String>, b: Seq<String>, i: nat, j: nat)
    ensures
        lcs_prefix(a, b, i, j) <= i,
        lcs_prefix(a, b, i, j) <= j,
    decreases i + j,
{
    if i > 0 && j > 0 {
        lemma_lcs_bound(a, b, (i - 1) as nat, j);
        lemma_lcs_bound(a, b, i, (j - 1) as nat);
        lemma_lcs_bound(a, b, (i - 1) as nat, (j - 1) as nat);
    }
}


/// The largest number of lines the two texts together may hold: an eighth
/// of the address space, more than two vectors of strings can fill.
pub open spec fn max_diff_lines() -> int {
    usize::MAX as int / 8
}

/// The diff shows exactly the old text on the left and the new text on the
/// right, each line with its number, and its statistics count its lines.
pub open spec fn diff_of(r: DiffResult, old: Seq<String>, new: Seq<String>) -> bool {
    &&& lefts(r.lines@) == numbered(old)
    &&& rights(r.lines@) == numbered(new)
    &&& forall|i: int| 0 <= i < r.lines.len() ==> wf_line(#[trigger] r.lines@[i])
    &&& stats_of(r)
}

/// The fewest insertions and deletions that turn the first `x` old lines into
/// the first `y` new lines.
spec fn pd(a: Seq<String>, b: Seq<String>, x: int, y: int) -> int {
    x + y - 2 * lcs_prefix(a, b, x as nat, y as nat)
}

/// `pd` extended beyond the texts: each step past their ends costs one more.
spec fn cost(a: Seq<String>, b: Seq<String>, x: int, y: int) -> int {
    let xc = if x <= a.len() { x } else { a.len() as int };
    let yc = if y <= b.len() { y } else { b.len() as int };
    pd(a, b, xc, yc) + (x - xc) + (y - yc)
}

proof fn lemma_pd_bounds(a: Seq<String>, b: Seq<String>, x: int, y: int)
    requires
        0 <= x,
        0 <= y,
    ensures
        pd(a, b, x, y) >= x - y,
        pd(a, b, x, y) >= y - x,
        pd(a, b, x, y) <= x + y,
        (pd(a, b, x, y) - (x - y)) % 2 == 0,
{
    lemma_lcs_bound(a, b, x as nat, y as nat);
    let l = lcs_prefix(a, b, x as nat, y as nat) as int;
    assert(pd(a, b, x, y) - (x - y) == 2 * (y - l));
}

proof fn lemma_cost_steps(a: Seq<String>, b: Seq<String>, x: int, y: int)
    requires
        0 <= x,
        0 <= y,
    ensures
        cost(a, b, x + 1, y) <= cost(a, b, x, y) + 1,
        cost(a, b, x, y + 1) <= cost(a, b, x, y) + 1,
        x < a.len() && y < b.len() && a[x]@ == b[y]@ ==> cost(a, b, x + 1, y + 1) == cost(a, b, x, y),
        x <= a.len() && y <= b.len() ==> cost(a, b, x, y) == pd(a, b, x, y),
        cost(a, b, x, y) >= pd(a, b, (if x <= a.len() { x } else { a.len() as int }), (if y <= b.len() { y } else { b.len() as int })) + (x - a.len()) + (y - b.len()),
{
    let xc = if x <= a.len() { x } else { a.len() as int };
    let yc = if y <= b.len() { y } else { b.len() as int };
    lemma_lcs_mono(a, b, xc as nat, yc as nat);
    lemma_lcs_step_i(a, b, xc as nat, yc as nat);
    lemma_lcs_step_j(a, b, xc as nat, yc as nat);
    if x < a.len() && y < b.len() && a[x]@ == b[y]@ {
        lemma_lcs_match(a, b, x as nat, y as nat);
    }
}

/// An insertion or deletion is needed to reach `(x, y)` unless its last lines match.
proof fn lemma_pd_back(a: Seq<String>, b: Seq<String>, x: int, y: int)
    requires
        0 <= x <= a.len(),
        0 <= y <= b.len(),
        x > 0 || y > 0,
        !(x > 0 && y > 0 && a[x - 1]@ == b[y - 1]@),
    ensures
        (x > 0 && pd(a, b, x - 1, y) == pd(a, b, x, y) - 1) || (y > 0 && pd(a, b, x, y - 1) == pd(a, b, x, y) - 1),
{
    if x == 0 {
        lemma_lcs_bound(a, b, 0, y as nat);
        lemma_lcs_bound(a, b, 0, (y - 1) as nat);
    } else if y == 0 {
        lemma_lcs_bound(a, b, x as nat, 0);
        lemma_lcs_bound(a, b, (x - 1) as nat, 0);
    }
}

proof fn lemma_pd_match(a: Seq<String>, b: Seq<String>, x: int, y: int)
    requires
        0 < x <= a.len(),
        0 < y <= b.len(),
        a[x - 1]@ == b[y - 1]@,
    ensures
        pd(a, b, x - 1, y - 1) == pd(a, b, x, y),
{
    lemma_lcs_match(a, b, (x - 1) as nat, (y - 1) as nat);
}

/// Every line in `[s, e)` of diagonal `k` matches its partner.
spec fn snake_ok(a: Seq<String>, b: Seq<String>, s: int, e: int, k: int) -> bool {
    &&& s <= e
    &&& forall|u: int| s <= u < e ==> #[trigger] line_match(a, b, u, k)
}

/// Old line `u` and new line `u - k` exist and are equal.
spec fn line_match(a: Seq<String>, b: Seq<String>, u: int, k: int) -> bool {
    0 <= u < a.len() && 0 <= u - k < b.len() && a[u]@ == b[u - k]@
}

/// Where the search on diagonal index `j` of round `t` starts, from the
/// previous round's furthest points `prev`.
spec fn start_of(prev: Seq<usize>, j: int, t: int, off: int) -> int {
    if j == off - t || (j != off + t && prev[j - 1] < prev[j + 1]) {
        prev[j + 1] as int
    } else {
        prev[j - 1] + 1
    }
}

/// `row` reaches at least as far as any point of cost at most `d`.
#[verifier::opaque]
spec fn covers(a: Seq<String>, b: Seq<String>, row: Seq<usize>, off: int, d: int) -> bool {
    forall|x: int, y: int| 0 <= x <= a.len() && 0 <= y <= b.len() && #[trigger] pd(a, b, x, y) <= d
        && 0 <= x - y + off < row.len() ==> x <= row[x - y + off]
}

/// The furthest points of round `d` cost at most `d`.
#[verifier::opaque]
spec fn sound(a: Seq<String>, b: Seq<String>, row: Seq<usize>, off: int, d: int) -> bool {
    forall|j: int| off - d <= j <= off + d && 0 <= j < row.len() ==> #[trigger] row[j] + off >= j
        && cost(a, b, row[j] as int, row[j] + off - j) <= d
}

/// Round `t` of the search turned `prev` into `row`: diagonals of the other
/// parity are untouched, and each one searched up to index `upto` holds the
/// end of a run of matching lines from its start.
#[verifier::opaque]
spec fn row_step(a: Seq<String>, b: Seq<String>, prev: Seq<usize>, row: Seq<usize>, t: int, off: int, upto: int) -> bool {
    &&& row.len() == prev.len()
    &&& forall|j: int| 0 <= j < row.len() && (j - off + t) % 2 != 0 ==> #[trigger] row[j] == prev[j]
    &&& forall|j: int| off - t <= j <= upto && (j - off + t) % 2 == 0 ==> snake_ok(a, b, start_of(prev, j, t, off), #[trigger] row[j] as int, j - off)
}

/// Diagonal index `j` of round `d` was searched: from its start, along
/// matching lines, to a point that costs at most `d`, reaching every point of
/// the diagonal that costs at most `d`.
spec fn searched(a: Seq<String>, b: Seq<String>, prev: Seq<usize>, row: Seq<usize>, j: int, d: int, off: int) -> bool {
    reached(a, b, prev, j, d, off, row[j] as int)
}

/// The search of diagonal index `j` in round `d` ended at `xe`: it went from
/// its start along matching lines, costs at most `d`, and every point of the
/// diagonal that costs at most `d` lies at or before it.
#[verifier::opaque]
spec fn reached(a: Seq<String>, b: Seq<String>, prev: Seq<usize>, j: int, d: int, off: int, xe: int) -> bool {
    &&& snake_ok(a, b, start_of(prev, j, d, off), xe, j - off)
    &&& xe + off >= j
    &&& cost(a, b, xe, xe + off - j) <= d
    &&& forall|px: int, py: int| 0 <= px <= a.len() && 0 <= py <= b.len() && px - py == j - off && #[trigger] pd(a, b, px, py) <= d
        ==> px <= xe
}

proof fn lemma_snake_extend(a: Seq<String>, b: Seq<String>, s: int, e: int, k: int)
    requires
        snake_ok(a, b, s, e, k),
        0 <= e < a.len(),
        0 <= e - k < b.len(),
        a[e]@ == b[e - k]@,
    ensures
        snake_ok(a, b, s, e + 1, k),
{
    assert forall|u: int| s <= u < e + 1 implies #[trigger] line_match(a, b, u, k) by {
        if u < e {
            assert(line_match(a, b, u, k));
        }
    }
}

proof fn lemma_snake_shrink(a: Seq<String>, b: Seq<String>, s: int, e: int, k: int)
    requires
        snake_ok(a, b, s, e, k),
        s < e,
    ensures
        snake_ok(a, b, s, e - 1, k),
        0 <= e - 1 < a.len(),
        0 <= e - 1 - k < b.len(),
        a[e - 1]@ == b[e - 1 - k]@,
{
    assert(line_match(a, b, e - 1, k));
    assert forall|u: int| s <= u < e - 1 implies #[trigger] line_match(a, b, u, k) by {
        assert(line_match(a, b, u, k));
    }
}

/// Round `d` turned `prev` into `row` for the diagonals up to index `upto`.
spec fn row_step_upto(a: Seq<String>, b: Seq<String>, prev: Seq<usize>, row: Seq<usize>, d: int, off: int, upto: int) -> bool {
    &&& d >= 1 ==> row_step(a, b, prev, row, d, off, upto)
    &&& d == 0 ==> upto == off && snake_ok(a, b, 0, row[off] as int, 0)
}

/// The search on one diagonal of round `d` reaches every point of that
/// diagonal that costs at most `d`.
proof fn lemma_diag_cover(a: Seq<String>, b: Seq<String>, prev: Seq<usize>, off: int, d: int, kk: int, xs: int, xe: int, x: int)
    requires
        0 <= d,
        1 <= kk,
        kk + 1 < prev.len(),
        off - d <= kk <= off + d,
        d >= 1 ==> covers(a, b, prev, off, d - 1),
        kk != off + d ==> xs >= prev[kk + 1],
        kk != off - d ==> xs >= prev[kk - 1] + 1,
        0 <= xs,
        snake_ok(a, b, xs, xe, kk - off),
        !(xe < a.len() && xe - (kk - off) < b.len() && 0 <= xe - (kk - off) && a[xe]@ == b[xe - (kk - off)]@),
        0 <= x <= a.len(),
        0 <= x - (kk - off) <= b.len(),
        pd(a, b, x, x - (kk - off)) <= d,
    ensures
        x <= xe,
    decreases x,
{
    reveal(covers);
    let k = kk - off;
    let y = x - k;
    if x <= xs {
    } else if y > 0 && a[x - 1]@ == b[y - 1]@ {
        lemma_pd_match(a, b, x, y);
        lemma_diag_cover(a, b, prev, off, d, kk, xs, xe, x - 1);
        if x - 1 == xe {
            assert(false);
        }
    } else {
        lemma_pd_back(a, b, x, y);
        if x > 0 && pd(a, b, x - 1, y) == pd(a, b, x, y) - 1 {
            lemma_pd_bounds(a, b, x - 1, y);
            assert(prev[(x - 1) - y + off] >= x - 1);
        } else {
            lemma_pd_bounds(a, b, x, y - 1);
            assert(prev[x - (y - 1) + off] >= x);
        }
    }
}

/// A round whose diagonals up to index `upto` were searched follows from the
/// previous row up to there.
proof fn lemma_row_upto(a: Seq<String>, b: Seq<String>, prev: Seq<usize>, row: Seq<usize>, d: int, off: int, upto: int)
    requires
        0 <= d,
        1 <= off - d,
        off + d + 1 < row.len(),
        row.len() == prev.len(),
        off - d <= upto <= off + d,
        (upto - off + d) % 2 == 0,
        d == 0 ==> prev[off + 1] == 0,
        forall|j: int| 0 <= j < row.len() && !(off - d <= j < upto + 2 && (j - off + d) % 2 == 0) ==> #[trigger] row[j] == prev[j],
        forall|j: int| off - d <= j < upto + 2 && (j - off + d) % 2 == 0 ==> #[trigger] searched(a, b, prev, row, j, d, off),
    ensures
        row_step_upto(a, b, prev, row, d, off, upto),
{
    reveal(row_step);
    reveal(reached);
    if d >= 1 {
        assert forall|j: int| 0 <= j < row.len() && (j - off + d) % 2 != 0 implies #[trigger] row[j] == prev[j] by {}
        assert forall|j: int| off - d <= j <= upto && (j - off + d) % 2 == 0 implies snake_ok(a, b, start_of(prev, j, d, off), #[trigger] row[j] as int, j - off) by {
            assert(searched(a, b, prev, row, j, d, off));
        }
    } else {
        assert(searched(a, b, prev, row, off, d, off));
    }
}

/// When every diagonal of round `d` has been searched, the new row reaches
/// every point of cost at most `d`, costs no more than `d`, and follows from
/// the previous row.
proof fn lemma_round_done(a: Seq<String>, b: Seq<String>, prev: Seq<usize>, row: Seq<usize>, d: int, off: int)
    requires
        0 <= d,
        1 <= off - d,
        off + d + 1 < row.len(),
        row.len() == prev.len(),
        covers(a, b, prev, off, d - 1),
        sound(a, b, prev, off, d - 1),
        d == 0 ==> prev[off + 1] == 0,
        forall|j: int| 0 <= j < row.len() && !(off - d <= j < off + d + 2 && (j - off + d) % 2 == 0) ==> #[trigger] row[j] == prev[j],
        forall|j: int| off - d <= j < off + d + 2 && (j - off + d) % 2 == 0 ==> #[trigger] searched(a, b, prev, row, j, d, off),
    ensures
        covers(a, b, row, off, d),
        sound(a, b, row, off, d),
        row_step_upto(a, b, prev, row, d, off, off + d),
{
    reveal(covers);
    reveal(sound);
    reveal(reached);
    assert forall|x: int, y: int| 0 <= x <= a.len() && 0 <= y <= b.len() && #[trigger] pd(a, b, x, y) <= d
        && 0 <= x - y + off < row.len() implies x <= row[x - y + off] by {
        let j = x - y + off;
        lemma_pd_bounds(a, b, x, y);
        if off - d <= j < off + d + 2 && (j - off + d) % 2 == 0 {
            assert(searched(a, b, prev, row, j, d, off));
        } else {
            assert(row[j] == prev[j]);
            if (j - off + d) % 2 == 0 {
                assert(false);
            } else {
                assert(pd(a, b, x, y) <= d - 1);
            }
        }
    }
    assert forall|j: int| off - d <= j <= off + d && 0 <= j < row.len() implies #[trigger] row[j] + off >= j
        && cost(a, b, row[j] as int, row[j] + off - j) <= d by {
        if (j - off + d) % 2 == 0 {
            assert(searched(a, b, prev, row, j, d, off));
        } else {
            assert(row[j] == prev[j]);
            assert(prev[j] + off >= j);
        }
    }
    lemma_row_upto(a, b, prev, row, d, off, off + d);
}

/// Where a diagonal's search starts costs at most the round's number.
proof fn lemma_start_sound(a: Seq<String>, b: Seq<String>, v: Seq<usize>, kk: int, d: int, off: int)
    requires
        0 <= d,
        1 <= off - d,
        off + d + 1 < v.len(),
        off - d <= kk <= off + d,
        (kk - off + d) % 2 == 0,
        sound(a, b, v, off, d - 1),
        d == 0 ==> v[off + 1] == 0,
    ensures
        start_of(v, kk, d, off) + off >= kk,
        cost(a, b, start_of(v, kk, d, off), start_of(v, kk, d, off) + off - kk) <= d,
{
    reveal(sound);
    if d == 0 {
        lemma_cost_steps(a, b, 0, 0);
    } else if kk == off - d || (kk != off + d && v[kk - 1] < v[kk + 1]) {
        let px = v[kk + 1] as int;
        assert(v[kk + 1] + off >= kk + 1 && cost(a, b, px, px + off - (kk + 1)) <= d - 1);
        lemma_cost_steps(a, b, px, px + off - kk - 1);
    } else {
        let px = v[kk - 1] as int;
        assert(v[kk - 1] + off >= kk - 1 && cost(a, b, px, px + off - (kk - 1)) <= d - 1);
        lemma_cost_steps(a, b, px, px + off - kk + 1);
    }
}

/// The search on a diagonal reaches every point of it that costs at most
/// the round's number.
proof fn lemma_cover_all(a: Seq<String>, b: Seq<String>, prev: Seq<usize>, off: int, d: int, kk: int, xs: int, xe: int)
    requires
        0 <= d,
        1 <= kk,
        kk + 1 < prev.len(),
        off - d <= kk <= off + d,
        d >= 1 ==> covers(a, b, prev, off, d - 1),
        kk != off + d ==> xs >= prev[kk + 1],
        kk != off - d ==> xs >= prev[kk - 1] + 1,
        0 <= xs,
        snake_ok(a, b, xs, xe, kk - off),
        !(xe < a.len() && xe - (kk - off) < b.len() && 0 <= xe - (kk - off) && a[xe]@ == b[xe - (kk - off)]@),
    ensures
        forall|px: int, py: int| 0 <= px <= a.len() && 0 <= py <= b.len() && px - py == kk - off && #[trigger] pd(a, b, px, py) <= d
            ==> px <= xe,
{
    assert forall|px: int, py: int| 0 <= px <= a.len() && 0 <= py <= b.len() && px - py == kk - off && #[trigger] pd(a, b, px, py) <= d
        implies px <= xe by {
        lemma_diag_cover(a, b, prev, off, d, kk, xs, xe, px);
    }
}

/// What the walk back needs of a round: the neighbouring diagonals are the
/// previous round's, and the current point ends a run of matching lines from
/// the round's start.
proof fn lemma_back_level(a: Seq<String>, b: Seq<String>, prev: Seq<usize>, row: Seq<usize>, d: int, off: int, upto: int, kx: int, x: int)
    requires
        row_step(a, b, prev, row, d, off, upto),
        off - d <= kx <= upto,
        1 <= kx,
        kx + 1 < row.len(),
        (kx - off + d) % 2 == 0,
        x == row[kx],
    ensures
        row[kx - 1] == prev[kx - 1],
        row[kx + 1] == prev[kx + 1],
        snake_ok(a, b, start_of(prev, kx, d, off), x, kx - off),
{
    reveal(row_step);
    assert(row[kx - 1] == prev[kx - 1]);
    assert(row[kx + 1] == prev[kx + 1]);
    assert(snake_ok(a, b, start_of(prev, kx, d, off), row[kx] as int, kx - off));
}

/// A searched diagonal other than the lowest reaches past the furthest point
/// of the diagonal below it in the previous round.
proof fn lemma_row_next(a: Seq<String>, b: Seq<String>, prev: Seq<usize>, row: Seq<usize>, d: int, off: int, upto: int, j: int)
    requires
        row_step(a, b, prev, row, d, off, upto),
        off - d < j <= upto,
        1 <= j,
        j + 1 < row.len(),
        (j - off + d) % 2 == 0,
    ensures
        row[j] >= prev[j - 1] + 1,
{
    reveal(row_step);
    assert(snake_ok(a, b, start_of(prev, j, d, off), row[j] as int, j - off));
}

/// A valid script from `(x, y)` has as many edits and keeps together as there
/// are lines left in both texts.
proof fn lemma_script_len(old: Seq<String>, new: Seq<String>, x: int, y: int, es: Seq<Edit>)
    requires
        valid_script(old, new, x, y, es),
    ensures
        (old.len() - x) + (new.len() - y) == keeps(es) + es.len(),
    decreases es.len(),
{
    if es.len() > 0 {
        match es[0] {
            Edit::Keep(p, q) => lemma_script_len(old, new, x + 1, y + 1, es.drop_first()),
            Edit::Delete(p) => lemma_script_len(old, new, x + 1, y, es.drop_first()),
            Edit::Insert(q) => lemma_script_len(old, new, x, y + 1, es.drop_first()),
        }
    }
}

proof fn lemma_keeps_prepend(e: Edit, rest: Seq<Edit>)
    ensures
        keeps(seq![e] + rest) == keeps(rest) + if e is Keep { 1nat } else { 0nat },
{
    assert((seq![e] + rest).drop_first() =~= rest);
    assert((seq![e] + rest)[0] == e);
}

proof fn lemma_side_counts(ls: Seq<DiffLine>)
    requires
        forall|i: int| 0 <= i < ls.len() ==> wf_line(#[trigger] ls[i]),
    ensures
        lefts(ls).len() == count_type(ls, DiffLineType::Unchanged) + count_type(ls, DiffLineType::Removed)
            + count_type(ls, DiffLineType::Modified),
        rights(ls).len() == count_type(ls, DiffLineType::Unchanged) + count_type(ls, DiffLineType::Added)
            + count_type(ls, DiffLineType::Modified),
    decreases ls.len(),
{
    if ls.len() > 0 {
        assert(wf_line(ls[ls.len() - 1]));
        assert forall|i: int| 0 <= i < ls.drop_last().len() implies wf_line(#[trigger] ls.drop_last()[i]) by {
            assert(ls.drop_last()[i] == ls[i]);
        }
        lemma_side_counts(ls.drop_last());
    }
}

/// Every line of the old text is shown once as unchanged, removed or
/// modified, and every line of the new text once as unchanged, added or
/// modified; so a diff of the two texts counts them that way.
pub proof fn lemma_diff_counts(r: DiffResult, old: Seq<String>, new: Seq<String>)
    requires
        diff_of(r, old, new),
    ensures
        r.stats.unchanged + r.stats.removed + r.stats.modified == old.len(),
        r.stats.unchanged + r.stats.added + r.stats.modified == new.len(),
{
    lemma_side_counts(r.lines@);
}

/// No insertion is directly followed by a deletion: within a run of changes
/// the deletions come first.
spec fn deletions_first(es: Seq<Edit>) -> bool {
    forall|i: int| 0 <= i < es.len() - 1 ==> !#[trigger] insert_then_delete(es, i)
}

spec fn insert_then_delete(es: Seq<Edit>, i: int) -> bool {
    es[i] is Insert && es[i + 1] is Delete
}

proof fn lemma_first_order(e: Edit, rest: Seq<Edit>)
    requires
        deletions_first(rest),
        !(e is Insert && rest.len() > 0 && rest[0] is Delete),
    ensures
        deletions_first(seq![e] + rest),
        (seq![e] + rest)[0] == e,
{
    let es = seq![e] + rest;
    assert forall|i: int| 0 <= i < es.len() - 1 implies !#[trigger] insert_then_delete(es, i) by {
        if i > 0 {
            assert(es[i] == rest[i - 1] && es[i + 1] == rest[i]);
            assert(!insert_then_delete(rest, i - 1));
        } else {
            assert(es[1] == rest[0]);
        }
    }
}

/// An added line is followed only by added or unchanged lines: a run of
/// changes shows its removed lines, then its modified ones, then its added ones.
pub open spec fn additions_last(ls: Seq<DiffLine>) -> bool {
    forall|i: int| 0 <= i < ls.len() - 1 ==> !#[trigger] added_then_old(ls, i)
}

/// Line `i` is added and the next one shows an old line that is not unchanged.
pub open spec fn added_then_old(ls: Seq<DiffLine>, i: int) -> bool {
    ls[i].line_type == DiffLineType::Added
        && (ls[i + 1].line_type == DiffLineType::Removed || ls[i + 1].line_type == DiffLineType::Modified)
}

proof fn lemma_additions_push(ls: Seq<DiffLine>, l: DiffLine)
    requires
        additions_last(ls),
        !(ls.len() > 0 && ls.last().line_type == DiffLineType::Added
            && (l.line_type == DiffLineType::Removed || l.line_type == DiffLineType::Modified)),
    ensures
        additions_last(ls.push(l)),
{
    assert forall|i: int| 0 <= i < ls.push(l).len() - 1 implies !#[trigger] added_then_old(ls.push(l), i) by {
        if i < ls.len() - 1 {
            assert(ls.push(l)[i] == ls[i] && ls.push(l)[i + 1] == ls[i + 1]);
            assert(!added_then_old(ls, i));
        } else {
            assert(ls.push(l)[i] == ls.last());
            assert(ls.push(l)[i + 1] == l);
        }
    }
}

/// No removed line is directly followed by an added one: a deletion followed
/// by an insertion is shown as one modified line.
pub open spec fn changes_paired(ls: Seq<DiffLine>) -> bool {
    forall|i: int| 0 <= i < ls.len() - 1 ==> !#[trigger] split_change(ls, i)
}

/// Line `i` is removed and the next one added.
pub open spec fn split_change(ls: Seq<DiffLine>, i: int) -> bool {
    ls[i].line_type == DiffLineType::Removed && ls[i + 1].line_type == DiffLineType::Added
}

proof fn lemma_paired_push(ls: Seq<DiffLine>, l: DiffLine)
    requires
        changes_paired(ls),
        !(ls.len() > 0 && ls.last().line_type == DiffLineType::Removed && l.line_type == DiffLineType::Added),
    ensures
        changes_paired(ls.push(l)),
        ls.push(l).last() == l,
{
    assert forall|i: int| 0 <= i < ls.push(l).len() - 1 implies !#[trigger] split_change(ls.push(l), i) by {
        if i < ls.len() - 1 {
            assert(ls.push(l)[i] == ls[i] && ls.push(l)[i + 1] == ls[i + 1]);
            assert(!split_change(ls, i));
        } else {
            assert(ls.push(l)[i] == ls.last());
            assert(ls.push(l)[i + 1] == l);
        }
    }
}

/// Myers diff algorithm implementation
///
/// This implements the O(ND) diff algorithm by Eugene W. Myers.
/// Reference: "An O(ND) Difference Algorithm and Its Variations"
pub struct MyersDiff {
    old: Vec<String>,
    new: Vec<String>,
}

impl MyersDiff {
    /// The old text.
    pub closed spec fn old_lines(&self) -> Seq<String> {
        self.old@
    }

    /// The new text.
    pub closed spec fn new_lines(&self) -> Seq<String> {
        self.new@
    }

    /// Create a new Myers diff instance
    pub fn new(old: Vec<String>, new: Vec<String>) -> (r: Self)
        ensures
            r.old_lines() == old@,
            r.new_lines() == new@,
    {
        MyersDiff { old, new }
    }

    /// Compute the diff using Myers algorithm
    ///
    /// The diff is a shortest one: its unchanged lines are a longest common
    /// subsequence of the two texts. Within a run of changes the removed
    /// lines come first, and a removed line directly followed by an added one
    /// is shown as one modified line.
    pub fn compute(&self) -> (r: DiffResult)
        requires
            self.old_lines().len() + self.new_lines().len() <= max_diff_lines(),
        ensures
            diff_of(r, self.old_lines(), self.new_lines()),
            changes_paired(r.lines@),
            additions_last(r.lines@),
            r.stats.unchanged == lcs_len(self.old_lines(), self.new_lines()),
    {
        let edits = self.shortest_edit_script();
        self.edits_to_diff_result(edits)
    }

    /// A vector of `size` zeros.
    fn zeros(size: usize) -> (v: Vec<usize>)
        ensures
            v.len() == size,
            forall|i: int| 0 <= i < size ==> v@[i] == 0,
    {
        let mut v: Vec<usize> = Vec::new();
        let mut i: usize = 0;
        while i < size
            invariant
                i <= size,
                v.len() == i,
                forall|j: int| 0 <= j < i ==> v@[j] == 0,
            decreases size - i,
        {
            v.push(0);
            i = i + 1;
        }
        v
    }

    /// A copy of a vector of positions.
    fn copy_positions(v: &Vec<usize>) -> (r: Vec<usize>)
        ensures
            r@ == v@,
    {
        let mut r: Vec<usize> = Vec::new();
        let mut i: usize = 0;
        while i < v.len()
            invariant
                i <= v.len(),
                r@ == v@.subrange(0, i as int),
            decreases v.len() - i,
        {
            r.push(v[i]);
            i = i + 1;
            assert(r@ =~= v@.subrange(0, i as int));
        }
        assert(r@ =~= v@);
        r
    }

    /// Find the shortest edit script using Myers algorithm
    ///
    /// The furthest-reaching point of diagonal `k` is kept at index `k + max + 1`.
    /// Round `d` reaches, on each diagonal, every point that `d` insertions
    /// and deletions can reach, and no point costs more than `d`; so the first
    /// round that reaches the end of both texts is the fewest edits possible.
    #[verifier::rlimit(100)]
    fn shortest_edit_script(&self) -> (es: Vec<Edit>)
        requires
            self.old@.len() + self.new@.len() <= max_diff_lines(),
        ensures
            valid_script(self.old@, self.new@, 0, 0, es@),
            keeps(es@) == lcs_len(self.old@, self.new@),
            deletions_first(es@),
    {
        let n = self.old.len();
        let m = self.new.len();
        let max = n + m;
        let off = max + 1;
        let size = 2 * max + 3;
        let ghost a = self.old@;
        let ghost b = self.new@;
        let ghost big_d = pd(a, b, n as int, m as int);
        proof {
            lemma_pd_bounds(a, b, n as int, m as int);
        }
        let mut v = Self::zeros(size);
        proof {
            reveal(covers);
            reveal(sound);
            assert forall|x: int, y: int| 0 <= x <= a.len() && 0 <= y <= b.len() && #[trigger] pd(a, b, x, y) <= -1
                && 0 <= x - y + off < v@.len() implies x <= v@[x - y + off] by {
                lemma_pd_bounds(a, b, x, y);
            }
        }
        let mut trace: Vec<Vec<usize>> = Vec::new();
        let mut d: usize = 0;
        while d <= max
            invariant
                a == self.old@,
                b == self.new@,
                n == self.old.len(),
                m == self.new.len(),
                max == n + m,
                max <= max_diff_lines(),
                off == max + 1,
                size == 2 * max + 3,
                big_d == pd(a, b, n as int, m as int),
                n - m <= big_d,
                m - n <= big_d,
                big_d <= max,
                (big_d - (n - m)) % 2 == 0,
                d <= big_d,
                v.len() == size,
                forall|i: int| 0 <= i < size ==> v@[i] <= n + d,
                forall|t: int| 0 <= t < trace.len() ==> (#[trigger] trace@[t]).len() == size,
                forall|t: int, i: int| 0 <= t < trace.len() && 0 <= i < size ==> #[trigger] trace@[t]@[i] <= n + off,
                trace.len() == d,
                covers(a, b, v@, off as int, d - 1),
                sound(a, b, v@, off as int, d - 1),
                d == 0 ==> v@[off + 1] == 0,
                d >= 1 ==> v@ == trace@[d - 1]@,
                forall|t: int| 0 <= t < d ==> sound(a, b, #[trigger] trace@[t]@, off as int, t),
                forall|t: int| 1 <= t < d ==> row_step(a, b, trace@[t - 1]@, #[trigger] trace@[t]@, t, off as int, off + t),
                d >= 1 ==> snake_ok(a, b, 0, trace@[0]@[off as int] as int, 0),
            decreases max + 1 - d,
        {
            let mut cur = Self::copy_positions(&v);
            let mut kk: usize = off - d;
            while kk <= off + d
                invariant
                    a == self.old@,
                    b == self.new@,
                    n == self.old.len(),
                    m == self.new.len(),
                    max == n + m,
                    max <= max_diff_lines(),
                    off == max + 1,
                    size == 2 * max + 3,
                    d <= max,
                    big_d == pd(a, b, n as int, m as int),
                    n - m <= big_d,
                    m - n <= big_d,
                    big_d <= max,
                    (big_d - (n - m)) % 2 == 0,
                    d <= big_d,
                    v.len() == size,
                    cur.len() == size,
                    off - d <= kk <= off + d + 2,
                    (kk - off + d) % 2 == 0,
                    d == big_d ==> kk <= off + n - m,
                    forall|i: int| 0 <= i < size ==> v@[i] <= n + d,
                    forall|i: int| 0 <= i < size ==> cur@[i] <= n + d + 1,
                    forall|t: int| 0 <= t < trace.len() ==> (#[trigger] trace@[t]).len() == size,
                    forall|t: int, i: int| 0 <= t < trace.len() && 0 <= i < size ==> #[trigger] trace@[t]@[i] <= n + off,
                    trace.len() == d,
                    covers(a, b, v@, off as int, d - 1),
                    sound(a, b, v@, off as int, d - 1),
                    d == 0 ==> v@[off + 1] == 0,
                    d >= 1 ==> v@ == trace@[d - 1]@,
                    forall|t: int| 0 <= t < d ==> sound(a, b, #[trigger] trace@[t]@, off as int, t),
                    forall|t: int| 1 <= t < d ==> row_step(a, b, trace@[t - 1]@, #[trigger] trace@[t]@, t, off as int, off + t),
                    d >= 1 ==> snake_ok(a, b, 0, trace@[0]@[off as int] as int, 0),
                    forall|j: int| 0 <= j < size && !(off - d <= j < kk && (j - off + d) % 2 == 0) ==> #[trigger] cur@[j] == v@[j],
                    forall|j: int| off - d <= j < kk && (j - off + d) % 2 == 0 ==> #[trigger] searched(a, b, v@, cur@, j, d as int, off as int),
                decreases off + d + 2 - kk,
            {
                let (x, y) = self.search_diagonal(&v, kk, d, off);
                let ghost k = kk - off;
                let ghost cur0 = cur@;
                cur.set(kk, x);
                proof {
                    assert(searched(a, b, v@, cur@, kk as int, d as int, off as int));
                    assert forall|j: int| off - d <= j < kk + 2 && (j - off + d) % 2 == 0 implies #[trigger] searched(a, b, v@, cur@, j, d as int, off as int) by {
                        if j != kk {
                            assert(cur@[j] == cur0[j]);
                            assert(searched(a, b, v@, cur0, j, d as int, off as int));
                        }
                    }
                }
                if x >= n && y >= m {
                    proof {
                        reveal(reached);
                        lemma_cost_steps(a, b, x as int, y as int);
                        assert(x == n && y == m && d == big_d);
                        lemma_row_upto(a, b, v@, cur@, d as int, off as int, kk as int);
                    }
                    trace.push(cur);
                    proof {
                        assert(trace@[d as int]@ == cur@);
                    }
                    let es = self.backtrack(trace, off, kk);
                    proof {
                        lemma_script_len(a, b, 0, 0, es@);
                    }
                    return es;
                }
                proof {
                    if d == big_d && kk == off + n - m {
                        lemma_pd_bounds(a, b, n as int, m as int);
                        assert(pd(a, b, n as int, m as int) <= d);
                        assert(searched(a, b, v@, cur@, kk as int, d as int, off as int));
                        reveal(reached);
                        assert(n <= x);
                        assert(false);
                    }
                }
                kk = kk + 2;
            }
            proof {
                lemma_round_done(a, b, v@, cur@, d as int, off as int);
            }
            let snapshot = Self::copy_positions(&cur);
            trace.push(snapshot);
            v = cur;
            d = d + 1;
        }
        proof {
            assert(false);
        }
        self.fallback_script()
    }

    /// One diagonal of one round of the search: from the start the previous
    /// round gives, along matching lines as far as they go.
    #[verifier::rlimit(50)]
    fn search_diagonal(&self, v: &Vec<usize>, kk: usize, d: usize, off: usize) -> (r: (usize, usize))
        requires
            self.old@.len() + self.new@.len() <= max_diff_lines(),
            off == self.old@.len() + self.new@.len() + 1,
            v.len() == 2 * off + 1,
            d <= off - 1,
            off - d <= kk <= off + d,
            (kk - off + d) % 2 == 0,
            forall|i: int| 0 <= i < v.len() ==> v@[i] <= self.old@.len() + d,
            covers(self.old@, self.new@, v@, off as int, d - 1),
            sound(self.old@, self.new@, v@, off as int, d - 1),
            d == 0 ==> v@[off + 1] == 0,
        ensures
            r.0 <= self.old@.len() + d + 1,
            r.1 == r.0 + off - kk,
            reached(self.old@, self.new@, v@, kk as int, d as int, off as int, r.0 as int),
            !(r.0 < self.old@.len() && r.1 < self.new@.len() && self.old@[r.0 as int]@ == self.new@[r.1 as int]@),
    {
        let ghost a = self.old@;
        let ghost b = self.new@;
        let n = self.old.len();
        let m = self.new.len();
        let max = n + m;
        let down = kk == off - d || (kk != off + d && v[kk - 1] < v[kk + 1]);
        let mut x = if down {
            v[kk + 1]
        } else {
            v[kk - 1] + 1
        };
        let ghost xs = x as int;
        let ghost k = kk - off;
        proof {
            assert(xs == start_of(v@, kk as int, d as int, off as int));
            lemma_start_sound(a, b, v@, kk as int, d as int, off as int);
        }
        let mut y = if x + off >= kk {
            x + off - kk
        } else {
            0
        };
        while x < n && y < m && self.old[x] == self.new[y]
            invariant
                a == self.old@,
                b == self.new@,
                n == self.old.len(),
                m == self.new.len(),
                x <= n + d + 1,
                max == n + m,
                y == x - k,
                xs <= x,
                snake_ok(a, b, xs, x as int, k),
                cost(a, b, x as int, y as int) <= d,
            decreases n - x,
        {
            proof {
                lemma_cost_steps(a, b, x as int, y as int);
                lemma_snake_extend(a, b, xs, x as int, k);
            }
            x = x + 1;
            y = y + 1;
        }
        proof {
            lemma_cover_all(a, b, v@, off as int, d as int, kk as int, xs, x as int);
            reveal(reached);
        }
        (x, y)
    }

    /// Deletes every old line and inserts every new one.
    fn fallback_script(&self) -> (es: Vec<Edit>)
        ensures
            valid_script(self.old@, self.new@, 0, 0, es@),
    {
        let mut edits: Vec<Edit> = Vec::new();
        let mut x = self.old.len();
        let mut y = self.new.len();
        assert(valid_script(self.old@, self.new@, x as int, y as int, edits@.reverse()));
        while y > 0
            invariant
                x == self.old.len(),
                y <= self.new.len(),
                valid_script(self.old@, self.new@, x as int, y as int, edits@.reverse()),
            decreases y,
        {
            y = y - 1;
            proof {
                lemma_rev_push(edits@, Edit::Insert(y));
                lemma_prepend(self.old@, self.new@, x as int, y as int, Edit::Insert(y), edits@.reverse());
            }
            edits.push(Edit::Insert(y));
        }
        while x > 0
            invariant
                x <= self.old.len(),
                y == 0,
                valid_script(self.old@, self.new@, x as int, y as int, edits@.reverse()),
            decreases x,
        {
            x = x - 1;
            proof {
                lemma_rev_push(edits@, Edit::Delete(x));
                lemma_prepend(self.old@, self.new@, x as int, y as int, Edit::Delete(x), edits@.reverse());
            }
            edits.push(Edit::Delete(x));
        }
        Self::reversed(edits)
    }

    /// The edits in reverse order.
    fn reversed(edits: Vec<Edit>) -> (r: Vec<Edit>)
        ensures
            r@ == edits@.reverse(),
    {
        let mut r: Vec<Edit> = Vec::new();
        let mut i = edits.len();
        while i > 0
            invariant
                i <= edits.len(),
                r.len() == edits.len() - i,
                forall|j: int| 0 <= j < r.len() ==> r@[j] == edits@[edits.len() - 1 - j],
            decreases i,
        {
            i = i - 1;
            r.push(edits[i]);
        }
        assert(r@ =~= edits@.reverse());
        r
    }

    /// Backtrack through the trace to build the edit script
    ///
    /// From the end point, found on diagonal index `kt` in the last round,
    /// each round is walked back along its run of matching lines to where it
    /// started, and one insertion or deletion leads to the previous round's
    /// furthest point; so the script has one edit per round.
    #[verifier::rlimit(100)]
    fn backtrack(&self, trace: Vec<Vec<usize>>, off: usize, kt: usize) -> (es: Vec<Edit>)
        requires
            self.old@.len() + self.new@.len() <= max_diff_lines(),
            off == self.old@.len() + self.new@.len() + 1,
            forall|t: int| 0 <= t < trace.len() ==> (#[trigger] trace@[t]).len() == 2 * off + 1,
            forall|t: int, i: int| 0 <= t < trace.len() && 0 <= i < 2 * off + 1 ==> #[trigger] trace@[t]@[i] <= self.old@.len() + off,
            1 <= trace.len() <= off,
            forall|t: int| 0 <= t < trace.len() - 1 ==> sound(self.old@, self.new@, #[trigger] trace@[t]@, off as int, t),
            forall|t: int| 1 <= t < trace.len() - 1 ==> row_step(self.old@, self.new@, trace@[t - 1]@, #[trigger] trace@[t]@, t, off as int, off + t),
            trace.len() >= 2 ==> row_step(self.old@, self.new@, trace@[trace.len() - 2]@, trace@[trace.len() - 1]@, trace.len() - 1, off as int, kt as int),
            trace.len() == 1 ==> kt == off,
            snake_ok(self.old@, self.new@, 0, trace@[0]@[off as int] as int, 0),
            off - (trace.len() - 1) <= kt <= off + (trace.len() - 1),
            (kt - off + trace.len() - 1) % 2 == 0,
            trace@[trace.len() - 1]@[kt as int] == self.old@.len(),
            kt + self.new@.len() == off + self.old@.len(),
        ensures
            valid_script(self.old@, self.new@, 0, 0, es@),
            es@.len() == keeps(es@) + trace.len() - 1,
            deletions_first(es@),
    {
        let ghost a = self.old@;
        let ghost b = self.new@;
        let ghost big_d = trace.len() - 1;
        let n = self.old.len();
        let m = self.new.len();
        let mut edits: Vec<Edit> = Vec::new();
        let mut x = n;
        let mut y = m;
        let ghost mut kx: int = kt as int;
        assert(valid_script(a, b, x as int, y as int, edits@.reverse()));
        assert(edits@.reverse() =~= Seq::<Edit>::empty());
        assert(deletions_first(edits@.reverse()));
        let mut d = trace.len();
        while d > 0
            invariant_except_break
                1 <= d <= trace.len(),
                kx == x + off - y,
                off - (d - 1) <= kx <= off + (d - 1),
                (kx - off + d - 1) % 2 == 0,
                x == trace@[d - 1]@[kx],
                d - 1 == big_d ==> kx == kt,
                d == 1 ==> kx == off,
                edits@.len() == keeps(edits@.reverse()) + big_d - (d - 1),
                d - 1 == big_d ==> edits@.len() == 0,
                edits@.len() > 0 && edits@.reverse()[0] is Delete ==> (kx == off + (d - 1)
                    || trace@[d - 1]@[kx + 2] <= trace@[d - 1]@[kx]),
            invariant
                deletions_first(edits@.reverse()),
                a == self.old@,
                b == self.new@,
                n == a.len(),
                m == b.len(),
                n + m <= max_diff_lines(),
                off == n + m + 1,
                big_d == trace.len() - 1,
                forall|t: int| 0 <= t < trace.len() ==> (#[trigger] trace@[t]).len() == 2 * off + 1,
                forall|t: int, i: int| 0 <= t < trace.len() && 0 <= i < 2 * off + 1 ==> #[trigger] trace@[t]@[i] <= n + off,
                trace.len() <= off,
                forall|t: int| 0 <= t < trace.len() - 1 ==> sound(a, b, #[trigger] trace@[t]@, off as int, t),
                forall|t: int| 1 <= t < trace.len() - 1 ==> row_step(a, b, trace@[t - 1]@, #[trigger] trace@[t]@, t, off as int, off + t),
                trace.len() >= 2 ==> row_step(a, b, trace@[trace.len() - 2]@, trace@[trace.len() - 1]@, trace.len() - 1, off as int, kt as int),
                snake_ok(a, b, 0, trace@[0]@[off as int] as int, 0),
                x <= n,
                y <= m,
                valid_script(a, b, x as int, y as int, edits@.reverse()),
            ensures
                x == 0,
                y == 0,
                valid_script(a, b, 0, 0, edits@.reverse()),
                edits@.len() == keeps(edits@.reverse()) + big_d,
                deletions_first(edits@.reverse()),
            decreases d,
        {
            d = d - 1;
            let v = &trace[d];
            if d == 0 {
                proof {
                    assert(kx == off);
                    assert(x == trace@[0]@[off as int]);
                }
                self.back_start(x, y, &mut edits);
                x = 0;
                y = 0;
                break;
            }
            let ghost prev = trace@[d - 1]@;
            let ghost row = trace@[d as int]@;
            proof {
                let upto = if d as int == big_d { kt as int } else { off + d };
                assert(row_step(a, b, prev, row, d as int, off as int, upto));
                lemma_back_level(a, b, prev, row, d as int, off as int, upto, kx, x as int);
                assert(sound(a, b, prev, off as int, d - 1));
                if edits@.len() > 0 && edits@.reverse()[0] is Delete && kx != off + d {
                    lemma_row_next(a, b, prev, row, d as int, off as int, upto, kx + 2);
                }
            }
            let (nx, ny, g) = self.back_round(v, Ghost(prev), d, off, x, y, &mut edits);
            x = nx;
            y = ny;
            proof {
                kx = g@;
            }
        }
        Self::reversed(edits)
    }

    /// One round of the walk back: along the round's run of matching lines
    /// to its start, then one insertion or deletion to the previous round's
    /// furthest point, which is returned with its diagonal index.
    #[verifier::rlimit(50)]
    fn back_round(&self, v: &Vec<usize>, prev: Ghost<Seq<usize>>, d: usize, off: usize, x0: usize, y0: usize, edits: &mut Vec<Edit>)
        -> (r: (usize, usize, Ghost<int>))
        requires
            self.old@.len() + self.new@.len() <= max_diff_lines(),
            off == self.old@.len() + self.new@.len() + 1,
            1 <= d <= off - 1,
            v@.len() == 2 * off + 1,
            prev@.len() == 2 * off + 1,
            forall|i: int| 0 <= i < v@.len() ==> v@[i] <= self.old@.len() + off,
            x0 <= self.old@.len(),
            y0 <= self.new@.len(),
            off - d <= x0 + off - y0 <= off + d,
            (x0 - y0 + d) % 2 == 0,
            v@[x0 + off - y0 - 1] == prev@[x0 + off - y0 - 1],
            v@[x0 + off - y0 + 1] == prev@[x0 + off - y0 + 1],
            snake_ok(self.old@, self.new@, start_of(prev@, x0 + off - y0, d as int, off as int), x0 as int, x0 - y0),
            sound(self.old@, self.new@, prev@, off as int, d - 1),
            valid_script(self.old@, self.new@, x0 as int, y0 as int, old(edits)@.reverse()),
            x0 == v@[x0 + off - y0],
            deletions_first(old(edits)@.reverse()),
            old(edits)@.len() > 0 && old(edits)@.reverse()[0] is Delete ==> (x0 + off - y0 == off + d
                || (v@[x0 + off - y0 + 2] <= v@[x0 + off - y0] && v@[x0 + off - y0 + 2] >= prev@[x0 + off - y0 + 1] + 1)),
        ensures
            r.0 == prev@[r.2@],
            r.2@ == r.0 + off - r.1,
            off - (d - 1) <= r.2@ <= off + (d - 1),
            (r.2@ - off + d - 1) % 2 == 0,
            r.0 <= x0,
            r.1 <= y0,
            valid_script(self.old@, self.new@, r.0 as int, r.1 as int, final(edits)@.reverse()),
            final(edits)@.len() - keeps(final(edits)@.reverse()) == old(edits)@.len() - keeps(old(edits)@.reverse()) + 1,
            deletions_first(final(edits)@.reverse()),
            final(edits)@.len() > 0 && final(edits)@.reverse()[0] is Delete ==> (r.2@ + 1 == off + d
                || prev@[r.2@ + 2] <= prev@[r.2@]),
    {
        let ghost a = self.old@;
        let ghost b = self.new@;
        let ghost prev = prev@;
        let n = self.old.len();
        let m = self.new.len();
        let mut x = x0;
        let mut y = y0;
        let ghost kx = x0 + off - y0;
        let ghost k = kx - off;
        let ghost e0 = edits@;
        let kk = x + off - y;
        let prev_k = if kk == off - d || (kk != off + d && v[kk - 1] < v[kk + 1]) {
            kk + 1
        } else {
            kk - 1
        };
        let prev_x = v[prev_k];
        let ghost s = start_of(prev, kx, d as int, off as int);
        proof {
            assert(prev_x == prev[prev_k as int]);
            assert(sound(a, b, prev, off as int, d - 1));
            assert(prev[prev_k as int] + off >= prev_k) by {
                reveal(sound);
            }
            if prev_k == kk + 1 {
                assert(s == prev_x);
            } else {
                assert(s == prev_x + 1);
            }
        }
        let prev_y = if prev_x + off >= prev_k && prev_x <= n {
            prev_x + off - prev_k
        } else {
            0
        };
        proof {
            assert(prev_x <= s <= x <= n);
            if prev_k == kk + 1 {
                assert(prev_y == s - k - 1);
            } else {
                assert(prev_y == s - k);
            }
        }
        while x > prev_x && y > prev_y && self.old[x - 1] == self.new[y - 1]
            invariant
                s == prev_x || s == prev_x + 1,
                s == prev_x ==> prev_y == s - k - 1,
                s == prev_x + 1 ==> prev_y == s - k,
                a == self.old@,
                b == self.new@,
                n == self.old.len(),
                m == self.new.len(),
                x <= n,
                y <= m,
                y == x - k,
                s <= x,
                snake_ok(a, b, s, x as int, k),
                valid_script(a, b, x as int, y as int, edits@.reverse()),
                edits@.len() - keeps(edits@.reverse()) == e0.len() - keeps(e0.reverse()),
                deletions_first(edits@.reverse()),
                x == x0 ==> edits@ == e0,
                x < x0 ==> edits@.len() > 0 && edits@.reverse()[0] is Keep,
                x <= x0,
            decreases x,
        {
            x = x - 1;
            y = y - 1;
            proof {
                lemma_rev_push(edits@, Edit::Keep(x, y));
                lemma_prepend(a, b, x as int, y as int, Edit::Keep(x, y), edits@.reverse());
                lemma_keeps_prepend(Edit::Keep(x, y), edits@.reverse());
                lemma_first_order(Edit::Keep(x, y), edits@.reverse());
            }
            edits.push(Edit::Keep(x, y));
        }
        proof {
            if x > s {
                assert(line_match(a, b, x - 1, k));
                assert(false);
            }
        }
        if x == prev_x {
            if y > 0 {
                y = y - 1;
                proof {
                    lemma_rev_push(edits@, Edit::Insert(y));
                    lemma_prepend(a, b, x as int, y as int, Edit::Insert(y), edits@.reverse());
                    lemma_keeps_prepend(Edit::Insert(y), edits@.reverse());
                    if x == x0 && edits@.len() > 0 && edits@.reverse()[0] is Delete {
                        assert(prev_k == kk + 1);
                        assert(false);
                    }
                    lemma_first_order(Edit::Insert(y), edits@.reverse());
                }
                edits.push(Edit::Insert(y));
            }
        } else {
            if x > 0 {
                x = x - 1;
                proof {
                    lemma_rev_push(edits@, Edit::Delete(x));
                    lemma_prepend(a, b, x as int, y as int, Edit::Delete(x), edits@.reverse());
                    lemma_keeps_prepend(Edit::Delete(x), edits@.reverse());
                    lemma_first_order(Edit::Delete(x), edits@.reverse());
                }
                edits.push(Edit::Delete(x));
            }
        }
        (x, y, Ghost(prev_k as int))
    }

    /// The first round of the walk back: the run of matching lines that the
    /// texts start with, back to their beginning.
    fn back_start(&self, x0: usize, y0: usize, edits: &mut Vec<Edit>)
        requires
            x0 == y0,
            x0 <= self.old@.len(),
            x0 <= self.new@.len(),
            snake_ok(self.old@, self.new@, 0, x0 as int, 0),
            valid_script(self.old@, self.new@, x0 as int, y0 as int, old(edits)@.reverse()),
            deletions_first(old(edits)@.reverse()),
        ensures
            deletions_first(final(edits)@.reverse()),
            valid_script(self.old@, self.new@, 0, 0, final(edits)@.reverse()),
            final(edits)@.len() - keeps(final(edits)@.reverse()) == old(edits)@.len() - keeps(old(edits)@.reverse()),
    {
        let ghost a = self.old@;
        let ghost b = self.new@;
        let ghost e0 = edits@;
        let n = self.old.len();
        let m = self.new.len();
        let mut x = x0;
        let mut y = y0;
        while x > 0 && y > 0 && self.old[x - 1] == self.new[y - 1]
            invariant
                a == self.old@,
                b == self.new@,
                n == self.old.len(),
                m == self.new.len(),
                x <= n,
                y <= m,
                x == y,
                x <= x0,
                snake_ok(a, b, 0, x0 as int, 0),
                valid_script(a, b, x as int, y as int, edits@.reverse()),
                edits@.len() - keeps(edits@.reverse()) == e0.len() - keeps(e0.reverse()),
                deletions_first(edits@.reverse()),
            decreases x,
        {
            x = x - 1;
            y = y - 1;
            proof {
                lemma_rev_push(edits@, Edit::Keep(x, y));
                lemma_prepend(a, b, x as int, y as int, Edit::Keep(x, y), edits@.reverse());
                lemma_keeps_prepend(Edit::Keep(x, y), edits@.reverse());
                lemma_first_order(Edit::Keep(x, y), edits@.reverse());
            }
            edits.push(Edit::Keep(x, y));
        }
        proof {
            if x > 0 {
                assert(line_match(a, b, x - 1, 0));
            }
        }
    }

    /// Convert edit script to diff result with change detection
    fn edits_to_diff_result(&self, edits: Vec<Edit>) -> (r: DiffResult)
        requires
            valid_script(self.old@, self.new@, 0, 0, edits@),
            self.old@.len() + self.new@.len() <= max_diff_lines(),
            deletions_first(edits@),
        ensures
            additions_last(r.lines@),
            diff_of(r, self.old@, self.new@),
            changes_paired(r.lines@),
            r.stats.unchanged == keeps(edits@),
    {
        let mut lines: Vec<DiffLine> = Vec::new();
        let mut pending_delete: Option<(String, usize)> = None;
        let mut left_num: usize = 1;
        let mut right_num: usize = 1;
        let ghost old_v = self.old@;
        let ghost new_v = self.new@;
        let mut i: usize = 0;
        assert(edits@.subrange(0, edits.len() as int) =~= edits@);
        while i < edits.len()
            invariant
                old_v == self.old@,
                new_v == self.new@,
                i <= edits.len(),
                old_v.len() + new_v.len() <= max_diff_lines(),
                1 <= left_num <= old_v.len() + 1,
                1 <= right_num <= new_v.len() + 1,
                valid_script(old_v, new_v, left_num - 1, right_num - 1, edits@.subrange(i as int, edits.len() as int)),
                lefts(lines@) + (match pending_delete {
                    Some(p) => seq![(p.0@, p.1 as int)],
                    None => seq![],
                }) == numbered(old_v).subrange(0, left_num - 1),
                rights(lines@) == numbered(new_v).subrange(0, right_num - 1),
                forall|j: int| 0 <= j < lines.len() ==> wf_line(#[trigger] lines@[j]),
                changes_paired(lines@),
                pending_delete is None && lines@.len() > 0 ==> lines@.last().line_type != DiffLineType::Removed,
                deletions_first(edits@),
                additions_last(lines@),
                lines@.len() > 0 && lines@.last().line_type == DiffLineType::Added ==> pending_delete is None && i > 0
                    && edits@[i - 1] is Insert,
                count_type(lines@, DiffLineType::Unchanged) + keeps(edits@.subrange(i as int, edits.len() as int)) == keeps(edits@),
            decreases edits.len() - i,
        {
            let ghost rest = edits@.subrange(i as int, edits.len() as int);
            assert(rest[0] == edits@[i as int]);
            assert(rest.drop_first() =~= edits@.subrange(i + 1, edits.len() as int));
            assert(keeps(rest) == keeps(rest.drop_first()) + if rest[0] is Keep { 1nat } else { 0nat });
            let ghost lines0 = lines@;
            match edits[i] {
                Edit::Keep(x, _y) => {
                    if let Some(p) = pending_delete.take() {
                        let (content, num) = p;
                        let l = DiffLine::removed(content, num);
                        proof {
                            lemma_push_sides(lines@, l);
                            lemma_paired_push(lines@, l);
                            lemma_additions_push(lines@, l);
                        }
                        lines.push(l);
                    }
                    let ghost lines1 = lines@;
                    let l = DiffLine::unchanged(self.old[x].clone(), left_num, right_num);
                    proof {
                        lemma_push_sides(lines@, l);
                        lemma_paired_push(lines@, l);
                            lemma_additions_push(lines@, l);
                    }
                    lines.push(l);
                    proof {
                        assert(numbered(old_v).subrange(0, left_num as int) =~= numbered(old_v).subrange(0, left_num - 1).push((old_v[x as int]@, left_num as int)));
                        assert(numbered(new_v).subrange(0, right_num as int) =~= numbered(new_v).subrange(0, right_num - 1).push((new_v[right_num - 1]@, right_num as int)));
                        assert(lefts(lines@) =~= numbered(old_v).subrange(0, left_num as int));
                        assert(rights(lines@) =~= numbered(new_v).subrange(0, right_num as int));
                    }
                    left_num = left_num + 1;
                    right_num = right_num + 1;
                },
                Edit::Delete(x) => {
                    proof {
                        if lines@.len() > 0 && lines@.last().line_type == DiffLineType::Added {
                            assert(!insert_then_delete(edits@, i - 1));
                        }
                    }
                    if let Some(p) = pending_delete.take() {
                        let (content, num) = p;
                        let l = DiffLine::removed(content, num);
                        proof {
                            lemma_push_sides(lines@, l);
                            lemma_paired_push(lines@, l);
                            lemma_additions_push(lines@, l);
                        }
                        lines.push(l);
                    }
                    pending_delete = Some((self.old[x].clone(), left_num));
                    proof {
                        assert(numbered(old_v).subrange(0, left_num as int) =~= numbered(old_v).subrange(0, left_num - 1).push((old_v[x as int]@, left_num as int)));
                        assert(lefts(lines@) + seq![(old_v[x as int]@, left_num as int)] =~= numbered(old_v).subrange(0, left_num as int));
                    }
                    left_num = left_num + 1;
                },
                Edit::Insert(y) => {
                    if let Some(p) = pending_delete.take() {
                        let (left_content, left_num_val) = p;
                        let l = DiffLine::modified(left_content, self.new[y].clone(), left_num_val, right_num);
                        proof {
                            lemma_push_sides(lines@, l);
                            lemma_paired_push(lines@, l);
                            lemma_additions_push(lines@, l);
                        }
                        lines.push(l);
                    } else {
                        let l = DiffLine::added(self.new[y].clone(), right_num);
                        proof {
                            lemma_push_sides(lines@, l);
                            lemma_paired_push(lines@, l);
                            lemma_additions_push(lines@, l);
                        }
                        lines.push(l);
                    }
                    proof {
                        assert(numbered(new_v).subrange(0, right_num as int) =~= numbered(new_v).subrange(0, right_num - 1).push((new_v[y as int]@, right_num as int)));
                        assert(rights(lines@) =~= numbered(new_v).subrange(0, right_num as int));
                        assert(lefts(lines@) =~= numbered(old_v).subrange(0, left_num - 1));
                    }
                    right_num = right_num + 1;
                },
            }
            i = i + 1;
        }
        if let Some(p) = pending_delete {
            let (content, num) = p;
            let l = DiffLine::removed(content, num);
            proof {
                lemma_push_sides(lines@, l);
                lemma_paired_push(lines@, l);
                            lemma_additions_push(lines@, l);
            }
            lines.push(l);
        }
        proof {
            assert(edits@.subrange(i as int, edits.len() as int).len() == 0);
            assert(numbered(old_v).subrange(0, old_v.len() as int) =~= numbered(old_v));
            assert(numbered(new_v).subrange(0, new_v.len() as int) =~= numbered(new_v));
        }
        DiffResult::new(lines)
    }
}


/// View mode for displaying diffs
#[derive(Debug, Clone, Copy, PartialEq, Eq, Structural)]
pub enum DiffViewMode {
    /// Side-by-side comparison
    SideBySide,
    /// Unified diff format
    Unified,
}

/// The line-number column: four characters, right-aligned, blank when absent.
pub open spec fn num_field(o: Option<usize>) -> Seq<char> {
    match o {
        Some(n) => pad_right(pad_left(decimal(n as nat), 4), 4),
        None => "    "@,
    }
}

/// A text shown in `w` columns: padded when it fits in `w` bytes, otherwise cut
/// to its first `w - 3` bytes followed by `...`.
pub open spec fn fit(s: Seq<char>, w: nat) -> Seq<char> {
    if byte_len(s) <= w {
        pad_right(s, w)
    } else {
        s.subrange(0, chars_in_bytes(s, if w >= 3 { (w - 3) as nat } else { 0 })) + "..."@
    }
}

/// Whether `s` can be shown in `w` columns without cutting a character apart.
pub open spec fn fits_cleanly(s: Seq<char>, w: nat) -> bool {
    byte_len(s) <= w || byte_boundary(s, if w >= 3 { (w - 3) as nat } else { 0 })
}

/// The text of an optional content, empty when absent.
pub open spec fn content_of(o: Option<String>) -> Seq<char> {
    match o {
        Some(s) => s@,
        None => seq![],
    }
}

/// The marker of the line under the cursor.
pub open spec fn marker(current: bool) -> Seq<char> {
    if current { ">"@ } else { " "@ }
}

/// One row of the side-by-side view, `h` being the width of each half.
pub open spec fn sbs_row(l: DiffLine, current: bool, h: nat) -> Seq<char> {
    let p = marker(current);
    match l.line_type {
        DiffLineType::Unchanged => {
            let t = fit(content_of(l.left_content), (h - 2) as nat);
            p + " "@ + num_field(l.left_line_num) + " "@ + t + " | "@ + num_field(l.right_line_num) + " "@ + t + "\n"@
        },
        DiffLineType::Added => {
            let t = fit(content_of(l.right_content), (h - 2) as nat);
            p + " "@ + "    "@ + " "@ + pad_right(seq![], (h - 6) as nat) + " | \x1b[32m"@ + num_field(l.right_line_num) + " +"@ + t + "\x1b[0m\n"@
        },
        DiffLineType::Removed => {
            let t = fit(content_of(l.left_content), (h - 2) as nat);
            p + " \x1b[31m"@ + num_field(l.left_line_num) + " -"@ + t + "\x1b[0m "@ + pad_right(seq![], (h - 6) as nat) + " | "@ + "    "@ + " \n"@
        },
        DiffLineType::Modified => {
            let tl = fit(content_of(l.left_content), (h - 2) as nat);
            let tr = fit(content_of(l.right_content), (h - 2) as nat);
            p + " \x1b[33m"@ + num_field(l.left_line_num) + " ~"@ + tl + "\x1b[0m | \x1b[33m"@ + num_field(l.right_line_num) + " ~"@ + tr + "\x1b[0m\n"@
        },
    }
}

/// One row of the unified view, `w` being the width left for the text.
pub open spec fn unified_row(l: DiffLine, current: bool, w: nat) -> Seq<char> {
    let p = marker(current);
    match l.line_type {
        DiffLineType::Unchanged => {
            p + " "@ + num_field(l.left_line_num) + " "@ + num_field(l.right_line_num) + "   "@ + fit(content_of(l.left_content), w) + "\n"@
        },
        DiffLineType::Added => {
            p + " "@ + "    "@ + " \x1b[32m"@ + num_field(l.right_line_num) + " + "@ + fit(content_of(l.right_content), w) + "\x1b[0m\n"@
        },
        DiffLineType::Removed => {
            p + " \x1b[31m"@ + num_field(l.left_line_num) + "\x1b[0m "@ + "    "@ + " \x1b[31m- "@ + fit(content_of(l.left_content), w) + "\x1b[0m\n"@
        },
        DiffLineType::Modified => {
            p + " \x1b[33m"@ + num_field(l.left_line_num) + "\x1b[0m "@ + "    "@ + " \x1b[33m- "@ + fit(content_of(l.left_content), w) + "\x1b[0m\n"@
              + p + " "@ + "    "@ + " \x1b[33m"@ + num_field(l.right_line_num) + " + "@ + fit(content_of(l.right_content), w) + "\x1b[0m\n"@
        },
    }
}

/// The rows of the first `k` lines.
pub open spec fn rows(ls: Seq<DiffLine>, current: nat, mode: DiffViewMode, width: nat, k: int) -> Seq<char>
    decreases k,
{
    if k <= 0 {
        seq![]
    } else {
        rows(ls, current, mode, width, k - 1) + match mode {
            DiffViewMode::SideBySide => sbs_row(ls[k - 1], current == k - 1, ((width - 3) / 2) as nat),
            DiffViewMode::Unified => unified_row(ls[k - 1], current == k - 1, (width - 10) as nat),
        }
    }
}

/// The closing rule and the change counts.
pub open spec fn footer(st: DiffStats, width: nat) -> Seq<char> {
    repeated('=', width) + "\n"@ + "\x1b[32m+"@ + decimal(st.added as nat) + "\x1b[0m \x1b[31m-"@
        + decimal(st.removed as nat) + "\x1b[0m \x1b[33m~"@ + decimal(st.modified as nat)
        + "\x1b[0m (Total: "@ + decimal((st.added + st.removed + st.modified) as nat) + " changes)\n"@
}

/// The title lines of a view.
pub open spec fn header(mode: DiffViewMode, width: nat) -> Seq<char> {
    match mode {
        DiffViewMode::SideBySide => "\x1b[1m"@ + pad_center("Old"@, ((width - 3) / 2) as nat) + " | "@
            + pad_center("New"@, ((width - 3) / 2) as nat) + "\x1b[0m\n"@ + repeated('=', width) + "\n"@,
        DiffViewMode::Unified => "\x1b[1mUnified Diff\x1b[0m\n"@ + repeated('=', width) + "\n"@,
    }
}

/// The whole rendered view.
pub open spec fn rendered(r: DiffResult, mode: DiffViewMode, current: nat, width: nat) -> Seq<char> {
    header(mode, width) + rows(r.lines@, current, mode, width, r.lines.len() as int) + footer(r.stats, width)
}

/// The width of the text column of each line of a view.
pub open spec fn text_width(mode: DiffViewMode, width: nat) -> nat {
    match mode {
        DiffViewMode::SideBySide => ((width - 3) / 2 - 2) as nat,
        DiffViewMode::Unified => (width - 10) as nat,
    }
}

/// When a view can be drawn: the width leaves room for every column the lines
/// need, every text is cut on a character boundary, and the counts fit.
pub open spec fn can_render(r: DiffResult, mode: DiffViewMode, width: nat) -> bool {
    &&& match mode {
        DiffViewMode::SideBySide => width >= 7 && (width >= 15 || forall|i: int|
            0 <= i < r.lines.len() ==> (#[trigger] r.lines@[i]).line_type == DiffLineType::Unchanged
                || r.lines@[i].line_type == DiffLineType::Modified),
        DiffViewMode::Unified => width >= 10,
    }
    &&& forall|i: int| 0 <= i < r.lines.len() ==> {
        &&& fits_cleanly(content_of((#[trigger] r.lines@[i]).left_content), text_width(mode, width))
        &&& fits_cleanly(content_of(r.lines@[i].right_content), text_width(mode, width))
        &&& content_of(r.lines@[i].left_content).len() <= usize::MAX / 4
        &&& content_of(r.lines@[i].right_content).len() <= usize::MAX / 4
    }
    &&& r.stats.added + r.stats.removed + r.stats.modified <= usize::MAX
}

/// Diff viewer for terminal display
pub struct DiffViewer {
    /// The diff result to display
    result: DiffResult,
    /// Current view mode
    mode: DiffViewMode,
    /// Current line being viewed (for navigation)
    current_line: usize,
    /// Width of the terminal
    terminal_width: usize,
}

impl DiffViewer {
    /// The diff on display.
    pub closed spec fn shown(&self) -> DiffResult {
        self.result
    }

    /// The view mode.
    pub closed spec fn view_mode(&self) -> DiffViewMode {
        self.mode
    }

    /// The line under the cursor.
    pub closed spec fn cursor(&self) -> usize {
        self.current_line
    }

    /// The terminal width.
    pub closed spec fn width(&self) -> usize {
        self.terminal_width
    }

    /// Create a new diff viewer
    pub fn new(result: DiffResult, terminal_width: usize) -> (v: Self)
        ensures
            v.shown() == result,
            v.view_mode() == DiffViewMode::SideBySide,
            v.cursor() == 0,
            v.width() == terminal_width,
    {
        DiffViewer { result, mode: DiffViewMode::SideBySide, current_line: 0, terminal_width }
    }

    /// Set the view mode
    pub fn set_mode(&mut self, mode: DiffViewMode)
        ensures
            final(self).view_mode() == mode,
            final(self).shown() == old(self).shown(),
            final(self).cursor() == old(self).cursor(),
            final(self).width() == old(self).width(),
    {
        self.mode = mode;
    }

    /// Navigate to the next change
    pub fn next_change(&mut self) -> (moved: bool)
        ensures
            final(self).shown() == old(self).shown(),
            final(self).view_mode() == old(self).view_mode(),
            final(self).width() == old(self).width(),
            moved <==> exists|j: int| old(self).cursor() < j && is_change(old(self).shown().lines@, j),
            moved ==> final(self).cursor() > old(self).cursor() && is_change(
                old(self).shown().lines@,
                final(self).cursor() as int,
            ) && forall|j: int| old(self).cursor() < j < final(self).cursor() ==> !is_change(old(self).shown().lines@, j),
            !moved ==> final(self).cursor() == old(self).cursor(),
    {
        if let Some(idx) = self.result.next_change(self.current_line) {
            assert(is_change(self.result.lines@, idx as int));
            assert(exists|j: int| self.current_line < j && is_change(self.result.lines@, j));
            self.current_line = idx;
            true
        } else {
            false
        }
    }

    /// Navigate to the previous change
    pub fn prev_change(&mut self) -> (moved: bool)
        ensures
            final(self).shown() == old(self).shown(),
            final(self).view_mode() == old(self).view_mode(),
            final(self).width() == old(self).width(),
            moved <==> exists|j: int| j < old(self).cursor() && is_change(old(self).shown().lines@, j),
            moved ==> final(self).cursor() < old(self).cursor() && is_change(
                old(self).shown().lines@,
                final(self).cursor() as int,
            ) && forall|j: int| final(self).cursor() < j < old(self).cursor() ==> !is_change(old(self).shown().lines@, j),
            !moved ==> final(self).cursor() == old(self).cursor(),
    {
        if let Some(idx) = self.result.prev_change(self.current_line) {
            assert(is_change(self.result.lines@, idx as int));
            assert(exists|j: int| j < self.current_line && is_change(self.result.lines@, j));
            self.current_line = idx;
            true
        } else {
            false
        }
    }

    /// Get the current line index
    pub fn current_line(&self) -> (r: usize)
        ensures
            r == self.cursor(),
    {
        self.current_line
    }

    /// Set the current line index
    pub fn set_current_line(&mut self, line: usize)
        ensures
            final(self).shown() == old(self).shown(),
            final(self).view_mode() == old(self).view_mode(),
            final(self).width() == old(self).width(),
            final(self).cursor() == if line < old(self).shown().lines.len() {
                line
            } else {
                old(self).cursor()
            },
    {
        if line < self.result.lines.len() {
            self.current_line = line;
        }
    }

    /// Get reference to the diff result
    pub fn result(&self) -> (r: &DiffResult)
        ensures
            *r == self.shown(),
    {
        &self.result
    }

    /// Render the diff to a string with ANSI color codes
    pub fn render(&self) -> (out: String)
        requires
            can_render(self.shown(), self.view_mode(), self.width() as nat),
        ensures
            out@ == rendered(self.shown(), self.view_mode(), self.cursor() as nat, self.width() as nat),
    {
        let mut out = String::new();
        self.push_header(&mut out);
        let n = self.result.lines.len();
        let mut i: usize = 0;
        let ghost head = out@;
        while i < n
            invariant
                n == self.result.lines.len(),
                i <= n,
                can_render(self.result, self.mode, self.terminal_width as nat),
                out@ == head + rows(self.result.lines@, self.current_line as nat, self.mode, self.terminal_width as nat, i as int),
            decreases n - i,
        {
            self.push_row(&mut out, i);
            i = i + 1;
        }
        self.push_footer(&mut out);
        out
    }

    fn push_header(&self, out: &mut String)
        requires
            can_render(self.result, self.mode, self.terminal_width as nat),
        ensures
            final(out)@ == old(out)@ + header(self.mode, self.terminal_width as nat),
    {
        let ghost o0 = out@;
        match self.mode {
            DiffViewMode::SideBySide => {
                let half = (self.terminal_width - 3) / 2;
                push_str(out, "\x1b[1m");
                push_pad_center(out, &chars_of("Old"), half);
                push_str(out, " | ");
                push_pad_center(out, &chars_of("New"), half);
                push_str(out, "\x1b[0m\n");
                push_repeated(out, '=', self.terminal_width);
                push_str(out, "\n");
            },
            DiffViewMode::Unified => {
                push_str(out, "\x1b[1mUnified Diff\x1b[0m\n");
                push_repeated(out, '=', self.terminal_width);
                push_str(out, "\n");
            },
        }
        assert(out@ =~= o0 + header(self.mode, self.terminal_width as nat));
    }

    fn push_footer(&self, out: &mut String)
        requires
            self.result.stats.added + self.result.stats.removed + self.result.stats.modified <= usize::MAX,
        ensures
            final(out)@ == old(out)@ + footer(self.result.stats, self.terminal_width as nat),
    {
        let ghost o0 = out@;
        push_repeated(out, '=', self.terminal_width);
        push_str(out, "\n");
        push_str(out, "\x1b[32m+");
        push_str(out, &usize_to_string(self.result.stats.added));
        push_str(out, "\x1b[0m \x1b[31m-");
        push_str(out, &usize_to_string(self.result.stats.removed));
        push_str(out, "\x1b[0m \x1b[33m~");
        push_str(out, &usize_to_string(self.result.stats.modified));
        push_str(out, "\x1b[0m (Total: ");
        push_str(out, &usize_to_string(self.result.stats.total_changes()));
        push_str(out, " changes)\n");
        assert(out@ =~= o0 + footer(self.result.stats, self.terminal_width as nat));
    }

    /// Appends the line-number column.
    fn push_num(out: &mut String, o: Option<usize>)
        ensures
            final(out)@ == old(out)@ + num_field(o),
    {
        match o {
            Some(n) => {
                let ghost o0 = out@;
                let mut t = String::new();
                let d = chars_of(&usize_to_string(n));
                push_pad_left(&mut t, &d, 4);
                let tv = chars_of(&t);
                push_pad_right(out, &tv, 4);
                assert(out@ =~= o0 + num_field(o));
            },
            None => push_str(out, "    "),
        }
    }

    /// Appends a text shown in `w` columns.
    fn push_fit(out: &mut String, o: &Option<String>, w: usize)
        requires
            fits_cleanly(content_of(*o), w as nat),
            content_of(*o).len() <= usize::MAX / 4,
        ensures
            final(out)@ == old(out)@ + fit(content_of(*o), w as nat),
    {
        let v = match o {
            Some(s) => chars_of(s.as_str()),
            None => Vec::new(),
        };
        assert(v@ =~= content_of(*o));
        let b = utf8_len(&v);
        if b <= w {
            push_pad_right(out, &v, w);
        } else {
            let cut = if w >= 3 { w - 3 } else { 0 };
            let p = byte_prefix(&v, cut);
            let ghost o0 = out@;
            push_chars(out, &p);
            push_str(out, "...");
            assert(out@ =~= o0 + fit(content_of(*o), w as nat));
        }
    }

    fn push_row(&self, out: &mut String, i: usize)
        requires
            i < self.result.lines.len(),
            can_render(self.result, self.mode, self.terminal_width as nat),
        ensures
            final(out)@ == old(out)@ + match self.mode {
                DiffViewMode::SideBySide => sbs_row(self.result.lines@[i as int], self.current_line == i, ((self.terminal_width - 3) / 2) as nat),
                DiffViewMode::Unified => unified_row(self.result.lines@[i as int], self.current_line == i, (self.terminal_width - 10) as nat),
            },
    {
        let line = &self.result.lines[i];
        let is_current = i == self.current_line;
        match self.mode {
            DiffViewMode::SideBySide => {
                let half = (self.terminal_width - 3) / 2;
                Self::push_sbs_row(out, line, is_current, half);
            },
            DiffViewMode::Unified => {
                Self::push_unified_row(out, line, is_current, self.terminal_width - 10);
            },
        }
    }

    fn push_sbs_row(out: &mut String, line: &DiffLine, is_current: bool, half: usize)
        requires
            half >= 2,
            line.line_type == DiffLineType::Added || line.line_type == DiffLineType::Removed ==> half >= 6,
            fits_cleanly(content_of(line.left_content), (half - 2) as nat),
            fits_cleanly(content_of(line.right_content), (half - 2) as nat),
            content_of(line.left_content).len() <= usize::MAX / 4,
            content_of(line.right_content).len() <= usize::MAX / 4,
        ensures
            final(out)@ == old(out)@ + sbs_row(*line, is_current, half as nat),
    {
        match line.line_type {
            DiffLineType::Unchanged => Self::push_sbs_row_unchanged(out, line, is_current, half),
            DiffLineType::Added => Self::push_sbs_row_added(out, line, is_current, half),
            DiffLineType::Removed => Self::push_sbs_row_removed(out, line, is_current, half),
            DiffLineType::Modified => Self::push_sbs_row_modified(out, line, is_current, half),
        }
    }

    #[verifier::spinoff_prover]
    #[verifier::rlimit(60)]
    fn push_sbs_row_unchanged(out: &mut String, line: &DiffLine, is_current: bool, half: usize)
        requires
            line.line_type == DiffLineType::Unchanged,
            half >= 2,
            line.line_type == DiffLineType::Added || line.line_type == DiffLineType::Removed ==> half >= 6,
            fits_cleanly(content_of(line.left_content), (half - 2) as nat),
            fits_cleanly(content_of(line.right_content), (half - 2) as nat),
            content_of(line.left_content).len() <= usize::MAX / 4,
            content_of(line.right_content).len() <= usize::MAX / 4,
        ensures
            final(out)@ == old(out)@ + sbs_row(*line, is_current, half as nat),
    {
        let ghost o0 = out@;
        let prefix = if is_current { ">" } else { " " };
        assert(prefix@ == marker(is_current));
        let ghost mut acc: Seq<char>;
        let mut t = String::new();
        Self::push_fit(&mut t, &line.left_content, half - 2);
        push_str(out, prefix);
        proof { acc = prefix@; assert(out@ =~= o0 + acc); }
        push_str(out, " ");
        proof { acc = acc + " "@; assert(out@ =~= o0 + acc); }
        Self::push_num(out, line.left_line_num);
        proof { acc = acc + num_field(line.left_line_num); assert(out@ =~= o0 + acc); }
        push_str(out, " ");
        proof { acc = acc + " "@; assert(out@ =~= o0 + acc); }
        push_str(out, t.as_str());
        proof { acc = acc + t@; assert(out@ =~= o0 + acc); }
        push_str(out, " | ");
        proof { acc = acc + " | "@; assert(out@ =~= o0 + acc); }
        Self::push_num(out, line.right_line_num);
        proof { acc = acc + num_field(line.right_line_num); assert(out@ =~= o0 + acc); }
        push_str(out, " ");
        proof { acc = acc + " "@; assert(out@ =~= o0 + acc); }
        push_str(out, t.as_str());
        proof { acc = acc + t@; assert(out@ =~= o0 + acc); }
        push_str(out, "\n");
        proof { acc = acc + "\n"@; assert(out@ =~= o0 + acc); }
        assert(acc == sbs_row(*line, is_current, half as nat));
    }

    #[verifier::spinoff_prover]
    #[verifier::rlimit(60)]
    fn push_sbs_row_added(out: &mut String, line: &DiffLine, is_current: bool, half: usize)
        requires
            line.line_type == DiffLineType::Added,
            half >= 2,
            line.line_type == DiffLineType::Added || line.line_type == DiffLineType::Removed ==> half >= 6,
            fits_cleanly(content_of(line.left_content), (half - 2) as nat),
            fits_cleanly(content_of(line.right_content), (half - 2) as nat),
            content_of(line.left_content).len() <= usize::MAX / 4,
            content_of(line.right_content).len() <= usize::MAX / 4,
        ensures
            final(out)@ == old(out)@ + sbs_row(*line, is_current, half as nat),
    {
        let ghost o0 = out@;
        let prefix = if is_current { ">" } else { " " };
        assert(prefix@ == marker(is_current));
        let ghost mut acc: Seq<char>;
        push_str(out, prefix);
        proof { acc = prefix@; assert(out@ =~= o0 + acc); }
        push_str(out, " ");
        proof { acc = acc + " "@; assert(out@ =~= o0 + acc); }
        push_str(out, "    ");
        proof { acc = acc + "    "@; assert(out@ =~= o0 + acc); }
        push_str(out, " ");
        proof { acc = acc + " "@; assert(out@ =~= o0 + acc); }
        push_pad_right(out, &Vec::new(), half - 6);
        proof { acc = acc + pad_right(seq![], (half - 6) as nat); assert(out@ =~= o0 + acc); }
        push_str(out, " | \x1b[32m");
        proof { acc = acc + " | \x1b[32m"@; assert(out@ =~= o0 + acc); }
        Self::push_num(out, line.right_line_num);
        proof { acc = acc + num_field(line.right_line_num); assert(out@ =~= o0 + acc); }
        push_str(out, " +");
        proof { acc = acc + " +"@; assert(out@ =~= o0 + acc); }
        Self::push_fit(out, &line.right_content, half - 2);
        proof { acc = acc + fit(content_of(line.right_content), (half - 2) as nat); assert(out@ =~= o0 + acc); }
        push_str(out, "\x1b[0m\n");
        proof { acc = acc + "\x1b[0m\n"@; assert(out@ =~= o0 + acc); }
        assert(acc == sbs_row(*line, is_current, half as nat));
    }

    #[verifier::spinoff_prover]
    #[verifier::rlimit(60)]
    fn push_sbs_row_removed(out: &mut String, line: &DiffLine, is_current: bool, half: usize)
        requires
            line.line_type == DiffLineType::Removed,
            half >= 2,
            line.line_type == DiffLineType::Added || line.line_type == DiffLineType::Removed ==> half >= 6,
            fits_cleanly(content_of(line.left_content), (half - 2) as nat),
            fits_cleanly(content_of(line.right_content), (half - 2) as nat),
            content_of(line.left_content).len() <= usize::MAX / 4,
            content_of(line.right_content).len() <= usize::MAX / 4,
        ensures
            final(out)@ == old(out)@ + sbs_row(*line, is_current, half as nat),
    {
        let ghost o0 = out@;
        let prefix = if is_current { ">" } else { " " };
        assert(prefix@ == marker(is_current));
        let ghost mut acc: Seq<char>;
        push_str(out, prefix);
        proof { acc = prefix@; assert(out@ =~= o0 + acc); }
        push_str(out, " \x1b[31m");
        proof { acc = acc + " \x1b[31m"@; assert(out@ =~= o0 + acc); }
        Self::push_num(out, line.left_line_num);
        proof { acc = acc + num_field(line.left_line_num); assert(out@ =~= o0 + acc); }
        push_str(out, " -");
        proof { acc = acc + " -"@; assert(out@ =~= o0 + acc); }
        Self::push_fit(out, &line.left_content, half - 2);
        proof { acc = acc + fit(content_of(line.left_content), (half - 2) as nat); assert(out@ =~= o0 + acc); }
        push_str(out, "\x1b[0m ");
        proof { acc = acc + "\x1b[0m "@; assert(out@ =~= o0 + acc); }
        push_pad_right(out, &Vec::new(), half - 6);
        proof { acc = acc + pad_right(seq![], (half - 6) as nat); assert(out@ =~= o0 + acc); }
        push_str(out, " | ");
        proof { acc = acc + " | "@; assert(out@ =~= o0 + acc); }
        push_str(out, "    ");
        proof { acc = acc + "    "@; assert(out@ =~= o0 + acc); }
        push_str(out, " \n");
        proof { acc = acc + " \n"@; assert(out@ =~= o0 + acc); }
        assert(acc == sbs_row(*line, is_current, half as nat));
    }

    #[verifier::spinoff_prover]
    #[verifier::rlimit(60)]
    fn push_sbs_row_modified(out: &mut String, line: &DiffLine, is_current: bool, half: usize)
        requires
            line.line_type == DiffLineType::Modified,
            half >= 2,
            line.line_type == DiffLineType::Added || line.line_type == DiffLineType::Removed ==> half >= 6,
            fits_cleanly(content_of(line.left_content), (half - 2) as nat),
            fits_cleanly(content_of(line.right_content), (half - 2) as nat),
            content_of(line.left_content).len() <= usize::MAX / 4,
            content_of(line.right_content).len() <= usize::MAX / 4,
        ensures
            final(out)@ == old(out)@ + sbs_row(*line, is_current, half as nat),
    {
        let ghost o0 = out@;
        let prefix = if is_current { ">" } else { " " };
        assert(prefix@ == marker(is_current));
        let ghost mut acc: Seq<char>;
        push_str(out, prefix);
        proof { acc = prefix@; assert(out@ =~= o0 + acc); }
        push_str(out, " \x1b[33m");
        proof { acc = acc + " \x1b[33m"@; assert(out@ =~= o0 + acc); }
        Self::push_num(out, line.left_line_num);
        proof { acc = acc + num_field(line.left_line_num); assert(out@ =~= o0 + acc); }
        push_str(out, " ~");
        proof { acc = acc + " ~"@; assert(out@ =~= o0 + acc); }
        Self::push_fit(out, &line.left_content, half - 2);
        proof { acc = acc + fit(content_of(line.left_content), (half - 2) as nat); assert(out@ =~= o0 + acc); }
        push_str(out, "\x1b[0m | \x1b[33m");
        proof { acc = acc + "\x1b[0m | \x1b[33m"@; assert(out@ =~= o0 + acc); }
        Self::push_num(out, line.right_line_num);
        proof { acc = acc + num_field(line.right_line_num); assert(out@ =~= o0 + acc); }
        push_str(out, " ~");
        proof { acc = acc + " ~"@; assert(out@ =~= o0 + acc); }
        Self::push_fit(out, &line.right_content, half - 2);
        proof { acc = acc + fit(content_of(line.right_content), (half - 2) as nat); assert(out@ =~= o0 + acc); }
        push_str(out, "\x1b[0m\n");
        proof { acc = acc + "\x1b[0m\n"@; assert(out@ =~= o0 + acc); }
        assert(acc == sbs_row(*line, is_current, half as nat));
    }


    fn push_unified_row(out: &mut String, line: &DiffLine, is_current: bool, w: usize)
        requires
            fits_cleanly(content_of(line.left_content), w as nat),
            fits_cleanly(content_of(line.right_content), w as nat),
            content_of(line.left_content).len() <= usize::MAX / 4,
            content_of(line.right_content).len() <= usize::MAX / 4,
        ensures
            final(out)@ == old(out)@ + unified_row(*line, is_current, w as nat),
    {
        match line.line_type {
            DiffLineType::Unchanged => Self::push_unified_row_unchanged(out, line, is_current, w),
            DiffLineType::Added => Self::push_unified_row_added(out, line, is_current, w),
            DiffLineType::Removed => Self::push_unified_row_removed(out, line, is_current, w),
            DiffLineType::Modified => Self::push_unified_row_modified(out, line, is_current, w),
        }
    }

    #[verifier::spinoff_prover]
    #[verifier::rlimit(60)]
    fn push_unified_row_unchanged(out: &mut String, line: &DiffLine, is_current: bool, w: usize)
        requires
            line.line_type == DiffLineType::Unchanged,
            fits_cleanly(content_of(line.left_content), w as nat),
            fits_cleanly(content_of(line.right_content), w as nat),
            content_of(line.left_content).len() <= usize::MAX / 4,
            content_of(line.right_content).len() <= usize::MAX / 4,
        ensures
            final(out)@ == old(out)@ + unified_row(*line, is_current, w as nat),
    {
        let ghost o0 = out@;
        let prefix = if is_current { ">" } else { " " };
        assert(prefix@ == marker(is_current));
        let ghost mut acc: Seq<char>;
        push_str(out, prefix);
        proof { acc = prefix@; assert(out@ =~= o0 + acc); }
        push_str(out, " ");
        proof { acc = acc + " "@; assert(out@ =~= o0 + acc); }
        Self::push_num(out, line.left_line_num);
        proof { acc = acc + num_field(line.left_line_num); assert(out@ =~= o0 + acc); }
        push_str(out, " ");
        proof { acc = acc + " "@; assert(out@ =~= o0 + acc); }
        Self::push_num(out, line.right_line_num);
        proof { acc = acc + num_field(line.right_line_num); assert(out@ =~= o0 + acc); }
        push_str(out, "   ");
        proof { acc = acc + "   "@; assert(out@ =~= o0 + acc); }
        Self::push_fit(out, &line.left_content, w);
        proof { acc = acc + fit(content_of(line.left_content), (w) as nat); assert(out@ =~= o0 + acc); }
        push_str(out, "\n");
        proof { acc = acc + "\n"@; assert(out@ =~= o0 + acc); }
        assert(acc == unified_row(*line, is_current, w as nat));
    }

    #[verifier::spinoff_prover]
    #[verifier::rlimit(60)]
    fn push_unified_row_added(out: &mut String, line: &DiffLine, is_current: bool, w: usize)
        requires
            line.line_type == DiffLineType::Added,
            fits_cleanly(content_of(line.left_content), w as nat),
            fits_cleanly(content_of(line.right_content), w as nat),
            content_of(line.left_content).len() <= usize::MAX / 4,
            content_of(line.right_content).len() <= usize::MAX / 4,
        ensures
            final(out)@ == old(out)@ + unified_row(*line, is_current, w as nat),
    {
        let ghost o0 = out@;
        let prefix = if is_current { ">" } else { " " };
        assert(prefix@ == marker(is_current));
        let ghost mut acc: Seq<char>;
        push_str(out, prefix);
        proof { acc = prefix@; assert(out@ =~= o0 + acc); }
        push_str(out, " ");
        proof { acc = acc + " "@; assert(out@ =~= o0 + acc); }
        push_str(out, "    ");
        proof { acc = acc + "    "@; assert(out@ =~= o0 + acc); }
        push_str(out, " \x1b[32m");
        proof { acc = acc + " \x1b[32m"@; assert(out@ =~= o0 + acc); }
        Self::push_num(out, line.right_line_num);
        proof { acc = acc + num_field(line.right_line_num); assert(out@ =~= o0 + acc); }
        push_str(out, " + ");
        proof { acc = acc + " + "@; assert(out@ =~= o0 + acc); }
        Self::push_fit(out, &line.right_content, w);
        proof { acc = acc + fit(content_of(line.right_content), (w) as nat); assert(out@ =~= o0 + acc); }
        push_str(out, "\x1b[0m\n");
        proof { acc = acc + "\x1b[0m\n"@; assert(out@ =~= o0 + acc); }
        assert(acc == unified_row(*line, is_current, w as nat));
    }

    #[verifier::spinoff_prover]
    #[verifier::rlimit(60)]
    fn push_unified_row_removed(out: &mut String, line: &DiffLine, is_current: bool, w: usize)
        requires
            line.line_type == DiffLineType::Removed,
            fits_cleanly(content_of(line.left_content), w as nat),
            fits_cleanly(content_of(line.right_content), w as nat),
            content_of(line.left_content).len() <= usize::MAX / 4,
            content_of(line.right_content).len() <= usize::MAX / 4,
        ensures
            final(out)@ == old(out)@ + unified_row(*line, is_current, w as nat),
    {
        let ghost o0 = out@;
        let prefix = if is_current { ">" } else { " " };
        assert(prefix@ == marker(is_current));
        let ghost mut acc: Seq<char>;
        push_str(out, prefix);
        proof { acc = prefix@; assert(out@ =~= o0 + acc); }
        push_str(out, " \x1b[31m");
        proof { acc = acc + " \x1b[31m"@; assert(out@ =~= o0 + acc); }
        Self::push_num(out, line.left_line_num);
        proof { acc = acc + num_field(line.left_line_num); assert(out@ =~= o0 + acc); }
        push_str(out, "\x1b[0m ");
        proof { acc = acc + "\x1b[0m "@; assert(out@ =~= o0 + acc); }
        push_str(out, "    ");
        proof { acc = acc + "    "@; assert(out@ =~= o0 + acc); }
        push_str(out, " \x1b[31m- ");
        proof { acc = acc + " \x1b[31m- "@; assert(out@ =~= o0 + acc); }
        Self::push_fit(out, &line.left_content, w);
        proof { acc = acc + fit(content_of(line.left_content), (w) as nat); assert(out@ =~= o0 + acc); }
        push_str(out, "\x1b[0m\n");
        proof { acc = acc + "\x1b[0m\n"@; assert(out@ =~= o0 + acc); }
        assert(acc == unified_row(*line, is_current, w as nat));
    }

    #[verifier::spinoff_prover]
    #[verifier::rlimit(60)]
    fn push_unified_row_modified(out: &mut String, line: &DiffLine, is_current: bool, w: usize)
        requires
            line.line_type == DiffLineType::Modified,
            fits_cleanly(content_of(line.left_content), w as nat),
            fits_cleanly(content_of(line.right_content), w as nat),
            content_of(line.left_content).len() <= usize::MAX / 4,
            content_of(line.right_content).len() <= usize::MAX / 4,
        ensures
            final(out)@ == old(out)@ + unified_row(*line, is_current, w as nat),
    {
        let ghost o0 = out@;
        let prefix = if is_current { ">" } else { " " };
        assert(prefix@ == marker(is_current));
        let ghost mut acc: Seq<char>;
        push_str(out, prefix);
        proof { acc = prefix@; assert(out@ =~= o0 + acc); }
        push_str(out, " \x1b[33m");
        proof { acc = acc + " \x1b[33m"@; assert(out@ =~= o0 + acc); }
        Self::push_num(out, line.left_line_num);
        proof { acc = acc + num_field(line.left_line_num); assert(out@ =~= o0 + acc); }
        push_str(out, "\x1b[0m ");
        proof { acc = acc + "\x1b[0m "@; assert(out@ =~= o0 + acc); }
        push_str(out, "    ");
        proof { acc = acc + "    "@; assert(out@ =~= o0 + acc); }
        push_str(out, " \x1b[33m- ");
        proof { acc = acc + " \x1b[33m- "@; assert(out@ =~= o0 + acc); }
        Self::push_fit(out, &line.left_content, w);
        proof { acc = acc + fit(content_of(line.left_content), (w) as nat); assert(out@ =~= o0 + acc); }
        push_str(out, "\x1b[0m\n");
        proof { acc = acc + "\x1b[0m\n"@; assert(out@ =~= o0 + acc); }
        push_str(out, prefix);
        proof { acc = acc + prefix@; assert(out@ =~= o0 + acc); }
        push_str(out, " ");
        proof { acc = acc + " "@; assert(out@ =~= o0 + acc); }
        push_str(out, "    ");
        proof { acc = acc + "    "@; assert(out@ =~= o0 + acc); }
        push_str(out, " \x1b[33m");
        proof { acc = acc + " \x1b[33m"@; assert(out@ =~= o0 + acc); }
        Self::push_num(out, line.right_line_num);
        proof { acc = acc + num_field(line.right_line_num); assert(out@ =~= o0 + acc); }
        push_str(out, " + ");
        proof { acc = acc + " + "@; assert(out@ =~= o0 + acc); }
        Self::push_fit(out, &line.right_content, w);
        proof { acc = acc + fit(content_of(line.right_content), (w) as nat); assert(out@ =~= o0 + acc); }
        push_str(out, "\x1b[0m\n");
        proof { acc = acc + "\x1b[0m\n"@; assert(out@ =~= o0 + acc); }
        assert(acc == unified_row(*line, is_current, w as nat));
    }

}


/// Lines of text paired with their 1-based numbers.
pub open spec fn numbered_text(v: Seq<Seq<char>>) -> Seq<(Seq<char>, int)> {
    Seq::new(v.len(), |i: int| (v[i], i + 1))
}

/// Number of line breaks in a text.
pub open spec fn newlines(s: Seq<char>) -> nat
    decreases s.len(),
{
    if s.len() == 0 {
        0
    } else {
        newlines(s.drop_last()) + if s.last() == '\n' { 1nat } else { 0nat }
    }
}

pub broadcast proof fn lemma_newlines_concat(a: Seq<char>, b: Seq<char>)
    ensures
        #[trigger] newlines(a + b) == newlines(a) + newlines(b),
    decreases b.len(),
{
    if b.len() > 0 {
        lemma_newlines_concat(a, b.drop_last());
        assert((a + b).drop_last() =~= a + b.drop_last());
        assert((a + b).last() == b.last());
    } else {
        assert(a + b =~= a);
    }
}

proof fn lemma_newlines_none(s: Seq<char>)
    requires
        forall|i: int| 0 <= i < s.len() ==> s[i] != '\n',
    ensures
        newlines(s) == 0,
    decreases s.len(),
{
    if s.len() > 0 {
        lemma_newlines_none(s.drop_last());
    }
}

proof fn lemma_newlines_decimal(n: nat)
    ensures
        newlines(decimal(n)) == 0,
    decreases n,
{
    if n >= 10 {
        lemma_newlines_decimal(n / 10);
        lemma_newlines_concat(decimal(n / 10), seq![crate::fmt::digit_char(n % 10)]);
        lemma_newlines_none(seq![crate::fmt::digit_char(n % 10)]);
        assert(decimal(n / 10).push(crate::fmt::digit_char(n % 10)) =~= decimal(n / 10) + seq![crate::fmt::digit_char(n % 10)]);
    } else {
        lemma_newlines_none(decimal(n));
    }
}

proof fn lemma_newlines_repeated(c: char, k: nat)
    requires
        c != '\n',
    ensures
        newlines(repeated(c, k)) == 0,
        newlines(crate::fmt::spaces(k)) == 0,
{
    lemma_newlines_none(repeated(c, k));
    lemma_newlines_none(crate::fmt::spaces(k));
}

proof fn lemma_newlines_pads(s: Seq<char>, w: nat)
    requires
        newlines(s) == 0,
    ensures
        newlines(crate::fmt::pad_left(s, w)) == 0,
        newlines(crate::fmt::pad_right(s, w)) == 0,
        newlines(crate::fmt::pad_center(s, w)) == 0,
{
    broadcast use lemma_newlines_concat;
    if s.len() < w {
        let extra = (w - s.len()) as nat;
        lemma_newlines_repeated(' ', extra);
        lemma_newlines_repeated(' ', extra / 2);
        lemma_newlines_repeated(' ', (extra - extra / 2) as nat);
    }
}

proof fn lemma_newlines_prefix(s: Seq<char>, k: int)
    requires
        0 <= k <= s.len(),
    ensures
        newlines(s.subrange(0, k)) <= newlines(s),
{
    lemma_newlines_concat(s.subrange(0, k), s.subrange(k, s.len() as int));
    assert(s.subrange(0, k) + s.subrange(k, s.len() as int) =~= s);
}

/// The fields a row is made of hold no line break when the texts hold none.
proof fn lemma_newlines_fields(o: Option<usize>, t: Seq<char>, w: nat)
    requires
        newlines(t) == 0,
        fits_cleanly(t, w),
    ensures
        newlines(num_field(o)) == 0,
        newlines(fit(t, w)) == 0,
{
    broadcast use lemma_newlines_concat;
    match o {
        Some(n) => {
            lemma_newlines_decimal(n as nat);
            lemma_newlines_pads(decimal(n as nat), 4);
            lemma_newlines_pads(crate::fmt::pad_left(decimal(n as nat), 4), 4);
        },
        None => {
            reveal_strlit("    ");
            lemma_newlines_none("    "@);
        },
    }
    lemma_newlines_pads(t, w);
    if byte_len(t) > w {
        let k = chars_in_bytes(t, if w >= 3 { (w - 3) as nat } else { 0 });
        assert(byte_boundary(t, if w >= 3 { (w - 3) as nat } else { 0 }));
        assert(0 <= k <= t.len());
        lemma_newlines_prefix(t, k);
        reveal_strlit("...");
        lemma_newlines_none("..."@);
    }
}

proof fn lemma_line_end(s: Seq<char>)
    requires
        s.len() > 0,
        s.last() == '\n',
        forall|i: int| 0 <= i < s.len() - 1 ==> s[i] != '\n',
    ensures
        newlines(s) == 1,
{
    lemma_newlines_none(s.drop_last());
}

/// The pieces of text the rows are made of: none holds a line break but
/// those that end a row, which hold one.
proof fn lemma_row_pieces()
    ensures
        newlines(">"@) == 0,
        newlines(" "@) == 0,
        newlines(" | "@) == 0,
        newlines("    "@) == 0,
        newlines(" | \x1b[32m"@) == 0,
        newlines(" +"@) == 0,
        newlines(" \x1b[31m"@) == 0,
        newlines(" \x1b[32m"@) == 0,
        newlines(" -"@) == 0,
        newlines("\x1b[0m "@) == 0,
        newlines(" \x1b[33m"@) == 0,
        newlines(" ~"@) == 0,
        newlines("\x1b[0m | \x1b[33m"@) == 0,
        newlines("   "@) == 0,
        newlines(" + "@) == 0,
        newlines(" \x1b[31m- "@) == 0,
        newlines(" \x1b[33m- "@) == 0,
        newlines("\n"@) == 1,
        newlines("\x1b[0m\n"@) == 1,
        newlines(" \n"@) == 1,
{
    reveal_strlit(">");
    lemma_newlines_none(">"@);
    reveal_strlit(" ");
    lemma_newlines_none(" "@);
    reveal_strlit(" | ");
    lemma_newlines_none(" | "@);
    reveal_strlit("    ");
    lemma_newlines_none("    "@);
    reveal_strlit(" | \x1b[32m");
    lemma_newlines_none(" | \x1b[32m"@);
    reveal_strlit(" +");
    lemma_newlines_none(" +"@);
    reveal_strlit(" \x1b[31m");
    lemma_newlines_none(" \x1b[31m"@);
    reveal_strlit(" \x1b[32m");
    lemma_newlines_none(" \x1b[32m"@);
    reveal_strlit(" -");
    lemma_newlines_none(" -"@);
    reveal_strlit("\x1b[0m ");
    lemma_newlines_none("\x1b[0m "@);
    reveal_strlit(" \x1b[33m");
    lemma_newlines_none(" \x1b[33m"@);
    reveal_strlit(" ~");
    lemma_newlines_none(" ~"@);
    reveal_strlit("\x1b[0m | \x1b[33m");
    lemma_newlines_none("\x1b[0m | \x1b[33m"@);
    reveal_strlit("   ");
    lemma_newlines_none("   "@);
    reveal_strlit(" + ");
    lemma_newlines_none(" + "@);
    reveal_strlit(" \x1b[31m- ");
    lemma_newlines_none(" \x1b[31m- "@);
    reveal_strlit(" \x1b[33m- ");
    lemma_newlines_none(" \x1b[33m- "@);
    reveal_strlit("\n");
    lemma_line_end("\n"@);
    reveal_strlit("\x1b[0m\n");
    lemma_line_end("\x1b[0m\n"@);
    reveal_strlit(" \n");
    lemma_line_end(" \n"@);
}

/// A row of the side-by-side view ends with its one line break.
proof fn lemma_sbs_row_lines(l: DiffLine, current: bool, h: nat)
    requires
        newlines(content_of(l.left_content)) == 0,
        newlines(content_of(l.right_content)) == 0,
        fits_cleanly(content_of(l.left_content), (h - 2) as nat),
        fits_cleanly(content_of(l.right_content), (h - 2) as nat),
    ensures
        newlines(sbs_row(l, current, h)) == 1,
{
    broadcast use lemma_newlines_concat;
    lemma_row_pieces();
    lemma_newlines_fields(l.left_line_num, content_of(l.left_content), (h - 2) as nat);
    lemma_newlines_fields(l.right_line_num, content_of(l.right_content), (h - 2) as nat);
    lemma_newlines_repeated(' ', (h - 6) as nat);
    assert(pad_right(seq![], (h - 6) as nat) =~= crate::fmt::spaces((h - 6) as nat));
}

/// A row of the unified view is one line, and two for a modified line.
#[verifier::rlimit(30)]
proof fn lemma_unified_row_lines(l: DiffLine, current: bool, w: nat)
    requires
        newlines(content_of(l.left_content)) == 0,
        newlines(content_of(l.right_content)) == 0,
        fits_cleanly(content_of(l.left_content), w),
        fits_cleanly(content_of(l.right_content), w),
    ensures
        newlines(unified_row(l, current, w)) == if l.line_type == DiffLineType::Modified { 2nat } else { 1nat },
{
    broadcast use lemma_newlines_concat;
    lemma_row_pieces();
    lemma_newlines_fields(l.left_line_num, content_of(l.left_content), w);
    lemma_newlines_fields(l.right_line_num, content_of(l.right_content), w);
    assert(newlines(marker(current)) == 0);
}

/// The pieces of text the title and the closing lines are made of.
proof fn lemma_frame_pieces()
    ensures
        newlines("\x1b[1m"@) == 0,
        newlines("Old"@) == 0,
        newlines("New"@) == 0,
        newlines("\x1b[32m+"@) == 0,
        newlines("\x1b[0m \x1b[31m-"@) == 0,
        newlines("\x1b[0m \x1b[33m~"@) == 0,
        newlines("\x1b[0m (Total: "@) == 0,
        newlines("\x1b[1mUnified Diff\x1b[0m\n"@) == 1,
        newlines(" changes)\n"@) == 1,
{
    reveal_strlit("\x1b[1m");
    lemma_newlines_none("\x1b[1m"@);
    reveal_strlit("Old");
    lemma_newlines_none("Old"@);
    reveal_strlit("New");
    lemma_newlines_none("New"@);
    reveal_strlit("\x1b[32m+");
    lemma_newlines_none("\x1b[32m+"@);
    reveal_strlit("\x1b[0m \x1b[31m-");
    lemma_newlines_none("\x1b[0m \x1b[31m-"@);
    reveal_strlit("\x1b[0m \x1b[33m~");
    lemma_newlines_none("\x1b[0m \x1b[33m~"@);
    reveal_strlit("\x1b[0m (Total: ");
    lemma_newlines_none("\x1b[0m (Total: "@);
    reveal_strlit("\x1b[1mUnified Diff\x1b[0m\n");
    lemma_line_end("\x1b[1mUnified Diff\x1b[0m\n"@);
    reveal_strlit(" changes)\n");
    lemma_line_end(" changes)\n"@);
}

/// The title and the closing lines are two lines each.
proof fn lemma_frame_lines(mode: DiffViewMode, st: DiffStats, width: nat)
    ensures
        newlines(header(mode, width)) == 2,
        newlines(footer(st, width)) == 2,
{
    broadcast use lemma_newlines_concat;
    lemma_frame_pieces();
    lemma_row_pieces();
    lemma_newlines_repeated('=', width);
    reveal_strlit("Old");
    reveal_strlit("New");
    lemma_newlines_pads("Old"@, ((width - 3) / 2) as nat);
    lemma_newlines_pads("New"@, ((width - 3) / 2) as nat);
    lemma_newlines_decimal(st.added as nat);
    lemma_newlines_decimal(st.removed as nat);
    lemma_newlines_decimal(st.modified as nat);
    lemma_newlines_decimal((st.added + st.removed + st.modified) as nat);
}

/// The rows of the first `k` lines: one line each, and one more for each
/// modified line of the unified view.
proof fn lemma_rows_lines(ls: Seq<DiffLine>, current: nat, mode: DiffViewMode, width: nat, k: int)
    requires
        0 <= k <= ls.len(),
        mode == DiffViewMode::SideBySide ==> width >= 7,
        mode == DiffViewMode::Unified ==> width >= 10,
        forall|i: int| 0 <= i < ls.len() ==> newlines(content_of((#[trigger] ls[i]).left_content)) == 0
            && newlines(content_of(ls[i].right_content)) == 0
            && fits_cleanly(content_of(ls[i].left_content), text_width(mode, width))
            && fits_cleanly(content_of(ls[i].right_content), text_width(mode, width)),
    ensures
        newlines(rows(ls, current, mode, width, k)) == k + match mode {
            DiffViewMode::SideBySide => 0nat,
            DiffViewMode::Unified => count_type(ls.subrange(0, k), DiffLineType::Modified),
        },
    decreases k,
{
    if k > 0 {
        lemma_rows_lines(ls, current, mode, width, k - 1);
        let l = ls[k - 1];
        let prev = rows(ls, current, mode, width, k - 1);
        assert(ls.subrange(0, k).drop_last() =~= ls.subrange(0, k - 1));
        assert(ls.subrange(0, k).last() == l);
        match mode {
            DiffViewMode::SideBySide => {
                assert(text_width(mode, width) == ((((width - 3) / 2) as nat) - 2) as nat);
                lemma_sbs_row_lines(l, current == k - 1, ((width - 3) / 2) as nat);
                lemma_newlines_concat(prev, sbs_row(l, current == k - 1, ((width - 3) / 2) as nat));
            },
            DiffViewMode::Unified => {
                lemma_unified_row_lines(l, current == k - 1, (width - 10) as nat);
                lemma_newlines_concat(prev, unified_row(l, current == k - 1, (width - 10) as nat));
            },
        }
    }
}

/// A view whose texts hold no line break shows one line per diff line, and
/// the unified view one more per modified line, between two title lines and
/// two closing lines.
pub proof fn lemma_render_lines(r: DiffResult, mode: DiffViewMode, current: nat, width: nat)
    requires
        can_render(r, mode, width),
        stats_of(r),
        forall|i: int| 0 <= i < r.lines.len() ==> newlines(content_of((#[trigger] r.lines@[i]).left_content)) == 0
            && newlines(content_of(r.lines@[i].right_content)) == 0,
    ensures
        newlines(rendered(r, mode, current, width)) == r.lines.len() + 4 + match mode {
            DiffViewMode::SideBySide => 0nat,
            DiffViewMode::Unified => r.stats.modified as nat,
        },
{
    broadcast use lemma_newlines_concat;
    lemma_rows_lines(r.lines@, current, mode, width, r.lines.len() as int);
    assert(r.lines@.subrange(0, r.lines.len() as int) =~= r.lines@);
    lemma_frame_lines(mode, r.stats, width);
}

/// Convenience function to compute and display a diff
///
/// The lines of both texts are diffed and shown side by side; each text must be
/// short enough to be shown in the columns of the given width.
pub fn diff_strings(old: &str, new: &str, terminal_width: usize) -> (out: String)
    requires
        lines_of(old@).len() + lines_of(new@).len() <= max_diff_lines(),
        terminal_width >= 15,
        forall|i: int| 0 <= i < lines_of(old@).len() ==> fits_cleanly(#[trigger] lines_of(old@)[i], ((terminal_width - 3) / 2 - 2) as nat)
            && lines_of(old@)[i].len() <= usize::MAX / 4,
        forall|i: int| 0 <= i < lines_of(new@).len() ==> fits_cleanly(#[trigger] lines_of(new@)[i], ((terminal_width - 3) / 2 - 2) as nat)
            && lines_of(new@)[i].len() <= usize::MAX / 4,
    ensures
        exists|r: DiffResult, ov: Seq<String>, nv: Seq<String>| {
            &&& numbered(ov) == numbered_text(lines_of(old@))
            &&& numbered(nv) == numbered_text(lines_of(new@))
            &&& diff_of(r, ov, nv)
            &&& changes_paired(r.lines@)
            &&& additions_last(r.lines@)
            &&& r.stats.unchanged == lcs_len(ov, nv)
            &&& out@ == rendered(r, DiffViewMode::SideBySide, 0, terminal_width as nat)
        },
{
    let old_lines = lines_of_str(old);
    let new_lines = lines_of_str(new);
    let diff = MyersDiff::new(old_lines, new_lines);
    let result = diff.compute();
    proof {
        assert(numbered(old_lines@) =~= numbered_text(lines_of(old@)));
        assert(numbered(new_lines@) =~= numbered_text(lines_of(new@)));
        lemma_render_ok(result, old_lines@, new_lines@, terminal_width as nat);
    }
    let viewer = DiffViewer::new(result, terminal_width);
    let out = viewer.render();
    assert(out@ == rendered(result, DiffViewMode::SideBySide, 0, terminal_width as nat));
    assert(numbered(old_lines@) == numbered_text(lines_of(old@)));
    out
}

proof fn lemma_entry_in_sides(ls: Seq<DiffLine>, i: int)
    requires
        0 <= i < ls.len(),
    ensures
        left_entry(ls[i]).len() == 1 ==> lefts(ls).contains(left_entry(ls[i])[0]),
        right_entry(ls[i]).len() == 1 ==> rights(ls).contains(right_entry(ls[i])[0]),
    decreases ls.len(),
{
    if i < ls.len() - 1 {
        lemma_entry_in_sides(ls.drop_last(), i);
        assert(ls.drop_last()[i] == ls[i]);
        if left_entry(ls[i]).len() == 1 {
            let w = choose|w: int| 0 <= w < lefts(ls.drop_last()).len() && lefts(ls.drop_last())[w] == left_entry(ls[i])[0];
            assert(lefts(ls)[w] == left_entry(ls[i])[0]);
        }
        if right_entry(ls[i]).len() == 1 {
            let w = choose|w: int| 0 <= w < rights(ls.drop_last()).len() && rights(ls.drop_last())[w] == right_entry(ls[i])[0];
            assert(rights(ls)[w] == right_entry(ls[i])[0]);
        }
    } else {
        if left_entry(ls[i]).len() == 1 {
            assert(lefts(ls)[lefts(ls).len() - 1] == left_entry(ls[i])[0]);
        }
        if right_entry(ls[i]).len() == 1 {
            assert(rights(ls)[rights(ls).len() - 1] == right_entry(ls[i])[0]);
        }
    }
}

proof fn lemma_render_ok(r: DiffResult, old: Seq<String>, new: Seq<String>, width: nat)
    requires
        diff_of(r, old, new),
        old.len() + new.len() <= max_diff_lines(),
        width >= 15,
        forall|i: int| 0 <= i < old.len() ==> fits_cleanly(#[trigger] old[i]@, ((width - 3) / 2 - 2) as nat)
            && old[i]@.len() <= usize::MAX / 4,
        forall|i: int| 0 <= i < new.len() ==> fits_cleanly(#[trigger] new[i]@, ((width - 3) / 2 - 2) as nat)
            && new[i]@.len() <= usize::MAX / 4,
    ensures
        can_render(r, DiffViewMode::SideBySide, width),
{
    lemma_counts_total(r.lines@);
    assert forall|i: int| 0 <= i < r.lines.len() implies {
        &&& fits_cleanly(content_of((#[trigger] r.lines@[i]).left_content), text_width(DiffViewMode::SideBySide, width))
        &&& fits_cleanly(content_of(r.lines@[i].right_content), text_width(DiffViewMode::SideBySide, width))
        &&& content_of(r.lines@[i].left_content).len() <= usize::MAX / 4
        &&& content_of(r.lines@[i].right_content).len() <= usize::MAX / 4
    } by {
        let l = r.lines@[i];
        assert(wf_line(l));
        lemma_entry_in_sides(r.lines@, i);
        if l.left_content is Some {
            let e = left_entry(l)[0];
            let w = choose|w: int| 0 <= w < numbered(old).len() && numbered(old)[w] == e;
            assert(old[w]@ == content_of(l.left_content));
        }
        if l.right_content is Some {
            let e = right_entry(l)[0];
            let w = choose|w: int| 0 <= w < numbered(new).len() && numbered(new)[w] == e;
            assert(new[w]@ == content_of(l.right_content));
        }
        assert(byte_len(seq![]) == 0);
    }
}

} // verus!
