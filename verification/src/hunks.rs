//! The hunk selector: it walks the edit script, expands every changed
//! region by the context radius, and merges windows that would overlap or
//! touch into disjoint hunks, ordered as the script is.

use crate::diffs::{changed_op, has_left, has_right, left_of, right_of, DiffOp};
use vstd::prelude::*;

verus! {

/// A contiguous sub-range `[op_start, op_end)` of the edit script, with the
/// 1-based starting line number and the count of lines shown per side
/// (`left_start`/`right_start` are 0 when the hunk shows no line of that
/// side).
#[derive(Clone, Copy, Debug, PartialEq, Eq, Structural)]
pub struct Hunk {
    pub op_start: usize,
    pub op_end: usize,
    pub left_start: usize,
    pub left_count: usize,
    pub right_start: usize,
    pub right_count: usize,
}

/// No changed op in `[lo, hi)`.
pub open spec fn common_between(ops: Seq<DiffOp>, lo: int, hi: int) -> bool {
    forall|m: int| lo <= m < hi ==> !changed_op(#[trigger] ops[m])
}

/// Within `[a, b]`, consecutive changed ops are separated by at most
/// `2 * r` common ops, so their context windows overlap or touch.
pub open spec fn cluster_tight(ops: Seq<DiffOp>, r: int, a: int, b: int) -> bool {
    forall|i: int, j: int|
        a <= i < j <= b && changed_op(#[trigger] ops[i]) && changed_op(#[trigger] ops[j])
            && common_between(ops, i + 1, j) ==> j - i <= 2 * r + 1
}

/// `h` is the context window of radius `r` around the change cluster whose
/// first and last changed ops sit at `a` and `b`, clipped at the script's
/// boundaries.
pub open spec fn hunk_range_wf(ops: Seq<DiffOp>, r: int, h: Hunk, a: int, b: int) -> bool {
    &&& 0 <= h.op_start <= a <= b < h.op_end <= ops.len()
    &&& changed_op(ops[a])
    &&& changed_op(ops[b])
    &&& h.op_start == if a - r >= 0 {
        a - r
    } else {
        0
    }
    &&& h.op_end == if b + r + 1 <= ops.len() {
        b + r + 1
    } else {
        ops.len() as int
    }
    &&& common_between(ops, h.op_start as int, a)
    &&& common_between(ops, b + 1, h.op_end as int)
    &&& cluster_tight(ops, r, a, b)
}

pub open spec fn hunk_wf(ops: Seq<DiffOp>, r: int, h: Hunk) -> bool {
    exists|a: int, b: int| hunk_range_wf(ops, r, h, a, b)
}

pub open spec fn in_hunk(h: Hunk, i: int) -> bool {
    h.op_start <= i < h.op_end
}

pub open spec fn covered(hs: Seq<Hunk>, i: int) -> bool {
    exists|k: int| 0 <= k < hs.len() && in_hunk(#[trigger] hs[k], i)
}

/// The hunks are well formed, disjoint and ordered, and together they cover
/// every changed op of the script.
pub open spec fn hunks_wf(ops: Seq<DiffOp>, r: int, hs: Seq<Hunk>) -> bool {
    &&& forall|k: int| 0 <= k < hs.len() ==> hunk_wf(ops, r, #[trigger] hs[k])
    &&& forall|k1: int, k2: int|
        0 <= k1 < k2 < hs.len() ==> #[trigger] hs[k1].op_end < #[trigger] hs[k2].op_start
    &&& forall|i: int| 0 <= i < ops.len() && changed_op(#[trigger] ops[i]) ==> covered(hs, i)
}

/// How many ops of `[lo, hi)` show a left line.
pub open spec fn count_left_ops(ops: Seq<DiffOp>, lo: int, hi: int) -> int
    decreases hi - lo,
{
    if lo >= hi {
        0
    } else {
        count_left_ops(ops, lo, hi - 1) + if has_left(ops[hi - 1]) {
            1int
        } else {
            0int
        }
    }
}

/// How many ops of `[lo, hi)` show a right line.
pub open spec fn count_right_ops(ops: Seq<DiffOp>, lo: int, hi: int) -> int
    decreases hi - lo,
{
    if lo >= hi {
        0
    } else {
        count_right_ops(ops, lo, hi - 1) + if has_right(ops[hi - 1]) {
            1int
        } else {
            0int
        }
    }
}

/// `f` is the first op of the hunk that shows a left line, and the header
/// field reports its 1-based line number.
pub open spec fn first_left_at(ops: Seq<DiffOp>, h: Hunk, f: int) -> bool {
    &&& h.op_start <= f < h.op_end
    &&& has_left(ops[f])
    &&& (forall|m: int| h.op_start <= m < f ==> !has_left(#[trigger] ops[m]))
    &&& h.left_start == left_of(ops[f]) + 1
}

pub open spec fn first_right_at(ops: Seq<DiffOp>, h: Hunk, f: int) -> bool {
    &&& h.op_start <= f < h.op_end
    &&& has_right(ops[f])
    &&& (forall|m: int| h.op_start <= m < f ==> !has_right(#[trigger] ops[m]))
    &&& h.right_start == right_of(ops[f]) + 1
}

/// The header fields of `h` are derived strictly from the ops present in
/// the hunk: the count of lines shown per side, and the 1-based number of
/// the first line shown (0 for a side with no line).
pub open spec fn hunk_lines_wf(ops: Seq<DiffOp>, h: Hunk) -> bool {
    &&& h.left_count == count_left_ops(ops, h.op_start as int, h.op_end as int)
    &&& h.right_count == count_right_ops(ops, h.op_start as int, h.op_end as int)
    &&& (h.left_count == 0 ==> h.left_start == 0)
    &&& (h.right_count == 0 ==> h.right_start == 0)
    &&& (h.left_count > 0 ==> exists|f: int| first_left_at(ops, h, f))
    &&& (h.right_count > 0 ==> exists|f: int| first_right_at(ops, h, f))
}

fn is_changed(op: &DiffOp) -> (r: bool)
    ensures
        r == changed_op(*op),
{
    match op {
        DiffOp::Common { .. } => false,
        _ => true,
    }
}

/// Scans forward from the changed op at `first` and finds the whole change
/// cluster: `last` is its final changed op, and the scan stops at `j`, the
/// first position too far past `last` to merge (or the script's end).
fn scan_cluster(ops: &Vec<DiffOp>, first: usize, radius: usize) -> (res: (usize, usize))
    requires
        radius <= usize::MAX / 4,
        first < ops@.len(),
        changed_op(ops@[first as int]),
    ensures
        first <= res.0 < res.1 <= ops@.len(),
        changed_op(ops@[res.0 as int]),
        common_between(ops@, res.0 as int + 1, res.1 as int),
        cluster_tight(ops@, radius as int, first as int, res.0 as int),
        res.1 < ops@.len() ==> res.1 - res.0 > 2 * radius + 1,
{
    let n = ops.len();
    let mut last = first;
    let mut j = first + 1;
    while j < n && j - last <= 2 * radius + 1
        invariant
            first <= last < j <= n,
            n == ops@.len(),
            radius <= usize::MAX / 4,
            changed_op(ops@[first as int]),
            changed_op(ops@[last as int]),
            common_between(ops@, last as int + 1, j as int),
            cluster_tight(ops@, radius as int, first as int, last as int),
            j - last <= 2 * radius + 2,
        decreases n - j,
    {
        if is_changed(&ops[j]) {
            proof {
                let r = radius as int;
                assert forall|p: int, q: int|
                    first <= p < q <= j as int && changed_op(#[trigger] ops@[p]) && changed_op(
                        #[trigger] ops@[q],
                    ) && common_between(ops@, p + 1, q) implies q - p <= 2 * r + 1 by {
                    if q <= last as int {
                    } else if p < last as int {
                        assert(!changed_op(ops@[last as int]));
                    } else {
                        assert(p == last as int);
                    }
                }
            }
            last = j;
        }
        j = j + 1;
    }
    (last, j)
}

/// Scans `[s, e)` of the edit script and derives the header fields of the
/// hunk over that range: per side, how many lines are shown and the 1-based
/// number of the first one (0 when the side shows no line).
fn hunk_fields(ops: &Vec<DiffOp>, s: usize, e: usize) -> (h: Hunk)
    requires
        s < e <= ops@.len(),
        forall|i: int| 0 <= i < ops@.len() ==> left_of(#[trigger] ops@[i]) < usize::MAX,
        forall|i: int| 0 <= i < ops@.len() ==> right_of(#[trigger] ops@[i]) < usize::MAX,
    ensures
        h.op_start == s,
        h.op_end == e,
        hunk_lines_wf(ops@, h),
{
    let mut left_count: usize = 0;
    let mut right_count: usize = 0;
    let mut left_start: usize = 0;
    let mut right_start: usize = 0;
    let ghost mut fl: int = 0;
    let ghost mut fr: int = 0;
    let mut m = s;
    while m < e
        invariant
            s <= m <= e <= ops@.len(),
            forall|p: int| 0 <= p < ops@.len() ==> left_of(#[trigger] ops@[p]) < usize::MAX,
            forall|p: int| 0 <= p < ops@.len() ==> right_of(#[trigger] ops@[p]) < usize::MAX,
            left_count as int == count_left_ops(ops@, s as int, m as int),
            right_count as int == count_right_ops(ops@, s as int, m as int),
            left_count <= m - s,
            right_count <= m - s,
            left_count == 0 ==> left_start == 0 && forall|p: int|
                s as int <= p < m as int ==> !has_left(#[trigger] ops@[p]),
            right_count == 0 ==> right_start == 0 && forall|p: int|
                s as int <= p < m as int ==> !has_right(#[trigger] ops@[p]),
            left_count > 0 ==> s as int <= fl < m as int && has_left(ops@[fl]) && (forall|p: int|
                s as int <= p < fl ==> !has_left(#[trigger] ops@[p])) && left_start as int
                == left_of(ops@[fl]) + 1,
            right_count > 0 ==> s as int <= fr < m as int && has_right(ops@[fr]) && (forall|p: int|
                s as int <= p < fr ==> !has_right(#[trigger] ops@[p])) && right_start as int
                == right_of(ops@[fr]) + 1,
        decreases e - m,
    {
        match ops[m] {
            DiffOp::Removed { left } => {
                if left_count == 0 {
                    left_start = left + 1;
                    proof {
                        fl = m as int;
                    }
                }
                left_count = left_count + 1;
            },
            DiffOp::Added { right } => {
                if right_count == 0 {
                    right_start = right + 1;
                    proof {
                        fr = m as int;
                    }
                }
                right_count = right_count + 1;
            },
            DiffOp::Common { left, right } => {
                if left_count == 0 {
                    left_start = left + 1;
                    proof {
                        fl = m as int;
                    }
                }
                left_count = left_count + 1;
                if right_count == 0 {
                    right_start = right + 1;
                    proof {
                        fr = m as int;
                    }
                }
                right_count = right_count + 1;
            },
        }
        m = m + 1;
    }
    let h = Hunk { op_start: s, op_end: e, left_start, left_count, right_start, right_count };
    proof {
        if left_count > 0 {
            assert(first_left_at(ops@, h, fl));
        }
        if right_count > 0 {
            assert(first_right_at(ops@, h, fr));
        }
    }
    h
}

/// Walks the edit script and produces the ordered, disjoint hunks: every
/// changed op lies in exactly one hunk, each hunk carries up to `radius`
/// common ops of context on both ends, clipped at the script's boundaries,
/// and clusters whose context windows would overlap or touch are merged.  A
/// script without changes yields no hunks.
#[verifier::rlimit(100)]
pub fn select_hunks(ops: &Vec<DiffOp>, radius: usize) -> (hs: Vec<Hunk>)
    requires
        radius <= usize::MAX / 4,
        forall|i: int| 0 <= i < ops@.len() ==> left_of(#[trigger] ops@[i]) < usize::MAX,
        forall|i: int| 0 <= i < ops@.len() ==> right_of(#[trigger] ops@[i]) < usize::MAX,
    ensures
        hunks_wf(ops@, radius as int, hs@),
        forall|k: int| 0 <= k < hs@.len() ==> hunk_lines_wf(ops@, #[trigger] hs@[k]),
        (forall|i: int| 0 <= i < ops@.len() ==> !changed_op(#[trigger] ops@[i])) ==> hs@.len()
            == 0,
{
    let n = ops.len();
    let ghost r = radius as int;
    let mut hs: Vec<Hunk> = Vec::new();
    let mut i: usize = 0;
    while i < n
        invariant
            0 <= i <= n,
            n == ops@.len(),
            radius <= usize::MAX / 4,
            r == radius as int,
            forall|m: int| 0 <= m < ops@.len() ==> left_of(#[trigger] ops@[m]) < usize::MAX,
            forall|m: int| 0 <= m < ops@.len() ==> right_of(#[trigger] ops@[m]) < usize::MAX,
            forall|k: int| 0 <= k < hs@.len() ==> hunk_wf(ops@, r, #[trigger] hs@[k]),
            forall|k: int| 0 <= k < hs@.len() ==> hunk_lines_wf(ops@, #[trigger] hs@[k]),
            forall|k1: int, k2: int|
                0 <= k1 < k2 < hs@.len() ==> #[trigger] hs@[k1].op_end
                    < #[trigger] hs@[k2].op_start,
            forall|m: int| 0 <= m < i && changed_op(#[trigger] ops@[m]) ==> covered(hs@, m),
            i < n ==> forall|k: int|
                0 <= k < hs@.len() ==> #[trigger] hs@[k].op_end as int + r < i as int,
            hs@.len() == 0 || exists|m: int| 0 <= m < ops@.len() && changed_op(
                #[trigger] ops@[m],
            ),
        decreases n - i,
    {
        if is_changed(&ops[i]) {
            let first = i;
            let (last, j) = scan_cluster(ops, first, radius);
            let s = if first >= radius {
                first - radius
            } else {
                0
            };
            let e = if n - last - 1 <= radius {
                n
            } else {
                last + radius + 1
            };
            proof {
                assert(e as int == if last as int + r + 1 <= ops@.len() {
                    last as int + r + 1
                } else {
                    ops@.len() as int
                });
                assert(e <= j);
                assert forall|m: int| s as int <= m < first as int implies !changed_op(
                    #[trigger] ops@[m],
                ) by {
                    if changed_op(ops@[m]) {
                        assert(covered(hs@, m));
                        let k = choose|k: int| 0 <= k < hs@.len() && in_hunk(hs@[k], m);
                        assert(hs@[k].op_end as int + r < first as int);
                    }
                }
            }
            let h = hunk_fields(ops, s, e);
            proof {
                assert(hunk_range_wf(ops@, r, h, first as int, last as int));
                assert(hunk_wf(ops@, r, h));
                assert(hunk_lines_wf(ops@, h));
                assert forall|k: int| 0 <= k < hs@.len() implies #[trigger] hs@[k].op_end
                    < h.op_start by {
                    assert(hs@[k].op_end as int + r < first as int);
                }
            }
            let ghost pre = hs@;
            hs.push(h);
            proof {
                assert(hs@ =~= pre.push(h));
                assert forall|mm: int|
                    0 <= mm < j as int && changed_op(#[trigger] ops@[mm]) implies covered(
                    hs@,
                    mm,
                ) by {
                    if mm < first as int {
                        assert(covered(pre, mm));
                        let k = choose|k: int| 0 <= k < pre.len() && in_hunk(pre[k], mm);
                        assert(in_hunk(hs@[k], mm));
                    } else if mm <= last as int {
                        assert(in_hunk(hs@[hs@.len() - 1], mm));
                    } else {
                        assert(!changed_op(ops@[mm]));
                    }
                }
            }
            i = j;
        } else {
            i = i + 1;
        }
    }
    hs
}

/// Every well-formed hunk is a nonempty range within the script.
pub proof fn lemma_hunks_ranges(ops: Seq<DiffOp>, r: int, hs: Seq<Hunk>)
    requires
        hunks_wf(ops, r, hs),
    ensures
        forall|k: int|
            0 <= k < hs.len() ==> #[trigger] hs[k].op_start <= hs[k].op_end && hs[k].op_end
                <= ops.len(),
{
    assert forall|k: int| 0 <= k < hs.len() implies #[trigger] hs[k].op_start <= hs[k].op_end
        && hs[k].op_end <= ops.len() by {
        assert(hunk_wf(ops, r, hs[k]));
        let (a, b) = choose|a: int, b: int| hunk_range_wf(ops, r, hs[k], a, b);
    }
}

/// A script without a changed op yields no hunks at all, whatever the
/// context radius: diffing a sequence against itself shows nothing.
pub proof fn lemma_no_changes_no_hunks(ops: Seq<DiffOp>, r: int, hs: Seq<Hunk>)
    requires
        hunks_wf(ops, r, hs),
        forall|i: int| 0 <= i < ops.len() ==> !changed_op(#[trigger] ops[i]),
    ensures
        hs.len() == 0,
{
    if hs.len() > 0 {
        assert(hunk_wf(ops, r, hs[0]));
        let (a, b) = choose|a: int, b: int| hunk_range_wf(ops, r, hs[0], a, b);
        assert(changed_op(ops[a]));
    }
}

/// With context radius zero, a script whose only change is a single removal
/// yields exactly one hunk, holding exactly that op and no context.
pub proof fn lemma_single_removal_single_hunk(ops: Seq<DiffOp>, hs: Seq<Hunk>, i0: int)
    requires
        hunks_wf(ops, 0, hs),
        0 <= i0 < ops.len(),
        ops[i0] is Removed,
        forall|i: int| 0 <= i < ops.len() && i != i0 ==> !changed_op(#[trigger] ops[i]),
    ensures
        hs.len() == 1,
        hs[0].op_start == i0,
        hs[0].op_end == i0 + 1,
{
    assert(changed_op(ops[i0]));
    assert(covered(hs, i0));
    let k = choose|k: int| 0 <= k < hs.len() && in_hunk(#[trigger] hs[k], i0);
    assert forall|k2: int| 0 <= k2 < hs.len() implies hs[k2].op_start == i0 && hs[k2].op_end == i0
        + 1 by {
        assert(hunk_wf(ops, 0, hs[k2]));
        let (a, b) = choose|a: int, b: int| hunk_range_wf(ops, 0, hs[k2], a, b);
        assert(changed_op(ops[a]) && changed_op(ops[b]));
        assert(a == i0 && b == i0);
    }
    if hs.len() > 1 {
        assert(hs[0].op_end < hs[1].op_start);
    }
    assert(hs.len() == 1);
}

/// Two changed ops whose context windows would overlap or touch lie in the
/// same hunk; in particular, change clusters separated by exactly the
/// context radius merge into one hunk.
pub proof fn lemma_close_changes_same_hunk(
    ops: Seq<DiffOp>,
    r: int,
    hs: Seq<Hunk>,
    i: int,
    j: int,
    k1: int,
    k2: int,
)
    requires
        hunks_wf(ops, r, hs),
        r >= 0,
        0 <= i <= j < ops.len(),
        changed_op(ops[i]),
        changed_op(ops[j]),
        j - i <= 2 * r + 1,
        0 <= k1 < hs.len(),
        in_hunk(hs[k1], i),
        0 <= k2 < hs.len(),
        in_hunk(hs[k2], j),
    ensures
        k1 == k2,
{
    if k1 != k2 {
        let (a1, b1) = choose|a: int, b: int| hunk_range_wf(ops, r, hs[k1], a, b);
        let (a2, b2) = choose|a: int, b: int| hunk_range_wf(ops, r, hs[k2], a, b);
        assert(a1 <= i <= b1) by {
            if i < a1 {
                assert(!changed_op(ops[i]));
            }
            if i > b1 {
                assert(!changed_op(ops[i]));
            }
        }
        assert(a2 <= j <= b2) by {
            if j < a2 {
                assert(!changed_op(ops[j]));
            }
            if j > b2 {
                assert(!changed_op(ops[j]));
            }
        }
        if k1 < k2 {
            assert(hs[k1].op_end < hs[k2].op_start);
            assert(hs[k1].op_end == b1 + r + 1) by {
                if b1 + r + 1 > ops.len() {
                    assert(hs[k1].op_end == ops.len());
                    assert(hs[k2].op_start > ops.len());
                }
            }
            assert(hs[k2].op_start == a2 - r) by {
                if a2 - r < 0 {
                    assert(hs[k2].op_start == 0);
                }
            }
            assert(a2 - b1 > 2 * r + 1);
            assert(j - i >= a2 - b1);
        } else {
            assert(hs[k2].op_end < hs[k1].op_start);
            assert(hs[k2].op_end == b2 + r + 1) by {
                if b2 + r + 1 > ops.len() {
                    assert(hs[k2].op_end == ops.len());
                    assert(hs[k1].op_start > ops.len());
                }
            }
            assert(hs[k1].op_start == a1 - r) by {
                if a1 - r < 0 {
                    assert(hs[k1].op_start == 0);
                }
            }
            assert(a1 - b2 > 2 * r + 1);
            assert(i - j >= a1 - b2);
        }
    }
}

/// Two changed ops separated by a run of common ops longer than both
/// context windows lie in different hunks: clusters too far apart stay
/// separate.
pub proof fn lemma_far_changes_different_hunks(
    ops: Seq<DiffOp>,
    r: int,
    hs: Seq<Hunk>,
    i: int,
    j: int,
    k1: int,
    k2: int,
)
    requires
        hunks_wf(ops, r, hs),
        r >= 0,
        0 <= i < j < ops.len(),
        changed_op(ops[i]),
        changed_op(ops[j]),
        common_between(ops, i + 1, j),
        j - i > 2 * r + 1,
        0 <= k1 < hs.len(),
        in_hunk(hs[k1], i),
        0 <= k2 < hs.len(),
        in_hunk(hs[k2], j),
    ensures
        k1 != k2,
{
    if k1 == k2 {
        let (a, b) = choose|a2: int, b2: int| hunk_range_wf(ops, r, hs[k1], a2, b2);
        assert(a <= i) by {
            if i < a {
                assert(!changed_op(ops[i]));
            }
        }
        assert(j <= b) by {
            if j > b {
                assert(!changed_op(ops[j]));
            }
        }
        assert(cluster_tight(ops, r, a, b));
        assert(j - i <= 2 * r + 1);
    }
}

} // verus!
