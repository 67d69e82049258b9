//! The diff engine: a minimal edit script between two line sequences,
//! computed by an LCS-based search and decorated with stable 0-based line
//! indices for each side.

use vstd::prelude::*;

verus! {

/// The bare outcome for one position of the edit script, before line indices
/// are attached: the line exists only on the left, on both sides, or only on
/// the right.
#[derive(Clone, Copy, Debug, PartialEq, Eq, Structural)]
pub enum RawEdit {
    Left,
    Both,
    Right,
}

/// One op of the edit script.  The `left` indices of `Removed`/`Common` ops,
/// read in order, count the left lines `0..left_len`; symmetrically for
/// `right` across `Added`/`Common`.
#[derive(Clone, Copy, Debug, PartialEq, Eq, Structural)]
pub enum DiffOp {
    Removed { left: usize },
    Added { right: usize },
    Common { left: usize, right: usize },
}

/// How many raw edits consume a left line.
pub open spec fn count_lb(raw: Seq<RawEdit>) -> int
    decreases raw.len(),
{
    if raw.len() == 0 {
        0
    } else {
        count_lb(raw.drop_last()) + match raw.last() {
            RawEdit::Left => 1int,
            RawEdit::Both => 1int,
            RawEdit::Right => 0int,
        }
    }
}

/// How many raw edits consume a right line.
pub open spec fn count_rb(raw: Seq<RawEdit>) -> int
    decreases raw.len(),
{
    if raw.len() == 0 {
        0
    } else {
        count_rb(raw.drop_last()) + match raw.last() {
            RawEdit::Left => 0int,
            RawEdit::Both => 1int,
            RawEdit::Right => 1int,
        }
    }
}

/// How many raw edits are one-sided: the cost that a shortest edit script
/// minimizes.
pub open spec fn cost(raw: Seq<RawEdit>) -> int
    decreases raw.len(),
{
    if raw.len() == 0 {
        0
    } else {
        cost(raw.drop_last()) + match raw.last() {
            RawEdit::Left => 1int,
            RawEdit::Both => 0int,
            RawEdit::Right => 1int,
        }
    }
}

/// A valid alignment of `l` and `r`: it consumes each side exactly, in
/// order, and only matches lines with equal content.
pub open spec fn raw_valid(raw: Seq<RawEdit>, l: Seq<Seq<char>>, r: Seq<Seq<char>>) -> bool {
    &&& count_lb(raw) == l.len()
    &&& count_rb(raw) == r.len()
    &&& forall|i: int|
        0 <= i < raw.len() && raw[i] is Both ==> {
            &&& 0 <= count_lb(#[trigger] raw.take(i)) < l.len()
            &&& 0 <= count_rb(raw.take(i)) < r.len()
            &&& l[count_lb(raw.take(i))] == r[count_rb(raw.take(i))]
        }
}

/// Relies on `diff::slice`: an LCS-based diff.  The result is a valid
/// alignment of the two slices (string equality decides matches), and it is
/// minimal in the number of one-sided entries among all valid alignments,
/// because the dynamic-programming table maximizes the length of the common
/// subsequence.
#[verifier::external_body]
fn diff_slice(left: &Vec<String>, right: &Vec<String>) -> (raw: Vec<RawEdit>)
    ensures
        raw_valid(raw@, left.deep_view(), right.deep_view()),
        forall|other: Seq<RawEdit>|
            raw_valid(other, left.deep_view(), right.deep_view()) ==> cost(raw@) <= cost(other),
{
    diff::slice(left.as_slice(), right.as_slice())
        .iter()
        .map(|res| match res {
            diff::Result::Left(_) => RawEdit::Left,
            diff::Result::Both(_, _) => RawEdit::Both,
            diff::Result::Right(_) => RawEdit::Right,
        })
        .collect()
}

/// Whether the op marks a change rather than a line common to both sides.
pub open spec fn changed_op(op: DiffOp) -> bool {
    !(op is Common)
}

pub open spec fn has_left(op: DiffOp) -> bool {
    op is Removed || op is Common
}

pub open spec fn has_right(op: DiffOp) -> bool {
    op is Added || op is Common
}

pub open spec fn left_of(op: DiffOp) -> int {
    match op {
        DiffOp::Removed { left } => left as int,
        DiffOp::Common { left, .. } => left as int,
        DiffOp::Added { .. } => 0,
    }
}

pub open spec fn right_of(op: DiffOp) -> int {
    match op {
        DiffOp::Added { right } => right as int,
        DiffOp::Common { right, .. } => right as int,
        DiffOp::Removed { .. } => 0,
    }
}

/// The left indices of the `Removed`/`Common` ops, in order.
pub open spec fn left_index_seq(ops: Seq<DiffOp>) -> Seq<int>
    decreases ops.len(),
{
    if ops.len() == 0 {
        seq![]
    } else if has_left(ops.last()) {
        left_index_seq(ops.drop_last()).push(left_of(ops.last()))
    } else {
        left_index_seq(ops.drop_last())
    }
}

/// The right indices of the `Added`/`Common` ops, in order.
pub open spec fn right_index_seq(ops: Seq<DiffOp>) -> Seq<int>
    decreases ops.len(),
{
    if ops.len() == 0 {
        seq![]
    } else if has_right(ops.last()) {
        right_index_seq(ops.drop_last()).push(right_of(ops.last()))
    } else {
        right_index_seq(ops.drop_last())
    }
}

/// The raw edit kind that an op stands for.
pub open spec fn op_matches_raw(op: DiffOp, e: RawEdit) -> bool {
    match e {
        RawEdit::Left => op is Removed,
        RawEdit::Both => op is Common,
        RawEdit::Right => op is Added,
    }
}

/// The script's ops, by kind, form a valid alignment whose number of
/// one-sided entries is minimal among all valid alignments: a shortest edit
/// script.
#[verifier::opaque]
pub open spec fn is_minimal_script(ops: Seq<DiffOp>, l: Seq<Seq<char>>, r: Seq<Seq<char>>) -> bool {
    exists|raw: Seq<RawEdit>|
        {
            &&& raw_valid(raw, l, r)
            &&& (forall|other: Seq<RawEdit>| raw_valid(other, l, r) ==> cost(raw) <= cost(other))
            &&& raw.len() == ops.len()
            &&& forall|i: int| 0 <= i < ops.len() ==> op_matches_raw(#[trigger] ops[i], raw[i])
        }
}

proof fn lemma_count_take_succ(raw: Seq<RawEdit>, i: int)
    requires
        0 <= i < raw.len(),
    ensures
        count_lb(raw.take(i + 1)) == count_lb(raw.take(i)) + (if raw[i] is Right {
            0int
        } else {
            1int
        }),
        count_rb(raw.take(i + 1)) == count_rb(raw.take(i)) + (if raw[i] is Left {
            0int
        } else {
            1int
        }),
        cost(raw.take(i + 1)) == cost(raw.take(i)) + (if raw[i] is Both {
            0int
        } else {
            1int
        }),
{
    assert(raw.take(i + 1).drop_last() =~= raw.take(i));
    assert(raw.take(i + 1).last() == raw[i]);
}

proof fn lemma_count_take_bound(raw: Seq<RawEdit>, i: int)
    requires
        0 <= i <= raw.len(),
    ensures
        count_lb(raw.take(i)) <= count_lb(raw),
        count_rb(raw.take(i)) <= count_rb(raw),
        count_lb(raw.take(i)) >= 0,
        count_rb(raw.take(i)) >= 0,
    decreases raw.len() - i,
{
    lemma_counts_nonneg(raw.take(i));
    if i == raw.len() {
        assert(raw.take(i) =~= raw);
    } else {
        lemma_count_take_succ(raw, i);
        lemma_count_take_bound(raw, i + 1);
    }
}

proof fn lemma_counts_nonneg(raw: Seq<RawEdit>)
    ensures
        count_lb(raw) >= 0,
        count_rb(raw) >= 0,
        cost(raw) >= 0,
    decreases raw.len(),
{
    if raw.len() > 0 {
        lemma_counts_nonneg(raw.drop_last());
    }
}

/// Every alignment of zero cost matches at every position.
proof fn lemma_zero_cost_all_both(raw: Seq<RawEdit>)
    requires
        cost(raw) == 0,
    ensures
        forall|i: int| 0 <= i < raw.len() ==> raw[i] is Both,
    decreases raw.len(),
{
    if raw.len() > 0 {
        lemma_counts_nonneg(raw.drop_last());
        assert(cost(raw.drop_last()) == 0);
        lemma_zero_cost_all_both(raw.drop_last());
        assert forall|i: int| 0 <= i < raw.len() implies raw[i] is Both by {
            if i < raw.len() - 1 {
                assert(raw.drop_last()[i] is Both);
                assert(raw[i] == raw.drop_last()[i]);
            } else {
                assert(raw[i] == raw.last());
            }
        }
    }
}

/// The all-matching alignment of a sequence with itself.
proof fn lemma_all_both_valid(l: Seq<Seq<char>>)
    ensures
        raw_valid(Seq::new(l.len(), |i: int| RawEdit::Both), l, l),
        cost(Seq::new(l.len(), |i: int| RawEdit::Both)) == 0,
{
    let raw = Seq::new(l.len(), |i: int| RawEdit::Both);
    lemma_all_both_counts(raw);
    assert forall|i: int| 0 <= i < raw.len() && raw[i] is Both implies {
        &&& 0 <= count_lb(#[trigger] raw.take(i)) < l.len()
        &&& 0 <= count_rb(raw.take(i)) < l.len()
        &&& l[count_lb(raw.take(i))] == l[count_rb(raw.take(i))]
    } by {
        lemma_all_both_counts(raw.take(i));
    }
}

proof fn lemma_all_both_counts(raw: Seq<RawEdit>)
    requires
        forall|i: int| 0 <= i < raw.len() ==> raw[i] is Both,
    ensures
        count_lb(raw) == raw.len(),
        count_rb(raw) == raw.len(),
        cost(raw) == 0,
    decreases raw.len(),
{
    if raw.len() > 0 {
        assert(forall|i: int|
            0 <= i < raw.len() - 1 ==> #[trigger] raw.drop_last()[i] == raw[i]);
        lemma_all_both_counts(raw.drop_last());
    }
}

/// Computes the edit script between the two line sequences.  The script is a
/// valid alignment: the left indices of `Removed`/`Common` ops, in order,
/// are exactly `0..left.len()`, the right indices of `Added`/`Common` ops
/// are exactly `0..right.len()`, and every `Common` op joins two lines with
/// equal content.  Diffing a sequence against an equal one yields only
/// `Common` ops.
pub fn edit_script(left: &Vec<String>, right: &Vec<String>) -> (ops: Vec<DiffOp>)
    ensures
        left_index_seq(ops@) == Seq::new(left@.len() as nat, |i: int| i),
        right_index_seq(ops@) == Seq::new(right@.len() as nat, |i: int| i),
        forall|i: int|
            0 <= i < ops@.len() && has_left(#[trigger] ops@[i]) ==> 0 <= left_of(ops@[i])
                < left@.len(),
        forall|i: int|
            0 <= i < ops@.len() && has_right(#[trigger] ops@[i]) ==> 0 <= right_of(ops@[i])
                < right@.len(),
        forall|i: int|
            0 <= i < ops@.len() && #[trigger] ops@[i] is Common ==> left.deep_view()[left_of(
                ops@[i],
            )] == right.deep_view()[right_of(ops@[i])],
        left.deep_view() == right.deep_view() ==> forall|i: int|
            0 <= i < ops@.len() ==> #[trigger] ops@[i] is Common,
        ops@.len() <= left@.len() + right@.len(),
        is_minimal_script(ops@, left.deep_view(), right.deep_view()),
{
    let raw = diff_slice(left, right);
    let ghost lv = left.deep_view();
    let ghost rv = right.deep_view();
    proof {
        assert(lv.len() == left@.len());
        assert(rv.len() == right@.len());
        if lv == rv {
            let both = Seq::new(lv.len(), |i: int| RawEdit::Both);
            lemma_all_both_valid(lv);
            assert(cost(raw@) <= cost(both));
            lemma_counts_nonneg(raw@);
            lemma_zero_cost_all_both(raw@);
        }
    }
    let llen = left.len();
    let rlen = right.len();
    let mut ops: Vec<DiffOp> = Vec::new();
    let mut li: usize = 0;
    let mut ri: usize = 0;
    let mut k: usize = 0;
    proof {
        assert(raw@.take(0) =~= Seq::<RawEdit>::empty());
    }
    while k < raw.len()
        invariant
            0 <= k <= raw@.len(),
            raw_valid(raw@, lv, rv),
            forall|other: Seq<RawEdit>| raw_valid(other, lv, rv) ==> cost(raw@) <= cost(other),
            lv == left.deep_view(),
            rv == right.deep_view(),
            lv.len() == left@.len(),
            rv.len() == right@.len(),
            llen == lv.len(),
            rlen == rv.len(),
            li as int == count_lb(raw@.take(k as int)),
            ri as int == count_rb(raw@.take(k as int)),
            li <= lv.len(),
            ri <= rv.len(),
            k as int <= li + ri,
            ops@.len() == k,
            forall|i: int| 0 <= i < k ==> op_matches_raw(#[trigger] ops@[i], raw@[i]),
            forall|i: int|
                0 <= i < k && has_left(#[trigger] ops@[i]) ==> left_of(ops@[i]) == count_lb(
                    raw@.take(i),
                ),
            forall|i: int|
                0 <= i < k && has_right(#[trigger] ops@[i]) ==> right_of(ops@[i]) == count_rb(
                    raw@.take(i),
                ),
            forall|i: int|
                0 <= i < k && has_left(#[trigger] ops@[i]) ==> 0 <= left_of(ops@[i]) < lv.len(),
            forall|i: int|
                0 <= i < k && has_right(#[trigger] ops@[i]) ==> 0 <= right_of(ops@[i]) < rv.len(),
            forall|i: int|
                0 <= i < k && #[trigger] ops@[i] is Common ==> lv[left_of(ops@[i])] == rv[right_of(
                    ops@[i],
                )],
            left_index_seq(ops@) == Seq::new(li as nat, |i: int| i),
            right_index_seq(ops@) == Seq::new(ri as nat, |i: int| i),
        decreases raw@.len() - k,
    {
        let ghost pre = ops@;
        proof {
            lemma_count_take_succ(raw@, k as int);
            lemma_count_take_bound(raw@, k as int + 1);
            if !(raw@[k as int] is Right) {
                assert(li as int + 1 == count_lb(raw@.take(k as int + 1)) <= lv.len());
            }
            if !(raw@[k as int] is Left) {
                assert(ri as int + 1 == count_rb(raw@.take(k as int + 1)) <= rv.len());
            }
        }
        match raw[k] {
            RawEdit::Left => {
                ops.push(DiffOp::Removed { left: li });
                proof {
                    assert(ops@.drop_last() =~= pre);
                    assert(left_index_seq(ops@) =~= Seq::new((li + 1) as nat, |i: int| i));
                }
                li = li + 1;
            },
            RawEdit::Both => {
                ops.push(DiffOp::Common { left: li, right: ri });
                proof {
                    assert(ops@.drop_last() =~= pre);
                    assert(left_index_seq(ops@) =~= Seq::new((li + 1) as nat, |i: int| i));
                    assert(right_index_seq(ops@) =~= Seq::new((ri + 1) as nat, |i: int| i));
                }
                li = li + 1;
                ri = ri + 1;
            },
            RawEdit::Right => {
                ops.push(DiffOp::Added { right: ri });
                proof {
                    assert(ops@.drop_last() =~= pre);
                    assert(right_index_seq(ops@) =~= Seq::new((ri + 1) as nat, |i: int| i));
                }
                ri = ri + 1;
            },
        }
        k = k + 1;
    }
    proof {
        assert(raw@.take(raw@.len() as int) =~= raw@);
        reveal(is_minimal_script);
        assert(raw_valid(raw@, left.deep_view(), right.deep_view()) && (forall|
            other: Seq<RawEdit>,
        |
            raw_valid(other, left.deep_view(), right.deep_view()) ==> cost(raw@) <= cost(other))
            && raw@.len() == ops@.len() && (forall|i: int|
            0 <= i < ops@.len() ==> op_matches_raw(#[trigger] ops@[i], raw@[i])));
    }
    ops
}

} // verus!
