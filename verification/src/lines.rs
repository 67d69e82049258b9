//! Line indexing: splitting raw text into lines, rejoining, padding and
//! filtering them.  A line is a maximal run of characters terminated by a
//! newline or by the end of the input; the final line may lack a trailing
//! newline, which is tracked rather than silently added or dropped.

use vstd::prelude::*;
use vstd::string::*;

verus! {

/// A 0-based line number within one side of a diff.
#[derive(Clone, Copy, Debug, PartialEq, Eq, Structural)]
pub struct LineNumber {
    pub number: usize,
}

impl From<usize> for LineNumber {
    fn from(number: usize) -> (r: LineNumber) {
        LineNumber { number }
    }
}

impl vstd::std_specs::convert::FromSpecImpl<usize> for LineNumber {
    open spec fn obeys_from_spec() -> bool {
        true
    }

    open spec fn from_spec(number: usize) -> LineNumber {
        LineNumber { number }
    }
}

/// The lines of `s` when `cur` holds the (newline-free) text already read of
/// the line in progress.
pub open spec fn split_acc(s: Seq<char>, cur: Seq<char>) -> Seq<Seq<char>>
    decreases s.len(),
{
    if s.len() == 0 {
        if cur.len() == 0 {
            seq![]
        } else {
            seq![cur]
        }
    } else if s[0] == '\n' {
        seq![cur] + split_acc(s.skip(1), seq![])
    } else {
        split_acc(s.skip(1), cur.push(s[0]))
    }
}

/// The lines of `s`: what `s` holds between newlines.  A trailing newline
/// ends the last line; it does not start an empty one.
pub open spec fn lines_of(s: Seq<char>) -> Seq<Seq<char>> {
    split_acc(s, seq![])
}

pub open spec fn ends_with_newline(s: Seq<char>) -> bool {
    s.len() > 0 && s[s.len() - 1] == '\n'
}

/// The lines joined again, with a single newline between adjacent lines.
pub open spec fn join_nl(lines: Seq<Seq<char>>) -> Seq<char>
    decreases lines.len(),
{
    if lines.len() == 0 {
        seq![]
    } else if lines.len() == 1 {
        lines[0]
    } else {
        lines[0] + seq!['\n'] + join_nl(lines.skip(1))
    }
}

/// The exact text that a line sequence plus a trailing-newline flag stands
/// for.
pub open spec fn unlines(lines: Seq<Seq<char>>, trailing: bool) -> Seq<char> {
    join_nl(lines) + if trailing {
        seq!['\n']
    } else {
        seq![]
    }
}

proof fn lemma_join_nl_cons(x: Seq<char>, r: Seq<Seq<char>>)
    ensures
        join_nl(seq![x] + r) == if r.len() == 0 {
            x
        } else {
            x + seq!['\n'] + join_nl(r)
        },
{
    let all = seq![x] + r;
    assert(all[0] == x);
    assert(all.skip(1) =~= r);
    if r.len() == 0 {
        assert(all.len() == 1);
    }
}

proof fn lemma_join_nl_push(lines: Seq<Seq<char>>, x: Seq<char>)
    ensures
        join_nl(lines.push(x)) == if lines.len() == 0 {
            x
        } else {
            join_nl(lines) + seq!['\n'] + x
        },
    decreases lines.len(),
{
    if lines.len() == 0 {
        assert(lines.push(x).len() == 1);
        assert(lines.push(x)[0] == x);
    } else if lines.len() == 1 {
        let p = lines.push(x);
        assert(p.len() == 2);
        assert(p[0] == lines[0]);
        assert(p.skip(1) =~= seq![x]);
        assert(join_nl(seq![x]) == x);
    } else {
        let p = lines.push(x);
        assert(p[0] == lines[0]);
        assert(p.skip(1) =~= lines.skip(1).push(x));
        lemma_join_nl_push(lines.skip(1), x);
    }
}

proof fn lemma_split_acc_nonempty(s: Seq<char>, cur: Seq<char>)
    requires
        s.len() > 0 || cur.len() > 0,
    ensures
        split_acc(s, cur).len() > 0,
    decreases s.len(),
{
    if s.len() == 0 {
    } else if s[0] == '\n' {
    } else {
        lemma_split_acc_nonempty(s.skip(1), cur.push(s[0]));
    }
}

proof fn lemma_split_acc_join(s: Seq<char>, cur: Seq<char>)
    requires
        forall|i: int| 0 <= i < cur.len() ==> cur[i] != '\n',
    ensures
        join_nl(split_acc(s, cur)) == if ends_with_newline(cur + s) {
            (cur + s).drop_last()
        } else {
            cur + s
        },
    decreases s.len(),
{
    let t = cur + s;
    if s.len() == 0 {
        assert(t =~= cur);
        assert(!ends_with_newline(cur));
        if cur.len() == 0 {
            assert(join_nl(split_acc(s, cur)) =~= cur);
        } else {
            assert(join_nl(seq![cur]) == cur);
        }
    } else if s[0] == '\n' {
        let s1 = s.skip(1);
        let rest = split_acc(s1, seq![]);
        lemma_join_nl_cons(cur, rest);
        lemma_split_acc_join(s1, seq![]);
        assert(seq![] + s1 =~= s1);
        if s1.len() == 0 {
            assert(rest.len() == 0);
            assert(t =~= cur + seq!['\n']);
            assert(ends_with_newline(t));
            assert(t.drop_last() =~= cur);
        } else {
            lemma_split_acc_nonempty(s1, seq![]);
            assert(ends_with_newline(t) == ends_with_newline(s1));
            if ends_with_newline(s1) {
                assert(t.drop_last() =~= cur + seq!['\n'] + s1.drop_last());
            } else {
                assert(t =~= cur + seq!['\n'] + s1);
            }
        }
    } else {
        let cur1 = cur.push(s[0]);
        lemma_split_acc_join(s.skip(1), cur1);
        assert(cur1 + s.skip(1) =~= t);
    }
}

/// Reassembling the indexed lines, with the recorded trailing-newline state,
/// gives back the original text byte for byte: no line is split, merged,
/// padded or dropped by the indexer.
pub proof fn lemma_lines_roundtrip(s: Seq<char>)
    ensures
        unlines(lines_of(s), ends_with_newline(s)) == s,
{
    lemma_split_acc_join(s, seq![]);
    assert(seq![] + s =~= s);
    if ends_with_newline(s) {
        assert(s.drop_last() + seq!['\n'] =~= s);
    } else {
        assert(join_nl(lines_of(s)) + seq![] =~= join_nl(lines_of(s)));
    }
}

/// Splits `s` into its lines.  A `'\n'` ends a line; the final line may end
/// at the end of the input instead.
pub fn split_lines(s: &str) -> (r: Vec<String>)
    ensures
        r.deep_view() == lines_of(s@),
{
    let n = s.unicode_len();
    let mut out: Vec<String> = Vec::new();
    let mut start: usize = 0;
    let mut i: usize = 0;
    proof {
        assert(s@.skip(0) =~= s@);
        assert(s@.subrange(0, 0) =~= Seq::<char>::empty());
        assert(out.deep_view() + split_acc(s@, Seq::<char>::empty()) =~= lines_of(s@));
    }
    while i < n
        invariant
            0 <= start <= i <= n,
            n == s@.len(),
            forall|k: int| start <= k < i ==> s@[k] != '\n',
            out.deep_view() + split_acc(s@.skip(i as int), s@.subrange(start as int, i as int))
                =~= lines_of(s@),
        decreases n - i,
    {
        let c = s.get_char(i);
        let ghost cur = s@.subrange(start as int, i as int);
        assert(s@.skip(i as int)[0] == s@[i as int]);
        assert(s@.skip(i as int).skip(1) =~= s@.skip(i as int + 1));
        if c == '\n' {
            let piece = s.substring_char(start, i);
            let owned = String::from_str(piece);
            proof {
                assert(split_acc(s@.skip(i as int), cur) =~= seq![cur] + split_acc(
                    s@.skip(i as int + 1),
                    seq![],
                ));
                assert(out.deep_view().push(cur) + split_acc(s@.skip(i as int + 1), seq![])
                    =~= out.deep_view() + (seq![cur] + split_acc(s@.skip(i as int + 1), seq![])));
            }
            out.push(owned);
            proof {
                assert(out.deep_view() =~= out.deep_view().drop_last().push(cur));
            }
            start = i + 1;
            proof {
                assert(s@.subrange(start as int, i as int + 1) =~= Seq::<char>::empty());
            }
        } else {
            proof {
                assert(cur.push(s@[i as int]) =~= s@.subrange(start as int, i as int + 1));
            }
        }
        i = i + 1;
    }
    let ghost cur = s@.subrange(start as int, n as int);
    assert(s@.skip(n as int) =~= Seq::<char>::empty());
    if start < n {
        let piece = s.substring_char(start, n);
        let owned = String::from_str(piece);
        out.push(owned);
        proof {
            assert(split_acc(Seq::<char>::empty(), cur) =~= seq![cur]);
            assert(out.deep_view() =~= out.deep_view().drop_last().push(cur));
            assert(out.deep_view().drop_last() + seq![cur] =~= out.deep_view());
        }
    } else {
        proof {
            assert(cur =~= Seq::<char>::empty());
            assert(split_acc(Seq::<char>::empty(), cur) =~= Seq::<Seq<char>>::empty());
            assert(out.deep_view() + Seq::<Seq<char>>::empty() =~= out.deep_view());
        }
    }
    out
}

/// Whether `s` ends with a newline; the renderer must reproduce this state
/// faithfully.
pub fn has_trailing_newline(s: &str) -> (r: bool)
    ensures
        r == ends_with_newline(s@),
{
    let n = s.unicode_len();
    if n == 0 {
        false
    } else {
        s.get_char(n - 1) == '\n'
    }
}

/// The length of the longest of `lines[i..]`, and 0 when there is none.
pub open spec fn max_len_from(lines: Seq<Seq<char>>, i: int) -> int
    decreases lines.len() - i,
{
    if i < 0 || i >= lines.len() {
        0
    } else {
        let rest = max_len_from(lines, i + 1);
        if lines[i].len() >= rest {
            lines[i].len() as int
        } else {
            rest
        }
    }
}

/// The length of the longest line of `s`, in characters.
pub fn max_line_length(s: &str) -> (r: usize)
    ensures
        r == max_len_from(lines_of(s@), 0),
{
    let lines = split_lines(s);
    let mut max_length: usize = 0;
    let mut i: usize = lines.len();
    proof {
        assert(max_len_from(lines_of(s@), lines.len() as int) == 0);
    }
    while i > 0
        invariant
            0 <= i <= lines.len(),
            lines.deep_view() == lines_of(s@),
            max_length as int == max_len_from(lines_of(s@), i as int),
        decreases i,
    {
        i = i - 1;
        assert(lines.deep_view()[i as int] == lines[i as int]@);
        let len = lines[i].as_str().unicode_len();
        if len > max_length {
            max_length = len;
        }
    }
    max_length
}

/// `n` spaces.
pub open spec fn spaces(n: int) -> Seq<char>
    decreases n,
{
    if n <= 0 {
        seq![]
    } else {
        spaces(n - 1).push(' ')
    }
}

/// A string of `n` spaces.
pub fn make_spaces(n: usize) -> (r: String)
    ensures
        r@ == spaces(n as int),
{
    let mut out = String::new();
    let mut i: usize = 0;
    proof {
        reveal_strlit(" ");
    }
    while i < n
        invariant
            0 <= i <= n,
            out@ == spaces(i as int),
            " "@ == seq![' '],
        decreases n - i,
    {
        out.append(" ");
        i = i + 1;
    }
    out
}

/// A line padded on the right with spaces up to width `m`; a longer line is
/// kept as it is.
pub open spec fn pad_line(l: Seq<char>, m: int) -> Seq<char> {
    if l.len() >= m {
        l
    } else {
        l + spaces(m - l.len())
    }
}

pub open spec fn pad_lines_from(lines: Seq<Seq<char>>, m: int, i: int) -> Seq<char>
    decreases lines.len() - i,
{
    if i < 0 || i >= lines.len() {
        seq![]
    } else {
        pad_line(lines[i], m) + seq!['\n'] + pad_lines_from(lines, m, i + 1)
    }
}

/// Every line of `s` padded to width `m` and newline-terminated, with one
/// more newline at the end.
pub open spec fn pad_string_spec(s: Seq<char>, m: int) -> Seq<char> {
    pad_lines_from(lines_of(s), m, 0) + seq!['\n']
}

/// Ensures that every line in `s` has at least length `min_length`, by
/// appending spaces as necessary.
pub fn pad_string(s: &str, min_length: usize) -> (r: String)
    ensures
        r@ == pad_string_spec(s@, min_length as int),
{
    let lines = split_lines(s);
    let ghost ls = lines_of(s@);
    let mut out = String::new();
    let mut i: usize = 0;
    proof {
        reveal_strlit("\n");
        assert("\n"@ =~= seq!['\n']);
    }
    while i < lines.len()
        invariant
            0 <= i <= lines.len(),
            lines.deep_view() == ls,
            ls == lines_of(s@),
            "\n"@ == seq!['\n'],
            out@ + pad_lines_from(ls, min_length as int, i as int) =~= pad_lines_from(
                ls,
                min_length as int,
                0,
            ),
        decreases lines.len() - i,
    {
        assert(lines.deep_view()[i as int] == lines[i as int]@);
        let len = lines[i].as_str().unicode_len();
        out.append(lines[i].as_str());
        if len < min_length {
            let fill = make_spaces(min_length - len);
            out.append(fill.as_str());
        }
        out.append("\n");
        proof {
            assert(pad_line(ls[i as int], min_length as int) == if ls[i as int].len()
                >= min_length as int {
                ls[i as int]
            } else {
                ls[i as int] + spaces(min_length - ls[i as int].len())
            });
        }
        i = i + 1;
    }
    out.append("\n");
    proof {
        assert(pad_lines_from(ls, min_length as int, lines.len() as int) =~= Seq::<char>::empty());
        assert(out@ =~= pad_string_spec(s@, min_length as int));
    }
    out
}

/// Whether line number `i` occurs in the wanted list.
pub open spec fn is_wanted(w: Seq<LineNumber>, i: int) -> bool {
    exists|k: int| 0 <= k < w.len() && w[k].number == i
}

/// The lines with index at least `i` whose index occurs in the wanted list,
/// in order.
pub open spec fn selected_from(lines: Seq<Seq<char>>, w: Seq<LineNumber>, i: int) -> Seq<Seq<char>>
    decreases lines.len() - i,
{
    if i < 0 || i >= lines.len() {
        seq![]
    } else if is_wanted(w, i) {
        seq![lines[i]] + selected_from(lines, w, i + 1)
    } else {
        selected_from(lines, w, i + 1)
    }
}

/// The wanted lines of `s`, joined by newlines (no trailing newline).
pub open spec fn filter_lines_spec(s: Seq<char>, w: Seq<LineNumber>) -> Seq<char> {
    join_nl(selected_from(lines_of(s), w, 0))
}

fn contains_line(w: &[LineNumber], i: usize) -> (r: bool)
    ensures
        r == is_wanted(w@, i as int),
{
    let mut k: usize = 0;
    while k < w.len()
        invariant
            0 <= k <= w@.len(),
            forall|m: int| 0 <= m < k ==> w@[m].number != i,
        decreases w@.len() - k,
    {
        if w[k].number == i {
            return true;
        }
        k = k + 1;
    }
    false
}

/// Return a copy of the string that only contains the lines specified.
pub fn filter_lines(s: &str, lines_wanted: &[LineNumber]) -> (r: String)
    ensures
        r@ == filter_lines_spec(s@, lines_wanted@),
{
    let lines = split_lines(s);
    let ghost ls = lines_of(s@);
    let ghost w = lines_wanted@;
    let mut out = String::new();
    let mut first = true;
    let ghost mut sel: Seq<Seq<char>> = seq![];
    let mut i: usize = 0;
    proof {
        reveal_strlit("\n");
        assert("\n"@ =~= seq!['\n']);
    }
    while i < lines.len()
        invariant
            0 <= i <= lines.len(),
            lines.deep_view() == ls,
            ls == lines_of(s@),
            w == lines_wanted@,
            "\n"@ == seq!['\n'],
            out@ == join_nl(sel),
            first <==> sel.len() == 0,
            sel + selected_from(ls, w, i as int) =~= selected_from(ls, w, 0),
        decreases lines.len() - i,
    {
        assert(lines.deep_view()[i as int] == lines[i as int]@);
        if contains_line(lines_wanted, i) {
            if first {
                first = false;
            } else {
                out.append("\n");
            }
            out.append(lines[i].as_str());
            proof {
                lemma_join_nl_push(sel, ls[i as int]);
                assert(sel.push(ls[i as int]) + selected_from(ls, w, i as int + 1) =~= sel + (seq![
                    ls[i as int],
                ] + selected_from(ls, w, i as int + 1)));
            }
            proof {
                assert(selected_from(ls, w, i as int) == seq![ls[i as int]] + selected_from(
                    ls,
                    w,
                    i as int + 1,
                ));
                sel = sel.push(ls[i as int]);
            }
        } else {
            proof {
                assert(selected_from(ls, w, i as int) == selected_from(ls, w, i as int + 1));
            }
        }
        i = i + 1;
    }
    proof {
        assert(selected_from(ls, w, lines.len() as int) =~= Seq::<Seq<char>>::empty());
        assert(sel + Seq::<Seq<char>>::empty() =~= sel);
    }
    out
}

/// One output row of the side-by-side layout: left column, two-space
/// separator, right column.  A row whose left line is empty, or that has no
/// left line, fills the left column with `pad` spaces; a row with no right
/// line shows the left line alone.
pub open spec fn vc_row(l: Seq<Seq<char>>, r: Seq<Seq<char>>, pad: int, i: int) -> Seq<char> {
    if i < l.len() && i < r.len() && l[i].len() > 0 {
        l[i] + seq![' ', ' '] + r[i] + seq!['\n']
    } else if i < r.len() {
        spaces(pad) + seq![' ', ' '] + r[i] + seq!['\n']
    } else {
        l[i] + seq!['\n']
    }
}

pub open spec fn vc_from(l: Seq<Seq<char>>, r: Seq<Seq<char>>, pad: int, i: int) -> Seq<char>
    decreases (if l.len() >= r.len() {
        l.len()
    } else {
        r.len()
    }) - i,
{
    let bound = if l.len() >= r.len() {
        l.len() as int
    } else {
        r.len() as int
    };
    if i < 0 || i >= bound {
        seq![]
    } else {
        vc_row(l, r, pad, i) + vc_from(l, r, pad, i + 1)
    }
}

/// The whole side-by-side layout of the two filtered columns.
pub open spec fn vertical_concat_spec(left: Seq<char>, right: Seq<char>, pad: int) -> Seq<char> {
    vc_from(lines_of(left), lines_of(right), pad, 0)
}

/// Lays the lines of `left` and `right` out as two columns separated by two
/// spaces, filling a missing or empty left column with `max_left_length`
/// spaces.
pub fn vertical_concat(left: &str, right: &str, max_left_length: usize) -> (r: String)
    ensures
        r@ == vertical_concat_spec(left@, right@, max_left_length as int),
{
    let left_lines = split_lines(left);
    let right_lines = split_lines(right);
    let ghost ll = lines_of(left@);
    let ghost rl = lines_of(right@);
    let nl = left_lines.len();
    let nr = right_lines.len();
    let bound = if nl >= nr {
        nl
    } else {
        nr
    };
    let mut out = String::new();
    let mut i: usize = 0;
    proof {
        reveal_strlit("\n");
        reveal_strlit("  ");
        assert("\n"@ =~= seq!['\n']);
        assert("  "@ =~= seq![' ', ' ']);
    }
    while i < bound
        invariant
            0 <= i <= bound,
            left_lines.deep_view() == ll,
            right_lines.deep_view() == rl,
            ll == lines_of(left@),
            rl == lines_of(right@),
            nl == ll.len(),
            nr == rl.len(),
            bound == if nl >= nr {
                nl
            } else {
                nr
            },
            "\n"@ == seq!['\n'],
            "  "@ == seq![' ', ' '],
            out@ + vc_from(ll, rl, max_left_length as int, i as int) =~= vc_from(
                ll,
                rl,
                max_left_length as int,
                0,
            ),
        decreases bound - i,
    {
        let has_left = i < nl;
        let has_right = i < nr;
        if has_left {
            assert(left_lines.deep_view()[i as int] == left_lines[i as int]@);
        }
        if has_right {
            assert(right_lines.deep_view()[i as int] == right_lines[i as int]@);
        }
        if has_left && has_right && left_lines[i].as_str().unicode_len() > 0 {
            out.append(left_lines[i].as_str());
            out.append("  ");
            out.append(right_lines[i].as_str());
        } else if has_right {
            let fill = make_spaces(max_left_length);
            out.append(fill.as_str());
            out.append("  ");
            out.append(right_lines[i].as_str());
        } else {
            out.append(left_lines[i].as_str());
        }
        out.append("\n");
        i = i + 1;
    }
    proof {
        assert(vc_from(ll, rl, max_left_length as int, bound as int) =~= Seq::<char>::empty());
        assert(out@ + Seq::<char>::empty() =~= out@);
    }
    out
}

} // verus!
