//! The renderer: unified-patch output (file headers, hunk headers,
//! `+`/`-`/context lines) and the padded side-by-side layout restricted to
//! the lines the hunk selector picked.

use crate::colorize::{paint, styled_text, DisplayConfig, MatchedSpan, StyleTag};
use crate::diffs::{
    edit_script, has_left, has_right, left_index_seq, left_of, right_index_seq, right_of, DiffOp,
};
use crate::hunks::{hunks_wf, select_hunks, Hunk};
use crate::lines::{
    filter_lines, filter_lines_spec, is_wanted, lines_of, max_len_from, max_line_length,
    pad_string, pad_string_spec, split_lines, vc_from, vertical_concat, LineNumber,
};
use crate::numbers::{dec_spec, usize_to_string};
use vstd::prelude::*;
use vstd::string::*;

verus! {

/// The bare text of a hunk header: the 1-based starting line number and the
/// count of lines shown, per side, taken from the hunk's own fields.
pub open spec fn hunk_header_core(h: Hunk) -> Seq<char> {
    seq!['@', '@', ' ', '-'] + dec_spec(h.left_start as int) + seq![','] + dec_spec(
        h.left_count as int,
    ) + seq![' ', '+'] + dec_spec(h.right_start as int) + seq![','] + dec_spec(
        h.right_count as int,
    ) + seq![' ', '@', '@']
}

/// The hunk header as shown: dimmed when color is on.
pub open spec fn hunk_header_spec(h: Hunk, use_color: bool) -> Seq<char> {
    styled_text(StyleTag::Dim, hunk_header_core(h), use_color)
}

/// Renders the header of one hunk.
pub fn hunk_header(h: &Hunk, use_color: bool) -> (r: String)
    ensures
        r@ == hunk_header_spec(*h, use_color),
{
    proof {
        reveal_strlit("@@ -");
        reveal_strlit(",");
        reveal_strlit(" +");
        reveal_strlit(" @@");
        assert("@@ -"@ =~= seq!['@', '@', ' ', '-']);
        assert(","@ =~= seq![',']);
        assert(" +"@ =~= seq![' ', '+']);
        assert(" @@"@ =~= seq![' ', '@', '@']);
    }
    let mut core = String::from_str("@@ -");
    let ls = usize_to_string(h.left_start);
    core.append(ls.as_str());
    core.append(",");
    let lc = usize_to_string(h.left_count);
    core.append(lc.as_str());
    core.append(" +");
    let rs = usize_to_string(h.right_start);
    core.append(rs.as_str());
    core.append(",");
    let rc = usize_to_string(h.right_count);
    core.append(rc.as_str());
    core.append(" @@");
    proof {
        assert(core@ =~= hunk_header_core(*h));
    }
    paint(StyleTag::Dim, core.as_str(), use_color)
}

/// One of the two file-header lines shown before the first hunk, styled as
/// a highlighted header when color is on.
pub open spec fn file_header_spec(marker: Seq<char>, path: Seq<char>, use_color: bool) -> Seq<
    char,
> {
    styled_text(StyleTag::Header, marker + path, use_color)
}

/// Renders a file-header line: the marker, the path, and the header style.
pub fn file_header(marker: &str, path: &str, use_color: bool) -> (r: String)
    ensures
        r@ == file_header_spec(marker@, path@, use_color),
{
    let mut line = String::from_str(marker);
    line.append(path);
    paint(StyleTag::Header, line.as_str(), use_color)
}

/// One body line of a unified hunk: context lines carry two spaces and the
/// left side's rendering, removed lines a (dimmed) `-` and the left
/// rendering, added lines a (dimmed) `+` and the right rendering.
pub open spec fn op_line_spec(
    op: DiffOp,
    lr: Seq<Seq<char>>,
    rr: Seq<Seq<char>>,
    use_color: bool,
) -> Seq<char> {
    match op {
        DiffOp::Common { left, .. } => seq![' ', ' '] + lr[left as int],
        DiffOp::Removed { left } => styled_text(StyleTag::Dim, seq!['-'], use_color) + seq![' ']
            + lr[left as int],
        DiffOp::Added { right } => styled_text(StyleTag::Dim, seq!['+'], use_color) + seq![' ']
            + rr[right as int],
    }
}

fn op_line(
    op: &DiffOp,
    left_rendered: &Vec<String>,
    right_rendered: &Vec<String>,
    use_color: bool,
) -> (r: String)
    requires
        has_left(*op) ==> 0 <= left_of(*op) < left_rendered@.len(),
        has_right(*op) ==> 0 <= right_of(*op) < right_rendered@.len(),
    ensures
        r@ == op_line_spec(*op, left_rendered.deep_view(), right_rendered.deep_view(), use_color),
{
    proof {
        reveal_strlit("  ");
        reveal_strlit("-");
        reveal_strlit("+");
        reveal_strlit(" ");
        assert("  "@ =~= seq![' ', ' ']);
        assert("-"@ =~= seq!['-']);
        assert("+"@ =~= seq!['+']);
        assert(" "@ =~= seq![' ']);
    }
    match op {
        DiffOp::Common { left, .. } => {
            let mut line = String::from_str("  ");
            assert(left_rendered.deep_view()[*left as int] == left_rendered@[*left as int]@);
            line.append(left_rendered[*left].as_str());
            line
        },
        DiffOp::Removed { left } => {
            let mut line = paint(StyleTag::Dim, "-", use_color);
            line.append(" ");
            assert(left_rendered.deep_view()[*left as int] == left_rendered@[*left as int]@);
            line.append(left_rendered[*left].as_str());
            line
        },
        DiffOp::Added { right } => {
            let mut line = paint(StyleTag::Dim, "+", use_color);
            line.append(" ");
            assert(right_rendered.deep_view()[*right as int] == right_rendered@[*right as int]@);
            line.append(right_rendered[*right].as_str());
            line
        },
    }
}

/// The lines of one hunk as shown: its header, then one line per op of its
/// range, in edit-script order.
pub open spec fn hunk_block_spec(
    ops: Seq<DiffOp>,
    h: Hunk,
    lr: Seq<Seq<char>>,
    rr: Seq<Seq<char>>,
    use_color: bool,
) -> Seq<Seq<char>> {
    seq![hunk_header_spec(h, use_color)] + Seq::new(
        (h.op_end - h.op_start) as nat,
        |i: int| op_line_spec(ops[h.op_start + i], lr, rr, use_color),
    )
}

/// The blocks of all hunks, in order.
pub open spec fn blocks_spec(
    ops: Seq<DiffOp>,
    hs: Seq<Hunk>,
    lr: Seq<Seq<char>>,
    rr: Seq<Seq<char>>,
    use_color: bool,
) -> Seq<Seq<char>>
    decreases hs.len(),
{
    if hs.len() == 0 {
        seq![]
    } else {
        blocks_spec(ops, hs.drop_last(), lr, rr, use_color) + hunk_block_spec(
            ops,
            hs.last(),
            lr,
            rr,
            use_color,
        )
    }
}

/// The whole unified output: the two file-header lines, then every hunk's
/// block, in hunk order, which is edit-script order.
pub open spec fn unified_spec(
    left_path: Seq<char>,
    right_path: Seq<char>,
    ops: Seq<DiffOp>,
    hs: Seq<Hunk>,
    lr: Seq<Seq<char>>,
    rr: Seq<Seq<char>>,
    use_color: bool,
) -> Seq<Seq<char>> {
    seq![
        file_header_spec(seq!['-', '-', '-', ' '], left_path, use_color),
        file_header_spec(seq!['+', '+', '+', ' '], right_path, use_color),
    ] + blocks_spec(ops, hs, lr, rr, use_color)
}

/// Lays the hunks out as a unified patch, one output line per element:
/// the `---`/`+++` file headers, then for each hunk its header line and its
/// ops rendered in order with their markers.  `left_rendered` and
/// `right_rendered` hold the styled rendering of every line of each side.
pub fn unified_output(
    left_path: &str,
    right_path: &str,
    ops: &Vec<DiffOp>,
    hs: &Vec<Hunk>,
    left_rendered: &Vec<String>,
    right_rendered: &Vec<String>,
    use_color: bool,
) -> (r: Vec<String>)
    requires
        forall|k: int|
            0 <= k < hs@.len() ==> #[trigger] hs@[k].op_start <= hs@[k].op_end && hs@[k].op_end
                <= ops@.len(),
        forall|i: int|
            0 <= i < ops@.len() && has_left(#[trigger] ops@[i]) ==> 0 <= left_of(ops@[i])
                < left_rendered@.len(),
        forall|i: int|
            0 <= i < ops@.len() && has_right(#[trigger] ops@[i]) ==> 0 <= right_of(ops@[i])
                < right_rendered@.len(),
    ensures
        r.deep_view() == unified_spec(
            left_path@,
            right_path@,
            ops@,
            hs@,
            left_rendered.deep_view(),
            right_rendered.deep_view(),
            use_color,
        ),
{
    let ghost lr = left_rendered.deep_view();
    let ghost rr = right_rendered.deep_view();
    proof {
        reveal_strlit("--- ");
        reveal_strlit("+++ ");
        assert("--- "@ =~= seq!['-', '-', '-', ' ']);
        assert("+++ "@ =~= seq!['+', '+', '+', ' ']);
    }
    let mut out: Vec<String> = Vec::new();
    let ghost mut shown: Seq<Seq<char>> = seq![];
    let h1 = file_header("--- ", left_path, use_color);
    let ghost h1v = h1@;
    out.push(h1);
    let h2 = file_header("+++ ", right_path, use_color);
    let ghost h2v = h2@;
    out.push(h2);
    proof {
        assert(out.deep_view() =~= seq![h1v, h2v]);
    }
    let mut k: usize = 0;
    while k < hs.len()
        invariant
            0 <= k <= hs@.len(),
            lr == left_rendered.deep_view(),
            rr == right_rendered.deep_view(),
            h1v == file_header_spec(seq!['-', '-', '-', ' '], left_path@, use_color),
            h2v == file_header_spec(seq!['+', '+', '+', ' '], right_path@, use_color),
            forall|q: int|
                0 <= q < hs@.len() ==> #[trigger] hs@[q].op_start <= hs@[q].op_end
                    && hs@[q].op_end <= ops@.len(),
            forall|i: int|
                0 <= i < ops@.len() && has_left(#[trigger] ops@[i]) ==> 0 <= left_of(ops@[i])
                    < lr.len(),
            forall|i: int|
                0 <= i < ops@.len() && has_right(#[trigger] ops@[i]) ==> 0 <= right_of(ops@[i])
                    < rr.len(),
            out.deep_view() == seq![h1v, h2v] + blocks_spec(
                ops@,
                hs@.take(k as int),
                lr,
                rr,
                use_color,
            ),
        decreases hs@.len() - k,
    {
        let h = hs[k];
        let ghost pre = out.deep_view();
        let header = hunk_header(&h, use_color);
        let ghost headerv = header@;
        out.push(header);
        proof {
            assert(out.deep_view() =~= pre.push(headerv));
        }
        let mut m = h.op_start;
        while m < h.op_end
            invariant
                hs@[k as int] == h,
                0 <= k < hs@.len(),
                h.op_start <= m <= h.op_end <= ops@.len(),
                lr == left_rendered.deep_view(),
                rr == right_rendered.deep_view(),
                forall|i: int|
                    0 <= i < ops@.len() && has_left(#[trigger] ops@[i]) ==> 0 <= left_of(ops@[i])
                        < lr.len(),
                forall|i: int|
                    0 <= i < ops@.len() && has_right(#[trigger] ops@[i]) ==> 0 <= right_of(
                        ops@[i],
                    ) < rr.len(),
                out.deep_view() == pre.push(headerv) + Seq::new(
                    (m - h.op_start) as nat,
                    |i: int| op_line_spec(ops@[h.op_start + i], lr, rr, use_color),
                ),
            decreases h.op_end - m,
        {
            let line = op_line(&ops[m], left_rendered, right_rendered, use_color);
            let ghost linev = line@;
            let ghost mid = out.deep_view();
            out.push(line);
            proof {
                assert(out.deep_view() =~= mid.push(linev));
                assert(out.deep_view() =~= pre.push(headerv) + Seq::new(
                    (m + 1 - h.op_start) as nat,
                    |i: int| op_line_spec(ops@[h.op_start + i], lr, rr, use_color),
                ));
            }
            m = m + 1;
        }
        proof {
            assert(hs@.take(k as int + 1).drop_last() =~= hs@.take(k as int));
            assert(hs@.take(k as int + 1).last() == hs@[k as int]);
            assert(out.deep_view() =~= seq![h1v, h2v] + blocks_spec(
                ops@,
                hs@.take(k as int + 1),
                lr,
                rr,
                use_color,
            ));
        }
        k = k + 1;
    }
    proof {
        assert(hs@.take(hs@.len() as int) =~= hs@);
    }
    out
}

/// Renders every line of one side with its highlight spans applied: one
/// styled string per line, without trailing newlines.  With color or
/// highlighting off each line is emitted verbatim.
pub fn render_side(src: &str, spans: &Vec<MatchedSpan>, config: &DisplayConfig) -> (r: Vec<
    String,
>)
    ensures
        r@.len() == lines_of(src@).len(),
        (!config.use_color || !config.syntax_highlight) ==> r.deep_view() == lines_of(src@),
{
    let lines = split_lines(src);
    let ghost ls = lines_of(src@);
    let mut out: Vec<String> = Vec::new();
    let mut offset: usize = 0;
    let mut i: usize = 0;
    while i < lines.len()
        invariant
            0 <= i <= lines.len(),
            lines.deep_view() == ls,
            ls == lines_of(src@),
            out@.len() == i,
            (!config.use_color || !config.syntax_highlight) ==> forall|q: int|
                0 <= q < i ==> out.deep_view()[q] == ls[q],
        decreases lines.len() - i,
    {
        assert(lines.deep_view()[i as int] == lines[i as int]@);
        let len = lines[i].as_str().unicode_len();
        // the offsets count characters from the buffer's start; the clamps
        // only guard the arithmetic at the type's limit
        let start = if offset <= usize::MAX - len {
            offset
        } else {
            0
        };
        let styled = crate::colorize::styled_line(
            lines[i].as_str(),
            false,
            start,
            spans,
            config,
        );
        let ghost pre = out.deep_view();
        proof {
            if !config.use_color || !config.syntax_highlight {
                assert(styled@ + crate::colorize::nl_suffix(false) =~= styled@);
            }
        }
        out.push(styled);
        proof {
            assert(out.deep_view() =~= pre.push(out@[i as int]@));
        }
        offset = if len < usize::MAX && offset <= usize::MAX - len - 1 {
            offset + len + 1
        } else {
            offset
        };
        i = i + 1;
    }
    proof {
        if !config.use_color || !config.syntax_highlight {
            assert(out.deep_view() =~= ls);
        }
    }
    out
}

/// The unified pipeline relation: `ops` is a valid edit script over the two
/// sources, `hs` are its well-formed hunks for the configured radius, `lr`
/// and `rr` are the sides' rendered lines (verbatim when color or
/// highlighting is off), and `out` is their unified layout.
pub open spec fn unified_ok(
    left_path: Seq<char>,
    right_path: Seq<char>,
    before: Seq<char>,
    after: Seq<char>,
    config: DisplayConfig,
    ops: Seq<DiffOp>,
    hs: Seq<Hunk>,
    lr: Seq<Seq<char>>,
    rr: Seq<Seq<char>>,
    out: Seq<Seq<char>>,
) -> bool {
    &&& left_index_seq(ops) == Seq::new(lines_of(before).len(), |i: int| i)
    &&& right_index_seq(ops) == Seq::new(lines_of(after).len(), |i: int| i)
    &&& hunks_wf(ops, config.context_radius as int, hs)
    &&& ((!config.use_color || !config.syntax_highlight) ==> lr == lines_of(before) && rr
        == lines_of(after))
    &&& out == unified_spec(left_path, right_path, ops, hs, lr, rr, config.use_color)
}

/// Runs the whole unified pipeline: computes the edit script of the two
/// sources, selects its hunks for the configured context radius, renders
/// each side's lines with their spans, and lays everything out as a
/// unified patch, one output line per element.
#[verifier::spinoff_prover]
#[verifier::rlimit(100)]
pub fn unified(
    left_path: &str,
    right_path: &str,
    before_src: &str,
    after_src: &str,
    left_spans: &Vec<MatchedSpan>,
    right_spans: &Vec<MatchedSpan>,
    config: &DisplayConfig,
) -> (r: Vec<String>)
    requires
        config.context_radius <= usize::MAX / 4,
    ensures
        exists|ops: Seq<DiffOp>, hs: Seq<Hunk>, lr: Seq<Seq<char>>, rr: Seq<Seq<char>>|
            unified_ok(
                left_path@,
                right_path@,
                before_src@,
                after_src@,
                *config,
                ops,
                hs,
                lr,
                rr,
                r.deep_view(),
            ),
{
    let before_lines = split_lines(before_src);
    let after_lines = split_lines(after_src);
    let ops = edit_script(&before_lines, &after_lines);
    let nl = before_lines.len();
    let nr = after_lines.len();
    proof {
        lemma_ops_indices_bounded(ops@, nl, nr);
    }
    let hunks = select_hunks(&ops, config.context_radius);
    let left_rendered = render_side(before_src, left_spans, config);
    let right_rendered = render_side(after_src, right_spans, config);
    proof {
        crate::hunks::lemma_hunks_ranges(ops@, config.context_radius as int, hunks@);
    }
    let out = unified_output(
        left_path,
        right_path,
        &ops,
        &hunks,
        &left_rendered,
        &right_rendered,
        config.use_color,
    );
    proof {
        let lr = left_rendered.deep_view();
        let rr = right_rendered.deep_view();
        assert(left_index_seq(ops@) == Seq::new(lines_of(before_src@).len(), |i: int| i));
        assert(right_index_seq(ops@) == Seq::new(lines_of(after_src@).len(), |i: int| i));
        assert(hunks_wf(ops@, config.context_radius as int, hunks@));
        assert((!config.use_color || !config.syntax_highlight) ==> lr == lines_of(before_src@)
            && rr == lines_of(after_src@));
        assert(out.deep_view() == unified_spec(
            left_path@,
            right_path@,
            ops@,
            hunks@,
            lr,
            rr,
            config.use_color,
        ));
        assert(unified_ok(
            left_path@,
            right_path@,
            before_src@,
            after_src@,
            *config,
            ops@,
            hunks@,
            lr,
            rr,
            out.deep_view(),
        ));
    }
    out
}

/// `x` is a line number that some op of some hunk shows, on either side:
/// the line numbers the side-by-side layout keeps.
pub open spec fn line_in_hunks(ops: Seq<DiffOp>, hs: Seq<Hunk>, x: int) -> bool {
    exists|k: int, m: int|
        #![trigger hs[k], ops[m]]
        0 <= k < hs.len() && hs[k].op_start <= m < hs[k].op_end && m < ops.len() && ((has_left(
            ops[m],
        ) && left_of(ops[m]) == x) || (has_right(ops[m]) && right_of(ops[m]) == x))
}

/// Collects, over both sides, every line number shown by some hunk.
pub fn hunk_line_numbers(ops: &Vec<DiffOp>, hs: &Vec<Hunk>) -> (w: Vec<LineNumber>)
    requires
        forall|k: int|
            0 <= k < hs@.len() ==> #[trigger] hs@[k].op_start <= hs@[k].op_end && hs@[k].op_end
                <= ops@.len(),
    ensures
        forall|x: int| is_wanted(w@, x) <==> line_in_hunks(ops@, hs@, x),
{
    let mut w: Vec<LineNumber> = Vec::new();
    let mut k: usize = 0;
    while k < hs.len()
        invariant
            0 <= k <= hs@.len(),
            forall|q: int|
                0 <= q < hs@.len() ==> #[trigger] hs@[q].op_start <= hs@[q].op_end
                    && hs@[q].op_end <= ops@.len(),
            forall|q: int|
                0 <= q < w@.len() ==> line_in_hunks(ops@, hs@, #[trigger] w@[q].number as int),
            forall|k2: int, m: int|
                #![trigger hs@[k2], ops@[m]]
                0 <= k2 < k && hs@[k2].op_start <= m < hs@[k2].op_end ==> ((has_left(ops@[m])
                    ==> is_wanted(w@, left_of(ops@[m]))) && (has_right(ops@[m]) ==> is_wanted(
                    w@,
                    right_of(ops@[m]),
                ))),
        decreases hs@.len() - k,
    {
        let h = hs[k];
        let mut m = h.op_start;
        while m < h.op_end
            invariant
                hs@[k as int] == h,
                0 <= k < hs@.len(),
                h.op_start <= m <= h.op_end <= ops@.len(),
                forall|q: int|
                    0 <= q < w@.len() ==> line_in_hunks(ops@, hs@, #[trigger] w@[q].number as int),
                forall|k2: int, m2: int|
                    #![trigger hs@[k2], ops@[m2]]
                    0 <= k2 < k && hs@[k2].op_start <= m2 < hs@[k2].op_end ==> ((has_left(
                        ops@[m2],
                    ) ==> is_wanted(w@, left_of(ops@[m2]))) && (has_right(ops@[m2])
                        ==> is_wanted(w@, right_of(ops@[m2])))),
                forall|m2: int|
                    h.op_start <= m2 < m ==> ((has_left(#[trigger] ops@[m2]) ==> is_wanted(
                        w@,
                        left_of(ops@[m2]),
                    )) && (has_right(ops@[m2]) ==> is_wanted(w@, right_of(ops@[m2])))),
        decreases h.op_end - m,
        {
            let ghost wpre = w@;
            match ops[m] {
                DiffOp::Removed { left } => {
                    w.push(LineNumber { number: left });
                    proof {
                        assert(w@[w@.len() - 1].number == left);
                        assert(is_wanted(w@, left as int));
                    }
                },
                DiffOp::Added { right } => {
                    w.push(LineNumber { number: right });
                    proof {
                        assert(w@[w@.len() - 1].number == right);
                        assert(is_wanted(w@, right as int));
                    }
                },
                DiffOp::Common { left, right } => {
                    w.push(LineNumber { number: left });
                    w.push(LineNumber { number: right });
                    proof {
                        assert(w@[w@.len() - 2].number == left);
                        assert(w@[w@.len() - 1].number == right);
                        assert(is_wanted(w@, left as int));
                        assert(is_wanted(w@, right as int));
                    }
                },
            }
            proof {
                assert forall|q: int| 0 <= q < w@.len() implies line_in_hunks(
                    ops@,
                    hs@,
                    #[trigger] w@[q].number as int,
                ) by {
                    if q < wpre.len() {
                        assert(w@[q] == wpre[q]);
                    } else {
                        assert(hs@[k as int].op_start <= m as int && (m as int)
                            < hs@[k as int].op_end);
                    }
                }
                assert forall|x: int| is_wanted(wpre, x) implies is_wanted(w@, x) by {
                    let q = choose|q: int| 0 <= q < wpre.len() && wpre[q].number == x;
                    assert(w@[q].number == x);
                }
            }
            m = m + 1;
        }
        k = k + 1;
    }
    proof {
        assert forall|x: int| is_wanted(w@, x) implies line_in_hunks(ops@, hs@, x) by {
            let q = choose|q: int| 0 <= q < w@.len() && w@[q].number == x;
        }
    }
    w
}

/// Line indices of a valid edit script fit the machine word: each is below
/// its side's line count.
proof fn lemma_ops_indices_bounded(ops: Seq<DiffOp>, nl: usize, nr: usize)
    requires
        forall|i: int|
            0 <= i < ops.len() && has_left(#[trigger] ops[i]) ==> left_of(ops[i]) < nl as int,
        forall|i: int|
            0 <= i < ops.len() && has_right(#[trigger] ops[i]) ==> right_of(ops[i]) < nr as int,
    ensures
        forall|i: int| 0 <= i < ops.len() ==> left_of(#[trigger] ops[i]) < usize::MAX,
        forall|i: int| 0 <= i < ops.len() ==> right_of(#[trigger] ops[i]) < usize::MAX,
{
    assert forall|i: int| 0 <= i < ops.len() implies left_of(#[trigger] ops[i]) < usize::MAX by {
        if has_left(ops[i]) {
            assert(left_of(ops[i]) < nl as int);
        }
    }
    assert forall|i: int| 0 <= i < ops.len() implies right_of(#[trigger] ops[i]) < usize::MAX by {
        if has_right(ops[i]) {
            assert(right_of(ops[i]) < nr as int);
        }
    }
}

/// The width the left column is padded to: the longest line of the left
/// source, or half the terminal width less one, whichever is larger.
pub open spec fn sbs_pad(before: Seq<char>, terminal_width: int) -> int {
    let m = max_len_from(lines_of(before), 0);
    if m >= terminal_width / 2 - 1 {
        m
    } else {
        terminal_width / 2 - 1
    }
}

/// The side-by-side pipeline relation: `ops` is a valid edit script over
/// the two padded sources, `hs` are its well-formed hunks for the given
/// radius, `w` holds exactly the line numbers those hunks show, and `out`
/// is the two filtered columns laid out side by side.
pub open spec fn sbs_output(
    before: Seq<char>,
    after: Seq<char>,
    terminal_width: int,
    radius: int,
    ops: Seq<DiffOp>,
    hs: Seq<Hunk>,
    w: Seq<LineNumber>,
    out: Seq<char>,
) -> bool {
    let pad = sbs_pad(before, terminal_width);
    let pb = pad_string_spec(before, pad);
    let pa = pad_string_spec(after, pad);
    &&& left_index_seq(ops) == Seq::new(lines_of(pb).len(), |i: int| i)
    &&& right_index_seq(ops) == Seq::new(lines_of(pa).len(), |i: int| i)
    &&& hunks_wf(ops, radius, hs)
    &&& (forall|x: int| is_wanted(w, x) <==> line_in_hunks(ops, hs, x))
    &&& out == vc_from(
        lines_of(filter_lines_spec(pb, w)),
        lines_of(filter_lines_spec(pa, w)),
        pad,
        0,
    )
}

/// Runs the whole side-by-side pipeline: pads both sources to the left
/// column's width so the padding itself never diffs, computes the edit
/// script and its hunks, keeps the line numbers the hunks show (the same
/// set for both columns: the layout assumes the filtered sides line up
/// rather than modeling a gap-aware layout), and lays the filtered columns
/// out side by side.
#[verifier::spinoff_prover]
#[verifier::rlimit(100)]
pub fn side_by_side(
    before_src: &str,
    after_src: &str,
    terminal_width: usize,
    config: &DisplayConfig,
) -> (r: String)
    requires
        2 <= terminal_width,
        config.context_radius <= usize::MAX / 4,
    ensures
        exists|ops: Seq<DiffOp>, hs: Seq<Hunk>, w: Seq<LineNumber>|
            sbs_output(
                before_src@,
                after_src@,
                terminal_width as int,
                config.context_radius as int,
                ops,
                hs,
                w,
                r@,
            ),
{
    let longest = max_line_length(before_src);
    let half = terminal_width / 2 - 1;
    let pad_to_length = if longest >= half {
        longest
    } else {
        half
    };
    let before_padded = pad_string(before_src, pad_to_length);
    let after_padded = pad_string(after_src, pad_to_length);
    let before_lines = split_lines(before_padded.as_str());
    let after_lines = split_lines(after_padded.as_str());
    let ops = edit_script(&before_lines, &after_lines);
    let nl = before_lines.len();
    let nr = after_lines.len();
    proof {
        lemma_ops_indices_bounded(ops@, nl, nr);
    }
    let hunks = select_hunks(&ops, config.context_radius);
    let w = hunk_line_numbers(&ops, &hunks);
    let before_filtered = filter_lines(before_padded.as_str(), w.as_slice());
    let after_filtered = filter_lines(after_padded.as_str(), w.as_slice());
    let out = vertical_concat(before_filtered.as_str(), after_filtered.as_str(), pad_to_length);
    proof {
        let radius = config.context_radius as int;
        let pad = sbs_pad(before_src@, terminal_width as int);
        assert(pad_to_length as int == pad);
        let pb = pad_string_spec(before_src@, pad);
        let pa = pad_string_spec(after_src@, pad);
        assert(before_padded@ == pb);
        assert(after_padded@ == pa);
        assert(left_index_seq(ops@) == Seq::new(lines_of(pb).len(), |i: int| i));
        assert(right_index_seq(ops@) == Seq::new(lines_of(pa).len(), |i: int| i));
        assert(hunks_wf(ops@, radius, hunks@));
        assert(forall|x: int| is_wanted(w@, x) <==> line_in_hunks(ops@, hunks@, x));
        assert(before_filtered@ == filter_lines_spec(pb, w@));
        assert(after_filtered@ == filter_lines_spec(pa, w@));
        assert(out@ == vc_from(
            lines_of(filter_lines_spec(pb, w@)),
            lines_of(filter_lines_spec(pa, w@)),
            pad,
            0,
        ));
        assert(sbs_output(
            before_src@,
            after_src@,
            terminal_width as int,
            radius,
            ops@,
            hunks@,
            w@,
            out@,
        ));
    }
    out
}

} // verus!
