use difftastic::colorize::{
    colorize_line, render_segments, styled_line, BgColor, Category, DisplayConfig, MatchedSpan,
    Side, StyleTag, StyledSegment,
};
use difftastic::diffs::{edit_script, DiffOp};
use difftastic::hunks::select_hunks;
use difftastic::lines::{
    filter_lines, has_trailing_newline, max_line_length, pad_string, split_lines,
    vertical_concat, LineNumber,
};
use difftastic::numbers::usize_to_string;
use difftastic::render::{hunk_header, hunk_line_numbers, side_by_side, unified};
use difftastic::term::width_or_default;

fn strings(v: &[&str]) -> Vec<String> {
    v.iter().map(|s| s.to_string()).collect()
}

fn plain_config(context_radius: usize) -> DisplayConfig {
    DisplayConfig {
        use_color: false,
        syntax_highlight: false,
        background_color: BgColor::Neutral,
        context_radius,
    }
}

#[test]
fn test_filter_lines() {
    let s = "foo\nbar\nbaz\nquux";
    let result = filter_lines(s, &[LineNumber::from(1), LineNumber::from(3)]);
    assert_eq!(result, "bar\nquux");
}

#[test]
fn split_and_trailing_newline() {
    assert_eq!(split_lines("a\nb\nc"), strings(&["a", "b", "c"]));
    assert_eq!(split_lines("a\n\nb\n"), strings(&["a", "", "b"]));
    assert_eq!(split_lines(""), Vec::<String>::new());
    assert!(has_trailing_newline("a\n"));
    assert!(!has_trailing_newline("a"));
}

#[test]
fn max_line_length_examples() {
    assert_eq!(max_line_length(""), 0);
    assert_eq!(max_line_length("foo\nbar\nlonger\nx"), 6);
}

#[test]
fn edit_script_indices_cover_both_sides() {
    let left = strings(&["a", "b", "c", "d"]);
    let right = strings(&["a", "x", "c"]);
    let ops = edit_script(&left, &right);
    let mut left_indices = Vec::new();
    let mut right_indices = Vec::new();
    for op in &ops {
        match op {
            DiffOp::Removed { left } => left_indices.push(*left),
            DiffOp::Added { right } => right_indices.push(*right),
            DiffOp::Common { left, right } => {
                left_indices.push(*left);
                right_indices.push(*right);
            }
        }
    }
    assert_eq!(left_indices, vec![0, 1, 2, 3]);
    assert_eq!(right_indices, vec![0, 1, 2]);
}

#[test]
fn edit_script_of_equal_sides_is_all_common() {
    let left = strings(&["a", "b", "c"]);
    let ops = edit_script(&left, &left.clone());
    assert_eq!(
        ops,
        vec![
            DiffOp::Common { left: 0, right: 0 },
            DiffOp::Common { left: 1, right: 1 },
            DiffOp::Common { left: 2, right: 2 },
        ]
    );
    assert_eq!(select_hunks(&ops, 0).len(), 0);
    assert_eq!(select_hunks(&ops, 3).len(), 0);
}

#[test]
fn edit_script_empty_sides() {
    let empty: Vec<String> = Vec::new();
    let one = strings(&["a"]);
    assert_eq!(edit_script(&empty, &one), vec![DiffOp::Added { right: 0 }]);
    assert_eq!(edit_script(&one, &empty), vec![DiffOp::Removed { left: 0 }]);
    assert_eq!(edit_script(&empty, &empty), Vec::<DiffOp>::new());
}

#[test]
fn zero_radius_single_removal_gives_one_exact_hunk() {
    let ops = vec![
        DiffOp::Common { left: 0, right: 0 },
        DiffOp::Removed { left: 1 },
        DiffOp::Common { left: 2, right: 1 },
    ];
    let hunks = select_hunks(&ops, 0);
    assert_eq!(hunks.len(), 1);
    assert_eq!(hunks[0].op_start, 1);
    assert_eq!(hunks[0].op_end, 2);
    assert_eq!(hunks[0].left_start, 2);
    assert_eq!(hunks[0].left_count, 1);
    assert_eq!(hunks[0].right_count, 0);
    assert_eq!(hunks[0].right_start, 0);
}

#[test]
fn clusters_a_radius_apart_merge() {
    // two removals separated by exactly one common op, radius 1
    let ops = vec![
        DiffOp::Removed { left: 0 },
        DiffOp::Common { left: 1, right: 0 },
        DiffOp::Removed { left: 2 },
        DiffOp::Common { left: 3, right: 1 },
    ];
    let hunks = select_hunks(&ops, 1);
    assert_eq!(hunks.len(), 1);
    assert_eq!(hunks[0].op_start, 0);
    assert_eq!(hunks[0].op_end, 4);
}

#[test]
fn clusters_past_the_window_stay_separate() {
    // radius 0: one common op between the changes keeps them apart
    let ops = vec![
        DiffOp::Removed { left: 0 },
        DiffOp::Common { left: 1, right: 0 },
        DiffOp::Removed { left: 2 },
    ];
    let hunks = select_hunks(&ops, 0);
    assert_eq!(hunks.len(), 2);
    assert_eq!((hunks[0].op_start, hunks[0].op_end), (0, 1));
    assert_eq!((hunks[1].op_start, hunks[1].op_end), (2, 3));
    // radius 1: three common ops between the changes is past both windows
    let ops2 = vec![
        DiffOp::Removed { left: 0 },
        DiffOp::Common { left: 1, right: 0 },
        DiffOp::Common { left: 2, right: 1 },
        DiffOp::Common { left: 3, right: 2 },
        DiffOp::Removed { left: 4 },
    ];
    let hunks2 = select_hunks(&ops2, 1);
    assert_eq!(hunks2.len(), 2);
    assert_eq!((hunks2[0].op_start, hunks2[0].op_end), (0, 2));
    assert_eq!((hunks2[1].op_start, hunks2[1].op_end), (3, 5));
}

#[test]
fn colorize_without_highlighting_is_verbatim() {
    let spans: Vec<MatchedSpan> = Vec::new();
    let config = plain_config(3);
    let out = styled_line("hello", true, 0, &spans, &config);
    assert_eq!(out, "hello\n");
    let out2 = styled_line("hello", false, 0, &spans, &config);
    assert_eq!(out2, "hello");
    let segs = colorize_line("hello", 0, &spans, false, BgColor::Neutral);
    assert_eq!(segs.len(), 1);
    assert_eq!(segs[0].text, "hello");
    assert_eq!(segs[0].style, StyleTag::Plain);
}

#[test]
fn colorize_with_spans_wraps_only_the_covered_run() {
    let spans = vec![MatchedSpan {
        start: 0,
        end: 3,
        category: Category::Keyword,
        side: Side::Left,
    }];
    let config = DisplayConfig {
        use_color: true,
        syntax_highlight: true,
        background_color: BgColor::Neutral,
        context_radius: 3,
    };
    let out = styled_line("let x", false, 0, &spans, &config);
    assert_eq!(out, "\u{1b}[34mlet\u{1b}[39m x");
}

#[test]
fn render_segments_emits_ansi_only_with_color() {
    let segs = vec![StyledSegment { style: StyleTag::Dim, text: "x".to_string() }];
    assert_eq!(render_segments(&segs, true), "\u{1b}[2mx\u{1b}[0m");
    assert_eq!(render_segments(&segs, false), "x");
}

#[test]
fn render_segments_palette_codes() {
    let segs = vec![
        StyledSegment { style: StyleTag::Green, text: "g".to_string() },
        StyledSegment { style: StyleTag::Cyan, text: "c".to_string() },
        StyledSegment { style: StyleTag::BrightBlue, text: "b".to_string() },
    ];
    assert_eq!(
        render_segments(&segs, true),
        "\u{1b}[32mg\u{1b}[39m\u{1b}[36mc\u{1b}[39m\u{1b}[94mb\u{1b}[39m"
    );
}

#[test]
fn dark_background_picks_the_bright_palette() {
    let spans = vec![MatchedSpan {
        start: 0,
        end: 1,
        category: Category::Keyword,
        side: Side::Right,
    }];
    let config = DisplayConfig {
        use_color: true,
        syntax_highlight: true,
        background_color: BgColor::Dark,
        context_radius: 3,
    };
    let out = styled_line("fn", false, 0, &spans, &config);
    assert_eq!(out, "\u{1b}[94mf\u{1b}[39mn");
}

#[test]
fn overlapping_spans_first_wins() {
    let spans = vec![
        MatchedSpan { start: 0, end: 2, category: Category::Literal, side: Side::Left },
        MatchedSpan { start: 1, end: 3, category: Category::Comment, side: Side::Left },
    ];
    let config = DisplayConfig {
        use_color: true,
        syntax_highlight: true,
        background_color: BgColor::Neutral,
        context_radius: 3,
    };
    let out = styled_line("abc", false, 0, &spans, &config);
    assert_eq!(out, "\u{1b}[32mab\u{1b}[39m\u{1b}[36mc\u{1b}[39m");
}

#[test]
fn decimal_rendering() {
    assert_eq!(usize_to_string(0), "0");
    assert_eq!(usize_to_string(7), "7");
    assert_eq!(usize_to_string(120), "120");
}

#[test]
fn unified_scenario_one_changed_line() {
    let config = plain_config(1);
    let spans: Vec<MatchedSpan> = Vec::new();
    let out = unified("foo.el", "foo.el", "a\nb\nc\n", "a\nx\nc\n", &spans, &spans, &config);
    assert_eq!(
        out,
        vec![
            "--- foo.el".to_string(),
            "+++ foo.el".to_string(),
            "@@ -1,3 +1,3 @@".to_string(),
            "  a".to_string(),
            "- b".to_string(),
            "+ x".to_string(),
            "  c".to_string(),
        ]
    );
}

#[test]
fn unified_scenario_added_line_counts() {
    let config = plain_config(3);
    let spans: Vec<MatchedSpan> = Vec::new();
    let out = unified("l", "r", "a\n", "a\nb\n", &spans, &spans, &config);
    assert_eq!(
        out,
        vec![
            "--- l".to_string(),
            "+++ r".to_string(),
            "@@ -1,1 +1,2 @@".to_string(),
            "  a".to_string(),
            "+ b".to_string(),
        ]
    );
}

#[test]
fn unified_headers_are_styled_with_color_on() {
    let config = DisplayConfig {
        use_color: true,
        syntax_highlight: false,
        background_color: BgColor::Neutral,
        context_radius: 1,
    };
    let spans: Vec<MatchedSpan> = Vec::new();
    let out = unified("foo.el", "foo.el", "a\n", "b\n", &spans, &spans, &config);
    assert_eq!(out[0], "\u{1b}[1m\u{1b}[93m--- foo.el\u{1b}[39m\u{1b}[0m");
    assert_eq!(out[1], "\u{1b}[1m\u{1b}[93m+++ foo.el\u{1b}[39m\u{1b}[0m");
    assert_eq!(out[2], "\u{1b}[2m@@ -1,1 +1,1 @@\u{1b}[0m");
    assert_eq!(out[3], "\u{1b}[2m-\u{1b}[0m a");
    assert_eq!(out[4], "\u{1b}[2m+\u{1b}[0m b");
}

#[test]
fn hunk_header_reports_fields() {
    let ops = vec![DiffOp::Removed { left: 4 }];
    let hunks = select_hunks(&ops, 0);
    assert_eq!(hunks.len(), 1);
    assert_eq!(hunk_header(&hunks[0], false), "@@ -5,1 +0,0 @@");
}

#[test]
fn padding_fills_lines_to_the_width() {
    assert_eq!(pad_string("foo", 10), "foo       \n\n");
    assert_eq!(pad_string("foo\nlonger one", 6), "foo   \nlonger one\n\n");
    assert_eq!(vertical_concat("foo       ", "bar", 10), "foo         bar\n");
}

#[test]
fn vertical_concat_fills_a_missing_left_column() {
    // an empty left line is replaced by padding spaces before the separator
    assert_eq!(vertical_concat("\nx", "b\ny", 3), "     b\nx  y\n");
    // a row with no right line shows the left line alone
    assert_eq!(vertical_concat("a\nb", "c", 1), "a  c\nb\n");
}

#[test]
fn hunk_line_numbers_collects_both_sides() {
    let ops = vec![
        DiffOp::Common { left: 0, right: 0 },
        DiffOp::Removed { left: 1 },
        DiffOp::Added { right: 1 },
        DiffOp::Common { left: 2, right: 2 },
    ];
    let hunks = select_hunks(&ops, 0);
    let w = hunk_line_numbers(&ops, &hunks);
    let mut numbers: Vec<usize> = w.iter().map(|n| n.number).collect();
    numbers.sort();
    numbers.dedup();
    assert_eq!(numbers, vec![1]);
}

#[test]
fn side_by_side_scenario() {
    let config = plain_config(1);
    let out = side_by_side("a\nb\nc", "a\nx\nc", 8, &config);
    assert_eq!(out, "a    a  \nb    x  \nc    c  \n");
}

#[test]
fn terminal_width_default() {
    assert_eq!(width_or_default(None), 80);
    assert_eq!(width_or_default(Some(100)), 100);
}
