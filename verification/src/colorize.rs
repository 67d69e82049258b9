//! The span colorizer: given a line and the highlight spans that intersect
//! it, it produces styled segments whose concatenated text is byte-identical
//! to the line, and renders them with ANSI styling when color is enabled.

use owo_colors::OwoColorize;
use vstd::prelude::*;
use vstd::string::*;

verus! {

/// The semantic category that the syntax layer assigns to a span.
#[derive(Clone, Copy, Debug, PartialEq, Eq, Structural)]
pub enum Category {
    Keyword,
    Literal,
    Comment,
}

/// Which side of the diff a span belongs to.
#[derive(Clone, Copy, Debug, PartialEq, Eq, Structural)]
pub enum Side {
    Left,
    Right,
}

/// Which palette the styles are drawn from.
#[derive(Clone, Copy, Debug, PartialEq, Eq, Structural)]
pub enum BgColor {
    Light,
    Dark,
    Neutral,
}

/// The immutable configuration resolved before rendering begins, passed by
/// reference through the pipeline.
#[derive(Clone, Copy, Debug, PartialEq, Eq, Structural)]
pub struct DisplayConfig {
    pub use_color: bool,
    pub syntax_highlight: bool,
    pub background_color: BgColor,
    pub context_radius: usize,
}

/// A highlight region: the half-open character range `[start, end)` within
/// one side's source buffer, tagged with its category.
#[derive(Clone, Copy, Debug, PartialEq, Eq, Structural)]
pub struct MatchedSpan {
    pub start: usize,
    pub end: usize,
    pub category: Category,
    pub side: Side,
}

/// A concrete style that the renderer can apply to a run of text.
#[derive(Clone, Copy, Debug, PartialEq, Eq, Structural)]
pub enum StyleTag {
    Plain,
    Dim,
    Header,
    Blue,
    BrightBlue,
    Green,
    Cyan,
}

/// A run of text under a single style.
#[derive(Debug, PartialEq, Eq)]
pub struct StyledSegment {
    pub style: StyleTag,
    pub text: String,
}

/// The style of a category under a palette.
pub open spec fn style_spec(category: Category, bg: BgColor) -> StyleTag {
    match category {
        Category::Keyword => if bg is Dark {
            StyleTag::BrightBlue
        } else {
            StyleTag::Blue
        },
        Category::Literal => StyleTag::Green,
        Category::Comment => StyleTag::Cyan,
    }
}

/// The style of the character at buffer position `pos`: the first span of
/// the list that covers it wins, and a position no span covers stays plain.
pub open spec fn style_at(spans: Seq<MatchedSpan>, pos: int, bg: BgColor) -> StyleTag
    decreases spans.len(),
{
    if spans.len() == 0 {
        StyleTag::Plain
    } else if spans[0].start <= pos < spans[0].end {
        style_spec(spans[0].category, bg)
    } else {
        style_at(spans.skip(1), pos, bg)
    }
}

/// The concatenated text of the segments: what remains when all styling is
/// stripped.
pub open spec fn segs_text(segs: Seq<StyledSegment>) -> Seq<char>
    decreases segs.len(),
{
    if segs.len() == 0 {
        seq![]
    } else {
        segs_text(segs.drop_last()) + segs.last().text@
    }
}

pub open spec fn styled_chars_of(style: StyleTag, text: Seq<char>) -> Seq<(StyleTag, char)> {
    Seq::new(text.len(), |i: int| (style, text[i]))
}

/// Every character of the segments paired with the style it is shown under.
pub open spec fn segs_styled_chars(segs: Seq<StyledSegment>) -> Seq<(StyleTag, char)>
    decreases segs.len(),
{
    if segs.len() == 0 {
        seq![]
    } else {
        segs_styled_chars(segs.drop_last()) + styled_chars_of(
            segs.last().style,
            segs.last().text@,
        )
    }
}

proof fn lemma_seg_singleton(segs: Seq<StyledSegment>, use_color: bool)
    requires
        segs.len() == 1,
    ensures
        segs_text(segs) == segs[0].text@,
        rendered_spec(segs, use_color) == styled_text(segs[0].style, segs[0].text@, use_color),
{
    assert(segs.drop_last() =~= Seq::<StyledSegment>::empty());
    assert(segs_text(segs.drop_last()) == Seq::<char>::empty());
    assert(rendered_spec(segs.drop_last(), use_color) == Seq::<char>::empty());
    assert(segs.last() == segs[0]);
    assert(Seq::<char>::empty() + segs[0].text@ =~= segs[0].text@);
    assert(Seq::<char>::empty() + styled_text(segs[0].style, segs[0].text@, use_color)
        =~= styled_text(segs[0].style, segs[0].text@, use_color));
}

proof fn lemma_segs_push(segs: Seq<StyledSegment>, x: StyledSegment)
    ensures
        segs_text(segs.push(x)) == segs_text(segs) + x.text@,
        segs_styled_chars(segs.push(x)) == segs_styled_chars(segs) + styled_chars_of(
            x.style,
            x.text@,
        ),
{
    assert(segs.push(x).drop_last() =~= segs);
}

fn style_for(category: Category, bg: BgColor) -> (r: StyleTag)
    ensures
        r == style_spec(category, bg),
{
    match category {
        Category::Keyword => match bg {
            BgColor::Dark => StyleTag::BrightBlue,
            _ => StyleTag::Blue,
        },
        Category::Literal => StyleTag::Green,
        Category::Comment => StyleTag::Cyan,
    }
}

fn style_lookup(spans: &Vec<MatchedSpan>, pos: usize, bg: BgColor) -> (r: StyleTag)
    ensures
        r == style_at(spans@, pos as int, bg),
{
    let mut k: usize = 0;
    proof {
        assert(spans@.skip(0) =~= spans@);
    }
    while k < spans.len()
        invariant
            0 <= k <= spans@.len(),
            style_at(spans@, pos as int, bg) == style_at(spans@.skip(k as int), pos as int, bg),
        decreases spans@.len() - k,
    {
        proof {
            assert(spans@.skip(k as int)[0] == spans@[k as int]);
            assert(spans@.skip(k as int).skip(1) =~= spans@.skip(k as int + 1));
        }
        let sp = spans[k];
        if sp.start <= pos && pos < sp.end {
            return style_for(sp.category, bg);
        }
        k = k + 1;
    }
    proof {
        assert(spans@.skip(spans@.len() as int).len() == 0);
    }
    StyleTag::Plain
}

/// Splits the line into styled segments.  The concatenated segment text is
/// the line itself, character for character; with highlighting on, each
/// character carries the style of the first span covering its buffer
/// position, and plain style elsewhere; with highlighting off the whole
/// line is one plain segment.
pub fn colorize_line(
    content: &str,
    line_start: usize,
    spans: &Vec<MatchedSpan>,
    syntax_highlight: bool,
    bg: BgColor,
) -> (segs: Vec<StyledSegment>)
    requires
        line_start + content@.len() <= usize::MAX,
    ensures
        segs_text(segs@) == content@,
        !syntax_highlight ==> segs@.len() == 1 && segs@[0].style is Plain && segs@[0].text@
            == content@,
        syntax_highlight ==> segs_styled_chars(segs@) == Seq::new(
            content@.len(),
            |i: int| (style_at(spans@, line_start + i, bg), content@[i]),
        ),
{
    if !syntax_highlight {
        let seg = StyledSegment { style: StyleTag::Plain, text: String::from_str(content) };
        let mut segs: Vec<StyledSegment> = Vec::new();
        segs.push(seg);
        proof {
            lemma_seg_singleton(segs@, false);
        }
        return segs;
    }
    let n = content.unicode_len();
    let mut segs: Vec<StyledSegment> = Vec::new();
    let mut i: usize = 0;
    proof {
        assert(segs_text(segs@) =~= content@.take(0));
        assert(segs_styled_chars(segs@) =~= Seq::new(
            0,
            |p: int| (style_at(spans@, line_start + p, bg), content@[p]),
        ));
    }
    while i < n
        invariant
            0 <= i <= n,
            n == content@.len(),
            line_start + n <= usize::MAX,
            segs_text(segs@) == content@.take(i as int),
            segs_styled_chars(segs@) == Seq::new(
                i as nat,
                |p: int| (style_at(spans@, line_start + p, bg), content@[p]),
            ),
        decreases n - i,
    {
        let st = style_lookup(spans, line_start + i, bg);
        let run_start = i;
        i = i + 1;
        while i < n && style_lookup(spans, line_start + i, bg) == st
            invariant
                run_start < i <= n,
                n == content@.len(),
                line_start + n <= usize::MAX,
                forall|p: int|
                    run_start as int <= p < i as int ==> #[trigger] style_at(
                        spans@,
                        line_start + p,
                        bg,
                    ) == st,
            decreases n - i,
        {
            i = i + 1;
        }
        let piece = content.substring_char(run_start, i);
        let seg = StyledSegment { style: st, text: String::from_str(piece) };
        proof {
            lemma_segs_push(segs@, seg);
        }
        segs.push(seg);
        proof {
            assert(content@.take(run_start as int) + content@.subrange(run_start as int, i as int)
                =~= content@.take(i as int));
            assert(segs_styled_chars(segs@) =~= Seq::new(
                i as nat,
                |p: int| (style_at(spans@, line_start + p, bg), content@[p]),
            ));
        }
    }
    proof {
        assert(content@.take(n as int) =~= content@);
    }
    segs
}

/// The ANSI sequence that opens a style.
pub open spec fn style_prefix(t: StyleTag) -> Seq<char> {
    match t {
        StyleTag::Plain => seq![],
        StyleTag::Dim => seq!['\u{1b}', '[', '2', 'm'],
        StyleTag::Header => seq!['\u{1b}', '[', '1', 'm', '\u{1b}', '[', '9', '3', 'm'],
        StyleTag::Blue => seq!['\u{1b}', '[', '3', '4', 'm'],
        StyleTag::BrightBlue => seq!['\u{1b}', '[', '9', '4', 'm'],
        StyleTag::Green => seq!['\u{1b}', '[', '3', '2', 'm'],
        StyleTag::Cyan => seq!['\u{1b}', '[', '3', '6', 'm'],
    }
}

/// The ANSI sequence that closes a style.
pub open spec fn style_suffix(t: StyleTag) -> Seq<char> {
    match t {
        StyleTag::Plain => seq![],
        StyleTag::Dim => seq!['\u{1b}', '[', '0', 'm'],
        StyleTag::Header => seq!['\u{1b}', '[', '3', '9', 'm', '\u{1b}', '[', '0', 'm'],
        StyleTag::Blue => seq!['\u{1b}', '[', '3', '9', 'm'],
        StyleTag::BrightBlue => seq!['\u{1b}', '[', '3', '9', 'm'],
        StyleTag::Green => seq!['\u{1b}', '[', '3', '9', 'm'],
        StyleTag::Cyan => seq!['\u{1b}', '[', '3', '9', 'm'],
    }
}

/// A run of text as it is emitted: wrapped in its style's ANSI sequences
/// when color is on, bare otherwise.
pub open spec fn styled_text(t: StyleTag, text: Seq<char>, use_color: bool) -> Seq<char> {
    if use_color {
        style_prefix(t) + text + style_suffix(t)
    } else {
        text
    }
}

/// The whole styled rendering of a segment list.
pub open spec fn rendered_spec(segs: Seq<StyledSegment>, use_color: bool) -> Seq<char>
    decreases segs.len(),
{
    if segs.len() == 0 {
        seq![]
    } else {
        rendered_spec(segs.drop_last(), use_color) + styled_text(
            segs.last().style,
            segs.last().text@,
            use_color,
        )
    }
}

/// With color off, rendering the segments emits exactly their text.
pub proof fn lemma_rendered_no_color(segs: Seq<StyledSegment>)
    ensures
        rendered_spec(segs, false) == segs_text(segs),
    decreases segs.len(),
{
    if segs.len() > 0 {
        lemma_rendered_no_color(segs.drop_last());
    }
}

/// Relies on `owo_colors::OwoColorize::dimmed`: its display writes the dim
/// SGR sequence, the text, and the reset sequence.
#[verifier::external_body]
fn paint_dim(s: &str) -> (r: String)
    ensures
        r@ == style_prefix(StyleTag::Dim) + s@ + style_suffix(StyleTag::Dim),
{
    format!("{}", s.dimmed())
}

/// Relies on `owo_colors::OwoColorize::bright_yellow` and `bold`: the
/// display writes the bold and bright-yellow sequences, the text, then the
/// default-foreground and reset sequences.
#[verifier::external_body]
fn paint_header(s: &str) -> (r: String)
    ensures
        r@ == style_prefix(StyleTag::Header) + s@ + style_suffix(StyleTag::Header),
{
    format!("{}", s.bright_yellow().bold())
}

/// Relies on `owo_colors::OwoColorize::blue`: the display writes the blue
/// foreground sequence, the text, and the default-foreground sequence.
#[verifier::external_body]
fn paint_blue(s: &str) -> (r: String)
    ensures
        r@ == style_prefix(StyleTag::Blue) + s@ + style_suffix(StyleTag::Blue),
{
    format!("{}", s.blue())
}

/// Relies on `owo_colors::OwoColorize::bright_blue`: as `blue`, with the
/// bright-blue foreground sequence.
#[verifier::external_body]
fn paint_bright_blue(s: &str) -> (r: String)
    ensures
        r@ == style_prefix(StyleTag::BrightBlue) + s@ + style_suffix(StyleTag::BrightBlue),
{
    format!("{}", s.bright_blue())
}

/// Relies on `owo_colors::OwoColorize::green`: as `blue`, with the green
/// foreground sequence.
#[verifier::external_body]
fn paint_green(s: &str) -> (r: String)
    ensures
        r@ == style_prefix(StyleTag::Green) + s@ + style_suffix(StyleTag::Green),
{
    format!("{}", s.green())
}

/// Relies on `owo_colors::OwoColorize::cyan`: as `blue`, with the cyan
/// foreground sequence.
#[verifier::external_body]
fn paint_cyan(s: &str) -> (r: String)
    ensures
        r@ == style_prefix(StyleTag::Cyan) + s@ + style_suffix(StyleTag::Cyan),
{
    format!("{}", s.cyan())
}

/// Wraps one run of text in its style, when color is on.
pub fn paint(style: StyleTag, s: &str, use_color: bool) -> (r: String)
    ensures
        r@ == styled_text(style, s@, use_color),
{
    if !use_color {
        return String::from_str(s);
    }
    let r = match style {
        StyleTag::Plain => String::from_str(s),
        StyleTag::Dim => paint_dim(s),
        StyleTag::Header => paint_header(s),
        StyleTag::Blue => paint_blue(s),
        StyleTag::BrightBlue => paint_bright_blue(s),
        StyleTag::Green => paint_green(s),
        StyleTag::Cyan => paint_cyan(s),
    };
    proof {
        assert(style_prefix(StyleTag::Plain) + s@ + style_suffix(StyleTag::Plain) =~= s@);
    }
    r
}

/// Renders the segments one after the other, wrapping each in its style's
/// ANSI sequences when color is on and emitting the bare text otherwise.
pub fn render_segments(segs: &Vec<StyledSegment>, use_color: bool) -> (r: String)
    ensures
        r@ == rendered_spec(segs@, use_color),
{
    let mut out = String::new();
    let mut k: usize = 0;
    proof {
        assert(rendered_spec(segs@.take(0), use_color) =~= Seq::<char>::empty());
    }
    while k < segs.len()
        invariant
            0 <= k <= segs@.len(),
            out@ == rendered_spec(segs@.take(k as int), use_color),
        decreases segs@.len() - k,
    {
        let piece = paint(segs[k].style, segs[k].text.as_str(), use_color);
        out.append(piece.as_str());
        proof {
            assert(segs@.take(k as int + 1).drop_last() =~= segs@.take(k as int));
            assert(segs@.take(k as int + 1).last() == segs@[k as int]);
        }
        k = k + 1;
    }
    proof {
        assert(segs@.take(segs@.len() as int) =~= segs@);
    }
    out
}

/// The line's trailing newline, when it had one.
pub open spec fn nl_suffix(has_newline: bool) -> Seq<char> {
    if has_newline {
        seq!['\n']
    } else {
        seq![]
    }
}

/// The styled rendering of one line: its styled segments emitted in order,
/// then its original trailing-newline state reproduced.  Stripped of all
/// styling the result is the line itself; when color or highlighting is
/// off, it is the line verbatim.
pub fn styled_line(
    content: &str,
    has_newline: bool,
    line_start: usize,
    spans: &Vec<MatchedSpan>,
    config: &DisplayConfig,
) -> (r: String)
    requires
        line_start + content@.len() <= usize::MAX,
    ensures
        exists|segs: Seq<StyledSegment>|
            segs_text(segs) == content@ && r@ == rendered_spec(segs, config.use_color)
                + nl_suffix(has_newline) && (config.syntax_highlight ==> segs_styled_chars(segs)
                == Seq::new(
                content@.len(),
                |i: int|
                    (style_at(spans@, line_start + i, config.background_color), content@[i]),
            )),
        (!config.use_color || !config.syntax_highlight) ==> r@ == content@ + nl_suffix(
            has_newline,
        ),
{
    let segs = colorize_line(
        content,
        line_start,
        spans,
        config.syntax_highlight,
        config.background_color,
    );
    let mut out = render_segments(&segs, config.use_color);
    proof {
        if !config.use_color {
            lemma_rendered_no_color(segs@);
        } else if !config.syntax_highlight {
            lemma_seg_singleton(segs@, true);
            assert(style_prefix(StyleTag::Plain) + segs@[0].text@ + style_suffix(StyleTag::Plain)
                =~= segs@[0].text@);
        }
        reveal_strlit("\n");
        assert("\n"@ =~= seq!['\n']);
    }
    if has_newline {
        out.append("\n");
    } else {
        proof {
            assert(out@ + nl_suffix(false) =~= out@);
        }
    }
    out
}

} // verus!
