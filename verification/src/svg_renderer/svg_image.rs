//! The SVG canvas: an image of a fixed width that grows in height as lines
//! of text are drawn onto it.
//!
//! Text comes as a [`TextLayout`], a list of spans that each carry the style
//! that was in force when they were drawn. [`SvgImage::draw_text`] breaks the
//! spans into lines of the canvas' width, justifies each line and writes it
//! out as SVG elements, one `tspan` for every character.
//!
//! The line breaker counts in dots. A line's elements stand in a `text`
//! element that is scaled by the stretch of the line's first span, so their
//! offsets are in the line's own units: a glyph is one glyph width of its
//! font wide, and a run stands at the line's justified start plus its offset
//! from the line breaker, divided by the line's horizontal stretch. With a
//! stretch of 1 the units are dots. A tab or a carriage return shows in the
//! output as the offset of the run behind it.

use crate::context::{Context, ContextView, TextJustify, TextStrikethrough, TextUnderline};
use crate::font::{EncodingFontMap, EncodingFontMapView};
use crate::layout::{
    is_space_or_control, keeps_all, kept_texts, lemma_kept_texts_all, lemma_pieces_spans_below,
    lemma_place_pieces_within, lemma_plain_pieces, placed_text, placed_view, saturated,
    saturating_product, spans_below, within_lines, LineBreaker, Placed, PlacedView, Placement,
};
use crate::markup::{decimal, decimal_digits, escaped, join, joined, texts};
use crate::segmenter::{
    double_width, is_double_width, is_plain_ascii, joined_text, only_spaces, pieces_of,
    unicode_words,
};
use vstd::prelude::*;
use vstd::string::StringExecFns;

verus! {

/// A run of text with the style it was drawn in.
#[derive(Clone, Debug, PartialEq, Eq)]
pub struct TextSpan {
    pub text: String,
    pub bold: bool,
    pub italic: bool,
    pub underline: bool,
    pub strikethrough: bool,
    /// Horizontal stretch factor.
    pub stretch_width: u8,
    /// Vertical stretch factor.
    pub stretch_height: u8,
    pub inverted: bool,
    pub upside_down: bool,
    pub justify: TextJustify,
    /// Name of the charset that the text was detected as; it selects the
    /// font.
    pub encoding: String,
}

/// The mathematical value of a [`TextSpan`].
pub struct TextSpanView {
    pub text: Seq<char>,
    pub bold: bool,
    pub italic: bool,
    pub underline: bool,
    pub strikethrough: bool,
    pub stretch_width: u8,
    pub stretch_height: u8,
    pub inverted: bool,
    pub upside_down: bool,
    pub justify: TextJustify,
    pub encoding: Seq<char>,
}

impl View for TextSpan {
    type V = TextSpanView;

    open spec fn view(&self) -> TextSpanView {
        TextSpanView {
            text: self.text@,
            bold: self.bold,
            italic: self.italic,
            underline: self.underline,
            strikethrough: self.strikethrough,
            stretch_width: self.stretch_width,
            stretch_height: self.stretch_height,
            inverted: self.inverted,
            upside_down: self.upside_down,
            justify: self.justify,
            encoding: self.encoding@,
        }
    }
}

/// The span that `text` makes in the state `context`: the text with a
/// snapshot of the style. Underline and strikethrough are on for either of
/// their two levels.
pub open spec fn span_of(text: Seq<char>, context: ContextView) -> TextSpanView {
    TextSpanView {
        text,
        bold: context.text.bold,
        italic: context.text.italic,
        underline: !(context.text.underline is Off),
        strikethrough: !(context.text.strikethrough is Off),
        stretch_width: context.text.width_mult,
        stretch_height: context.text.height_mult,
        inverted: context.text.invert,
        upside_down: context.text.upside_down,
        justify: context.text.justify,
        encoding: context.text.encoding,
    }
}

impl TextSpan {
    /// The span that `text` makes in the state `context`.
    pub fn new(text: String, context: &Context) -> (span: TextSpan)
        ensures
            span@ == span_of(text@, context@),
    {
        let style = &context.text;
        let underline = match style.underline {
            TextUnderline::On => true,
            TextUnderline::Double => true,
            TextUnderline::Off => false,
        };
        let strikethrough = match style.strikethrough {
            TextStrikethrough::On => true,
            TextStrikethrough::Double => true,
            TextStrikethrough::Off => false,
        };
        TextSpan {
            text,
            bold: style.bold,
            italic: style.italic,
            underline,
            strikethrough,
            stretch_width: style.width_mult,
            stretch_height: style.height_mult,
            inverted: style.invert,
            upside_down: style.upside_down,
            justify: style.justify,
            encoding: style.encoding.clone(),
        }
    }
}

/// Text that waits to be laid out: spans in the order in which they were
/// drawn, the height of a line and the distance of the tab stops.
#[derive(Clone, Debug, PartialEq, Eq)]
pub struct TextLayout {
    pub spans: Vec<TextSpan>,
    /// Height of an unstretched line in dots.
    pub line_height: usize,
    /// Columns between two tab stops.
    pub tab_len: usize,
}

/// The mathematical value of a [`TextLayout`].
pub struct TextLayoutView {
    pub spans: Seq<TextSpanView>,
    pub line_height: usize,
    pub tab_len: usize,
}

/// The values of the spans of `spans`, in order.
pub open spec fn spans_view(spans: Seq<TextSpan>) -> Seq<TextSpanView> {
    spans.map_values(|s: TextSpan| s@)
}

impl View for TextLayout {
    type V = TextLayoutView;

    open spec fn view(&self) -> TextLayoutView {
        TextLayoutView {
            spans: spans_view(self.spans@),
            line_height: self.line_height,
            tab_len: self.tab_len,
        }
    }
}

/// Width in dots of one column of `span`: the width of a glyph of the font
/// of its charset, times the span's horizontal stretch.
pub open spec fn span_char_width(span: TextSpanView, fonts: EncodingFontMapView) -> int {
    fonts.font_for(span.encoding).char_width * span.stretch_width
}

/// The first `n` spans of `layout`, broken into lines of `width` dots.
pub open spec fn placed_spans(
    layout: TextLayoutView,
    fonts: EncodingFontMapView,
    n: nat,
    width: int,
) -> Placement
    decreases n,
{
    if n == 0 || n > layout.spans.len() {
        Placement::start()
    } else {
        placed_spans(layout, fonts, (n - 1) as nat, width).place_text(
            n - 1,
            layout.spans[n - 1].text,
            span_char_width(layout.spans[n - 1], fonts),
            layout.tab_len as int,
            width,
        )
    }
}

/// The spans of `layout` broken into lines of `width` dots.
pub open spec fn broken_lines(layout: TextLayoutView, fonts: EncodingFontMapView, width: int) -> Seq<
    PlacedView,
> {
    placed_spans(layout, fonts, layout.spans.len(), width).items
}

/// Every run of the first `n` spans, broken into lines, comes from one of
/// the layout's spans.
pub proof fn lemma_placed_spans_in_range(
    layout: TextLayoutView,
    fonts: EncodingFontMapView,
    n: nat,
    width: int,
)
    requires
        n <= layout.spans.len(),
    ensures
        spans_below(placed_spans(layout, fonts, n, width).items, layout.spans.len() as int),
    decreases n,
{
    if n > 0 {
        lemma_placed_spans_in_range(layout, fonts, (n - 1) as nat, width);
        let pieces = pieces_of(unicode_words(layout.spans[n - 1].text));
        lemma_pieces_spans_below(
            placed_spans(layout, fonts, (n - 1) as nat, width),
            n - 1,
            pieces,
            pieces.len(),
            span_char_width(layout.spans[n - 1], fonts),
            layout.tab_len as int,
            width,
            layout.spans.len() as int,
        );
    }
}

/// No run of the first `n` spans, broken into lines, passes the end of its
/// line, but for a piece that is by itself wider than a line and has a line
/// of its own.
pub proof fn lemma_placed_spans_within(
    layout: TextLayoutView,
    fonts: EncodingFontMapView,
    n: nat,
    width: int,
)
    requires
        n <= layout.spans.len(),
        width >= 0,
    ensures
        placed_spans(layout, fonts, n, width).wf(width),
        within_lines(placed_spans(layout, fonts, n, width).items, width),
    decreases n,
{
    if n > 0 {
        lemma_placed_spans_within(layout, fonts, (n - 1) as nat, width);
        let span = layout.spans[n - 1];
        let pieces = pieces_of(unicode_words(span.text));
        assert(span_char_width(span, fonts) >= 0) by (nonlinear_arith)
            requires
                span_char_width(span, fonts) == fonts.font_for(span.encoding).char_width
                    * span.stretch_width,
        ;
        lemma_place_pieces_within(
            placed_spans(layout, fonts, (n - 1) as nat, width),
            n - 1,
            pieces,
            pieces.len(),
            span_char_width(span, fonts),
            layout.tab_len as int,
            width,
        );
    }
}

/// The text that the lines of the first `n` spans hold: of every span the
/// words that are no control words, with their spaces, in order.
pub open spec fn kept_layout_text(
    layout: TextLayoutView,
    fonts: EncodingFontMapView,
    n: nat,
    width: int,
) -> Seq<char>
    decreases n,
{
    if n == 0 || n > layout.spans.len() {
        Seq::empty()
    } else {
        kept_layout_text(layout, fonts, (n - 1) as nat, width) + kept_texts(
            pieces_of(unicode_words(layout.spans[n - 1].text)),
            unicode_words(layout.spans[n - 1].text).len(),
            span_char_width(layout.spans[n - 1], fonts),
            width,
        )
    }
}

/// The texts of the first `n` spans, one behind the other.
pub open spec fn layout_text(layout: TextLayoutView, n: nat) -> Seq<char>
    decreases n,
{
    if n == 0 || n > layout.spans.len() {
        Seq::empty()
    } else {
        layout_text(layout, (n - 1) as nat) + layout.spans[n - 1].text
    }
}

/// The words of the first `n` spans are plain: none is a control word, and
/// none is spaces without a word that are wider than a line. Placing such
/// words leaves the whole text.
pub open spec fn layout_plain(
    layout: TextLayoutView,
    fonts: EncodingFontMapView,
    n: nat,
    width: int,
) -> bool {
    forall|i: int|
        0 <= i < n && i < layout.spans.len() ==> keeps_all(
            pieces_of(#[trigger] unicode_words(layout.spans[i].text)),
            span_char_width(layout.spans[i], fonts),
            width,
        )
}

/// The words of each of the first `n` spans, with their spaces, read
/// together are the span's text, and the spaces are spaces only.
pub open spec fn words_cover(layout: TextLayoutView, n: nat) -> bool {
    forall|i: int|
        0 <= i < n && i < layout.spans.len() ==> joined_text(
            pieces_of(#[trigger] unicode_words(layout.spans[i].text)),
            unicode_words(layout.spans[i].text).len(),
        ) == layout.spans[i].text && only_spaces(pieces_of(unicode_words(layout.spans[i].text)))
}

/// A layout whose texts hold no space and no control character is plain:
/// its lines hold its texts whole.
pub proof fn lemma_layout_plain(
    layout: TextLayoutView,
    fonts: EncodingFontMapView,
    n: nat,
    width: int,
)
    requires
        words_cover(layout, n),
        forall|i: int, k: int|
            0 <= i < n && i < layout.spans.len() && 0 <= k < layout.spans[i].text.len()
                ==> !is_space_or_control(#[trigger] layout.spans[i].text[k]),
    ensures
        layout_plain(layout, fonts, n, width),
{
    assert forall|i: int| 0 <= i < n && i < layout.spans.len() implies keeps_all(
        pieces_of(#[trigger] unicode_words(layout.spans[i].text)),
        span_char_width(layout.spans[i], fonts),
        width,
    ) by {
        let text = layout.spans[i].text;
        assert forall|k: int| 0 <= k < text.len() implies !is_space_or_control(
            #[trigger] text[k],
        ) by {
            assert(!is_space_or_control(layout.spans[i].text[k]));
        }
        lemma_plain_pieces(
            pieces_of(unicode_words(text)),
            text,
            span_char_width(layout.spans[i], fonts),
            width,
        );
    }
}

/// Where the words of the spans cover the spans' texts and are plain, the
/// lines hold the texts of the spans, one behind the other, whole.
pub proof fn lemma_kept_layout_text(
    layout: TextLayoutView,
    fonts: EncodingFontMapView,
    n: nat,
    width: int,
)
    requires
        n <= layout.spans.len(),
        words_cover(layout, n),
        layout_plain(layout, fonts, n, width),
    ensures
        kept_layout_text(layout, fonts, n, width) == layout_text(layout, n),
    decreases n,
{
    if n > 0 {
        lemma_kept_layout_text(layout, fonts, (n - 1) as nat, width);
        let words = unicode_words(layout.spans[n - 1].text);
        let pieces = pieces_of(words);
        lemma_kept_texts_all(
            pieces,
            pieces.len(),
            span_char_width(layout.spans[n - 1], fonts),
            width,
        );
    }
}

/// Breaks the spans of `layout` into lines of `width` dots. No run passes
/// the end of its line unless it is a piece that cannot be broken further,
/// and no character of a word is lost: where no word is a control word or
/// spaces wider than a line, the runs hold the spans' texts whole.
pub fn break_lines(layout: &TextLayout, fonts: &EncodingFontMap, width: usize) -> (items: Vec<
    Placed,
>)
    ensures
        placed_view(items@) == broken_lines(layout@, fonts@, width as int),
        spans_below(placed_view(items@), layout.spans@.len() as int),
        within_lines(placed_view(items@), width as int),
        placed_text(placed_view(items@)) == kept_layout_text(
            layout@,
            fonts@,
            layout.spans@.len(),
            width as int,
        ),
        words_cover(layout@, layout.spans@.len()),
        layout_plain(layout@, fonts@, layout.spans@.len(), width as int) ==> placed_text(
            placed_view(items@),
        ) == layout_text(layout@, layout.spans@.len()),
{
    let mut breaker = LineBreaker::new();
    assert(placed_text(breaker@.items) =~= Seq::<char>::empty());
    let mut i: usize = 0;
    while i < layout.spans.len()
        invariant
            i <= layout.spans@.len(),
            breaker@ == placed_spans(layout@, fonts@, i as nat, width as int),
            placed_text(breaker@.items) == kept_layout_text(
                layout@,
                fonts@,
                i as nat,
                width as int,
            ),
            words_cover(layout@, i as nat),
        decreases layout.spans@.len() - i,
    {
        let span = &layout.spans[i];
        assert(layout@.spans[i as int] == span@);
        let font = fonts.font_for(&span.encoding);
        assert(font.char_width * span.stretch_width <= 65535 * 255) by (nonlinear_arith)
            requires
                font.char_width <= 65535,
                span.stretch_width <= 255,
        ;
        let char_width: usize = (font.char_width as usize) * (span.stretch_width as usize);
        breaker.place_text(i, span.text.as_str(), char_width, layout.tab_len, width);
        i = i + 1;
    }
    proof {
        lemma_placed_spans_in_range(layout@, fonts@, layout@.spans.len(), width as int);
        lemma_placed_spans_within(layout@, fonts@, layout@.spans.len(), width as int);
        if layout_plain(layout@, fonts@, layout.spans@.len(), width as int) {
            lemma_kept_layout_text(layout@, fonts@, layout@.spans.len(), width as int);
        }
    }
    breaker.items
}

/// Where a line starts. `x` is the left margin, `width` the line's width,
/// `px` the width of what the line holds and `stretch_width` the horizontal
/// stretch of the line's first span. A left-justified line starts at the
/// margin, a centred line at half the free width divided by the stretch (a
/// stretch of 0 counts as 1), a right-justified line at the free width. A
/// line as wide as the canvas or wider has no free width.
pub open spec fn justified_start(
    justify: TextJustify,
    x: int,
    width: int,
    px: int,
    stretch_width: int,
) -> int {
    let free = if px >= width {
        0
    } else {
        width - px
    };
    match justify {
        TextJustify::Left => x,
        TextJustify::Center => if stretch_width >= 1 {
            free / (2 * stretch_width)
        } else {
            free / 2
        },
        TextJustify::Right => free,
    }
}

/// Where a line starts.
pub fn line_start(justify: TextJustify, x: usize, width: usize, px: usize, stretch_width: u8) -> (start:
    usize)
    ensures
        start == justified_start(justify, x as int, width as int, px as int, stretch_width as int),
{
    let free: usize = if px >= width {
        0
    } else {
        width - px
    };
    match justify {
        TextJustify::Left => x,
        TextJustify::Center => if stretch_width >= 1 {
            free / (2 * (stretch_width as usize))
        } else {
            free / 2
        },
        TextJustify::Right => free,
    }
}

/// A line of unstretched text that is `px` dots wide on a canvas of `width`
/// dots starts at half the free width when centred and at the free width
/// when right-justified; a line that fills the canvas starts at 0 either
/// way, where a left-justified line with no margin starts too.
pub proof fn lemma_justification(width: int, px: int)
    requires
        0 <= px <= width,
    ensures
        justified_start(TextJustify::Center, 0, width, px, 1) == (width - px) / 2,
        justified_start(TextJustify::Right, 0, width, px, 1) == width - px,
        justified_start(TextJustify::Left, 0, width, px, 1) == 0,
        px == width ==> justified_start(TextJustify::Center, 0, width, px, 1) == 0
            && justified_start(TextJustify::Right, 0, width, px, 1) == 0,
{
}

/// The `text-decoration` attribute for the two line decorations; empty
/// where neither is on.
pub open spec fn decoration_attr(underline: bool, strikethrough: bool) -> Seq<char> {
    if underline && strikethrough {
        " text-decoration=\"underline line-through\""@
    } else if underline {
        " text-decoration=\"underline\""@
    } else if strikethrough {
        " text-decoration=\"line-through\""@
    } else {
        Seq::empty()
    }
}

/// `text` if `on`, nothing otherwise.
pub open spec fn when(on: bool, text: Seq<char>) -> Seq<char> {
    if on {
        text
    } else {
        Seq::empty()
    }
}

/// The attributes that carry a span's style into each of its `tspan`
/// elements: weight, slant, line decorations, inversion, rotation, and the
/// class of its charset where the font map has an entry for it.
pub open spec fn style_attrs(span: TextSpanView, fonts: EncodingFontMapView) -> Seq<char> {
    when(span.bold, " font-weight=\"bold\""@) + when(span.italic, " font-style=\"italic\""@)
        + decoration_attr(span.underline, span.strikethrough) + when(
        span.inverted,
        " filter=\"url(#textinvert)\""@,
    ) + when(span.upside_down, " rotate=\"180\""@) + when(
        fonts.find(span.encoding, 0) < fonts.entries.len(),
        " class=\""@ + span.encoding + "\""@,
    )
}

/// The attributes that carry a span's style into its `tspan` elements.
pub fn span_attrs(span: &TextSpan, fonts: &EncodingFontMap) -> (attrs: String)
    ensures
        attrs@ == style_attrs(span@, fonts@),
{
    let mut attrs = String::new();
    if span.bold {
        attrs.append(" font-weight=\"bold\"");
    }
    if span.italic {
        attrs.append(" font-style=\"italic\"");
    }
    if span.underline && span.strikethrough {
        attrs.append(" text-decoration=\"underline line-through\"");
    } else if span.underline {
        attrs.append(" text-decoration=\"underline\"");
    } else if span.strikethrough {
        attrs.append(" text-decoration=\"line-through\"");
    }
    if span.inverted {
        attrs.append(" filter=\"url(#textinvert)\"");
    }
    if span.upside_down {
        attrs.append(" rotate=\"180\"");
    }
    if fonts.find(&span.encoding) < fonts.entries.len() {
        let mut class = " class=\"".to_owned();
        class.append(span.encoding.as_str());
        class.append("\"");
        attrs.append(class.as_str());
    }
    assert(attrs@ =~= style_attrs(span@, fonts@));
    attrs
}

/// The `tspan` element of one character at the offset `x`.
pub open spec fn tspan(c: char, x: int, attrs: Seq<char>) -> Seq<char> {
    "<tspan x=\""@ + decimal_digits(x as nat) + "\""@ + attrs + ">"@ + escaped(c) + "</tspan>"@
}

/// The `tspan` element of one character at the offset `x`.
pub fn tspan_element(c: char, x: usize, attrs: &str) -> (element: String)
    ensures
        element@ == tspan(c, x as int, attrs@),
{
    let mut element = "<tspan x=\"".to_owned();
    element.append(decimal(x).as_str());
    element.append("\"");
    element.append(attrs);
    element.append(">");
    element.append(SvgImage::escape_char(c).as_str());
    element.append("</tspan>");
    element
}

/// The width that a glyph takes in its line's own units: the font's glyph
/// width, twice that for a double-width character.
pub open spec fn glyph_advance(char_width: int, wide: bool) -> int {
    if wide {
        2 * char_width
    } else {
        char_width
    }
}

/// The width that a glyph takes in its line's own units.
pub fn advance(char_width: u16, wide: bool) -> (width: usize)
    ensures
        width == glyph_advance(char_width as int, wide),
{
    if wide {
        2 * (char_width as usize)
    } else {
        char_width as usize
    }
}

/// The elements of the first `n` characters of `text`, the first of them at
/// `x`, and the offset behind the last.
pub open spec fn word_markup(text: Seq<char>, n: nat, x: int, char_width: int, attrs: Seq<char>) -> (
    Seq<Seq<char>>,
    int,
)
    decreases n,
{
    if n == 0 || n > text.len() {
        (Seq::empty(), x)
    } else {
        let before = word_markup(text, (n - 1) as nat, x, char_width, attrs);
        (
            before.0.push(tspan(text[n - 1], before.1, attrs)),
            saturated(before.1 + glyph_advance(char_width, double_width(text[n - 1]))),
        )
    }
}

/// The index of the first break of `items` from `from` on; the number of
/// items where there is none. The line that starts at `from` ends there.
pub open spec fn line_end(items: Seq<PlacedView>, from: int) -> int
    decreases items.len() - from,
{
    if from < 0 || from >= items.len() {
        items.len() as int
    } else if items[from] is Break {
        from
    } else {
        line_end(items, from + 1)
    }
}

/// The width of an item: that of a run, none for a break.
pub open spec fn item_width(item: PlacedView) -> int {
    match item {
        PlacedView::Run(run) => run.width,
        PlacedView::Break => 0,
    }
}

/// The widths of the items from `from` up to `to`, added up.
pub open spec fn line_width(items: Seq<PlacedView>, from: int, to: int) -> int
    decreases to - from,
{
    if to <= from {
        0
    } else {
        saturated(line_width(items, from, to - 1) + item_width(items[to - 1]))
    }
}

/// The vertical stretch of an item: that of a run's span, 1 for a break.
pub open spec fn item_stretch(item: PlacedView, spans: Seq<TextSpanView>) -> int {
    match item {
        PlacedView::Run(run) => spans[run.span].stretch_height as int,
        PlacedView::Break => 1,
    }
}

/// The largest vertical stretch among the items from `from` up to `to`; 1
/// where there are none.
pub open spec fn line_stretch(
    items: Seq<PlacedView>,
    spans: Seq<TextSpanView>,
    from: int,
    to: int,
) -> int
    decreases to - from,
{
    if to <= from {
        1
    } else {
        let before = line_stretch(items, spans, from, to - 1);
        let last = item_stretch(items[to - 1], spans);
        if last > before {
            last
        } else {
            before
        }
    }
}

/// The justification of the line from `from` up to `to`: that of the span
/// of its first run; left for a line without runs.
pub open spec fn line_justify(
    items: Seq<PlacedView>,
    spans: Seq<TextSpanView>,
    from: int,
    to: int,
) -> TextJustify {
    if from < to {
        match items[from] {
            PlacedView::Run(run) => spans[run.span].justify,
            PlacedView::Break => TextJustify::Left,
        }
    } else {
        TextJustify::Left
    }
}

/// The stretch of the line from `from` up to `to`, horizontal and vertical:
/// that of the span of its first run; 1 and 1 for a line without runs.
pub open spec fn line_scale(items: Seq<PlacedView>, spans: Seq<TextSpanView>, from: int, to: int) -> (
    int,
    int,
) {
    if from < to {
        match items[from] {
            PlacedView::Run(run) => (
                spans[run.span].stretch_width as int,
                spans[run.span].stretch_height as int,
            ),
            PlacedView::Break => (1, 1),
        }
    } else {
        (1, 1)
    }
}

/// Where the first glyph of a run stands in its line: the line's start plus
/// the run's offset from the line breaker. The offset is in dots, the line's
/// elements are in the line's own units, which the line's horizontal stretch
/// `scale` turns into dots: so the offset is divided by the stretch (a
/// stretch of 0 counts as 1).
pub open spec fn run_start(start: int, x: int, scale: int) -> int {
    saturated(start + if scale >= 1 {
        x / scale
    } else {
        x
    })
}

/// The elements of the runs from `from` up to `to`: the characters of every
/// run, the first of them where the run starts in the line, each other one
/// behind the one before it.
pub open spec fn runs_markup(
    items: Seq<PlacedView>,
    spans: Seq<TextSpanView>,
    fonts: EncodingFontMapView,
    from: int,
    to: int,
    start: int,
    scale: int,
) -> Seq<Seq<char>>
    decreases to - from,
{
    if to <= from {
        Seq::empty()
    } else {
        let before = runs_markup(items, spans, fonts, from, to - 1, start, scale);
        match items[to - 1] {
            PlacedView::Run(run) => {
                let span = spans[run.span];
                before + word_markup(
                    run.text,
                    run.text.len(),
                    run_start(start, run.x, scale),
                    fonts.font_for(span.encoding).char_width as int,
                    style_attrs(span, fonts),
                ).0
            },
            PlacedView::Break => before,
        }
    }
}

/// Where the first glyph of a run stands in its line.
pub fn start_of_run(start: usize, x: usize, scale: u8) -> (at: usize)
    ensures
        at == run_start(start as int, x as int, scale as int),
{
    let offset: usize = if scale >= 1 {
        x / (scale as usize)
    } else {
        x
    };
    start.saturating_add(offset)
}

/// The elements that open a line at the height `y` with the given stretch.
pub open spec fn line_open(y: int, stretch_width: int, stretch_height: int) -> Seq<char> {
    "<g transform=\"translate(0,"@ + decimal_digits(y as nat) + ")\"><text transform=\"scale("@
        + decimal_digits(stretch_width as nat) + ","@ + decimal_digits(stretch_height as nat)
        + ")\">"@
}

/// The elements that close a line.
pub open spec fn line_close() -> Seq<char> {
    "</text></g>"@
}

/// The elements of the line from `from` up to `to`: the opening elements,
/// the characters of its runs, every run at its offset from the justified
/// start, and the closing elements.
pub open spec fn line_markup(
    items: Seq<PlacedView>,
    spans: Seq<TextSpanView>,
    fonts: EncodingFontMapView,
    from: int,
    to: int,
    x: int,
    y: int,
    width: int,
) -> Seq<Seq<char>> {
    let scale = line_scale(items, spans, from, to);
    let start = justified_start(
        line_justify(items, spans, from, to),
        x,
        width,
        line_width(items, from, to),
        scale.0,
    );
    seq![line_open(y, scale.0, scale.1)] + runs_markup(
        items,
        spans,
        fonts,
        from,
        to,
        start,
        scale.0,
    ) + seq![line_close()]
}

/// The height behind a line that starts at `y`: the line's height is the
/// layout's line height times the largest vertical stretch in the line.
pub open spec fn line_bottom(
    items: Seq<PlacedView>,
    spans: Seq<TextSpanView>,
    from: int,
    to: int,
    y: int,
    line_height: int,
) -> int {
    saturated(y + saturated(line_height * line_stretch(items, spans, from, to)))
}

/// The elements of the lines of `items` from the item `from` on, the first
/// line at the height `y`, and the height behind the last line.
pub open spec fn lines_markup(
    items: Seq<PlacedView>,
    spans: Seq<TextSpanView>,
    fonts: EncodingFontMapView,
    from: int,
    x: int,
    y: int,
    width: int,
    line_height: int,
) -> (Seq<Seq<char>>, int)
    decreases items.len() - from,
{
    let to = line_end(items, from);
    let line = line_markup(items, spans, fonts, from, to, x, y, width);
    let bottom = line_bottom(items, spans, from, to, y, line_height);
    if to >= items.len() || to < from {
        (line, bottom)
    } else {
        let rest = lines_markup(items, spans, fonts, to + 1, x, bottom, width, line_height);
        (line + rest.0, rest.1)
    }
}

/// The largest vertical stretch of a line is at least 1.
pub proof fn lemma_line_stretch(
    items: Seq<PlacedView>,
    spans: Seq<TextSpanView>,
    from: int,
    to: int,
)
    ensures
        line_stretch(items, spans, from, to) >= 1,
    decreases to - from,
{
    if to > from {
        lemma_line_stretch(items, spans, from, to - 1);
    }
}

/// The height behind the lines of `items` is a `usize` and not above the
/// height `y` at which the first of them starts: drawing moves the cursor
/// down, never up.
pub proof fn lemma_lines_height(
    items: Seq<PlacedView>,
    spans: Seq<TextSpanView>,
    fonts: EncodingFontMapView,
    from: int,
    x: int,
    y: int,
    width: int,
    line_height: int,
)
    requires
        0 <= y <= usize::MAX,
        0 <= line_height,
    ensures
        y <= lines_markup(items, spans, fonts, from, x, y, width, line_height).1 <= usize::MAX,
    decreases items.len() - from,
{
    let to = line_end(items, from);
    let stretch = line_stretch(items, spans, from, to);
    lemma_line_stretch(items, spans, from, to);
    assert(line_height * stretch >= 0) by (nonlinear_arith)
        requires
            line_height >= 0,
            stretch >= 1,
    ;
    let bottom = line_bottom(items, spans, from, to, y, line_height);
    assert(y <= bottom <= usize::MAX);
    if !(to >= items.len() || to < from) {
        lemma_lines_height(items, spans, fonts, to + 1, x, bottom, width, line_height);
    }
}

/// The height behind a drawn layout is a `usize` and not above the height at
/// which it was drawn.
pub proof fn lemma_drawn_text_height(
    layout: TextLayoutView,
    fonts: EncodingFontMapView,
    x: int,
    y: int,
    width: int,
)
    requires
        0 <= y <= usize::MAX,
    ensures
        y <= drawn_text(layout, fonts, x, y, width).1 <= usize::MAX,
{
    lemma_lines_height(
        broken_lines(layout, fonts, width),
        layout.spans,
        fonts,
        0,
        x,
        y,
        width,
        layout.line_height as int,
    );
}

/// The characters that drawing `layout` draws, in the order of their
/// elements: the texts of the lines of the broken layout, line by line.
pub open spec fn drawn_characters(
    layout: TextLayoutView,
    fonts: EncodingFontMapView,
    width: int,
) -> Seq<char> {
    lines_text(broken_lines(layout, fonts, width), 0)
}

/// The elements that drawing `layout` adds to a canvas, and the height
/// behind the last line: the spans are broken into lines of `width` dots,
/// and every line is written out, the first at the height `y`.
pub open spec fn drawn_text(
    layout: TextLayoutView,
    fonts: EncodingFontMapView,
    x: int,
    y: int,
    width: int,
) -> (Seq<Seq<char>>, int) {
    lines_markup(
        broken_lines(layout, fonts, width),
        layout.spans,
        fonts,
        0,
        x,
        y,
        width,
        layout.line_height as int,
    )
}

/// An SVG canvas of a fixed width. Drawing adds elements to its content.
#[derive(Clone, Debug, PartialEq, Eq)]
pub struct SvgImage {
    /// Width in dots; 576 on 80 mm paper.
    pub width: u16,
    pub height: u16,
    /// The elements drawn so far, in order.
    pub svg_content: Vec<String>,
    /// Characters per line at the base font.
    pub base_cpl: u8,
    pub line_margin: u8,
    /// 0 left, 1 centre, 2 right.
    pub line_align: u8,
    pub line_height: u8,
    /// Dots of one paper feed.
    pub feed_unit: u8,
    pub spacing: bool,
    /// The fonts of the charsets.
    pub fonts: EncodingFontMap,
}

impl SvgImage {
    /// The texts of the elements drawn so far.
    pub open spec fn content(&self) -> Seq<Seq<char>> {
        texts(self.svg_content@)
    }

    /// Everything but the content is as in `other`.
    pub open spec fn same_settings(&self, other: &SvgImage) -> bool {
        &&& self.width == other.width
        &&& self.height == other.height
        &&& self.base_cpl == other.base_cpl
        &&& self.line_margin == other.line_margin
        &&& self.line_align == other.line_align
        &&& self.line_height == other.line_height
        &&& self.feed_unit == other.feed_unit
        &&& self.spacing == other.spacing
        &&& self.fonts == other.fonts
    }

    /// An empty canvas of the given width, with the base font for every
    /// charset.
    pub fn new(width: u16) -> (image: SvgImage)
        ensures
            image.width == width,
            image.height == 0,
            image.content().len() == 0,
            image.base_cpl == crate::constants::DEFAULT_CPL,
            image.line_margin == 0,
            image.line_align == 0,
            image.line_height == 24,
            image.feed_unit == 24,
            !image.spacing,
            image.fonts@.default == crate::font::base_font(),
            image.fonts@.entries.len() == 0,
    {
        SvgImage::with_fonts(width, EncodingFontMap::new())
    }

    /// An empty canvas of the given width with the given fonts.
    pub fn with_fonts(width: u16, fonts: EncodingFontMap) -> (image: SvgImage)
        ensures
            image.width == width,
            image.height == 0,
            image.content().len() == 0,
            image.base_cpl == crate::constants::DEFAULT_CPL,
            image.line_margin == 0,
            image.line_align == 0,
            image.line_height == 24,
            image.feed_unit == 24,
            !image.spacing,
            image.fonts == fonts,
    {
        SvgImage {
            width,
            height: 0,
            svg_content: Vec::new(),
            base_cpl: crate::constants::DEFAULT_CPL,
            line_margin: 0,
            line_align: 0,
            line_height: 24,
            feed_unit: 24,
            spacing: false,
            fonts,
        }
    }

    /// Sets the number of characters per line.
    pub fn set_cpl(&mut self, cpl: u8)
        ensures
            final(self).base_cpl == cpl,
            final(self).width == old(self).width,
            final(self).height == old(self).height,
            final(self).svg_content == old(self).svg_content,
            final(self).line_margin == old(self).line_margin,
            final(self).line_align == old(self).line_align,
            final(self).line_height == old(self).line_height,
            final(self).feed_unit == old(self).feed_unit,
            final(self).spacing == old(self).spacing,
            final(self).fonts == old(self).fonts,
    {
        self.base_cpl = cpl;
    }

    /// Sets the width. What was drawn is dropped.
    pub fn set_width(&mut self, width: u16)
        ensures
            final(self).width == width,
            final(self).content().len() == 0,
            final(self).height == old(self).height,
            final(self).base_cpl == old(self).base_cpl,
            final(self).line_margin == old(self).line_margin,
            final(self).line_align == old(self).line_align,
            final(self).line_height == old(self).line_height,
            final(self).feed_unit == old(self).feed_unit,
            final(self).spacing == old(self).spacing,
            final(self).fonts == old(self).fonts,
    {
        self.width = width;
        self.svg_content = Vec::new();
    }

    /// Draws the characters of `text`, the first at the offset `x`, each as
    /// an element of its own with the style of `span`, each behind the one
    /// before by that one's width. Gives the width of the whole and 0. The
    /// printable characters of ASCII have single width.
    pub fn render_word(&mut self, x: usize, y: usize, text: &str, span: &TextSpan) -> (size: (
        usize,
        usize,
    ))
        ensures
            final(self).same_settings(old(self)),
            ({
                let word = word_markup(
                    text@,
                    text@.len(),
                    x as int,
                    old(self).fonts@.font_for(span@.encoding).char_width as int,
                    style_attrs(span@, old(self).fonts@),
                );
                &&& final(self).content() == old(self).content() + word.0
                &&& size.0 == word.1 - x
                &&& size.1 == 0
            }),
            ascii_is_single_width(text@),
    {
        broadcast use vstd::string::axiom_spec_iter;

        let attrs = span_attrs(span, &self.fonts);
        let char_width = self.fonts.font_for(&span.encoding).char_width;
        let mut cursor: usize = x;
        let ghost before = self.content();
        assert(self.content() =~= before + Seq::<Seq<char>>::empty());
        for c in it: text.chars()
            invariant
                it.seq() == text@,
                self.same_settings(old(self)),
                attrs@ == style_attrs(span@, old(self).fonts@),
                char_width == old(self).fonts@.font_for(span@.encoding).char_width,
                before == old(self).content(),
                x <= cursor,
                ascii_is_single_width(it.seq().take(it.index() as int)),
                self.content() == before + word_markup(
                    text@,
                    it.index() as nat,
                    x as int,
                    char_width as int,
                    attrs@,
                ).0,
                cursor == word_markup(
                    text@,
                    it.index() as nat,
                    x as int,
                    char_width as int,
                    attrs@,
                ).1,
        {
            let ghost done = word_markup(
                text@,
                it.index() as nat,
                x as int,
                char_width as int,
                attrs@,
            );
            let element = tspan_element(c, cursor, attrs.as_str());
            let ghost content = self.svg_content@;
            self.svg_content.push(element);
            cursor = cursor.saturating_add(advance(char_width, is_double_width(c)));
            proof {
                assert(texts(content.push(element)) =~= texts(content).push(element@));
                assert(before + done.0.push(element@) =~= (before + done.0).push(element@));
                assert(ascii_is_single_width(seq![c]));
                lemma_ascii_is_single_width(it.seq().take(it.index() as int), seq![c]);
                assert(it.seq().take(it.index() + 1) =~= it.seq().take(it.index() as int) + seq![
                    c,
                ]);
            }
        }
        assert(text@.take(text@.len() as int) =~= text@);
        (cursor - x, 0)
    }

    /// The character as it stands in SVG text: `&`, `<` and `>` as their
    /// entities, a space as a no-break space, any other character as itself.
    pub fn escape_char(c: char) -> (text: String)
        ensures
            text@ == escaped(c),
    {
        if c == '&' {
            "&amp;".to_owned()
        } else if c == '<' {
            "&lt;".to_owned()
        } else if c == '>' {
            "&gt;".to_owned()
        } else if c == ' ' {
            "&#xa0;".to_owned()
        } else {
            let mut text = String::new();
            text.push(c);
            assert(text@ =~= seq![c]);
            text
        }
    }

    /// The document of what was drawn: the `svg` element, as wide as the
    /// canvas and as high as the cursor of `context` has come, with the
    /// inversion filter, the style rules of the fonts, and the content in one
    /// group.
    pub fn construct_svg_doc(&self, context: &Context) -> (document: String)
        ensures
            document@ == svg_document(
                self.width as int,
                context.graphics.y as int,
                self.fonts@,
                self.content(),
            ),
    {
        let mut doc = "<svg width=\"".to_owned();
        doc.append(decimal(self.width as usize).as_str());
        doc.append("px\" height=\"");
        doc.append(decimal(context.graphics.y).as_str());
        doc.append("px\" viewBox=\"0 0 ");
        doc.append(decimal(self.width as usize).as_str());
        doc.append(" ");
        doc.append(decimal(context.graphics.y).as_str());
        doc.append(
            "\" preserveAspectRatio=\"xMinYMin meet\" xmlns=\"http://www.w3.org/2000/svg\" xmlns:xlink=\"http://www.w3.org/1999/xlink\" version=\"1.1\">",
        );
        doc.append(
            "<defs><filter id=\"textinvert\" x=\"0\" y=\"0\" width=\"100%\" height=\"100%\"><feFlood flood-color=\"#000\"/><feComposite in=\"SourceGraphic\" operator=\"xor\"/></filter></defs>",
        );
        doc.append(font_rules(&self.fonts).as_str());
        doc.append("<g font-family=\"");
        doc.append(self.fonts.default.family.as_str());
        doc.append("\" fill=\"#000\" font-size=\"");
        doc.append(decimal(font_size(self.fonts.default.char_height)).as_str());
        doc.append("\" dominant-baseline=\"text-after-edge\" text-anchor=\"middle\">");
        doc.append(join(&self.svg_content).as_str());
        doc.append("</g></svg>");
        doc
    }

    /// Draws the line that the items from `from` up to `to` make, at the
    /// height `y`: the opening elements, every run at its offset from the
    /// justified start, the closing elements.
    pub fn draw_line(
        &mut self,
        items: &Vec<Placed>,
        spans: &Vec<TextSpan>,
        from: usize,
        to: usize,
        x: usize,
        y: usize,
        width: usize,
    )
        requires
            from <= to <= items@.len(),
            spans_below(placed_view(items@), spans@.len() as int),
        ensures
            final(self).same_settings(old(self)),
            final(self).content() == old(self).content() + line_markup(
                placed_view(items@),
                spans_view(spans@),
                old(self).fonts@,
                from as int,
                to as int,
                x as int,
                y as int,
                width as int,
            ),
            ascii_is_single_width(range_text(placed_view(items@), from as int, to as int)),
    {
        let ghost views = placed_view(items@);
        let ghost styles = spans_view(spans@);
        let ghost before = self.content();
        let mut justify = TextJustify::Left;
        let mut stretch_width: u8 = 1;
        let mut stretch_height: u8 = 1;
        if from < to {
            assert(views[from as int] == items@[from as int]@);
            match &items[from] {
                Placed::Run(run) => {
                    assert(styles[run.span as int] == spans@[run.span as int]@);
                    let span = &spans[run.span];
                    justify = span.justify;
                    stretch_width = span.stretch_width;
                    stretch_height = span.stretch_height;
                },
                Placed::Break => {},
            }
        }
        let px = measure_line(items, from, to);
        let start = line_start(justify, x, width, px, stretch_width);
        let ghost content = self.svg_content@;
        let open = open_line(y, stretch_width, stretch_height);
        self.svg_content.push(open);
        proof {
            assert(texts(content.push(open)) =~= texts(content).push(open@));
            assert(self.content() =~= before + seq![open@] + Seq::<Seq<char>>::empty());
        }
        let mut k: usize = from;
        while k < to
            invariant
                from <= k <= to <= items@.len(),
                views == placed_view(items@),
                styles == spans_view(spans@),
                spans_below(views, spans@.len() as int),
                self.same_settings(old(self)),
                before == old(self).content(),
                ascii_is_single_width(range_text(views, from as int, k as int)),
                self.content() == before + seq![open@] + runs_markup(
                    views,
                    styles,
                    old(self).fonts@,
                    from as int,
                    k as int,
                    start as int,
                    stretch_width as int,
                ),
            decreases to - k,
        {
            let ghost done = runs_markup(
                views,
                styles,
                old(self).fonts@,
                from as int,
                k as int,
                start as int,
                stretch_width as int,
            );
            assert(views[k as int] == items@[k as int]@);
            match &items[k] {
                Placed::Run(run) => {
                    assert(styles[run.span as int] == spans@[run.span as int]@);
                    let at = start_of_run(start, run.x, stretch_width);
                    let ghost word = word_markup(
                        run.text@,
                        run.text@.len(),
                        at as int,
                        old(self).fonts@.font_for(spans@[run.span as int]@.encoding).char_width as int,
                        style_attrs(spans@[run.span as int]@, old(self).fonts@),
                    );
                    self.render_word(at, y, run.text.as_str(), &spans[run.span]);
                    proof {
                        assert((before + seq![open@] + done) + word.0 =~= before + seq![open@] + (
                        done + word.0));
                        lemma_ascii_is_single_width(
                            range_text(views, from as int, k as int),
                            run.text@,
                        );
                    }
                },
                Placed::Break => {
                    assert(range_text(views, from as int, k + 1) =~= range_text(
                        views,
                        from as int,
                        k as int,
                    ));
                },
            }
            k = k + 1;
        }
        let ghost content = self.svg_content@;
        let close = "</text></g>".to_owned();
        self.svg_content.push(close);
        proof {
            assert(texts(content.push(close)) =~= texts(content).push(close@));
            let runs = runs_markup(
                views,
                styles,
                old(self).fonts@,
                from as int,
                to as int,
                start as int,
                stretch_width as int,
            );
            assert(self.content() =~= before + (seq![open@] + runs + seq![line_close()]));
        }
    }

    /// Draws `layout` at the height `y`, with the left margin `x`, in lines
    /// of `width` dots: breaks the spans into lines, justifies every line
    /// and writes it out. Gives the left margin and the height behind the
    /// last line, which is not above `y`. The characters drawn are those of
    /// the layout's words, in order; they are the spans' texts whole where
    /// no word is a control word or spaces wider than a line. No run passes
    /// the end of its line unless it is a piece that cannot be broken
    /// further.
    pub fn draw_text(&mut self, x: usize, y: usize, width: usize, layout: &mut TextLayout) -> (end:
        (usize, usize))
        ensures
            *final(layout) == *old(layout),
            final(self).same_settings(old(self)),
            final(self).content() == old(self).content() + drawn_text(
                old(layout)@,
                old(self).fonts@,
                x as int,
                y as int,
                width as int,
            ).0,
            end.0 == x,
            end.1 == drawn_text(old(layout)@, old(self).fonts@, x as int, y as int, width as int).1,
            y <= end.1,
            drawn_characters(old(layout)@, old(self).fonts@, width as int) == kept_layout_text(
                old(layout)@,
                old(self).fonts@,
                old(layout).spans@.len(),
                width as int,
            ),
            layout_plain(
                old(layout)@,
                old(self).fonts@,
                old(layout).spans@.len(),
                width as int,
            ) ==> drawn_characters(old(layout)@, old(self).fonts@, width as int) == layout_text(
                old(layout)@,
                old(layout).spans@.len(),
            ),
            ascii_is_single_width(drawn_characters(old(layout)@, old(self).fonts@, width as int)),
            words_cover(old(layout)@, old(layout).spans@.len()),
            within_lines(
                broken_lines(old(layout)@, old(self).fonts@, width as int),
                width as int,
            ),
    {
        proof {
            lemma_drawn_text_height(layout@, self.fonts@, x as int, y as int, width as int);
        }
        let items = break_lines(layout, &self.fonts, width);
        let ghost views = placed_view(items@);
        proof {
            lemma_drawn_text_is_placed_text(views);
        }
        let ghost styles = layout@.spans;
        let ghost before = self.content();
        let ghost whole = lines_markup(
            views,
            styles,
            old(self).fonts@,
            0,
            x as int,
            y as int,
            width as int,
            layout.line_height as int,
        );
        let mut from: usize = 0;
        let mut new_y: usize = y;
        assert(self.content() =~= before + Seq::<Seq<char>>::empty());
        let ghost mut done: Seq<Seq<char>> = Seq::empty();
        loop
            invariant_except_break
                self.content() == before + done,
                ({
                    let rest = lines_markup(
                        views,
                        styles,
                        old(self).fonts@,
                        from as int,
                        x as int,
                        new_y as int,
                        width as int,
                        layout.line_height as int,
                    );
                    whole == (done + rest.0, rest.1)
                }),
            invariant
                *layout == *old(layout),
                views == placed_view(items@),
                styles == spans_view(layout.spans@),
                spans_below(views, layout.spans@.len() as int),
                from <= items@.len(),
                self.same_settings(old(self)),
                before == old(self).content(),
                ascii_is_single_width(range_text(views, 0, from as int)),
            ensures
                self.same_settings(old(self)),
                self.content() == old(self).content() + whole.0,
                new_y == whole.1,
                ascii_is_single_width(range_text(views, 0, items@.len() as int)),
            decreases items@.len() - from,
        {
            let to = find_line_end(&items, from);
            let ghost line = line_markup(
                views,
                styles,
                old(self).fonts@,
                from as int,
                to as int,
                x as int,
                new_y as int,
                width as int,
            );
            self.draw_line(&items, &layout.spans, from, to, x, new_y, width);
            let stretch = stretch_of_line(&items, &layout.spans, from, to);
            let bottom = new_y.saturating_add(saturating_product(layout.line_height, stretch));
            proof {
                assert((before + done) + line =~= before + (done + line));
                lemma_range_text_split(views, 0, from as int, to as int);
                lemma_ascii_is_single_width(
                    range_text(views, 0, from as int),
                    range_text(views, from as int, to as int),
                );
            }
            if to >= items.len() {
                new_y = bottom;
                break ;
            }
            proof {
                let rest = lines_markup(
                    views,
                    styles,
                    old(self).fonts@,
                    to + 1,
                    x as int,
                    bottom as int,
                    width as int,
                    layout.line_height as int,
                );
                assert(done + (line + rest.0) =~= (done + line) + rest.0);
                done = done + line;
                lemma_line_end(views, from as int);
                assert(range_text(views, 0, to + 1) =~= range_text(views, 0, to as int));
            }
            new_y = bottom;
            from = to + 1;
        }
        proof {
            lemma_range_text_is_placed_text(views, views.len() as int);
            assert(views.take(views.len() as int) =~= views);
        }
        (x, new_y)
    }
}

/// The index of the first break of `items` from `from` on; the number of
/// items where there is none.
pub fn find_line_end(items: &Vec<Placed>, from: usize) -> (to: usize)
    requires
        from <= items@.len(),
    ensures
        to == line_end(placed_view(items@), from as int),
        from <= to <= items@.len(),
{
    let mut to: usize = from;
    while to < items.len()
        invariant
            from <= to <= items@.len(),
            line_end(placed_view(items@), from as int) == line_end(placed_view(items@), to as int),
        decreases items@.len() - to,
    {
        assert(placed_view(items@)[to as int] == items@[to as int]@);
        match &items[to] {
            Placed::Break => {
                return to;
            },
            Placed::Run(_) => {},
        }
        to = to + 1;
    }
    to
}

/// The widths of the items from `from` up to `to`, added up.
pub fn measure_line(items: &Vec<Placed>, from: usize, to: usize) -> (px: usize)
    requires
        from <= to <= items@.len(),
    ensures
        px == line_width(placed_view(items@), from as int, to as int),
{
    let mut px: usize = 0;
    let mut k: usize = from;
    while k < to
        invariant
            from <= k <= to <= items@.len(),
            px == line_width(placed_view(items@), from as int, k as int),
        decreases to - k,
    {
        assert(placed_view(items@)[k as int] == items@[k as int]@);
        match &items[k] {
            Placed::Run(run) => {
                px = px.saturating_add(run.width);
            },
            Placed::Break => {},
        }
        k = k + 1;
    }
    px
}

/// The largest vertical stretch among the items from `from` up to `to`.
pub fn stretch_of_line(items: &Vec<Placed>, spans: &Vec<TextSpan>, from: usize, to: usize) -> (stretch:
    usize)
    requires
        from <= to <= items@.len(),
        spans_below(placed_view(items@), spans@.len() as int),
    ensures
        stretch == line_stretch(
            placed_view(items@),
            spans_view(spans@),
            from as int,
            to as int,
        ),
{
    let mut stretch: usize = 1;
    let mut k: usize = from;
    while k < to
        invariant
            from <= k <= to <= items@.len(),
            spans_below(placed_view(items@), spans@.len() as int),
            stretch >= 1,
            stretch == line_stretch(
                placed_view(items@),
                spans_view(spans@),
                from as int,
                k as int,
            ),
        decreases to - k,
    {
        assert(placed_view(items@)[k as int] == items@[k as int]@);
        match &items[k] {
            Placed::Run(run) => {
                assert(spans_view(spans@)[run.span as int] == spans@[run.span as int]@);
                let height = spans[run.span].stretch_height as usize;
                if height > stretch {
                    stretch = height;
                }
            },
            Placed::Break => {},
        }
        k = k + 1;
    }
    stretch
}

/// The elements that open a line at the height `y` with the given stretch.
pub fn open_line(y: usize, stretch_width: u8, stretch_height: u8) -> (element: String)
    ensures
        element@ == line_open(y as int, stretch_width as int, stretch_height as int),
{
    let mut element = "<g transform=\"translate(0,".to_owned();
    element.append(decimal(y).as_str());
    element.append(")\"><text transform=\"scale(");
    element.append(decimal(stretch_width as usize).as_str());
    element.append(",");
    element.append(decimal(stretch_height as usize).as_str());
    element.append(")\">");
    element
}

/// The font size of text whose glyphs are `char_height` dots high: two dots
/// less.
pub open spec fn font_size_of(char_height: int) -> int {
    if char_height >= 2 {
        char_height - 2
    } else {
        0
    }
}

/// The font size of text whose glyphs are `char_height` dots high.
pub fn font_size(char_height: u16) -> (size: usize)
    ensures
        size == font_size_of(char_height as int),
{
    if char_height >= 2 {
        (char_height - 2) as usize
    } else {
        0
    }
}

/// The style rule of one entry of the font map: the class of the charset's
/// name gets the font's family and style.
pub open spec fn font_rule(entry: crate::font::FontEntryView) -> Seq<char> {
    "."@ + entry.charset + "{font-family:"@ + entry.font.family + ";font-style:"@
        + entry.font.style + ";}"@
}

/// The style rules of the first `n` entries.
pub open spec fn font_rule_list(fonts: EncodingFontMapView, n: nat) -> Seq<char>
    decreases n,
{
    if n == 0 || n > fonts.entries.len() {
        Seq::empty()
    } else {
        font_rule_list(fonts, (n - 1) as nat) + font_rule(fonts.entries[n - 1])
    }
}

/// The style block of the document: the rules of all entries of the font
/// map; nothing for a map without entries.
pub open spec fn style_block(fonts: EncodingFontMapView) -> Seq<char> {
    if fonts.entries.len() == 0 {
        Seq::empty()
    } else {
        "<style>"@ + font_rule_list(fonts, fonts.entries.len()) + "</style>"@
    }
}

/// The style block of the document.
pub fn font_rules(fonts: &EncodingFontMap) -> (block: String)
    ensures
        block@ == style_block(fonts@),
{
    if fonts.entries.len() == 0 {
        return String::new();
    }
    let mut rules = String::new();
    let mut i: usize = 0;
    while i < fonts.entries.len()
        invariant
            i <= fonts.entries@.len(),
            rules@ == font_rule_list(fonts@, i as nat),
        decreases fonts.entries@.len() - i,
    {
        let entry = &fonts.entries[i];
        assert(fonts@.entries[i as int] == entry@);
        let mut rule = ".".to_owned();
        rule.append(entry.charset.as_str());
        rule.append("{font-family:");
        rule.append(entry.font.family.as_str());
        rule.append(";font-style:");
        rule.append(entry.font.style.as_str());
        rule.append(";}");
        rules.append(rule.as_str());
        i = i + 1;
    }
    let mut block = "<style>".to_owned();
    block.append(rules.as_str());
    block.append("</style>");
    block
}

/// The SVG document of a canvas: the `svg` element of the given size, the
/// inversion filter, the style block of the fonts, and the content in one
/// group with the default font.
pub open spec fn svg_document(
    width: int,
    height: int,
    fonts: EncodingFontMapView,
    content: Seq<Seq<char>>,
) -> Seq<char> {
    "<svg width=\""@ + decimal_digits(width as nat) + "px\" height=\""@ + decimal_digits(
        height as nat,
    ) + "px\" viewBox=\"0 0 "@ + decimal_digits(width as nat) + " "@ + decimal_digits(height as nat)
        + "\" preserveAspectRatio=\"xMinYMin meet\" xmlns=\"http://www.w3.org/2000/svg\" xmlns:xlink=\"http://www.w3.org/1999/xlink\" version=\"1.1\">"@
        + "<defs><filter id=\"textinvert\" x=\"0\" y=\"0\" width=\"100%\" height=\"100%\"><feFlood flood-color=\"#000\"/><feComposite in=\"SourceGraphic\" operator=\"xor\"/></filter></defs>"@
        + style_block(fonts) + "<g font-family=\""@ + fonts.default.family
        + "\" fill=\"#000\" font-size=\""@ + decimal_digits(
        font_size_of(fonts.default.char_height as int) as nat,
    ) + "\" dominant-baseline=\"text-after-edge\" text-anchor=\"middle\">"@ + joined(
        content,
        content.len(),
    ) + "</g></svg>"@
}

/// No printable character of ASCII in `text` counts as double-width.
pub open spec fn ascii_is_single_width(text: Seq<char>) -> bool {
    forall|i: int|
        0 <= i < text.len() && is_plain_ascii(#[trigger] text[i]) ==> !double_width(text[i])
}

/// Of two texts in which no printable character of ASCII counts as
/// double-width, the same holds of the two read together.
pub proof fn lemma_ascii_is_single_width(a: Seq<char>, b: Seq<char>)
    requires
        ascii_is_single_width(a),
        ascii_is_single_width(b),
    ensures
        ascii_is_single_width(a + b),
{
    assert forall|i: int| 0 <= i < (a + b).len() && is_plain_ascii(#[trigger] (a + b)[i]) implies !double_width(
        (a + b)[i],
    ) by {
        if i < a.len() {
            assert((a + b)[i] == a[i]);
        } else {
            assert((a + b)[i] == b[i - a.len()]);
        }
    }
}

/// Glyphs of single width stand one glyph width apart: where none of the
/// first `n` characters counts as double-width, the offset behind them is
/// `n` glyph widths behind the first offset.
pub proof fn lemma_single_width_word(
    text: Seq<char>,
    n: nat,
    x: int,
    char_width: int,
    attrs: Seq<char>,
)
    requires
        n <= text.len(),
        0 <= x <= usize::MAX,
        0 <= char_width,
        forall|i: int| 0 <= i < n ==> !double_width(#[trigger] text[i]),
    ensures
        word_markup(text, n, x, char_width, attrs).1 == saturated(x + n * char_width),
    decreases n,
{
    if n == 0 {
        assert(0 * char_width == 0) by (nonlinear_arith);
    } else {
        lemma_single_width_word(text, (n - 1) as nat, x, char_width, attrs);
        assert((n - 1) * char_width + char_width == n * char_width) by (nonlinear_arith);
        assert((n - 1) * char_width >= 0) by (nonlinear_arith)
            requires
                n >= 1,
                char_width >= 0,
        ;
    }
}

/// `element` is the element of the character `c`, at some offset and with
/// some style.
pub open spec fn is_glyph(element: Seq<char>, c: char) -> bool {
    exists|x: int, attrs: Seq<char>| element == #[trigger] tspan(c, x, attrs)
}

/// The text of an item: that of a run, none for a break.
pub open spec fn item_text(item: PlacedView) -> Seq<char> {
    match item {
        PlacedView::Run(run) => run.text,
        PlacedView::Break => Seq::empty(),
    }
}

/// The texts of the items from `from` up to `to`, one behind the other.
pub open spec fn range_text(items: Seq<PlacedView>, from: int, to: int) -> Seq<char>
    decreases to - from,
{
    if to <= from {
        Seq::empty()
    } else {
        range_text(items, from, to - 1) + item_text(items[to - 1])
    }
}

/// The texts of the lines of `items` from the item `from` on, line by line
/// as [`lines_markup`] draws them.
pub open spec fn lines_text(items: Seq<PlacedView>, from: int) -> Seq<char>
    decreases items.len() - from,
{
    let to = line_end(items, from);
    if to >= items.len() || to < from {
        range_text(items, from, to)
    } else {
        range_text(items, from, to) + lines_text(items, to + 1)
    }
}

/// A word is drawn character by character: there is one element for every
/// character, in the order of the characters, and each is the element of its
/// character at the offset behind the characters before it.
pub proof fn lemma_word_glyphs(text: Seq<char>, n: nat, x: int, char_width: int, attrs: Seq<char>)
    requires
        n <= text.len(),
    ensures
        word_markup(text, n, x, char_width, attrs).0.len() == n,
        forall|i: int|
            0 <= i < n ==> #[trigger] word_markup(text, n, x, char_width, attrs).0[i] == tspan(
                text[i],
                word_markup(text, i as nat, x, char_width, attrs).1,
                attrs,
            ),
        forall|i: int|
            0 <= i < n ==> is_glyph(
                #[trigger] word_markup(text, n, x, char_width, attrs).0[i],
                text[i],
            ),
    decreases n,
{
    if n > 0 {
        lemma_word_glyphs(text, (n - 1) as nat, x, char_width, attrs);
        let before = word_markup(text, (n - 1) as nat, x, char_width, attrs);
        let now = word_markup(text, n, x, char_width, attrs);
        assert forall|i: int| 0 <= i < n implies #[trigger] now.0[i] == tspan(
            text[i],
            word_markup(text, i as nat, x, char_width, attrs).1,
            attrs,
        ) by {
            if i < n - 1 {
                assert(now.0[i] == before.0[i]);
            }
        }
    }
}

/// The runs of a line are drawn character by character: the elements
/// between the line's opening and closing elements are as many as the
/// characters of the line's runs, and each is the element of its character,
/// in the order of the text. No character is left out, none is drawn twice.
pub proof fn lemma_line_glyphs(
    items: Seq<PlacedView>,
    spans: Seq<TextSpanView>,
    fonts: EncodingFontMapView,
    from: int,
    to: int,
    start: int,
    scale: int,
)
    requires
        0 <= from <= to <= items.len(),
    ensures
        runs_markup(items, spans, fonts, from, to, start, scale).len() == range_text(
            items,
            from,
            to,
        ).len(),
        forall|k: int|
            0 <= k < range_text(items, from, to).len() ==> is_glyph(
                #[trigger] runs_markup(items, spans, fonts, from, to, start, scale)[k],
                range_text(items, from, to)[k],
            ),
    decreases to - from,
{
    if to > from {
        lemma_line_glyphs(items, spans, fonts, from, to - 1, start, scale);
        let before = runs_markup(items, spans, fonts, from, to - 1, start, scale);
        let now = runs_markup(items, spans, fonts, from, to, start, scale);
        let text_before = range_text(items, from, to - 1);
        match items[to - 1] {
            PlacedView::Run(run) => {
                let span = spans[run.span];
                let at = run_start(start, run.x, scale);
                let width = fonts.font_for(span.encoding).char_width as int;
                let attrs = style_attrs(span, fonts);
                lemma_word_glyphs(run.text, run.text.len(), at, width, attrs);
                let word = word_markup(run.text, run.text.len(), at, width, attrs).0;
                assert(now == before + word);
                assert forall|k: int| 0 <= k < range_text(items, from, to).len() implies is_glyph(
                    #[trigger] now[k],
                    range_text(items, from, to)[k],
                ) by {
                    if k < text_before.len() {
                        assert(now[k] == before[k]);
                    } else {
                        assert(now[k] == word[k - text_before.len()]);
                    }
                }
            },
            PlacedView::Break => {
                assert(range_text(items, from, to) =~= text_before);
            },
        }
    }
}

/// Every run of a line is drawn where the line breaker put it: the element
/// of the first character of the run `k` stands behind the elements of the
/// runs before it, and it is that character's element at the line's start
/// plus the run's offset, with the style of the run's span.
pub proof fn lemma_run_position(
    items: Seq<PlacedView>,
    spans: Seq<TextSpanView>,
    fonts: EncodingFontMapView,
    from: int,
    to: int,
    start: int,
    scale: int,
    k: int,
)
    requires
        0 <= from <= k < to <= items.len(),
        items[k] is Run,
        items[k]->Run_0.text.len() > 0,
    ensures
        ({
            let run = items[k]->Run_0;
            let at = range_text(items, from, k).len() as int;
            &&& at < runs_markup(items, spans, fonts, from, to, start, scale).len()
            &&& runs_markup(items, spans, fonts, from, to, start, scale)[at] == tspan(
                run.text[0],
                run_start(start, run.x, scale),
                style_attrs(spans[run.span], fonts),
            )
        }),
    decreases to - k,
{
    let run = items[k]->Run_0;
    let at = range_text(items, from, k).len() as int;
    lemma_line_glyphs(items, spans, fonts, from, k, start, scale);
    lemma_line_glyphs(items, spans, fonts, from, k + 1, start, scale);
    let before = runs_markup(items, spans, fonts, from, k, start, scale);
    let span = spans[run.span];
    let width = fonts.font_for(span.encoding).char_width as int;
    let attrs = style_attrs(span, fonts);
    let word = word_markup(run.text, run.text.len(), run_start(start, run.x, scale), width, attrs);
    lemma_word_glyphs(run.text, run.text.len(), run_start(start, run.x, scale), width, attrs);
    assert(runs_markup(items, spans, fonts, from, k + 1, start, scale) == before + word.0);
    assert((before + word.0)[at] == word.0[0]);
    if to > k + 1 {
        lemma_run_position(items, spans, fonts, from, to - 1, start, scale, k);
        let shorter = runs_markup(items, spans, fonts, from, to - 1, start, scale);
        let longer = runs_markup(items, spans, fonts, from, to, start, scale);
        match items[to - 1] {
            PlacedView::Run(last) => {
                let last_span = spans[last.span];
                let last_word = word_markup(
                    last.text,
                    last.text.len(),
                    run_start(start, last.x, scale),
                    fonts.font_for(last_span.encoding).char_width as int,
                    style_attrs(last_span, fonts),
                ).0;
                assert(longer == shorter + last_word);
                assert(longer[at] == shorter[at]);
            },
            PlacedView::Break => {},
        }
    }
}

/// A line is drawn as its opening element, the elements of the characters
/// of its runs in the order of the text, and its closing element.
pub proof fn lemma_line_shape(
    items: Seq<PlacedView>,
    spans: Seq<TextSpanView>,
    fonts: EncodingFontMapView,
    from: int,
    to: int,
    x: int,
    y: int,
    width: int,
)
    requires
        0 <= from <= to <= items.len(),
    ensures
        ({
            let line = line_markup(items, spans, fonts, from, to, x, y, width);
            let text = range_text(items, from, to);
            let scale = line_scale(items, spans, from, to);
            &&& line.len() == text.len() + 2
            &&& line[0] == line_open(y, scale.0, scale.1)
            &&& line[line.len() - 1] == line_close()
            &&& forall|k: int| 0 <= k < text.len() ==> is_glyph(#[trigger] line[k + 1], text[k])
        }),
{
    let scale = line_scale(items, spans, from, to);
    let start = justified_start(
        line_justify(items, spans, from, to),
        x,
        width,
        line_width(items, from, to),
        scale.0,
    );
    lemma_line_glyphs(items, spans, fonts, from, to, start, scale.0);
    let runs = runs_markup(items, spans, fonts, from, to, start, scale.0);
    let line = line_markup(items, spans, fonts, from, to, x, y, width);
    let text = range_text(items, from, to);
    assert forall|k: int| 0 <= k < text.len() implies is_glyph(#[trigger] line[k + 1], text[k]) by {
        assert(line[k + 1] == runs[k]);
    }
}

/// The text of a range of items is the text of its two parts.
pub proof fn lemma_range_text_split(items: Seq<PlacedView>, from: int, mid: int, to: int)
    requires
        from <= mid <= to,
    ensures
        range_text(items, from, to) == range_text(items, from, mid) + range_text(items, mid, to),
    decreases to - mid,
{
    if to > mid {
        lemma_range_text_split(items, from, mid, to - 1);
        assert((range_text(items, from, mid) + range_text(items, mid, to - 1)) + item_text(
            items[to - 1],
        ) =~= range_text(items, from, mid) + (range_text(items, mid, to - 1) + item_text(
            items[to - 1],
        )));
    } else {
        assert(range_text(items, from, mid) + Seq::<char>::empty() =~= range_text(
            items,
            from,
            mid,
        ));
    }
}

/// The text of the first `to` items is the placed text of those items.
pub proof fn lemma_range_text_is_placed_text(items: Seq<PlacedView>, to: int)
    requires
        0 <= to <= items.len(),
    ensures
        range_text(items, 0, to) == placed_text(items.take(to)),
    decreases to,
{
    if to > 0 {
        lemma_range_text_is_placed_text(items, to - 1);
        assert(items.take(to).drop_last() =~= items.take(to - 1));
        assert(items.take(to).last() == items[to - 1]);
    } else {
        assert(items.take(0).len() == 0);
    }
}

/// The first break of `items` from `from` on lies at or behind `from`, and
/// the items before it are runs.
pub proof fn lemma_line_end(items: Seq<PlacedView>, from: int)
    requires
        0 <= from <= items.len(),
    ensures
        from <= line_end(items, from) <= items.len(),
        line_end(items, from) < items.len() ==> items[line_end(items, from)] is Break,
        forall|k: int| from <= k < line_end(items, from) ==> (#[trigger] items[k]) is Run,
    decreases items.len() - from,
{
    if from < items.len() && !(items[from] is Break) {
        lemma_line_end(items, from + 1);
    }
}

/// The lines hold the whole text: the texts of the lines from the item
/// `from` on, one behind the other, are the texts of all items from `from`
/// on. Line breaks carry no text.
pub proof fn lemma_lines_text(items: Seq<PlacedView>, from: int)
    requires
        0 <= from <= items.len(),
    ensures
        lines_text(items, from) == range_text(items, from, items.len() as int),
    decreases items.len() - from,
{
    let to = line_end(items, from);
    lemma_line_end(items, from);
    if to < items.len() {
        lemma_lines_text(items, to + 1);
        lemma_range_text_split(items, from, to + 1, items.len() as int);
        assert(range_text(items, from, to + 1) =~= range_text(items, from, to));
    }
}

/// What is drawn of a layout is its text: the lines of the broken layout,
/// read line by line, hold the text that the line breaker placed, which is
/// the text of the layout's words ([`break_lines`]); and within each line
/// every character of that text has its element, in order
/// ([`lemma_line_glyphs`]).
pub proof fn lemma_drawn_text_is_placed_text(items: Seq<PlacedView>)
    ensures
        lines_text(items, 0) == placed_text(items),
{
    lemma_lines_text(items, 0);
    lemma_range_text_is_placed_text(items, items.len() as int);
    assert(items.take(items.len() as int) =~= items);
}

/// `element` opens or closes a line.
pub open spec fn is_frame(element: Seq<char>) -> bool {
    element == line_close() || exists|y: int, stretch_width: int, stretch_height: int|
        element == #[trigger] line_open(y, stretch_width, stretch_height)
}

/// What an element is for: the character it draws, or nothing for an
/// element that opens or closes a line.
pub open spec fn is_element_of(element: Seq<char>, mark: Option<char>) -> bool {
    match mark {
        Some(c) => is_glyph(element, c),
        None => is_frame(element),
    }
}

/// What the elements of a line of the text `text` are for: the opening
/// element, the characters of the text, the closing element.
pub open spec fn line_marks(text: Seq<char>) -> Seq<Option<char>> {
    seq![None::<char>] + text.map_values(|c: char| Some(c)) + seq![None::<char>]
}

/// What the elements of the lines of `items` from the item `from` on are
/// for, line by line as [`lines_markup`] draws them.
pub open spec fn lines_marks(items: Seq<PlacedView>, from: int) -> Seq<Option<char>>
    decreases items.len() - from,
{
    let to = line_end(items, from);
    let line = line_marks(range_text(items, from, to));
    if to >= items.len() || to < from {
        line
    } else {
        line + lines_marks(items, to + 1)
    }
}

/// The characters among the first `n` of `marks`, in order.
pub open spec fn marked_chars(marks: Seq<Option<char>>, n: nat) -> Seq<char>
    decreases n,
{
    if n == 0 || n > marks.len() {
        Seq::empty()
    } else {
        match marks[n - 1] {
            Some(c) => marked_chars(marks, (n - 1) as nat).push(c),
            None => marked_chars(marks, (n - 1) as nat),
        }
    }
}

/// Element by element, what is drawn is what [`lines_marks`] says: every
/// element of the lines is the element of the character that stands for it
/// there, or opens or closes a line where no character stands.
pub proof fn lemma_lines_marks(
    items: Seq<PlacedView>,
    spans: Seq<TextSpanView>,
    fonts: EncodingFontMapView,
    from: int,
    x: int,
    y: int,
    width: int,
    line_height: int,
)
    requires
        0 <= from <= items.len(),
    ensures
        lines_markup(items, spans, fonts, from, x, y, width, line_height).0.len() == lines_marks(
            items,
            from,
        ).len(),
        forall|k: int|
            0 <= k < lines_marks(items, from).len() ==> is_element_of(
                #[trigger] lines_markup(items, spans, fonts, from, x, y, width, line_height).0[k],
                lines_marks(items, from)[k],
            ),
    decreases items.len() - from,
{
    let to = line_end(items, from);
    lemma_line_end(items, from);
    lemma_line_shape(items, spans, fonts, from, to, x, y, width);
    let line = line_markup(items, spans, fonts, from, to, x, y, width);
    let text = range_text(items, from, to);
    let marks = line_marks(text);
    let scale = line_scale(items, spans, from, to);
    assert(marks.len() == line.len());
    assert forall|k: int| 0 <= k < marks.len() implies is_element_of(
        #[trigger] line[k],
        marks[k],
    ) by {
        if k == 0 {
            assert(line[0] == line_open(y, scale.0, scale.1));
        } else if k == marks.len() - 1 {
        } else {
            assert(marks[k] == Some(text[k - 1]));
            assert(is_glyph(line[(k - 1) + 1], text[k - 1]));
        }
    }
    let whole = lines_markup(items, spans, fonts, from, x, y, width, line_height).0;
    let all = lines_marks(items, from);
    if to < items.len() {
        let bottom = line_bottom(items, spans, from, to, y, line_height);
        lemma_lines_marks(items, spans, fonts, to + 1, x, bottom, width, line_height);
        let rest = lines_markup(items, spans, fonts, to + 1, x, bottom, width, line_height).0;
        let rest_marks = lines_marks(items, to + 1);
        assert(whole == line + rest);
        assert(all == marks + rest_marks);
        assert forall|k: int| 0 <= k < all.len() implies is_element_of(
            #[trigger] whole[k],
            all[k],
        ) by {
            if k < marks.len() {
                assert(whole[k] == line[k]);
            } else {
                assert(whole[k] == rest[k - marks.len()]);
                assert(all[k] == rest_marks[k - marks.len()]);
            }
        }
    }
}

/// The characters marked in two lists of marks, one behind the other, are
/// those of the first followed by those of the second.
pub proof fn lemma_marked_chars_add(a: Seq<Option<char>>, b: Seq<Option<char>>, n: nat)
    requires
        n <= b.len(),
    ensures
        marked_chars(a + b, a.len() + n) == marked_chars(a, a.len()) + marked_chars(b, n),
    decreases n,
{
    if n == 0 {
        lemma_marked_chars_prefix(a + b, a, a.len());
        assert(marked_chars(a, a.len()) + Seq::<char>::empty() =~= marked_chars(a, a.len()));
    } else {
        lemma_marked_chars_add(a, b, (n - 1) as nat);
        assert((a + b)[a.len() + n - 1] == b[n - 1]);
        match b[n - 1] {
            Some(c) => {
                assert((marked_chars(a, a.len()) + marked_chars(b, (n - 1) as nat)).push(c)
                    =~= marked_chars(a, a.len()) + marked_chars(b, (n - 1) as nat).push(c));
            },
            None => {},
        }
    }
}

/// The characters marked among the first `n` marks depend on those marks
/// alone.
pub proof fn lemma_marked_chars_prefix(a: Seq<Option<char>>, b: Seq<Option<char>>, n: nat)
    requires
        n <= a.len(),
        n <= b.len(),
        forall|k: int| 0 <= k < n ==> a[k] == b[k],
    ensures
        marked_chars(a, n) == marked_chars(b, n),
    decreases n,
{
    if n > 0 {
        lemma_marked_chars_prefix(a, b, (n - 1) as nat);
    }
}

/// The characters marked in the marks of a line are the line's text.
pub proof fn lemma_line_marks_chars(text: Seq<char>)
    ensures
        marked_chars(line_marks(text), line_marks(text).len()) == text,
{
    let marks = line_marks(text);
    lemma_text_marks_chars(text, text.len());
    assert(text.take(text.len() as int) =~= text);
    assert(marks.len() == text.len() + 2);
    assert(marks[marks.len() - 1] is None);
    assert(marked_chars(marks, marks.len()) == marked_chars(marks, (marks.len() - 1) as nat));
}

/// The characters marked among the first `n + 1` marks of a line are the
/// first `n` characters of the line's text.
pub proof fn lemma_text_marks_chars(text: Seq<char>, n: nat)
    requires
        n <= text.len(),
    ensures
        marked_chars(line_marks(text), n + 1) == text.take(n as int),
    decreases n,
{
    let marks = line_marks(text);
    if n == 0 {
        assert(marks[0] is None);
        assert(marked_chars(marks, 1) == marked_chars(marks, 0));
        assert(text.take(0) =~= Seq::<char>::empty());
    } else {
        lemma_text_marks_chars(text, (n - 1) as nat);
        assert(marks[n as int] == Some(text[n - 1]));
        assert(text.take(n as int) =~= text.take(n - 1).push(text[n - 1]));
    }
}

/// The characters that the elements of the lines stand for, read in the
/// order of the elements, are the text of the lines.
pub proof fn lemma_lines_marks_chars(items: Seq<PlacedView>, from: int)
    requires
        0 <= from <= items.len(),
    ensures
        marked_chars(lines_marks(items, from), lines_marks(items, from).len()) == lines_text(
            items,
            from,
        ),
    decreases items.len() - from,
{
    let to = line_end(items, from);
    lemma_line_end(items, from);
    let text = range_text(items, from, to);
    lemma_line_marks_chars(text);
    if to < items.len() {
        lemma_lines_marks_chars(items, to + 1);
        let rest = lines_marks(items, to + 1);
        lemma_marked_chars_add(line_marks(text), rest, rest.len());
    }
}

/// Drawing a layout draws its text and nothing else: every element that
/// [`SvgImage::draw_text`] adds is the element of one character or opens or
/// closes a line, and the characters of the elements, read in order, are the
/// text that the line breaker placed. No character is lost, none is drawn
/// twice, none is out of its place.
pub proof fn lemma_drawn_elements(
    layout: TextLayoutView,
    fonts: EncodingFontMapView,
    x: int,
    y: int,
    width: int,
)
    ensures
        ({
            let items = broken_lines(layout, fonts, width);
            let elements = drawn_text(layout, fonts, x, y, width).0;
            let marks = lines_marks(items, 0);
            &&& elements.len() == marks.len()
            &&& forall|k: int|
                0 <= k < marks.len() ==> is_element_of(#[trigger] elements[k], marks[k])
            &&& marked_chars(marks, marks.len()) == drawn_characters(layout, fonts, width)
            &&& drawn_characters(layout, fonts, width) == placed_text(items)
        }),
{
    let items = broken_lines(layout, fonts, width);
    lemma_lines_marks(items, layout.spans, fonts, 0, x, y, width, layout.line_height as int);
    lemma_lines_marks_chars(items, 0);
    lemma_drawn_text_is_placed_text(items);
}

} // verus!
