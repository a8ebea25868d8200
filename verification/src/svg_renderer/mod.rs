//! The SVG renderer: a backend that draws a job as one SVG document.
//!
//! Text is not drawn when it comes. It waits in a layout, span by span, so
//! that lines can be broken across spans of different style, and is laid out
//! when anything but text comes. The finished document is kept in the
//! renderer; writing it out is left to the caller.

pub mod svg_image;

use crate::command::{CommandDef, CommandView, DeviceCommand};
use crate::constants::{BASE_CHAR_HEIGHT, DEFAULT_CPL, DEFAULT_PRINTABLE_WIDTH};
use crate::context::{Context, ContextView, GraphicsState};
use crate::dispatcher::rendered;
use crate::font::{EncodingFontMap, EncodingFontMapView};
use crate::renderer::{is_newline, CommandRenderer};
use crate::svg_renderer::svg_image::{
    drawn_text, span_of, spans_view, svg_document, SvgImage, TextLayout, TextLayoutView, TextSpan,
};
use vstd::prelude::*;

verus! {

/// The SVG renderer.
pub struct SvgRenderer {
    /// What has been drawn.
    pub canvas: SvgImage,
    /// The text that waits to be laid out, if any.
    pub text_layout: Option<TextLayout>,
    /// The document of the last job that ended, if any.
    pub document: Option<String>,
}

/// The model of an [`SvgRenderer`].
pub struct SvgRendererView {
    /// Width of the canvas in dots.
    pub width: u16,
    /// The fonts of the charsets.
    pub fonts: EncodingFontMapView,
    /// The elements drawn so far.
    pub content: Seq<Seq<char>>,
    /// The text that waits to be laid out.
    pub layout: Option<TextLayoutView>,
    /// The document of the last job that ended.
    pub document: Option<Seq<char>>,
    /// The canvas' other settings: height, characters per line, line margin,
    /// line alignment, line height, feed unit, spacing.
    pub settings: (u16, u8, u8, u8, u8, u8, bool),
}

/// `width`, or the largest width of a canvas where `width` is larger.
pub open spec fn clamped_width(width: int) -> u16 {
    if width > u16::MAX {
        u16::MAX
    } else {
        width as u16
    }
}

impl SvgRendererView {
    /// The model after the text that waits has been laid out and drawn, and
    /// the printer state with the cursor behind the last line. Nothing
    /// changes where no text waits. (The height behind the last line is a
    /// `usize` not above the cursor's: `lemma_drawn_text_height`.)
    pub open spec fn flushed(self, context: ContextView) -> (SvgRendererView, ContextView) {
        match self.layout {
            Some(layout) => {
                let drawn = drawn_text(
                    layout,
                    self.fonts,
                    context.graphics.x as int,
                    context.graphics.y as int,
                    self.width as int,
                );
                (
                    SvgRendererView { content: self.content + drawn.0, layout: None, ..self },
                    ContextView {
                        graphics: GraphicsState { x: context.graphics.x, y: drawn.1 as usize },
                        ..context
                    },
                )
            },
            None => (self, context),
        }
    }

    /// The model with `text` in the style of `context` behind the text that
    /// waits. The first span makes the layout, with the base font's line
    /// height and the tab distance of `context`.
    pub open spec fn buffered(self, context: ContextView, text: Seq<char>) -> SvgRendererView {
        let span = span_of(text, context);
        match self.layout {
            Some(layout) => SvgRendererView {
                layout: Some(TextLayoutView { spans: layout.spans.push(span), ..layout }),
                ..self
            },
            None => SvgRendererView {
                layout: Some(
                    TextLayoutView {
                        spans: seq![span],
                        line_height: BASE_CHAR_HEIGHT,
                        tab_len: context.text.tab_len as usize,
                    },
                ),
                ..self
            },
        }
    }
}

/// What `layout` holds, if anything.
pub open spec fn some_layout(layout: Option<TextLayout>) -> Option<TextLayoutView> {
    match layout {
        Some(l) => Some(l@),
        None => None,
    }
}

/// What `document` holds, if anything.
pub open spec fn some_document(document: Option<String>) -> Option<Seq<char>> {
    match document {
        Some(d) => Some(d@),
        None => None,
    }
}

impl View for SvgRenderer {
    type V = SvgRendererView;

    open spec fn view(&self) -> SvgRendererView {
        SvgRendererView {
            width: self.canvas.width,
            fonts: self.canvas.fonts@,
            content: self.canvas.content(),
            layout: some_layout(self.text_layout),
            document: some_document(self.document),
            settings: (
                self.canvas.height,
                self.canvas.base_cpl,
                self.canvas.line_margin,
                self.canvas.line_align,
                self.canvas.line_height,
                self.canvas.feed_unit,
                self.canvas.spacing,
            ),
        }
    }
}

impl SvgRenderer {
    /// A renderer with an empty canvas of the default printable width and
    /// the base font for every charset.
    pub fn new() -> (renderer: SvgRenderer)
        ensures
            renderer@.width == DEFAULT_PRINTABLE_WIDTH,
            renderer@.fonts.default == crate::font::base_font(),
            renderer@.fonts.entries.len() == 0,
            renderer@.content.len() == 0,
            renderer@.layout is None,
            renderer@.document is None,
            renderer@.settings == (0u16, DEFAULT_CPL, 0u8, 0u8, 24u8, 24u8, false),
    {
        SvgRenderer {
            canvas: SvgImage::new(DEFAULT_PRINTABLE_WIDTH),
            text_layout: None,
            document: None,
        }
    }

    /// A renderer with an empty canvas of the default printable width and
    /// the given fonts.
    pub fn with_fonts(fonts: EncodingFontMap) -> (renderer: SvgRenderer)
        ensures
            renderer@.width == DEFAULT_PRINTABLE_WIDTH,
            renderer@.fonts == fonts@,
            renderer@.content.len() == 0,
            renderer@.layout is None,
            renderer@.document is None,
            renderer@.settings == (0u16, DEFAULT_CPL, 0u8, 0u8, 24u8, 24u8, false),
    {
        SvgRenderer {
            canvas: SvgImage::with_fonts(DEFAULT_PRINTABLE_WIDTH, fonts),
            text_layout: None,
            document: None,
        }
    }

    /// Lays out and draws the text that waits, if any, and moves the cursor
    /// behind its last line.
    pub fn maybe_render_text(&mut self, context: &mut Context)
        ensures
            (final(self)@, final(context)@) == old(self)@.flushed(old(context)@),
            final(self)@.layout is None,
            final(context).wf() == old(context).wf(),
            old(context)@.graphics.y <= final(context)@.graphics.y,
            final(context)@.graphics.x == old(context)@.graphics.x,
    {
        match self.text_layout.take() {
            Some(layout) => {
                let mut layout = layout;
                let (_, y) = self.canvas.draw_text(
                    context.graphics.x,
                    context.graphics.y,
                    self.canvas.width as usize,
                    &mut layout,
                );
                context.graphics.y = y;
            },
            None => {},
        }
    }
}

impl CommandRenderer for SvgRenderer {
    type State = SvgRendererView;

    open spec fn state(&self) -> SvgRendererView {
        self@
    }

    open spec fn pending(state: SvgRendererView) -> bool {
        state.layout is Some
    }

    /// The canvas takes the width that is available for printing and is
    /// cleared; the document of the job before is dropped.
    open spec fn began(state: SvgRendererView, context: ContextView) -> (
        SvgRendererView,
        ContextView,
    ) {
        (
            SvgRendererView {
                width: clamped_width(context.available_width_pixels()),
                content: Seq::empty(),
                document: None,
                ..state
            },
            context,
        )
    }

    fn begin_render(&mut self, context: &mut Context) {
        let available = context.available_width_pixels();
        let width: u16 = if available > u16::MAX as usize {
            u16::MAX
        } else {
            available as u16
        };
        self.canvas.set_width(width);
        self.document = None;
        assert(self@.content =~= Seq::<Seq<char>>::empty());
    }

    open spec fn graphics_begun(state: SvgRendererView, context: ContextView) -> (
        SvgRendererView,
        ContextView,
    ) {
        state.flushed(context)
    }

    fn begin_graphics(&mut self, context: &mut Context) {
        self.maybe_render_text(context);
    }

    /// This backend draws no rectangles; the call only flushes the text.
    open spec fn rect_drawn(
        state: SvgRendererView,
        context: ContextView,
        width: usize,
        height: usize,
    ) -> (SvgRendererView, ContextView) {
        state.flushed(context)
    }

    fn draw_rect(&mut self, context: &mut Context, width: usize, height: usize) {
        self.maybe_render_text(context);
    }

    open spec fn graphics_ended(state: SvgRendererView, context: ContextView) -> (
        SvgRendererView,
        ContextView,
    ) {
        (state, context)
    }

    fn end_graphics(&mut self, context: &mut Context) {
    }

    /// This backend draws no images; the call only flushes the text.
    open spec fn image_drawn(
        state: SvgRendererView,
        context: ContextView,
        bytes: Seq<u8>,
        width: usize,
        height: usize,
    ) -> (SvgRendererView, ContextView) {
        state.flushed(context)
    }

    fn draw_image(&mut self, context: &mut Context, bytes: Vec<u8>, width: usize, height: usize) {
        self.maybe_render_text(context);
    }

    open spec fn text_drawn(state: SvgRendererView, context: ContextView, text: Seq<char>) -> (
        SvgRendererView,
        ContextView,
    ) {
        if state.layout is None && is_newline(text) {
            (state, context.advanced(context.text.line_spacing as int))
        } else {
            (state.buffered(context, text), context)
        }
    }

    fn draw_text(&mut self, context: &mut Context, text: String) {
        if self.text_layout.is_none() && text.as_str().unicode_len() == 1 && text.as_str().get_char(
            0,
        ) == '\n' {
            context.advance_y(context.text.line_spacing as usize);
            return ;
        }
        let span = TextSpan::new(text, context);
        match self.text_layout.take() {
            Some(layout) => {
                let mut layout = layout;
                let ghost spans = layout.spans@;
                layout.spans.push(span);
                assert(spans_view(spans.push(span)) =~= spans_view(spans).push(span@));
                self.text_layout = Some(layout);
            },
            None => {
                let mut spans: Vec<TextSpan> = Vec::new();
                spans.push(span);
                assert(spans_view(spans@) =~= seq![span@]);
                self.text_layout = Some(
                    TextLayout {
                        spans,
                        line_height: BASE_CHAR_HEIGHT,
                        tab_len: context.text.tab_len as usize,
                    },
                );
            },
        }
    }

    /// This backend draws nothing for a device command; the call only
    /// flushes the text.
    open spec fn device_command_drawn(
        state: SvgRendererView,
        context: ContextView,
        name: Seq<char>,
        data: Seq<u8>,
    ) -> (SvgRendererView, ContextView) {
        state.flushed(context)
    }

    fn draw_device_command(&mut self, context: &mut Context, command: &DeviceCommand) {
        self.maybe_render_text(context);
    }

    /// The text that waits is laid out, the document is made of what the
    /// canvas holds, as high as the cursor has come, and the cursor goes
    /// back to the origin.
    open spec fn ended(state: SvgRendererView, context: ContextView) -> (
        SvgRendererView,
        ContextView,
    ) {
        let flushed = state.flushed(context);
        (
            SvgRendererView {
                document: Some(
                    svg_document(
                        flushed.0.width as int,
                        flushed.1.graphics.y as int,
                        flushed.0.fonts,
                        flushed.0.content,
                    ),
                ),
                ..flushed.0
            },
            flushed.1.at_origin(),
        )
    }

    fn end_render(&mut self, context: &mut Context) {
        self.maybe_render_text(context);
        let document = self.canvas.construct_svg_doc(context);
        self.document = Some(document);
        context.reset_cursor();
    }
}

/// A job that this renderer ends has a document, with no text left waiting
/// and the cursor at the origin, whatever its commands were.
pub proof fn lemma_job_yields_document(
    defs: Seq<CommandDef>,
    commands: Seq<CommandView>,
    state: SvgRendererView,
    context: ContextView,
)
    ensures
        rendered::<SvgRenderer>(defs, commands, state, context).state.document is Some,
        rendered::<SvgRenderer>(defs, commands, state, context).state.layout is None,
        rendered::<SvgRenderer>(defs, commands, state, context).context.graphics == (
            GraphicsState { x: 0, y: 0 }
        ),
{
}

} // verus!
