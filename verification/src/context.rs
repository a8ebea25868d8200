//! The emulated printer's state: text style, graphics cursor and page mode.
//!
//! The state is plain data. Commands of the context kind change it in place;
//! text and graphics commands read it. Nothing resets a field but a command
//! that says so.

use vstd::prelude::*;
use crate::constants::{
    BASE_CHAR_HEIGHT, BASE_CHAR_WIDTH, DEFAULT_LINE_SPACING, DEFAULT_PRINTABLE_WIDTH,
    DEFAULT_TAB_LEN,
};

verus! {

/// Where a line starts between the margins.
#[derive(Clone, Copy, Debug, PartialEq, Eq)]
pub enum TextJustify {
    Left,
    Center,
    Right,
}

/// Underline level.
#[derive(Clone, Copy, Debug, PartialEq, Eq)]
pub enum TextUnderline {
    Off,
    On,
    Double,
}

/// Strikethrough level.
#[derive(Clone, Copy, Debug, PartialEq, Eq)]
pub enum TextStrikethrough {
    Off,
    On,
    Double,
}

/// The text style in force.
#[derive(Clone, Debug, PartialEq, Eq)]
pub struct TextState {
    pub bold: bool,
    pub italic: bool,
    pub underline: TextUnderline,
    pub strikethrough: TextStrikethrough,
    /// Horizontal stretch factor, at least 1.
    pub width_mult: u8,
    /// Vertical stretch factor, at least 1.
    pub height_mult: u8,
    pub invert: bool,
    pub upside_down: bool,
    pub justify: TextJustify,
    /// Whether double-byte (CJK) character mode is on.
    pub is_cjk: bool,
    /// Name of the charset that the last text payload was detected as;
    /// empty until text has been seen.
    pub encoding: String,
    /// Columns between two tab stops.
    pub tab_len: u8,
    /// Dots by which a bare line feed advances the paper.
    pub line_spacing: u8,
}

/// The mathematical value of a [`TextState`].
pub struct TextStateView {
    pub bold: bool,
    pub italic: bool,
    pub underline: TextUnderline,
    pub strikethrough: TextStrikethrough,
    pub width_mult: u8,
    pub height_mult: u8,
    pub invert: bool,
    pub upside_down: bool,
    pub justify: TextJustify,
    pub is_cjk: bool,
    pub encoding: Seq<char>,
    pub tab_len: u8,
    pub line_spacing: u8,
}

impl View for TextState {
    type V = TextStateView;

    open spec fn view(&self) -> TextStateView {
        TextStateView {
            bold: self.bold,
            italic: self.italic,
            underline: self.underline,
            strikethrough: self.strikethrough,
            width_mult: self.width_mult,
            height_mult: self.height_mult,
            invert: self.invert,
            upside_down: self.upside_down,
            justify: self.justify,
            is_cjk: self.is_cjk,
            encoding: self.encoding@,
            tab_len: self.tab_len,
            line_spacing: self.line_spacing,
        }
    }
}

/// The graphics cursor, in device dots.
#[derive(Clone, Copy, Debug, PartialEq, Eq)]
pub struct GraphicsState {
    pub x: usize,
    pub y: usize,
}

/// Page mode: whether it is on, and the size of the page area in dots.
#[derive(Clone, Copy, Debug, PartialEq, Eq)]
pub struct PageModeState {
    pub enabled: bool,
    pub width: usize,
    pub height: usize,
}

/// The state of one print job.
#[derive(Clone, Debug, PartialEq, Eq)]
pub struct Context {
    pub text: TextState,
    pub graphics: GraphicsState,
    pub page_mode: PageModeState,
}

/// The mathematical value of a [`Context`].
pub struct ContextView {
    pub text: TextStateView,
    pub graphics: GraphicsState,
    pub page_mode: PageModeState,
}

impl View for Context {
    type V = ContextView;

    open spec fn view(&self) -> ContextView {
        ContextView { text: self.text@, graphics: self.graphics, page_mode: self.page_mode }
    }
}

/// The text state after a reset.
pub open spec fn initial_text_state() -> TextStateView {
    TextStateView {
        bold: false,
        italic: false,
        underline: TextUnderline::Off,
        strikethrough: TextStrikethrough::Off,
        width_mult: 1,
        height_mult: 1,
        invert: false,
        upside_down: false,
        justify: TextJustify::Left,
        is_cjk: false,
        encoding: Seq::empty(),
        tab_len: DEFAULT_TAB_LEN,
        line_spacing: DEFAULT_LINE_SPACING,
    }
}

/// The state at the start of a job.
pub open spec fn initial_context() -> ContextView {
    ContextView {
        text: initial_text_state(),
        graphics: GraphicsState { x: 0, y: 0 },
        page_mode: PageModeState { enabled: false, width: 0, height: 0 },
    }
}

/// `a + b`, held at the largest `usize` where the sum would pass it.
pub open spec fn saturating_sum(a: int, b: int) -> int {
    if a + b > usize::MAX {
        usize::MAX as int
    } else {
        a + b
    }
}

impl ContextView {
    /// This state with CJK mode switched on or off, and nothing else changed.
    pub open spec fn with_cjk(self, on: bool) -> ContextView {
        ContextView { text: TextStateView { is_cjk: on, ..self.text }, ..self }
    }

    /// This state with `charset` as the detected charset, and nothing else
    /// changed.
    pub open spec fn with_encoding(self, charset: Seq<char>) -> ContextView {
        ContextView { text: TextStateView { encoding: charset, ..self.text }, ..self }
    }

    /// Both stretch factors are at least 1.
    pub open spec fn wf(self) -> bool {
        self.text.width_mult >= 1 && self.text.height_mult >= 1
    }

    /// Width in dots that text may occupy: the page area's width in page
    /// mode, the paper's printable width otherwise.
    pub open spec fn available_width_pixels(self) -> int {
        if self.page_mode.enabled {
            self.page_mode.width as int
        } else {
            DEFAULT_PRINTABLE_WIDTH as int
        }
    }

    /// Width in dots of one glyph in the current style: the base width times
    /// the horizontal stretch, doubled in CJK mode.
    pub open spec fn char_width_pixels(self) -> int {
        BASE_CHAR_WIDTH * self.text.width_mult * (if self.text.is_cjk { 2int } else { 1int })
    }

    /// Height in dots of one line in the current style.
    pub open spec fn line_height_pixels(self) -> int {
        BASE_CHAR_HEIGHT * self.text.height_mult
    }

    /// This state with the cursor moved down by `dots`.
    pub open spec fn advanced(self, dots: int) -> ContextView {
        ContextView {
            graphics: GraphicsState {
                x: self.graphics.x,
                y: saturating_sum(self.graphics.y as int, dots) as usize,
            },
            ..self
        }
    }

    /// This state with the cursor at the origin.
    pub open spec fn at_origin(self) -> ContextView {
        ContextView { graphics: GraphicsState { x: 0, y: 0 }, ..self }
    }
}

impl Context {
    /// Both stretch factors are at least 1.
    pub open spec fn wf(&self) -> bool {
        self@.wf()
    }

    /// The state at the start of a job.
    pub fn new() -> (context: Context)
        ensures
            context@ == initial_context(),
            context.wf(),
    {
        Context {
            text: TextState {
                bold: false,
                italic: false,
                underline: TextUnderline::Off,
                strikethrough: TextStrikethrough::Off,
                width_mult: 1,
                height_mult: 1,
                invert: false,
                upside_down: false,
                justify: TextJustify::Left,
                is_cjk: false,
                encoding: String::new(),
                tab_len: DEFAULT_TAB_LEN,
                line_spacing: DEFAULT_LINE_SPACING,
            },
            graphics: GraphicsState { x: 0, y: 0 },
            page_mode: PageModeState { enabled: false, width: 0, height: 0 },
        }
    }

    /// Width in dots that text may occupy.
    pub fn available_width_pixels(&self) -> (width: usize)
        ensures
            width == self@.available_width_pixels(),
    {
        if self.page_mode.enabled {
            self.page_mode.width
        } else {
            DEFAULT_PRINTABLE_WIDTH as usize
        }
    }

    /// Width in dots of one glyph in the current style.
    pub fn char_width_pixels(&self) -> (width: usize)
        ensures
            width == self@.char_width_pixels(),
    {
        let stretched: usize = BASE_CHAR_WIDTH * (self.text.width_mult as usize);
        if self.text.is_cjk {
            stretched * 2
        } else {
            stretched
        }
    }

    /// Height in dots of one line in the current style.
    pub fn line_height_pixels(&self) -> (height: usize)
        ensures
            height == self@.line_height_pixels(),
    {
        BASE_CHAR_HEIGHT * (self.text.height_mult as usize)
    }

    /// Moves the cursor down by `dots`; it stops at the largest `usize`.
    pub fn advance_y(&mut self, dots: usize)
        ensures
            final(self)@ == old(self)@.advanced(dots as int),
    {
        self.graphics.y = self.graphics.y.saturating_add(dots);
    }

    /// Puts the cursor back at the origin, as at the end of a render pass.
    pub fn reset_cursor(&mut self)
        ensures
            final(self)@ == old(self)@.at_origin(),
    {
        self.graphics.x = 0;
        self.graphics.y = 0;
    }
}

/// Switching CJK mode to the same value twice is the same as switching it
/// once, and switching it on and off again gives back any state in which it
/// was off.
pub proof fn lemma_cjk_mode(context: ContextView, on: bool)
    ensures
        context.with_cjk(on).with_cjk(on) == context.with_cjk(on),
        context.with_cjk(on).text.is_cjk == on,
        !context.text.is_cjk ==> context.with_cjk(true).with_cjk(false) == context,
        context.with_cjk(on).wf() == context.wf(),
{
}

/// Noting the same charset twice is the same as noting it once, and it
/// changes nothing but the charset.
pub proof fn lemma_encoding(context: ContextView, charset: Seq<char>)
    ensures
        context.with_encoding(charset).with_encoding(charset) == context.with_encoding(charset),
        context.with_encoding(charset).text.encoding == charset,
        context.with_encoding(context.text.encoding) == context,
        context.with_encoding(charset).wf() == context.wf(),
{
}

} // verus!
