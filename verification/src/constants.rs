//! Control bytes of the ESC/POS vocabulary and the fixed metrics of the
//! emulated printer.

use vstd::prelude::*;

verus! {

/// Horizontal tab.
pub const HT: u8 = 0x09;

/// Line feed.
pub const LF: u8 = 0x0A;

/// Form feed.
pub const FF: u8 = 0x0C;

/// Carriage return.
pub const CR: u8 = 0x0D;

/// Lead byte of the `ESC` command family.
pub const ESC: u8 = 0x1B;

/// Lead byte of the `FS` command family (CJK commands among them).
pub const FS: u8 = 0x1C;

/// Lead byte of the `GS` command family.
pub const GS: u8 = 0x1D;

/// Width in dots of one single-width glyph of the base font.
pub const BASE_CHAR_WIDTH: usize = 12;

/// Height in dots of one glyph of the base font.
pub const BASE_CHAR_HEIGHT: usize = 24;

/// Printable width in dots of 80 mm paper at 203 dpi.
pub const DEFAULT_PRINTABLE_WIDTH: u16 = 576;

/// Characters per line at the base font: 48 single-width glyphs of 12 dots,
/// or 24 double-width glyphs of 24 dots.
pub const DEFAULT_CPL: u8 = 48;

/// Columns between two tab stops after a reset.
pub const DEFAULT_TAB_LEN: u8 = 8;

/// Dots by which a bare line feed advances the paper after a reset.
pub const DEFAULT_LINE_SPACING: u8 = 24;

} // verus!
