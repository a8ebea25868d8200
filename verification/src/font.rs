//! Font descriptors, and the map from charset names to them.
//!
//! The map is made once, when a renderer is made, and only read after that.
//! A charset that it has no entry for gets the default font.

use crate::constants::{BASE_CHAR_HEIGHT, BASE_CHAR_WIDTH};
use vstd::prelude::*;

verus! {

/// A font: its family, its CSS style, and the size in dots of one
/// single-width glyph.
#[derive(Clone, Debug, PartialEq, Eq)]
pub struct FontDesc {
    pub family: String,
    pub style: String,
    pub char_width: u16,
    pub char_height: u16,
}

/// The mathematical value of a [`FontDesc`].
pub struct FontDescView {
    pub family: Seq<char>,
    pub style: Seq<char>,
    pub char_width: u16,
    pub char_height: u16,
}

impl View for FontDesc {
    type V = FontDescView;

    open spec fn view(&self) -> FontDescView {
        FontDescView {
            family: self.family@,
            style: self.style@,
            char_width: self.char_width,
            char_height: self.char_height,
        }
    }
}

/// One entry of the map: the font for the charset of that name.
#[derive(Clone, Debug, PartialEq, Eq)]
pub struct FontEntry {
    pub charset: String,
    pub font: FontDesc,
}

/// The mathematical value of a [`FontEntry`].
pub struct FontEntryView {
    pub charset: Seq<char>,
    pub font: FontDescView,
}

impl View for FontEntry {
    type V = FontEntryView;

    open spec fn view(&self) -> FontEntryView {
        FontEntryView { charset: self.charset@, font: self.font@ }
    }
}

/// The map from charset names to fonts.
#[derive(Clone, Debug, PartialEq, Eq)]
pub struct EncodingFontMap {
    /// The font of every charset that has no entry.
    pub default: FontDesc,
    /// The entries; of two for one charset the first counts.
    pub entries: Vec<FontEntry>,
}

/// The mathematical value of an [`EncodingFontMap`].
pub struct EncodingFontMapView {
    pub default: FontDescView,
    pub entries: Seq<FontEntryView>,
}

impl View for EncodingFontMap {
    type V = EncodingFontMapView;

    open spec fn view(&self) -> EncodingFontMapView {
        EncodingFontMapView {
            default: self.default@,
            entries: self.entries@.map_values(|e: FontEntry| e@),
        }
    }
}

/// The base font: monospace, 12 by 24 dots.
pub open spec fn base_font() -> FontDescView {
    FontDescView {
        family: "monospace"@,
        style: "normal"@,
        char_width: BASE_CHAR_WIDTH as u16,
        char_height: BASE_CHAR_HEIGHT as u16,
    }
}

impl EncodingFontMapView {
    /// The index of the first entry for `charset` from `from` on; the number
    /// of entries where there is none.
    pub open spec fn find(self, charset: Seq<char>, from: int) -> int
        decreases self.entries.len() - from,
    {
        if from < 0 || from >= self.entries.len() {
            self.entries.len() as int
        } else if self.entries[from].charset == charset {
            from
        } else {
            self.find(charset, from + 1)
        }
    }

    /// The font for `charset`: that of its first entry, or the default.
    pub open spec fn font_for(self, charset: Seq<char>) -> FontDescView {
        let i = self.find(charset, 0);
        if i < self.entries.len() {
            self.entries[i].font
        } else {
            self.default
        }
    }
}

impl FontDesc {
    /// The base font: monospace, 12 by 24 dots.
    pub fn base() -> (font: FontDesc)
        ensures
            font@ == base_font(),
    {
        FontDesc {
            family: "monospace".to_owned(),
            style: "normal".to_owned(),
            char_width: 12,
            char_height: 24,
        }
    }
}

impl EncodingFontMap {
    /// A map without entries: every charset has the base font.
    pub fn new() -> (map: EncodingFontMap)
        ensures
            map@.default == base_font(),
            map@.entries.len() == 0,
    {
        EncodingFontMap { default: FontDesc::base(), entries: Vec::new() }
    }

    /// This map with an entry for `charset` behind the entries it has.
    pub fn with_font(self, charset: &str, font: FontDesc) -> (map: EncodingFontMap)
        ensures
            map@.default == self@.default,
            map@.entries == self@.entries.push(FontEntryView { charset: charset@, font: font@ }),
    {
        let mut map = self;
        map.entries.push(FontEntry { charset: charset.to_owned(), font });
        assert(map@.entries =~= self@.entries.push(
            FontEntryView { charset: charset@, font: font@ },
        ));
        map
    }

    /// The index of the first entry for `charset`; the number of entries
    /// where there is none.
    pub fn find(&self, charset: &String) -> (index: usize)
        ensures
            index == self@.find(charset@, 0),
            index <= self.entries@.len(),
    {
        let mut i: usize = 0;
        while i < self.entries.len()
            invariant
                i <= self.entries@.len(),
                self@.find(charset@, 0) == self@.find(charset@, i as int),
            decreases self.entries@.len() - i,
        {
            assert(self@.entries[i as int] == self.entries@[i as int]@);
            if self.entries[i].charset == *charset {
                return i;
            }
            i = i + 1;
        }
        i
    }

    /// The font for `charset`: that of its first entry, or the default.
    pub fn font_for(&self, charset: &String) -> (font: &FontDesc)
        ensures
            font@ == self@.font_for(charset@),
    {
        let i = self.find(charset);
        if i < self.entries.len() {
            assert(self@.entries[i as int] == self.entries@[i as int]@);
            &self.entries[i].font
        } else {
            &self.default
        }
    }
}

} // verus!
