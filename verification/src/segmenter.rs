//! Words and display widths, as the `textwrap` and `unicode-display-width`
//! crates compute them.
//!
//! Nothing in this module is proved: each function hands its arguments to one
//! outside function and gives the result back as plain values. What a result
//! is, is not written out here. It has a name, a spec function without a
//! body, and the contracts of the layout engine speak of those names.

use textwrap::WordSeparator;
use vstd::prelude::*;

verus! {

/// A word and the run of spaces that follows it.
#[derive(Clone, Debug, PartialEq, Eq)]
pub struct Piece {
    pub word: String,
    pub whitespace: String,
}

/// The mathematical value of a [`Piece`].
pub struct PieceView {
    pub word: Seq<char>,
    pub whitespace: Seq<char>,
}

impl View for Piece {
    type V = PieceView;

    open spec fn view(&self) -> PieceView {
        PieceView { word: self.word@, whitespace: self.whitespace@ }
    }
}

impl PieceView {
    /// The word with its spaces behind it.
    pub open spec fn text(self) -> Seq<char> {
        self.word + self.whitespace
    }
}

/// The values of the pieces of `pieces`, in order.
pub open spec fn pieces_view(pieces: Seq<Piece>) -> Seq<PieceView> {
    pieces.map_values(|p: Piece| p@)
}

/// Each pair of `pairs` as a piece: the first component is the word, the
/// second its spaces.
pub open spec fn pieces_of(pairs: Seq<(Seq<char>, Seq<char>)>) -> Seq<PieceView> {
    pairs.map_values(|p: (Seq<char>, Seq<char>)| PieceView { word: p.0, whitespace: p.1 })
}

/// The words of the first `n` pieces, one behind the other.
pub open spec fn joined_words(pieces: Seq<PieceView>, n: nat) -> Seq<char>
    decreases n,
{
    if n == 0 || n > pieces.len() {
        Seq::empty()
    } else {
        joined_words(pieces, (n - 1) as nat) + pieces[n - 1].word
    }
}

/// The texts of the first `n` pieces, words and spaces, one behind the other.
pub open spec fn joined_text(pieces: Seq<PieceView>, n: nat) -> Seq<char>
    decreases n,
{
    if n == 0 || n > pieces.len() {
        Seq::empty()
    } else {
        joined_text(pieces, (n - 1) as nat) + pieces[n - 1].text()
    }
}

/// The spaces behind each of `pieces` are spaces and nothing else.
pub open spec fn only_spaces(pieces: Seq<PieceView>) -> bool {
    forall|i: int, j: int|
        0 <= i < pieces.len() && 0 <= j < pieces[i].whitespace.len() ==> (
        #[trigger] pieces[i].whitespace[j]) == ' '
}

/// The words that `textwrap` finds in `line` by Unicode line-break
/// properties, each with the spaces behind it.
pub uninterp spec fn unicode_words(line: Seq<char>) -> Seq<(Seq<char>, Seq<char>)>;

/// The pieces into which `textwrap` breaks the word `word`, followed by
/// `whitespace`, for a limit of `limit` columns.
pub uninterp spec fn broken_apart(word: Seq<char>, whitespace: Seq<char>, limit: nat) -> Seq<
    (Seq<char>, Seq<char>),
>;

/// The number of columns that `unicode-display-width` gives `text`.
pub uninterp spec fn display_columns(text: Seq<char>) -> nat;

/// Whether `unicode-display-width` lists `c` as a double-width character.
pub uninterp spec fn double_width(c: char) -> bool;

/// `textwrap::WordSeparator::UnicodeBreakProperties.find_words`: the words of
/// `text`, split where the Unicode line-breaking algorithm allows a break.
/// The contract names the result and states what the outside function's
/// source shows of it: the words are consecutive slices of the text that
/// together cover it, each cut into the word and the run of `' '` at its
/// end, so that the words with their spaces, read together, are the text,
/// and what stands behind a word as its spaces is spaces only.
#[verifier::external_body]
pub(crate) fn find_words(text: &str) -> (pieces: Vec<Piece>)
    ensures
        pieces_view(pieces@) == pieces_of(unicode_words(text@)),
        joined_text(pieces_view(pieces@), pieces@.len()) == text@,
        only_spaces(pieces_view(pieces@)),
{
    WordSeparator::UnicodeBreakProperties
        .find_words(text)
        .map(|w| Piece { word: w.word.to_string(), whitespace: w.whitespace.to_string() })
        .collect()
}

/// `textwrap::core::Word::break_apart`: `piece` cut into pieces of at most
/// `limit` columns, as `textwrap` counts columns. The contract names the
/// result and states what the outside function's source shows of it: the
/// pieces are consecutive slices of the word that together cover it, so that
/// there is none only for an empty word, and the spaces stay with the last
/// piece while every earlier piece has none. The `Word` that is broken is
/// made of the piece's two strings, without a penalty and with the width
/// that `textwrap` gives the word.
#[verifier::external_body]
pub(crate) fn break_apart(piece: &Piece, limit: usize) -> (fragments: Vec<Piece>)
    ensures
        pieces_view(fragments@) == pieces_of(
            broken_apart(piece.word@, piece.whitespace@, limit as nat),
        ),
        joined_words(pieces_view(fragments@), fragments@.len()) == piece.word@,
        fragments@.len() == 0 <==> piece.word@.len() == 0,
        forall|i: int|
            0 <= i < fragments@.len() - 1 ==> (#[trigger] fragments@[i]).whitespace@.len() == 0,
        fragments@.len() > 0 ==> fragments@[fragments@.len() - 1].whitespace@
            == piece.whitespace@,
{
    let word = textwrap::core::Word {
        word: piece.word.as_str(),
        whitespace: piece.whitespace.as_str(),
        penalty: "",
        width: textwrap::core::display_width(piece.word.as_str()),
    };
    word.break_apart(limit)
        .map(|w| Piece { word: w.word.to_string(), whitespace: w.whitespace.to_string() })
        .collect()
}

/// `unicode_display_width::width`: the number of terminal columns that
/// `text` takes. The contract only names the result.
#[verifier::external_body]
pub(crate) fn display_width(text: &str) -> (columns: u64)
    ensures
        columns == display_columns(text@),
{
    unicode_display_width::width(text)
}

/// The printable characters of ASCII, U+0020 to U+007E.
pub open spec fn is_plain_ascii(c: char) -> bool {
    0x20 <= c as u32 <= 0x7E
}

/// `unicode_display_width::is_double_width`: whether `c` takes two columns.
/// The contract names the result and states what the outside function's
/// source shows of it: a printable character of ASCII is answered with
/// `false` before any table is looked at.
#[verifier::external_body]
pub(crate) fn is_double_width(c: char) -> (wide: bool)
    ensures
        wide == double_width(c),
        is_plain_ascii(c) ==> !wide,
{
    unicode_display_width::is_double_width(c)
}

} // verus!
