//! Charset detection and decoding of text payloads, as the `chardetng` crate
//! and the `encoding_rs` decoders behind it compute them.
//!
//! A text payload carries no charset tag. The detector guesses one from the
//! bytes, and the payload is decoded as the guess says. Both results are
//! functions of the bytes alone. Neither is written out here: each has a
//! name, a spec function without a body.
//!
//! The detector hands out an encoding of `encoding_rs`, and decoding is a
//! method of that encoding which `encoding_rs` offers only with its `alloc`
//! feature. `chardetng` asks for `encoding_rs` without features, so this
//! crate names `encoding_rs` among its own dependencies, with its default
//! features, though no path of it is written here.

use chardetng::EncodingDetector;
use vstd::prelude::*;

verus! {

/// The name of the charset that `chardetng` guesses for `data`, where the
/// whole input is `data`, no top-level domain is given and UTF-8 is not
/// among the guesses allowed.
pub uninterp spec fn guessed_charset(data: Seq<u8>) -> Seq<char>;

/// The text that the `encoding_rs` decoder of the charset named `charset`
/// makes of `data`, without byte-order-mark handling and without replacement
/// characters; `None` where `data` holds a malformed sequence.
pub uninterp spec fn decoded_as(charset: Seq<char>, data: Seq<u8>) -> Option<Seq<char>>;

/// What `text` holds, if anything.
pub open spec fn text_view(text: Option<String>) -> Option<Seq<char>> {
    match text {
        Some(s) => Some(s@),
        None => None,
    }
}

/// The longest payload that is handed to a decoder: a decoder sets aside up
/// to three bytes for every byte of input and a few more, and that size has
/// to fit a `usize`.
pub open spec fn max_decoded_len() -> int {
    (usize::MAX / 4) as int
}

/// `chardetng::EncodingDetector::guess`, on a detector that was fed `data` as
/// its whole input, followed by
/// `encoding_rs::Encoding::decode_without_bom_handling_and_without_replacement`
/// of `data` with the guessed encoding. The first result is the guessed
/// encoding's name, the second the decoded text. The contract only names the
/// two results. The decoder panics where the size of its buffer does not fit
/// a `usize`; the bound on the length of `data` keeps clear of that.
#[verifier::external_body]
pub(crate) fn detect_and_decode(data: &[u8]) -> (result: (String, Option<String>))
    requires
        data@.len() <= max_decoded_len(),
    ensures
        result.0@ == guessed_charset(data@),
        text_view(result.1) == decoded_as(result.0@, data@),
{
    let mut detector = EncodingDetector::new();
    detector.feed(data, true);
    let encoding = detector.guess(None, false);
    let text = encoding.decode_without_bom_handling_and_without_replacement(data);
    (encoding.name().to_string(), text.map(|t| t.into_owned()))
}

/// The name of the charset that `data` is detected as; empty for a payload
/// too long for a decoder.
pub open spec fn detected_charset(data: Seq<u8>) -> Seq<char> {
    if data.len() <= max_decoded_len() {
        guessed_charset(data)
    } else {
        Seq::empty()
    }
}

/// The text of `data` in the charset it is detected as; `None` where the
/// bytes are malformed in that charset or too many for a decoder.
pub open spec fn detected_text(data: Seq<u8>) -> Option<Seq<char>> {
    if data.len() <= max_decoded_len() {
        decoded_as(guessed_charset(data), data)
    } else {
        None
    }
}

/// Detects the charset of `data` and decodes it. Gives the charset's name
/// and the text; the name is empty and the text `None` where `data` is too
/// long for a decoder.
pub fn detect(data: &[u8]) -> (result: (String, Option<String>))
    ensures
        result.0@ == detected_charset(data@),
        text_view(result.1) == detected_text(data@),
{
    if data.len() <= usize::MAX / 4 {
        detect_and_decode(data)
    } else {
        (String::new(), None)
    }
}

} // verus!
