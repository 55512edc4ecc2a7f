//! Encoding detection and text decoding: a tiered detection policy
//! (empty, ASCII, UTF-8 validation, statistical detector) and an
//! always-succeeding decode with deterministic fallbacks.

use vstd::prelude::*;

verus! {

use vstd::string::StringExecFns;
use vstd::utf8::decode_utf8;
use vstd::utf8::valid_utf8;

/// Every byte is below 0x80.
pub open spec fn all_ascii(bs: Seq<u8>) -> bool {
    forall|i: int| 0 <= i < bs.len() ==> bs[i] < 0x80
}

/// What the statistical detector names for a byte buffer. The guess is a pure
/// function of the bytes: the whole buffer is fed as one final chunk.
pub uninterp spec fn chardet_guess_of(bytes: Seq<u8>) -> Seq<char>;

/// What a lossy UTF-8 decode yields: invalid sequences become replacement
/// characters.
pub uninterp spec fn utf8_lossy_of(bytes: Seq<u8>) -> Seq<char>;

/// What a windows-1252 decode (with BOM sniffing) yields, or nothing when the
/// decode reported replacements.
pub uninterp spec fn win1252_strict_of(bytes: Seq<u8>) -> Option<Seq<char>>;

/// What decoding under an encoding label yields: the decoded text and whether
/// replacements occurred. An unrecognized label resolves to UTF-8.
pub uninterp spec fn label_decode_of(label: Seq<char>, bytes: Seq<u8>) -> (Seq<char>, bool);

/// Relies on `chardetng::EncodingDetector` (`new`, one `feed` of the whole
/// buffer with `last` set, `guess(None, true)`, and the guessed encoding's
/// `name`): the guess is a deterministic function of the bytes fed.
#[verifier::external_body]
fn chardet_guess(data: &[u8]) -> (r: String)
    ensures
        r@ == chardet_guess_of(data@),
{
    let mut detector = chardetng::EncodingDetector::new();
    detector.feed(data, true);
    detector.guess(None, true).name().to_string()
}

/// Relies on `core::str::from_utf8`: it succeeds exactly on valid UTF-8 and
/// yields the characters that the bytes encode.
#[verifier::external_body]
fn utf8_strict(data: &[u8]) -> (r: Option<String>)
    ensures
        r is Some <==> valid_utf8(data@),
        r matches Some(s) ==> s@ == decode_utf8(data@),
{
    match core::str::from_utf8(data) {
        Ok(s) => Some(s.to_string()),
        Err(_) => None,
    }
}

/// Relies on `String::from_utf8_lossy`: the result is a function of the bytes
/// alone.
#[verifier::external_body]
fn utf8_lossy(data: &[u8]) -> (r: String)
    ensures
        r@ == utf8_lossy_of(data@),
{
    String::from_utf8_lossy(data).into_owned()
}

/// Relies on `encoding_rs::WINDOWS_1252.decode` (a BOM-sniffing decode): the
/// text is handed back exactly when no replacement was reported.
#[verifier::external_body]
fn decode_win1252_strict(data: &[u8]) -> (r: Option<String>)
    ensures
        r is Some <==> win1252_strict_of(data@) is Some,
        r matches Some(s) ==> Some(s@) == win1252_strict_of(data@),
{
    let (text, _, had_errors) = encoding_rs::WINDOWS_1252.decode(data);
    if had_errors {
        None
    } else {
        Some(text.into_owned())
    }
}

/// Relies on `encoding_rs::Encoding::for_label` (an unknown label resolves to
/// UTF-8) and `Encoding::decode` (a BOM-sniffing decode with replacement,
/// reporting whether replacements occurred): the outcome is a function of the
/// label and the bytes alone.
#[verifier::external_body]
fn decode_with_label(label: &str, data: &[u8]) -> (r: (String, bool))
    ensures
        (r.0@, r.1) == label_decode_of(label@, data@),
{
    let enc = encoding_rs::Encoding::for_label(label.as_bytes()).unwrap_or(encoding_rs::UTF_8);
    let (text, _, had_errors) = enc.decode(data);
    (text.into_owned(), had_errors)
}

/// The canonical name of the buffer's character encoding. The tiers apply in
/// order, first match wins: an empty buffer is `UTF-8`; a buffer of bytes
/// below 0x80 is `ASCII`; valid UTF-8 is `UTF-8`; anything else gets the
/// statistical detector's best guess. This never fails.
pub fn detect_encoding(data: &[u8]) -> (r: String)
    ensures
        data@.len() == 0 ==> r@ == "UTF-8"@,
        data@.len() > 0 && all_ascii(data@) ==> r@ == "ASCII"@,
        data@.len() > 0 && !all_ascii(data@) && valid_utf8(data@) ==> r@ == "UTF-8"@,
        data@.len() > 0 && !all_ascii(data@) && !valid_utf8(data@) ==> r@ == chardet_guess_of(
            data@,
        ),
{
    if data.len() == 0 {
        return String::from_str("UTF-8");
    }
    let mut i: usize = 0;
    while i < data.len() && data[i] < 0x80
        invariant
            i <= data@.len(),
            forall|k: int| 0 <= k < i ==> data@[k] < 0x80,
        decreases data@.len() - i,
    {
        i = i + 1;
    }
    if i == data.len() {
        return String::from_str("ASCII");
    }
    assert(!all_ascii(data@));
    match utf8_strict(data) {
        Some(_) => String::from_str("UTF-8"),
        None => chardet_guess(data),
    }
}

/// The buffer decoded to text; this never fails. An empty buffer is the empty
/// string. With a hint, the labelled encoding decodes the bytes, and a decode
/// that reported replacements falls back to a lossy UTF-8 decode of the
/// original bytes. Without a hint, strict UTF-8 is tried first, then strict
/// windows-1252, then the lossy UTF-8 decode.
pub fn decode_text(data: &[u8], hint: Option<&str>) -> (r: String)
    ensures
        data@.len() == 0 ==> r@ == Seq::<char>::empty(),
        data@.len() > 0 ==> match hint {
            Some(h) => r@ == (if label_decode_of(h@, data@).1 {
                utf8_lossy_of(data@)
            } else {
                label_decode_of(h@, data@).0
            }),
            None => r@ == (if valid_utf8(data@) {
                decode_utf8(data@)
            } else if win1252_strict_of(data@) is Some {
                win1252_strict_of(data@)->0
            } else {
                utf8_lossy_of(data@)
            }),
        },
{
    if data.len() == 0 {
        return String::new();
    }
    match hint {
        Some(h) => {
            let decoded = decode_with_label(h, data);
            if decoded.1 {
                utf8_lossy(data)
            } else {
                decoded.0
            }
        },
        None => {
            match utf8_strict(data) {
                Some(s) => s,
                None => {
                    match decode_win1252_strict(data) {
                        Some(s) => s,
                        None => utf8_lossy(data),
                    }
                },
            }
        },
    }
}

} // verus!
