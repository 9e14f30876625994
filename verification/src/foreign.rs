//! Calls into the `regex` and `percent-encoding` crates and into std's
//! lossy UTF-8 decoding. Each function here is trusted: Verus believes its
//! contract, which restates what the called function's documentation and
//! source say.

use vstd::prelude::*;
use vstd::utf8::{valid_utf8, decode_utf8};
use vstd::string::*;

verus! {

/// Whether `pattern` is accepted by `regex::Regex::new`.
pub uninterp spec fn regex_compiles(pattern: Seq<char>) -> bool;

/// The leftmost-first match of `pattern` in `haystack` as `regex::Regex::find`
/// reports it: the text before the match and the matched text.
pub uninterp spec fn regex_first_match(pattern: Seq<char>, haystack: Seq<char>) -> Option<(Seq<char>, Seq<char>)>;

/// Compiles `pattern` with `regex::Regex::new` and, when that succeeds,
/// searches `haystack` with `regex::Regex::find`.
///
/// Claimed: `Err` exactly when `regex::Regex::new` rejects the pattern;
/// otherwise the result of `find`, as the text before the match and the
/// matched text, and (as the documentation of `Match` says) the two together
/// are a prefix of the haystack. Which match the engine picks is left to the
/// names `regex_compiles` and `regex_first_match`.
#[verifier::external_body]
pub fn regex_search(pattern: &str, haystack: &str) -> (r: Result<Option<(String, String)>, ()>)
    ensures
        r is Err <==> !regex_compiles(pattern@),
        r matches Ok(found) ==> match found {
            Some((pre, m)) => regex_first_match(pattern@, haystack@) == Some((pre@, m@))
                && haystack@.take((pre@.len() + m@.len()) as int) == pre@ + m@
                && pre@.len() + m@.len() <= haystack@.len(),
            None => regex_first_match(pattern@, haystack@) is None,
        },
{
    match regex::Regex::new(pattern) {
        Ok(re) => Ok(re.find(haystack).map(|m| (haystack[..m.start()].to_string(), m.as_str().to_string()))),
        Err(_) => Err(()),
    }
}

/// Whether `b` is an ASCII hexadecimal digit.
pub open spec fn is_hex_digit(b: u8) -> bool {
    (0x30 <= b <= 0x39) || (0x41 <= b <= 0x46) || (0x61 <= b <= 0x66)
}

/// The value of an ASCII hexadecimal digit.
pub open spec fn hex_value(b: u8) -> int {
    if 0x30 <= b <= 0x39 {
        b - 0x30
    } else if 0x41 <= b <= 0x46 {
        b - 0x41 + 10
    } else {
        b - 0x61 + 10
    }
}

/// Percent-decoding of bytes: each `%` followed by two hexadecimal digits
/// becomes the byte they spell; every other byte stays as it is.
pub open spec fn percent_decoded(b: Seq<u8>) -> Seq<u8>
    decreases b.len(),
{
    if b.len() == 0 {
        Seq::empty()
    } else if b.len() >= 3 && b[0] == 0x25 && is_hex_digit(b[1]) && is_hex_digit(b[2]) {
        seq![(hex_value(b[1]) * 16 + hex_value(b[2])) as u8] + percent_decoded(b.skip(3))
    } else {
        seq![b[0]] + percent_decoded(b.skip(1))
    }
}

/// `percent_encoding::percent_decode_str`, collected into bytes.
///
/// Claimed: the bytes are the percent-decoding of the UTF-8 encoding of `s`,
/// as the crate's iterator (`PercentDecode::next` with `after_percent_sign`)
/// produces them.
#[verifier::external_body]
pub fn percent_decode(s: &str) -> (r: Vec<u8>)
    ensures
        r@ == percent_decoded(s.spec_bytes()),
{
    percent_encoding::percent_decode_str(s).collect()
}

/// What `String::from_utf8_lossy` makes of some bytes.
pub uninterp spec fn utf8_lossy(bytes: Seq<u8>) -> Seq<char>;

/// `String::from_utf8_lossy`, as an owned string.
///
/// Claimed: the result is a function of the bytes, and for well-formed
/// UTF-8 it is the decoded text. What replaces ill-formed sequences is left
/// to the name `utf8_lossy`.
#[verifier::external_body]
pub fn decode_utf8_lossy(bytes: &[u8]) -> (r: String)
    ensures
        r@ == utf8_lossy(bytes@),
        valid_utf8(bytes@) ==> r@ == decode_utf8(bytes@),
{
    String::from_utf8_lossy(bytes).into_owned()
}

} // verus!
