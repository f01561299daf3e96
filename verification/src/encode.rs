//! Bytes to text: what a command printed, in Shift_JIS or in UTF-8.
use vstd::prelude::*;
use vstd::string::StringSliceAdditionalSpecFns;
use vstd::utf8::{decode_utf8, encode_utf8_decode_utf8, valid_utf8};

verus! {

/// What `encoding_rs::SHIFT_JIS.decode` makes of `bytes`: the text, in which
/// each malformed sequence is replaced, and whether any sequence was
/// malformed. A byte order mark of UTF-8 or UTF-16 at the start selects that
/// encoding instead.
pub uninterp spec fn shift_jis_decoded(bytes: Seq<u8>) -> (Seq<char>, bool);

/// The longest input that is handed to the decoder: its buffer takes up to
/// three bytes for each byte read.
pub open spec fn decodable_len() -> int {
    usize::MAX as int / 4
}

/// `encoding_rs::Encoding::decode` on `SHIFT_JIS`. The text and the flag that
/// come back are a function of the bytes alone; the encoding that was used is
/// dropped. Longer inputs are left out, for which the size of the buffer
/// could overflow.
#[verifier::external_body]
fn decode_shift_jis(bytes: &[u8]) -> (r: (String, bool))
    requires
        bytes@.len() <= decodable_len(),
    ensures
        (r.0@, r.1) == shift_jis_decoded(bytes@),
{
    let (text, _, malformed) = encoding_rs::SHIFT_JIS.decode(bytes);
    (text.into_owned(), malformed)
}

/// `core::str::from_utf8`: the bytes as a string slice where they are valid
/// UTF-8, nothing otherwise.
#[verifier::external_body]
fn utf8_str(bytes: &[u8]) -> (r: Option<&str>)
    ensures
        match r {
            Some(s) => valid_utf8(bytes@) && s.spec_bytes() == bytes@,
            None => !valid_utf8(bytes@),
        },
{
    match core::str::from_utf8(bytes) {
        Ok(s) => Some(s),
        Err(_) => None,
    }
}

/// The text to take for `bytes`, given what the Shift_JIS decoder made of
/// them: its text where nothing was malformed; else the bytes read as UTF-8;
/// else nothing.
pub open spec fn preferred(text: Seq<char>, malformed: bool, bytes: Seq<u8>) -> Option<Seq<char>> {
    if !malformed {
        Some(text)
    } else if valid_utf8(bytes) {
        Some(decode_utf8(bytes))
    } else {
        None
    }
}

/// The text that `bytes` stand for.
pub open spec fn decoded(bytes: Seq<u8>) -> Option<Seq<char>> {
    if bytes.len() > decodable_len() {
        None
    } else {
        preferred(shift_jis_decoded(bytes).0, shift_jis_decoded(bytes).1, bytes)
    }
}

/// Chooses between what the Shift_JIS decoder made of `bytes` and the bytes
/// read as UTF-8.
pub fn prefer_decoded(text: String, malformed: bool, bytes: &[u8]) -> (r: Option<String>)
    ensures
        match r {
            Some(s) => preferred(text@, malformed, bytes@) == Some(s@),
            None => preferred(text@, malformed, bytes@) is None,
        },
{
    if !malformed {
        return Some(text);
    }
    match utf8_str(bytes) {
        Some(s) => {
            proof {
                encode_utf8_decode_utf8(s@);
            }
            Some(s.to_owned())
        },
        None => None,
    }
}

/// The text that `bytes` stand for: read as Shift_JIS where that is well
/// formed, as UTF-8 otherwise; `None` where they are neither.
pub fn to_utf8_string(bytes: &[u8]) -> (r: Option<String>)
    ensures
        match r {
            Some(s) => decoded(bytes@) == Some(s@),
            None => decoded(bytes@) is None,
        },
{
    if bytes.len() > usize::MAX / 4 {
        return None;
    }
    let (text, malformed) = decode_shift_jis(bytes);
    prefer_decoded(text, malformed, bytes)
}

} // verus!
