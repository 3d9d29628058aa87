//! Binary blob codec: every opaque byte-sequence field (challenges,
//! signatures, keys, handles) travels inside the envelope as standard base64
//! text with padding and no line breaks.

use vstd::prelude::*;

use crate::error::Error;

verus! {

/// The 64 characters of the standard base64 alphabet, in value order.
pub open spec fn b64_alphabet() -> Seq<char> {
    "ABCDEFGHIJKLMNOPQRSTUVWXYZabcdefghijklmnopqrstuvwxyz0123456789+/"@
}

/// Standard padded base64 text of a byte sequence: groups of three bytes
/// become four alphabet characters; a trailing group of one or two bytes is
/// zero-padded into two or three characters followed by `=` padding.
pub open spec fn b64_chars(s: Seq<u8>) -> Seq<char>
    decreases s.len(),
{
    if s.len() == 0 {
        Seq::<char>::empty()
    } else if s.len() == 1 {
        let b0 = s[0] as int;
        seq![b64_alphabet()[b0 / 4], b64_alphabet()[(b0 % 4) * 16], '=', '=']
    } else if s.len() == 2 {
        let b0 = s[0] as int;
        let b1 = s[1] as int;
        seq![
            b64_alphabet()[b0 / 4],
            b64_alphabet()[(b0 % 4) * 16 + b1 / 16],
            b64_alphabet()[(b1 % 16) * 4],
            '=',
        ]
    } else {
        let b0 = s[0] as int;
        let b1 = s[1] as int;
        let b2 = s[2] as int;
        seq![
            b64_alphabet()[b0 / 4],
            b64_alphabet()[(b0 % 4) * 16 + b1 / 16],
            b64_alphabet()[(b1 % 16) * 4 + b2 / 64],
            b64_alphabet()[b2 % 64],
        ] + b64_chars(s.skip(3))
    }
}

/// Relies on base64::encode: standard alphabet, padded, no line breaks.
#[verifier::external_body]
fn b64_encode_raw(b: &[u8]) -> (r: String)
    ensures
        r@ == b64_chars(b@),
{
    base64::encode(b)
}

/// Holds when `r` is the outcome of decoding the base64 text `s`: if `s` is
/// the canonical encoding of some byte sequence, decoding recovered exactly
/// that sequence.
pub open spec fn b64_decoded(s: Seq<char>, r: Result<Vec<u8>, Error>) -> bool {
    forall|b: Seq<u8>| s == b64_chars(b) ==> (r matches Ok(d) && d@ == b)
}

/// Relies on base64::decode with the standard padded alphabet: text that is
/// the canonical encoding of some byte sequence decodes to exactly that
/// sequence; any rejection is reported as a decode error.
#[verifier::external_body]
fn b64_decode_raw(s: &str) -> (r: Result<Vec<u8>, Error>)
    ensures
        b64_decoded(s@, r),
        r is Err ==> (r matches Err(e) && e is FormatError),
{
    match base64::decode(s) {
        Ok(d) => Ok(d),
        Err(_) => Err(Error::FormatError),
    }
}

/// A raw byte sequence that is carried inside the envelope as base64 text.
#[derive(Debug, Clone, PartialEq, Eq)]
pub struct Base64Buffer(pub Vec<u8>);

impl From<Vec<u8>> for Base64Buffer {
    fn from(d: Vec<u8>) -> (r: Self) {
        Base64Buffer(d)
    }
}

impl vstd::std_specs::convert::FromSpecImpl<Vec<u8>> for Base64Buffer {
    open spec fn obeys_from_spec() -> bool {
        true
    }

    open spec fn from_spec(d: Vec<u8>) -> Self {
        Base64Buffer(d)
    }
}

impl Base64Buffer {
    /// The transport text of this blob: its standard padded base64 encoding.
    pub fn to_string(&self) -> (r: String)
        ensures
            r@ == b64_chars(self.0@),
    {
        b64_encode_raw(self.0.as_slice())
    }

    /// Decodes base64 transport text back into the raw bytes. Together with
    /// `to_string` this gives the blob round trip: for every byte sequence
    /// `b`, decoding the encoding of `b` returns `b`.
    pub fn from_b64(s: &str) -> (r: Result<Self, Error>)
        ensures
            forall|b: Seq<u8>| s@ == b64_chars(b) ==> (r matches Ok(d) && d.0@ == b),
            r is Err ==> (r matches Err(e) && e is FormatError),
    {
        match b64_decode_raw(s) {
            Ok(d) => Ok(Base64Buffer(d)),
            Err(e) => Err(e),
        }
    }
}

} // verus!
