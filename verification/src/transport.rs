//! The textual form in which the fields of a record travel: base64 text,
//! possibly with stray whitespace around it.
//!
//! Base64 is the work of the `base64` crate, and trimming that of the
//! standard library. Nothing here is proved of them: each result is given a
//! name, and the contracts of this library speak of those names.

use crate::record::{Revocation, RevocationKind, RevocationView};
use vstd::prelude::*;

verus! {

/// The error of the `base64` crate's decoder.
#[verifier::external_type_specification]
#[verifier::external_body]
pub struct ExDecodeError(base64::DecodeError);

/// What `str::trim` makes of a text: the text without the whitespace at its
/// two ends.
pub uninterp spec fn trimmed(text: Seq<char>) -> Seq<char>;

/// What `base64::decode` makes of a text: the bytes it stands for in the
/// standard alphabet with padding, or `None` where it is not such a text.
pub uninterp spec fn base64_decoding(text: Seq<char>) -> Option<Seq<u8>>;

/// What `base64::encode` makes of bytes: their text in the standard alphabet
/// with padding.
pub uninterp spec fn base64_encoding(bytes: Seq<u8>) -> Seq<char>;

/// Whether `base64::encode` can hold the text of `len` bytes: four
/// characters for every three bytes, rounded up, in a buffer of at most
/// `isize::MAX` bytes.
pub open spec fn encodable_len(len: nat) -> bool {
    len / 3 * 4 + 4 <= isize::MAX
}

/// `str::trim` returns a slice of its argument. The contract names that
/// slice; it claims nothing about which characters count as whitespace.
pub assume_specification[ str::trim ](text: &str) -> (r: &str)
    ensures
        r@ == trimmed(text@),
;

/// Calls `base64::decode`. The contract claims that the outcome depends on
/// the text alone: success gives the bytes named by [`base64_decoding`], and
/// an error comes exactly where that name is `None`. The decoder does not
/// panic on any text.
#[verifier::external_body]
pub(crate) fn base64_decode(text: &str) -> (r: Result<Vec<u8>, base64::DecodeError>)
    ensures
        match r {
            Ok(bytes) => base64_decoding(text@) == Some(bytes@),
            Err(_) => base64_decoding(text@) is None,
        },
{
    base64::decode(text)
}

/// Calls `base64::encode`. The contract claims that the text depends on the
/// bytes alone and names it. The encoder panics where the length of the text
/// overflows, which `requires` leaves out.
#[verifier::external_body]
pub(crate) fn base64_encode(bytes: &[u8]) -> (text: String)
    requires
        encodable_len(bytes@.len()),
    ensures
        text@ == base64_encoding(bytes@),
{
    base64::encode(bytes)
}

/// A record in the form in which it travels and is shown: the kind, and the
/// two fields as base64 text.
#[derive(Clone, Debug, PartialEq, Eq, PartialOrd, Ord)]
pub struct RevocationText {
    pub kind: RevocationKind,
    pub field1: String,
    pub field2: String,
}

/// Whether both fields of a record are short enough to be encoded.
pub open spec fn has_text(r: RevocationView) -> bool {
    encodable_len(r.field1.len()) && encodable_len(r.field2.len())
}

/// Whether a buffer of this length is short enough to be encoded.
fn fits_encoder(len: usize) -> (fits: bool)
    ensures
        fits == encodable_len(len as nat),
{
    len / 3 <= (isize::MAX as usize - 4) / 4
}

impl Revocation {
    /// The record as text, or `None` where a field is too long for this
    /// machine to encode.
    pub fn to_text(&self) -> (text: Option<RevocationText>)
        ensures
            text is Some <==> has_text(self@),
            text matches Some(t) ==> t.kind == self@.kind && t.field1@ == base64_encoding(
                self@.field1,
            ) && t.field2@ == base64_encoding(self@.field2),
    {
        let field1 = self.field1();
        let field2 = self.field2();
        if fits_encoder(field1.len()) && fits_encoder(field2.len()) {
            Some(
                RevocationText {
                    kind: self.kind(),
                    field1: base64_encode(field1),
                    field2: base64_encode(field2),
                },
            )
        } else {
            None
        }
    }
}

} // verus!
