//! The binary key layout of `cert_storage` revocation entries.
//!
//! A key is a short ASCII tag followed by two byte strings. The first one
//! starts with a DER header (a type byte and a length encoding) that tells
//! where it ends; the second one takes the rest of the key.

use crate::record::{Revocation, RevocationKind, RevocationView};
use vstd::prelude::*;
use vstd::slice::slice_to_vec;

verus! {

/// Why a key, or a record on its way to becoming a key, was refused.
#[derive(Clone, Copy, Debug, PartialEq, Eq, Structural)]
pub enum CodecError {
    /// The buffer ends before the header or before the declared content does.
    TruncatedInput,
    /// The length byte is `0x80`, the indeterminate form.
    UnsupportedEncoding,
    /// An extended length that the shorter form should have carried.
    MalformedLength,
    /// A length byte above `0x82`.
    LengthTooLarge,
    /// One of the two fields of a record is empty.
    EmptyField,
    /// The first field goes on after the end that its own header declares.
    TrailingData,
}

/// The offset at which the header of `key` says that the first field ends:
/// the header's own size plus the content length it declares.
///
/// The byte at offset 0 is a type byte and is not looked at. The byte at
/// offset 1 is the content length if it is below `0x80`. `0x81` announces one
/// more length byte, which must be at least `0x80`; `0x82` announces two, in
/// big-endian order, which must give at least 256.
pub open spec fn declared_end(key: Seq<u8>) -> Result<int, CodecError> {
    if key.len() < 2 {
        Err(CodecError::TruncatedInput)
    } else if key[1] < 0x80 {
        Ok(key[1] + 2)
    } else if key[1] == 0x80 {
        Err(CodecError::UnsupportedEncoding)
    } else if key[1] == 0x81 {
        if key.len() < 3 {
            Err(CodecError::TruncatedInput)
        } else if key[2] < 0x80 {
            Err(CodecError::MalformedLength)
        } else {
            Ok(key[2] + 3)
        }
    } else if key[1] == 0x82 {
        if key.len() < 4 {
            Err(CodecError::TruncatedInput)
        } else if key[2] * 256 + key[3] < 256 {
            Err(CodecError::MalformedLength)
        } else {
            Ok(key[2] * 256 + key[3] + 4)
        }
    } else {
        Err(CodecError::LengthTooLarge)
    }
}

/// The offset at which the first field of `key` ends, where the header is
/// sound and the buffer holds all that it declares.
pub open spec fn boundary(key: Seq<u8>) -> Result<int, CodecError> {
    match declared_end(key) {
        Ok(end) => if key.len() < end {
            Err(CodecError::TruncatedInput)
        } else {
            Ok(end)
        },
        Err(e) => Err(e),
    }
}

/// Splits a key, already stripped of its tag, into its two fields.
pub fn split_der_key(key: &[u8]) -> (r: Result<(&[u8], &[u8]), CodecError>)
    ensures
        match boundary(key@) {
            Ok(end) => r matches Ok((first, rest)) && first@ == key@.take(end) && rest@
                == key@.skip(end),
            Err(e) => r == Err::<(&[u8], &[u8]), CodecError>(e),
        },
{
    if key.len() < 2 {
        return Err(CodecError::TruncatedInput);
    }
    let first_len_byte: usize = key[1] as usize;
    if first_len_byte < 0x80 {
        if key.len() < first_len_byte + 2 {
            return Err(CodecError::TruncatedInput);
        }
        return Ok(key.split_at(first_len_byte + 2));
    }
    if first_len_byte == 0x80 {
        return Err(CodecError::UnsupportedEncoding);
    }
    if first_len_byte == 0x81 {
        if key.len() < 3 {
            return Err(CodecError::TruncatedInput);
        }
        let len: usize = key[2] as usize;
        if len < 0x80 {
            return Err(CodecError::MalformedLength);
        }
        if key.len() < len + 3 {
            return Err(CodecError::TruncatedInput);
        }
        return Ok(key.split_at(len + 3));
    }
    if first_len_byte == 0x82 {
        if key.len() < 4 {
            return Err(CodecError::TruncatedInput);
        }
        let len: usize = (key[2] as usize) * 256 + key[3] as usize;
        if len < 256 {
            return Err(CodecError::MalformedLength);
        }
        if key.len() < len + 4 {
            return Err(CodecError::TruncatedInput);
        }
        return Ok(key.split_at(len + 4));
    }
    Err(CodecError::LengthTooLarge)
}

/// The tag of issuer-and-serial entries, `"is"`.
pub const PREFIX_REV_IS: [u8; 2] = [0x69, 0x73];

/// The tag of subject-and-key-hash entries, `"spk"`.
pub const PREFIX_REV_SPK: [u8; 3] = [0x73, 0x70, 0x6b];

/// The tag that starts the key of a record of the given kind.
pub open spec fn tag(kind: RevocationKind) -> Seq<u8> {
    match kind {
        RevocationKind::IssuerSerial => PREFIX_REV_IS@,
        RevocationKind::SubjectKeyHash => PREFIX_REV_SPK@,
    }
}

/// Whether `data` starts with `prefix`.
pub fn has_prefix(data: &[u8], prefix: &[u8]) -> (b: bool)
    ensures
        b == prefix@.is_prefix_of(data@),
{
    if data.len() < prefix.len() {
        return false;
    }
    let mut i: usize = 0;
    while i < prefix.len()
        invariant
            i <= prefix.len() <= data.len(),
            forall|j: int| 0 <= j < i ==> data@[j] == prefix@[j],
        decreases prefix.len() - i,
    {
        if data[i] != prefix[i] {
            assert(data@.subrange(0, prefix@.len() as int)[i as int] != prefix@[i as int]);
            return false;
        }
        i += 1;
    }
    assert(data@.subrange(0, prefix@.len() as int) == prefix@);
    true
}

/// The kind that the tag of a raw key selects, and the key without its tag.
/// A key with neither tag belongs to something else in the store.
pub open spec fn dispatch(raw_key: Seq<u8>) -> Option<(RevocationKind, Seq<u8>)> {
    if tag(RevocationKind::IssuerSerial).is_prefix_of(raw_key) {
        Some((RevocationKind::IssuerSerial, raw_key.skip(2)))
    } else if tag(RevocationKind::SubjectKeyHash).is_prefix_of(raw_key) {
        Some((RevocationKind::SubjectKeyHash, raw_key.skip(3)))
    } else {
        None
    }
}

/// The record that a key without its tag stands for.
pub open spec fn decoded(kind: RevocationKind, key: Seq<u8>) -> Result<RevocationView, CodecError> {
    match boundary(key) {
        Ok(end) => if end == key.len() {
            Err(CodecError::EmptyField)
        } else {
            Ok(RevocationView { kind, field1: key.take(end), field2: key.skip(end) })
        },
        Err(e) => Err(e),
    }
}

/// Whether `field` is one DER blob and nothing more: its header is sound and
/// declares exactly the bytes that are there.
pub open spec fn is_der_blob(field: Seq<u8>) -> bool {
    boundary(field) == Ok::<int, CodecError>(field.len() as int)
}

/// The key of a record: its tag, then the two fields as they are. There is a
/// key only where the first field is one DER blob, since nothing else in the
/// key tells where that field ends.
pub open spec fn encoded(r: RevocationView) -> Result<Seq<u8>, CodecError> {
    match boundary(r.field1) {
        Ok(end) => if end < r.field1.len() {
            Err(CodecError::TrailingData)
        } else {
            Ok(tag(r.kind) + r.field1 + r.field2)
        },
        Err(e) => Err(e),
    }
}

/// Reads the tag of a raw key. Gives the kind and the rest of the key, or
/// `None` for a key that carries neither tag.
pub fn tag_dispatch(raw_key: &[u8]) -> (r: Option<(RevocationKind, &[u8])>)
    ensures
        match dispatch(raw_key@) {
            Some((kind, rest)) => r matches Some((k, s)) && k == kind && s@ == rest,
            None => r is None,
        },
{
    if has_prefix(raw_key, PREFIX_REV_IS.as_slice()) {
        let (_, rest) = raw_key.split_at(2);
        Some((RevocationKind::IssuerSerial, rest))
    } else if has_prefix(raw_key, PREFIX_REV_SPK.as_slice()) {
        let (_, rest) = raw_key.split_at(3);
        Some((RevocationKind::SubjectKeyHash, rest))
    } else {
        None
    }
}

/// Decodes a key, already stripped of its tag, into a record of the kind
/// that the tag selected.
pub fn decode(kind: RevocationKind, key: &[u8]) -> (r: Result<Revocation, CodecError>)
    ensures
        match decoded(kind, key@) {
            Ok(v) => r matches Ok(rec) && rec@ == v,
            Err(e) => r matches Err(x) && x == e,
        },
{
    match split_der_key(key) {
        Ok((first, rest)) => {
            match Revocation::new(kind, slice_to_vec(first), slice_to_vec(rest)) {
                Some(rec) => Ok(rec),
                None => Err(CodecError::EmptyField),
            }
        },
        Err(e) => Err(e),
    }
}

/// Encodes a record into its key, or says why the record has none.
pub fn encode(r: &Revocation) -> (key: Result<Vec<u8>, CodecError>)
    ensures
        match encoded(r@) {
            Ok(bytes) => key matches Ok(k) && k@ == bytes,
            Err(e) => key matches Err(x) && x == e,
        },
{
    let field1 = r.field1();
    match split_der_key(field1) {
        Ok((_, rest)) => {
            if rest.len() > 0 {
                return Err(CodecError::TrailingData);
            }
            let mut key: Vec<u8> = Vec::new();
            match r.kind() {
                RevocationKind::IssuerSerial => key.extend_from_slice(PREFIX_REV_IS.as_slice()),
                RevocationKind::SubjectKeyHash => key.extend_from_slice(PREFIX_REV_SPK.as_slice()),
            }
            assert(key@ == tag(r@.kind));
            key.extend_from_slice(field1);
            key.extend_from_slice(r.field2());
            assert(key@ == tag(r@.kind) + r@.field1 + r@.field2);
            Ok(key)
        },
        Err(e) => Err(e),
    }
}

/// A buffer whose length byte is `0x80` is refused as an unsupported
/// encoding, whatever follows.
pub proof fn lemma_indeterminate_length_unsupported(key: Seq<u8>)
    requires
        key.len() >= 2,
        key[1] == 0x80,
    ensures
        boundary(key) == Err::<int, CodecError>(CodecError::UnsupportedEncoding),
{
}

/// After the length byte `0x81`, a length below `0x80` is refused as
/// malformed: the short form should have carried it.
pub proof fn lemma_short_extended_length_malformed(key: Seq<u8>)
    requires
        key.len() >= 3,
        key[1] == 0x81,
        key[2] < 0x80,
    ensures
        boundary(key) == Err::<int, CodecError>(CodecError::MalformedLength),
{
}

/// A buffer that ends before its header does, or whose sound header declares
/// more bytes than the buffer holds, is refused as truncated, in each of the
/// three length forms.
pub proof fn lemma_short_buffer_truncated(key: Seq<u8>)
    ensures
        key.len() < 2 ==> boundary(key) == Err::<int, CodecError>(CodecError::TruncatedInput),
        key.len() == 2 && (key[1] == 0x81 || key[1] == 0x82) ==> boundary(key) == Err::<
            int,
            CodecError,
        >(CodecError::TruncatedInput),
        key.len() == 3 && key[1] == 0x82 ==> boundary(key) == Err::<int, CodecError>(
            CodecError::TruncatedInput,
        ),
        declared_end(key) matches Ok(end) && key.len() < end ==> boundary(key) == Err::<
            int,
            CodecError,
        >(CodecError::TruncatedInput),
{
}

/// Where the boundary scan succeeds, the first field is one DER blob of at
/// least two bytes and the split loses nothing.
pub proof fn lemma_boundary_splits(key: Seq<u8>)
    requires
        boundary(key) is Ok,
    ensures
        boundary(key) matches Ok(end) && 2 <= end <= key.len() && is_der_blob(key.take(end))
            && key.take(end) + key.skip(end) == key,
{
    let end = boundary(key)->Ok_0;
    let first = key.take(end);
    assert(first[1] == key[1]);
    if end > 2 {
        assert(first[2] == key[2]);
    }
    if end > 3 {
        assert(first[3] == key[3]);
    }
}

/// The boundary of a DER blob stays where it is when bytes follow the blob.
pub proof fn lemma_boundary_of_blob(first: Seq<u8>, rest: Seq<u8>)
    requires
        is_der_blob(first),
    ensures
        boundary(first + rest) == Ok::<int, CodecError>(first.len() as int),
        (first + rest).take(first.len() as int) == first,
        (first + rest).skip(first.len() as int) == rest,
{
    let key = first + rest;
    assert(key[1] == first[1]);
    if first.len() > 2 {
        assert(key[2] == first[2]);
    }
    if first.len() > 3 {
        assert(key[3] == first[3]);
    }
}

/// The tag of a key selects the kind it was written for: `"is"` gives
/// issuer-and-serial, `"spk"` gives subject-and-key-hash, and what follows
/// the tag is handed on unchanged.
pub proof fn lemma_dispatch_of_tagged(kind: RevocationKind, rest: Seq<u8>)
    ensures
        dispatch(tag(kind) + rest) == Some((kind, rest)),
{
    let key = tag(kind) + rest;
    assert(key.subrange(0, tag(kind).len() as int) == tag(kind));
    assert(key.skip(tag(kind).len() as int) == rest);
    if kind == RevocationKind::SubjectKeyHash {
        assert(key[0] == 0x73);
        assert(tag(RevocationKind::IssuerSerial)[0] == 0x69);
        if tag(RevocationKind::IssuerSerial).is_prefix_of(key) {
            assert(key.subrange(0, 2)[0] == key[0]);
        }
    }
}

/// A key that starts with neither tag is not a revocation entry.
pub proof fn lemma_dispatch_of_untagged(raw_key: Seq<u8>)
    requires
        !tag(RevocationKind::IssuerSerial).is_prefix_of(raw_key),
        !tag(RevocationKind::SubjectKeyHash).is_prefix_of(raw_key),
    ensures
        dispatch(raw_key) is None,
{
}

/// Decoding undoes encoding. A record whose first field is one DER blob, in
/// the short form or in either extended form, has a key; the tag of that key
/// selects the record's kind, and the rest of the key decodes to the record.
pub proof fn lemma_decode_encode(r: RevocationView)
    requires
        r.wf(),
        is_der_blob(r.field1),
    ensures
        encoded(r) == Ok::<Seq<u8>, CodecError>(tag(r.kind) + (r.field1 + r.field2)),
        dispatch(tag(r.kind) + (r.field1 + r.field2)) == Some((r.kind, r.field1 + r.field2)),
        decoded(r.kind, r.field1 + r.field2) == Ok::<RevocationView, CodecError>(r),
{
    lemma_boundary_of_blob(r.field1, r.field2);
    lemma_dispatch_of_tagged(r.kind, r.field1 + r.field2);
    assert(tag(r.kind) + r.field1 + r.field2 == tag(r.kind) + (r.field1 + r.field2));
}

/// Encoding undoes decoding: the record that a key decodes to has that very
/// key, and both its fields are non-empty.
pub proof fn lemma_encode_decode(kind: RevocationKind, key: Seq<u8>)
    requires
        decoded(kind, key) is Ok,
    ensures
        decoded(kind, key) matches Ok(r) && r.wf() && r.kind == kind && encoded(r) == Ok::<
            Seq<u8>,
            CodecError,
        >(tag(kind) + key),
{
    lemma_boundary_splits(key);
    let r = decoded(kind, key)->Ok_0;
    assert(tag(kind) + r.field1 + r.field2 == tag(kind) + (r.field1 + r.field2));
}

/// A record has a key exactly when its first field is one DER blob.
pub proof fn lemma_encodable(r: RevocationView)
    ensures
        encoded(r) is Ok <==> is_der_blob(r.field1),
{
}

} // verus!
