//! The digest engine: SHA-1 over a byte string, and the id of an object,
//! which is the digest of its envelope before compression.

use crate::codec::decoded;
use crate::envelope::{envelope_bytes, frame, ObjectKind};
use crate::hex::hex_lower;
use crate::object_id::ObjectId;
use sha1::Digest;
use vstd::prelude::*;

verus! {

/// The SHA-1 digest of `data`, as the `sha1` crate computes it: 20 bytes.
pub uninterp spec fn sha1_digest(data: Seq<u8>) -> Seq<u8>;

/// Computes the SHA-1 digest of `data` with `sha1::Sha1`.
///
/// Not proved: that the 20 bytes returned are those named by `sha1_digest`.
#[verifier::external_body]
pub(crate) fn sha1_of(data: &[u8]) -> (out: [u8; 20])
    ensures
        out@ == sha1_digest(data@),
{
    sha1::Sha1::digest(data).into()
}

/// The id of the object of kind `kind` that holds `payload`: the digest of
/// its envelope, whatever compression later makes of that envelope.
pub open spec fn object_id_of(kind: ObjectKind, payload: Seq<u8>) -> Seq<u8> {
    sha1_digest(envelope_bytes(kind, payload))
}

/// The id that stored bytes carry: that of the envelope they decode to.
pub open spec fn stored_id(stored: Seq<u8>) -> Seq<u8>
    recommends
        decoded(stored) is Ok,
{
    object_id_of(decoded(stored).unwrap().kind, decoded(stored).unwrap().payload)
}

/// The id of an object is settled by its kind and its payload: two stored
/// forms of one envelope, however each was compressed, carry one id, that of
/// the kind and the payload.
pub proof fn lemma_id_ignores_compression(
    kind: ObjectKind,
    payload: Seq<u8>,
    stored_a: Seq<u8>,
    stored_b: Seq<u8>,
)
    requires
        decoded(stored_a) matches Ok(a) && a.kind == kind && a.payload == payload,
        decoded(stored_b) matches Ok(b) && b.kind == kind && b.payload == payload,
    ensures
        stored_id(stored_a) == object_id_of(kind, payload),
        stored_id(stored_b) == object_id_of(kind, payload),
        stored_id(stored_a) == stored_id(stored_b),
{
}

/// The digest of `data`.
pub fn digest(data: &[u8]) -> (id: ObjectId)
    ensures
        id@ == sha1_digest(data@),
{
    ObjectId::from_bytes(sha1_of(data))
}

/// The id of the object of kind `kind` that holds `payload`. It depends on
/// the kind and the payload alone.
pub fn object_id(kind: ObjectKind, payload: &[u8]) -> (id: ObjectId)
    ensures
        id@ == object_id_of(kind, payload@),
{
    let raw = frame(kind, payload);
    digest(raw.as_slice())
}

/// The id, in hexadecimal, of the blob that holds the content of a file.
pub fn hash_object_blob(file_content: &[u8]) -> (name: String)
    ensures
        name@ == hex_lower(object_id_of(ObjectKind::Blob, file_content@)),
{
    object_id(ObjectKind::Blob, file_content).to_hex()
}

} // verus!
