//! The envelope of an object: its kind, a space, the length of the payload
//! in decimal, a NUL byte, then the payload itself.

use crate::error::ObjectError;
use crate::scan::{
    lemma_split_at_first_joined, lemma_split_at_first_parts, split_at_first, Cursor, NUL, SPACE,
};
use vstd::prelude::*;
use vstd::slice::slice_to_vec;

verus! {

/// What an object holds.
#[derive(Clone, Copy, Debug, PartialEq, Eq, Structural)]
pub enum ObjectKind {
    /// The content of a file.
    Blob,
    /// A directory listing.
    Tree,
}

impl ObjectKind {
    /// The kind's name as it stands at the head of an envelope: the ASCII
    /// bytes of `blob` or of `tree`.
    pub open spec fn tag(self) -> Seq<u8> {
        match self {
            ObjectKind::Blob => seq![0x62u8, 0x6c, 0x6f, 0x62],
            ObjectKind::Tree => seq![0x74u8, 0x72, 0x65, 0x65],
        }
    }

    /// The kind's name in lower case.
    pub fn name(&self) -> (name: &'static str)
        ensures
            name@ == match self {
                ObjectKind::Blob => "blob"@,
                ObjectKind::Tree => "tree"@,
            },
    {
        match self {
            ObjectKind::Blob => "blob",
            ObjectKind::Tree => "tree",
        }
    }

    /// Appends the kind's tag to `out`.
    fn push_tag(&self, out: &mut Vec<u8>)
        ensures
            final(out)@ == old(out)@ + self.tag(),
    {
        match self {
            ObjectKind::Blob => {
                out.push(0x62);
                out.push(0x6c);
                out.push(0x6f);
                out.push(0x62);
            },
            ObjectKind::Tree => {
                out.push(0x74);
                out.push(0x72);
                out.push(0x65);
                out.push(0x65);
            },
        }
        assert(out@ =~= old(out)@ + self.tag());
    }

    /// The kind that `tag` names, if it names one.
    pub fn from_tag(tag: &[u8]) -> (kind: Option<ObjectKind>)
        ensures
            kind == kind_of_tag(tag@),
    {
        if tag.len() != 4 {
            return None;
        }
        if tag[0] == 0x62 && tag[1] == 0x6c && tag[2] == 0x6f && tag[3] == 0x62 {
            assert(tag@ =~= ObjectKind::Blob.tag());
            Some(ObjectKind::Blob)
        } else if tag[0] == 0x74 && tag[1] == 0x72 && tag[2] == 0x65 && tag[3] == 0x65 {
            assert(tag@ =~= ObjectKind::Tree.tag());
            Some(ObjectKind::Tree)
        } else {
            None
        }
    }
}

/// The kind whose tag is `tag`, if there is one.
pub open spec fn kind_of_tag(tag: Seq<u8>) -> Option<ObjectKind> {
    if tag == ObjectKind::Blob.tag() {
        Some(ObjectKind::Blob)
    } else if tag == ObjectKind::Tree.tag() {
        Some(ObjectKind::Tree)
    } else {
        None
    }
}

/// The ASCII digit for `d`, which is below ten.
pub open spec fn digit(d: nat) -> u8 {
    (0x30 + d) as u8
}

/// `n` in decimal, as ASCII digits without a leading zero.
pub open spec fn decimal(n: nat) -> Seq<u8>
    decreases n,
{
    if n < 10 {
        seq![digit(n)]
    } else {
        decimal(n / 10).push(digit(n % 10))
    }
}

/// A decimal number holds digits only: neither a space nor a NUL.
pub proof fn lemma_decimal_digits(n: nat)
    ensures
        decimal(n).len() > 0,
        forall|i: int| 0 <= i < decimal(n).len() ==> 0x30 <= #[trigger] decimal(n)[i] <= 0x39,
    decreases n,
{
    if n >= 10 {
        lemma_decimal_digits(n / 10);
    }
}

/// `n` in decimal.
pub fn decimal_bytes(n: usize) -> (out: Vec<u8>)
    ensures
        out@ == decimal(n as nat),
    decreases n,
{
    if n < 10 {
        let mut out: Vec<u8> = Vec::new();
        out.push(0x30u8 + n as u8);
        assert(out@ =~= decimal(n as nat));
        out
    } else {
        let mut out = decimal_bytes(n / 10);
        out.push(0x30u8 + (n % 10) as u8);
        out
    }
}

/// A typed payload: the kind of an object, the length that its envelope
/// declares, and the payload. The length is that of the payload, always,
/// and nothing changes an envelope once it is made.
#[derive(Debug, PartialEq, Eq)]
pub struct ObjectEnvelope {
    kind: ObjectKind,
    length: usize,
    payload: Vec<u8>,
}

/// An envelope as plain values.
pub struct EnvelopeView {
    pub kind: ObjectKind,
    pub payload: Seq<u8>,
}

impl EnvelopeView {
    /// The length that the envelope declares: that of its payload.
    pub open spec fn length(self) -> nat {
        self.payload.len()
    }
}

impl View for ObjectEnvelope {
    type V = EnvelopeView;

    closed spec fn view(&self) -> EnvelopeView {
        EnvelopeView { kind: self.kind, payload: self.payload@ }
    }
}

/// The envelope of kind `kind` around `payload`, as plain values.
pub open spec fn envelope_of(kind: ObjectKind, payload: Seq<u8>) -> EnvelopeView {
    EnvelopeView { kind, payload }
}

/// The bytes of the envelope of kind `kind` around `payload`.
pub open spec fn envelope_bytes(kind: ObjectKind, payload: Seq<u8>) -> Seq<u8> {
    kind.tag() + seq![SPACE] + decimal(payload.len()) + seq![NUL] + payload
}

/// Reads an envelope: a known kind up to the first space, then up to the
/// first NUL the length of all that follows, in decimal without a leading
/// zero. `None` for anything else.
pub open spec fn unframed(s: Seq<u8>) -> Option<EnvelopeView> {
    match split_at_first(s, SPACE) {
        None => None,
        Some((tag, after_tag)) => match kind_of_tag(tag) {
            None => None,
            Some(kind) => match split_at_first(after_tag, NUL) {
                None => None,
                Some((length, payload)) => if length == decimal(payload.len()) {
                    Some(envelope_of(kind, payload))
                } else {
                    None
                },
            },
        },
    }
}

/// Reading inverts writing: the bytes of an envelope read back as the kind
/// and the payload that they were made of.
pub proof fn lemma_envelope_round_trip(kind: ObjectKind, payload: Seq<u8>)
    ensures
        unframed(envelope_bytes(kind, payload)) == Some(envelope_of(kind, payload)),
{
    let length = decimal(payload.len());
    let after_tag = length + seq![NUL] + payload;
    assert(envelope_bytes(kind, payload) =~= kind.tag() + seq![SPACE] + after_tag);
    lemma_decimal_digits(payload.len());
    lemma_split_at_first_joined(kind.tag(), SPACE, after_tag);
    lemma_split_at_first_joined(length, NUL, payload);
    lemma_tags_differ();
}

/// The two tags differ.
proof fn lemma_tags_differ()
    ensures
        ObjectKind::Blob.tag() != ObjectKind::Tree.tag(),
{
    assert(ObjectKind::Blob.tag()[0] != ObjectKind::Tree.tag()[0]);
}

/// Only the bytes of an envelope read as one: what is read gives the input
/// back when it is written.
pub proof fn lemma_unframed_sound(s: Seq<u8>)
    ensures
        unframed(s) matches Some(v) ==> s == envelope_bytes(v.kind, v.payload),
{
    lemma_split_at_first_parts(s, SPACE);
    if let Some((tag, after_tag)) = split_at_first(s, SPACE) {
        lemma_split_at_first_parts(after_tag, NUL);
        if let Some(v) = unframed(s) {
            let (length, payload) = split_at_first(after_tag, NUL).unwrap();
            assert(s =~= envelope_bytes(v.kind, v.payload));
        }
    }
}

/// Distinct envelopes have distinct bytes.
pub proof fn lemma_envelope_bytes_injective(
    kind1: ObjectKind,
    payload1: Seq<u8>,
    kind2: ObjectKind,
    payload2: Seq<u8>,
)
    requires
        envelope_bytes(kind1, payload1) == envelope_bytes(kind2, payload2),
    ensures
        kind1 == kind2,
        payload1 == payload2,
{
    lemma_envelope_round_trip(kind1, payload1);
    lemma_envelope_round_trip(kind2, payload2);
}

/// Whether two byte strings are the same.
pub fn bytes_eq(a: &[u8], b: &[u8]) -> (same: bool)
    ensures
        same == (a@ == b@),
{
    if a.len() != b.len() {
        return false;
    }
    let mut i: usize = 0;
    while i < a.len()
        invariant
            a@.len() == b@.len(),
            i <= a@.len(),
            forall|j: int| 0 <= j < i ==> a@[j] == b@[j],
        decreases a@.len() - i,
    {
        if a[i] != b[i] {
            return false;
        }
        i = i + 1;
    }
    assert(a@ =~= b@);
    true
}

/// Appends `more` to `out`.
pub fn push_all(out: &mut Vec<u8>, more: &[u8])
    ensures
        final(out)@ == old(out)@ + more@,
{
    let mut i: usize = 0;
    while i < more.len()
        invariant
            i <= more@.len(),
            out@ == old(out)@ + more@.take(i as int),
        decreases more@.len() - i,
    {
        out.push(more[i]);
        assert(more@.take(i + 1) =~= more@.take(i as int).push(more@[i as int]));
        i = i + 1;
    }
    assert(more@.take(more@.len() as int) =~= more@);
}

impl Clone for ObjectEnvelope {
    fn clone(&self) -> (copy: ObjectEnvelope)
        ensures
            copy@ == self@,
    {
        proof {
            use_type_invariant(self);
        }
        ObjectEnvelope {
            kind: self.kind,
            length: self.length,
            payload: slice_to_vec(self.payload.as_slice()),
        }
    }
}

impl ObjectEnvelope {
    #[verifier::type_invariant]
    spec fn length_is_that_of_payload(self) -> bool {
        self.length == self.payload@.len()
    }

    /// The envelope of kind `kind` around `payload`.
    pub fn new(kind: ObjectKind, payload: Vec<u8>) -> (envelope: ObjectEnvelope)
        ensures
            envelope@ == envelope_of(kind, payload@),
    {
        let length = payload.len();
        ObjectEnvelope { kind, length, payload }
    }

    /// The kind of the object.
    pub fn kind(&self) -> (kind: ObjectKind)
        ensures
            kind == self@.kind,
    {
        self.kind
    }

    /// The length that the envelope declares, which is that of its payload.
    pub fn length(&self) -> (n: usize)
        ensures
            n == self@.length(),
    {
        proof {
            use_type_invariant(self);
        }
        self.length
    }

    /// The payload.
    pub fn payload(&self) -> (payload: &[u8])
        ensures
            payload@ == self@.payload,
    {
        self.payload.as_slice()
    }

    /// The payload, taken out of the envelope.
    pub fn into_payload(self) -> (payload: Vec<u8>)
        ensures
            payload@ == self@.payload,
    {
        self.payload
    }

    /// The bytes of this envelope.
    pub fn to_bytes(&self) -> (out: Vec<u8>)
        ensures
            out@ == envelope_bytes(self@.kind, self@.payload),
    {
        frame(self.kind, self.payload.as_slice())
    }
}

/// Writes the envelope of kind `kind` around `payload`.
pub fn frame(kind: ObjectKind, payload: &[u8]) -> (out: Vec<u8>)
    ensures
        out@ == envelope_bytes(kind, payload@),
{
    let mut out: Vec<u8> = Vec::new();
    kind.push_tag(&mut out);
    out.push(SPACE);
    let length = decimal_bytes(payload.len());
    push_all(&mut out, length.as_slice());
    out.push(NUL);
    push_all(&mut out, payload);
    assert(out@ =~= envelope_bytes(kind, payload@));
    out
}

/// Reads an envelope. Fails where the kind is unknown, where the space or
/// the NUL is missing, and where the length declared is not, digit for
/// digit, the length of what follows the NUL.
pub fn unframe(data: &[u8]) -> (res: Result<ObjectEnvelope, ObjectError>)
    ensures
        match res {
            Ok(envelope) => unframed(data@) == Some(envelope@),
            Err(e) => e == ObjectError::MalformedEnvelope && unframed(data@) is None,
        },
{
    let mut cursor = Cursor::new(data);
    let tag = match cursor.take_until(SPACE) {
        Some(field) => field,
        None => {
            return Err(ObjectError::MalformedEnvelope);
        },
    };
    let kind = match ObjectKind::from_tag(tag) {
        Some(kind) => kind,
        None => {
            return Err(ObjectError::MalformedEnvelope);
        },
    };
    let length = match cursor.take_until(NUL) {
        Some(field) => field,
        None => {
            return Err(ObjectError::MalformedEnvelope);
        },
    };
    let payload = cursor.take_rest();
    let expected = decimal_bytes(payload.len());
    if !bytes_eq(length, expected.as_slice()) {
        return Err(ObjectError::MalformedEnvelope);
    }
    Ok(ObjectEnvelope::new(kind, slice_to_vec(payload)))
}

} // verus!
