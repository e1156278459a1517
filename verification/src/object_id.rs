//! Object ids: the 160-bit digest that names an object.

use crate::error::ObjectError;
use crate::hex::{hex_decode, hex_encode, hex_lower, hex_value, is_hex, lemma_hex_round_trip};
use vstd::prelude::*;

verus! {

/// `text` names an object: exactly 40 hexadecimal digits, of either case.
pub open spec fn is_object_name(text: Seq<char>) -> bool {
    text.len() == 40 && is_hex(text)
}

/// The name of an id reads back as that id.
pub proof fn lemma_object_name_round_trip(id: Seq<u8>)
    requires
        id.len() == 20,
    ensures
        is_object_name(hex_lower(id)),
        hex_value(hex_lower(id)) == id,
{
    lemma_hex_round_trip(id);
}

/// The permanent name of an object: a 160-bit digest, held as 20 raw
/// bytes. An id is made once and never changed.
#[derive(Clone, Copy, Debug, PartialEq, Eq, Hash)]
pub struct ObjectId {
    bytes: [u8; 20],
}

impl View for ObjectId {
    type V = Seq<u8>;

    closed spec fn view(&self) -> Seq<u8> {
        self.bytes@
    }
}

impl ObjectId {
    /// The id made of the given 20 bytes.
    pub fn from_bytes(bytes: [u8; 20]) -> (id: ObjectId)
        ensures
            id@ == bytes@,
            id@.len() == 20,
    {
        ObjectId { bytes }
    }

    /// The id held in `data`, which must be exactly 20 bytes long.
    pub fn from_slice(data: &[u8]) -> (id: Option<ObjectId>)
        ensures
            match id {
                Some(v) => data@.len() == 20 && v@ == data@,
                None => data@.len() != 20,
            },
    {
        if data.len() != 20 {
            return None;
        }
        let mut bytes = [0u8; 20];
        let mut i: usize = 0;
        while i < 20
            invariant
                i <= 20,
                data@.len() == 20,
                forall|j: int| 0 <= j < i ==> bytes@[j] == data@[j],
            decreases 20 - i,
        {
            bytes[i] = data[i];
            i = i + 1;
        }
        assert(bytes@ =~= data@);
        Some(ObjectId { bytes })
    }

    /// Reads an id from its name. Fails with `InvalidObjectId` unless the
    /// name is made of exactly 40 hexadecimal digits.
    pub fn from_hex(text: &str) -> (res: Result<ObjectId, ObjectError>)
        ensures
            match res {
                Ok(id) => is_object_name(text@) && id@ == hex_value(text@),
                Err(e) => e == ObjectError::InvalidObjectId && !is_object_name(text@),
            },
    {
        match hex_decode(text) {
            Some(value) => match ObjectId::from_slice(value.as_slice()) {
                Some(id) => Ok(id),
                None => Err(ObjectError::InvalidObjectId),
            },
            None => Err(ObjectError::InvalidObjectId),
        }
    }

    /// The name of the id: its 20 bytes as 40 lower-case hexadecimal digits.
    pub fn to_hex(&self) -> (name: String)
        ensures
            name@ == hex_lower(self@),
            name@.len() == 40,
    {
        hex_encode(self.bytes.as_slice())
    }

    /// The 20 bytes of the id, as an array.
    pub fn to_bytes(&self) -> (bytes: [u8; 20])
        ensures
            bytes@ == self@,
    {
        self.bytes
    }

    /// The 20 bytes of the id.
    pub fn as_bytes(&self) -> (bytes: &[u8])
        ensures
            bytes@ == self@,
    {
        self.bytes.as_slice()
    }
}

} // verus!
