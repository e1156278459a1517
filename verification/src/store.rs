//! Where the store keeps an object, and what a lookup answers. The store
//! itself is a directory tree; reading and writing it is left to the
//! caller, who is told here which file to touch and what to make of the
//! outcome.

use crate::codec::{decoded, encode, encoded};
use crate::digest::{object_id, object_id_of, stored_id};
use crate::envelope::{envelope_of, EnvelopeView, ObjectKind};
use crate::error::ObjectError;
use crate::hex::{hex_lower, hex_value, lemma_hex_round_trip};
use crate::object_id::{is_object_name, ObjectId};
use vstd::prelude::*;
use vstd::slice::slice_to_vec;
use vstd::string::{StrSliceExecFns, StringExecFns};

verus! {

/// The place of an object below the store's `objects` directory: a
/// directory named by the first two digits of the id, and in it a file
/// named by the other 38.
#[derive(Debug, PartialEq, Eq)]
pub struct ObjectPath {
    pub dir: String,
    pub file: String,
}

/// The directory that holds the object `id`: the first two digits of its name.
pub open spec fn fan_out_dir(id: Seq<u8>) -> Seq<char> {
    hex_lower(id).take(2)
}

/// The file that holds the object `id`: its name without the first two digits.
pub open spec fn fan_out_file(id: Seq<u8>) -> Seq<char> {
    hex_lower(id).skip(2)
}

/// The path of an object from the store's root, with `/` between its parts.
pub open spec fn relative_path(dir: Seq<char>, file: Seq<char>) -> Seq<char> {
    "objects/"@ + dir + "/"@ + file
}

/// The two parts of a path join into the name of the object, so objects
/// with different ids are kept in different places.
pub proof fn lemma_fan_out_distinct(id_a: Seq<u8>, id_b: Seq<u8>)
    requires
        id_a.len() == 20,
        id_b.len() == 20,
        fan_out_dir(id_a) == fan_out_dir(id_b),
        fan_out_file(id_a) == fan_out_file(id_b),
    ensures
        id_a == id_b,
{
    lemma_hex_round_trip(id_a);
    lemma_hex_round_trip(id_b);
    assert(hex_lower(id_a) =~= fan_out_dir(id_a) + fan_out_file(id_a));
    assert(hex_lower(id_b) =~= fan_out_dir(id_b) + fan_out_file(id_b));
}

impl Clone for ObjectPath {
    fn clone(&self) -> (copy: ObjectPath)
        ensures
            copy.dir@ == self.dir@,
            copy.file@ == self.file@,
    {
        ObjectPath { dir: self.dir.clone(), file: self.file.clone() }
    }
}

impl ObjectPath {
    /// The path from the store's root: `objects`, the directory, the file.
    pub fn relative(&self) -> (path: String)
        ensures
            path@ == relative_path(self.dir@, self.file@),
    {
        let mut path = String::from_str("objects/");
        path.append(self.dir.as_str());
        path.append("/");
        path.append(self.file.as_str());
        path
    }
}

/// The place of the object `id` in the store.
pub fn object_path(id: &ObjectId) -> (path: ObjectPath)
    ensures
        path.dir@ == fan_out_dir(id@),
        path.file@ == fan_out_file(id@),
        path.dir@ + path.file@ == hex_lower(id@),
        path.dir@.len() == 2,
        path.file@.len() == 38,
{
    let name = id.to_hex();
    let text = name.as_str();
    let dir = text.substring_char(0, 2);
    let file = text.substring_char(2, 40);
    proof {
        assert(name@.subrange(0, 2) =~= name@.take(2));
        assert(name@.subrange(2, 40) =~= name@.skip(2));
    }
    ObjectPath { dir: String::from_str(dir), file: String::from_str(file) }
}

/// The place of the object that `name` names. A name that is not made of
/// exactly 40 hexadecimal digits is refused here, before any file is
/// looked for.
pub fn locate(name: &str) -> (res: Result<ObjectPath, ObjectError>)
    ensures
        match res {
            Ok(path) => {
                &&& is_object_name(name@)
                &&& path.dir@ == fan_out_dir(hex_value(name@))
                &&& path.file@ == fan_out_file(hex_value(name@))
            },
            Err(e) => e == ObjectError::InvalidObjectId && !is_object_name(name@),
        },
{
    match ObjectId::from_hex(name) {
        Ok(id) => Ok(object_path(&id)),
        Err(e) => Err(e),
    }
}

/// An object made ready for the store: its id and the bytes to keep under
/// it. The bytes decode to an envelope, and the id is the digest of that
/// envelope, always.
#[derive(Debug, PartialEq, Eq)]
pub struct StoredObject {
    id: ObjectId,
    bytes: Vec<u8>,
}

/// A stored object as plain values.
pub struct StoredView {
    pub id: Seq<u8>,
    pub bytes: Seq<u8>,
}

impl StoredView {
    /// The object holds the payload `payload` as kind `kind`: its bytes are
    /// what they encode to and decode to them, and its id is the digest of
    /// their envelope.
    pub open spec fn holds(self, kind: ObjectKind, payload: Seq<u8>) -> bool {
        &&& self.id == object_id_of(kind, payload)
        &&& encoded(kind, payload) == Ok::<Seq<u8>, ObjectError>(self.bytes)
        &&& decoded(self.bytes) == Ok::<EnvelopeView, ObjectError>(envelope_of(kind, payload))
    }

    /// The bytes decode, and the id is that of the envelope they decode to.
    pub open spec fn consistent(self) -> bool {
        decoded(self.bytes) is Ok && self.id == stored_id(self.bytes)
    }
}

/// What is kept for a payload is settled by its kind and content: two
/// objects made ready for the same payload have one id, one place and the
/// same bytes, so that keeping the second changes nothing.
pub proof fn lemma_same_content_same_object(
    first: StoredView,
    second: StoredView,
    kind: ObjectKind,
    payload: Seq<u8>,
)
    requires
        first.holds(kind, payload),
        second.holds(kind, payload),
    ensures
        first == second,
        fan_out_dir(first.id) == fan_out_dir(second.id),
        fan_out_file(first.id) == fan_out_file(second.id),
{
}

impl View for StoredObject {
    type V = StoredView;

    closed spec fn view(&self) -> StoredView {
        StoredView { id: self.id@, bytes: self.bytes@ }
    }
}

impl Clone for StoredObject {
    fn clone(&self) -> (copy: StoredObject)
        ensures
            copy@ == self@,
    {
        proof {
            use_type_invariant(self);
        }
        StoredObject { id: self.id, bytes: slice_to_vec(self.bytes.as_slice()) }
    }
}

impl StoredObject {
    #[verifier::type_invariant]
    spec fn named_by_content(self) -> bool {
        self@.consistent()
    }

    /// Makes the payload `payload` of kind `kind` ready for the store:
    /// names it by the digest of its envelope and compresses that envelope.
    pub fn new(kind: ObjectKind, payload: &[u8]) -> (res: Result<StoredObject, ObjectError>)
        ensures
            match res {
                Ok(object) => object@.holds(kind, payload@),
                Err(e) => encoded(kind, payload@) == Err::<Seq<u8>, ObjectError>(e),
            },
    {
        let id = object_id(kind, payload);
        match encode(kind, payload) {
            Ok(bytes) => Ok(StoredObject { id, bytes }),
            Err(e) => Err(e),
        }
    }

    /// The id under which the object is kept.
    pub fn id(&self) -> (id: ObjectId)
        ensures
            id@ == self@.id,
            self@.consistent(),
    {
        proof {
            use_type_invariant(self);
        }
        self.id
    }

    /// The bytes to keep.
    pub fn bytes(&self) -> (bytes: &[u8])
        ensures
            bytes@ == self@.bytes,
            self@.consistent(),
    {
        proof {
            use_type_invariant(self);
        }
        self.bytes.as_slice()
    }

    /// The place of the object in the store.
    pub fn path(&self) -> (path: ObjectPath)
        ensures
            path.dir@ == fan_out_dir(self@.id),
            path.file@ == fan_out_file(self@.id),
    {
        object_path(&self.id)
    }
}

/// What a lookup answers once the file was looked for: its bytes, or
/// `ObjectNotFound` where there was no file.
pub fn fetched(contents: Option<Vec<u8>>) -> (res: Result<Vec<u8>, ObjectError>)
    ensures
        match contents {
            Some(stored) => res == Ok::<Vec<u8>, ObjectError>(stored),
            None => res == Err::<Vec<u8>, ObjectError>(ObjectError::ObjectNotFound),
        },
{
    match contents {
        Some(stored) => Ok(stored),
        None => Err(ObjectError::ObjectNotFound),
    }
}

} // verus!
