//! Tree objects: a directory listing held as records of mode, name and the
//! raw digest of the child, one after another with nothing between them.

use crate::codec::{decode, decoded};
use crate::envelope::{EnvelopeView, ObjectEnvelope, ObjectKind};
use crate::error::ObjectError;
use crate::object_id::ObjectId;
use crate::scan::{
    absent_from, lemma_split_at_first_joined, lemma_split_at_first_parts, split_at_first,
    split_fixed, Cursor, NUL, SPACE,
};
use crate::sorting::{is_sorted_copy, sort_by_name, with_name};
use vstd::prelude::*;
use vstd::slice::slice_to_vec;

verus! {

/// One record of a tree: a child object under a name.
///
/// `mode` and `name` are the bytes found in the tree, which need not be
/// UTF-8. The entry refers to its target by id only.
#[derive(Debug, PartialEq, Eq)]
pub struct TreeEntry {
    pub mode: Vec<u8>,
    pub name: Vec<u8>,
    pub target: ObjectId,
}

/// A tree entry as plain byte sequences.
pub struct EntryView {
    pub mode: Seq<u8>,
    pub name: Seq<u8>,
    pub target: Seq<u8>,
}

impl View for TreeEntry {
    type V = EntryView;

    open spec fn view(&self) -> EntryView {
        EntryView { mode: self.mode@, name: self.name@, target: self.target@ }
    }
}

impl Clone for TreeEntry {
    fn clone(&self) -> (copy: TreeEntry)
        ensures
            copy@ == self@,
    {
        TreeEntry {
            mode: slice_to_vec(self.mode.as_slice()),
            name: slice_to_vec(self.name.as_slice()),
            target: self.target,
        }
    }
}

/// The mode of an entry that is itself a tree: the ASCII bytes of `40000`.
pub open spec fn subtree_mode() -> Seq<u8> {
    seq![0x34u8, 0x30, 0x30, 0x30, 0x30]
}

impl TreeEntry {
    /// Whether the entry is a subtree: its mode is exactly `40000`. Every
    /// other mode stands for a file of some sort.
    pub fn is_subtree(&self) -> (subtree: bool)
        ensures
            subtree == (self@.mode == subtree_mode()),
    {
        let mode = self.mode.as_slice();
        let subtree = mode.len() == 5 && mode[0] == 0x34 && mode[1] == 0x30 && mode[2] == 0x30
            && mode[3] == 0x30 && mode[4] == 0x30;
        proof {
            if subtree {
                assert(self@.mode =~= subtree_mode());
            }
        }
        subtree
    }

    /// The kind of object that the entry refers to, as far as its mode
    /// tells: a tree for a subtree, a blob for anything else.
    pub fn kind(&self) -> (kind: ObjectKind)
        ensures
            kind == if self@.mode == subtree_mode() {
                ObjectKind::Tree
            } else {
                ObjectKind::Blob
            },
    {
        if self.is_subtree() {
            ObjectKind::Tree
        } else {
            ObjectKind::Blob
        }
    }
}

/// The entries of a vector, each by its view.
pub open spec fn entry_views(entries: Seq<TreeEntry>) -> Seq<EntryView> {
    entries.map_values(|e: TreeEntry| e@)
}

/// An entry that a tree can hold: no space in the mode, no NUL in the name,
/// a digest of 20 bytes.
pub open spec fn entry_wf(e: EntryView) -> bool {
    &&& absent_from(e.mode, 0, SPACE)
    &&& absent_from(e.name, 0, NUL)
    &&& e.target.len() == 20
}

/// Every entry of `es` is one that a tree can hold.
pub open spec fn entries_wf(es: Seq<EntryView>) -> bool {
    forall|i: int| 0 <= i < es.len() ==> entry_wf(#[trigger] es[i])
}

/// The record of one entry: mode, space, name, NUL, the 20 digest bytes.
pub open spec fn record_bytes(e: EntryView) -> Seq<u8> {
    e.mode + seq![SPACE] + e.name + seq![NUL] + e.target
}

/// The payload of a tree with the entries `es`, in that order.
pub open spec fn tree_bytes(es: Seq<EntryView>) -> Seq<u8>
    decreases es.len(),
{
    if es.len() == 0 {
        Seq::empty()
    } else {
        record_bytes(es.first()) + tree_bytes(es.drop_first())
    }
}

/// Reads one record off the front of `s`: the entry and the bytes after it.
/// `None` where the space, the NUL or the 20 digest bytes are missing.
pub open spec fn parse_record(s: Seq<u8>) -> Option<(EntryView, Seq<u8>)> {
    match split_at_first(s, SPACE) {
        None => None,
        Some((mode, after_mode)) => match split_at_first(after_mode, NUL) {
            None => None,
            Some((name, after_name)) => match split_fixed(after_name, 20) {
                None => None,
                Some((target, rest)) => Some((EntryView { mode, name, target }, rest)),
            },
        },
    }
}

/// Reads records until no byte is left. `None` where a record is cut short.
pub open spec fn parse_records(s: Seq<u8>) -> Option<Seq<EntryView>>
    decreases s.len(),
    via parse_records_decreases
{
    if s.len() == 0 {
        Some(Seq::empty())
    } else {
        match parse_record(s) {
            None => None,
            Some((e, rest)) => match parse_records(rest) {
                None => None,
                Some(es) => Some(seq![e] + es),
            },
        }
    }
}

#[via_fn]
proof fn parse_records_decreases(s: Seq<u8>) {
    lemma_parse_record_parts(s);
}

/// What `parse_record` reads joins back into `s`, the entry is one that a
/// tree can hold, and fewer bytes are left.
pub proof fn lemma_parse_record_parts(s: Seq<u8>)
    ensures
        parse_record(s) matches Some((e, rest)) ==> {
            &&& s == record_bytes(e) + rest
            &&& entry_wf(e)
            &&& rest.len() < s.len()
        },
{
    lemma_split_at_first_parts(s, SPACE);
    if let Some((mode, after_mode)) = split_at_first(s, SPACE) {
        lemma_split_at_first_parts(after_mode, NUL);
        if let Some((name, after_name)) = split_at_first(after_mode, NUL) {
            if let Some((target, rest)) = split_fixed(after_name, 20) {
                let e = EntryView { mode, name, target };
                assert(after_name =~= target + rest);
                assert(s =~= record_bytes(e) + rest);
            }
        }
    }
}

/// The record of an entry that a tree can hold, followed by anything, reads
/// back as that entry and what followed.
pub proof fn lemma_parse_record_joined(e: EntryView, tail: Seq<u8>)
    requires
        entry_wf(e),
    ensures
        parse_record(record_bytes(e) + tail) == Some((e, tail)),
{
    let after_name = e.target + tail;
    let after_mode = e.name + seq![NUL] + after_name;
    let s = e.mode + seq![SPACE] + after_mode;
    assert(s =~= record_bytes(e) + tail);
    lemma_split_at_first_joined(e.mode, SPACE, after_mode);
    lemma_split_at_first_joined(e.name, NUL, after_name);
    assert(after_name.take(20) =~= e.target);
    assert(after_name.skip(20) =~= tail);
}

/// Decoding inverts encoding: the payload made of entries that a tree can
/// hold reads back as exactly those entries, in their order.
pub proof fn lemma_tree_round_trip(es: Seq<EntryView>)
    requires
        entries_wf(es),
    ensures
        parse_records(tree_bytes(es)) == Some(es),
    decreases es.len(),
{
    if es.len() == 0 {
        assert(es =~= Seq::empty());
    } else {
        let e = es.first();
        let tail = es.drop_first();
        assert(entry_wf(es[0]));
        assert forall|i: int| 0 <= i < tail.len() implies entry_wf(#[trigger] tail[i]) by {
            assert(entry_wf(es[i + 1]));
        }
        lemma_tree_round_trip(tail);
        lemma_parse_record_joined(e, tree_bytes(tail));
        assert(seq![e] + tail =~= es);
    }
}

/// Whatever decodes is well formed: the entries read are ones that a tree
/// can hold, and encoding them gives the payload back, byte for byte.
pub proof fn lemma_parse_records_sound(s: Seq<u8>)
    ensures
        parse_records(s) matches Some(es) ==> entries_wf(es) && tree_bytes(es) == s,
    decreases s.len(),
{
    if s.len() == 0 {
        assert(tree_bytes(Seq::<EntryView>::empty()) =~= s);
    } else {
        lemma_parse_record_parts(s);
        if let Some((e, rest)) = parse_record(s) {
            lemma_parse_records_sound(rest);
            if let Some(tail) = parse_records(rest) {
                let es = seq![e] + tail;
                assert(es.first() == e);
                assert(es.drop_first() =~= tail);
                assert forall|i: int| 0 <= i < es.len() implies entry_wf(#[trigger] es[i]) by {
                    if i > 0 {
                        assert(es[i] == tail[i - 1]);
                    }
                }
            }
        }
    }
}

/// A payload whose last digest has lost its last `cut` bytes, for any `cut`
/// from 1 to 20, does not decode: no entry is made from a short digest.
pub proof fn lemma_truncated_digest_rejected(es: Seq<EntryView>, cut: int)
    requires
        entries_wf(es),
        es.len() > 0,
        1 <= cut <= 20,
    ensures
        cut <= tree_bytes(es).len(),
        parse_records(tree_bytes(es).take(tree_bytes(es).len() - cut)) is None,
    decreases es.len(),
{
    let e = es.first();
    let tail = es.drop_first();
    let whole = tree_bytes(es);
    let short = whole.take(whole.len() - cut);
    assert(entry_wf(es[0]));
    if tail.len() == 0 {
        assert(tree_bytes(tail) =~= Seq::empty());
        let kept = e.target.take(20 - cut);
        let after_name = kept;
        let after_mode = e.name + seq![NUL] + after_name;
        assert(short =~= e.mode + seq![SPACE] + after_mode);
        lemma_split_at_first_joined(e.mode, SPACE, after_mode);
        lemma_split_at_first_joined(e.name, NUL, after_name);
    } else {
        assert forall|i: int| 0 <= i < tail.len() implies entry_wf(#[trigger] tail[i]) by {
            assert(entry_wf(es[i + 1]));
        }
        lemma_truncated_digest_rejected(tail, cut);
        let rest = tree_bytes(tail);
        let short_rest = rest.take(rest.len() - cut);
        assert(short =~= record_bytes(e) + short_rest);
        lemma_parse_record_joined(e, short_rest);
    }
}

/// `done` followed by what `rest` holds, where it holds anything.
spec fn prepend(done: Seq<EntryView>, rest: Option<Seq<EntryView>>) -> Option<
    Seq<EntryView>,
> {
    match rest {
        Some(es) => Some(done + es),
        None => None,
    }
}

/// Reads one record at the cursor. A record that is cut short leaves the
/// cursor unspecified and gives `None`.
pub fn read_record(cursor: &mut Cursor) -> (entry: Option<TreeEntry>)
    ensures
        match parse_record(old(cursor).remaining()) {
            Some((e, rest)) => {
                &&& entry matches Some(got)
                &&& got@ == e
                &&& final(cursor).remaining() == rest
            },
            None => entry is None,
        },
{
    let mode = match cursor.take_until(SPACE) {
        Some(field) => field,
        None => {
            return None;
        },
    };
    let name = match cursor.take_until(NUL) {
        Some(field) => field,
        None => {
            return None;
        },
    };
    let digest = match cursor.take(20) {
        Some(field) => field,
        None => {
            return None;
        },
    };
    match ObjectId::from_slice(digest) {
        Some(target) => Some(TreeEntry { mode: slice_to_vec(mode), name: slice_to_vec(name), target }),
        None => None,
    }
}

/// Decodes the payload of a tree into its entries, in the order in which
/// the payload holds them.
pub fn parse_tree(payload: &[u8]) -> (res: Result<Vec<TreeEntry>, ObjectError>)
    ensures
        match res {
            Ok(entries) => parse_records(payload@) == Some(entry_views(entries@)),
            Err(e) => e == ObjectError::TruncatedTree && parse_records(payload@) is None,
        },
{
    let mut cursor = Cursor::new(payload);
    let mut entries: Vec<TreeEntry> = Vec::new();
    assert(entry_views(entries@) + parse_records(payload@).unwrap() =~= parse_records(
        payload@,
    ).unwrap());
    while !cursor.is_at_end()
        invariant
            parse_records(payload@) == prepend(
                entry_views(entries@),
                parse_records(cursor.remaining()),
            ),
        decreases cursor.remaining().len(),
    {
        let ghost before = cursor.remaining();
        let ghost done = entry_views(entries@);
        proof {
            lemma_parse_record_parts(before);
        }
        match read_record(&mut cursor) {
            Some(entry) => {
                entries.push(entry);
                proof {
                    let (e, rest) = parse_record(before).unwrap();
                    assert(entry_views(entries@) =~= done + seq![e]);
                    if let Some(es) = parse_records(rest) {
                        assert(done + (seq![e] + es) =~= (done + seq![e]) + es);
                    }
                }
            },
            None => {
                return Err(ObjectError::TruncatedTree);
            },
        }
    }
    assert(entry_views(entries@) + Seq::<EntryView>::empty() =~= entry_views(entries@));
    Ok(entries)
}

/// `res` is what listing the tree in `envelope` gives: `NotATree` for an
/// object of another kind, `TruncatedTree` where a record is cut short, and
/// else the entries of the payload sorted by name.
pub open spec fn is_listing_of(
    envelope: EnvelopeView,
    res: Result<Vec<TreeEntry>, ObjectError>,
) -> bool {
    match res {
        Ok(entries) => {
            &&& envelope.kind == ObjectKind::Tree
            &&& parse_records(envelope.payload) matches Some(parsed)
            &&& is_sorted_copy(entry_views(entries@), parsed)
            &&& entries@.len() == parsed.len()
        },
        Err(e) => if envelope.kind != ObjectKind::Tree {
            e == ObjectError::NotATree
        } else {
            e == ObjectError::TruncatedTree && parse_records(envelope.payload) is None
        },
    }
}

/// Lists a tree: decodes the records of its payload and sorts them by name,
/// byte-wise. A tree with an empty payload has no entries.
pub fn decode_tree(envelope: &ObjectEnvelope) -> (res: Result<Vec<TreeEntry>, ObjectError>)
    ensures
        is_listing_of(envelope@, res),
        envelope@.kind == ObjectKind::Tree && envelope@.payload.len() == 0 ==> (res matches Ok(
            entries,
        ) && entries@.len() == 0),
{
    match envelope.kind() {
        ObjectKind::Tree => {},
        ObjectKind::Blob => {
            return Err(ObjectError::NotATree);
        },
    }
    if envelope.length() == 0 {
        let entries: Vec<TreeEntry> = Vec::new();
        assert(entry_views(entries@) =~= Seq::<EntryView>::empty());
        assert forall|name: Seq<u8>| #[trigger]
            with_name(entry_views(entries@), name) == with_name(
                Seq::<EntryView>::empty(),
                name,
            ) by {}
        return Ok(entries);
    }
    match parse_tree(envelope.payload()) {
        Ok(entries) => Ok(sort_by_name(entries)),
        Err(e) => Err(e),
    }
}

/// What listing stored bytes gives: the failure of decoding them, or the
/// listing of the envelope that they hold.
pub open spec fn is_listing_of_stored(
    stored: Seq<u8>,
    res: Result<Vec<TreeEntry>, ObjectError>,
) -> bool {
    match decoded(stored) {
        Ok(envelope) => is_listing_of(envelope, res),
        Err(e) => res == Err::<Vec<TreeEntry>, ObjectError>(e),
    }
}

/// Lists the tree held in stored bytes: decodes them, then lists the tree.
pub fn list_tree(stored: &[u8]) -> (res: Result<Vec<TreeEntry>, ObjectError>)
    ensures
        is_listing_of_stored(stored@, res),
{
    match decode(stored) {
        Ok(envelope) => decode_tree(&envelope),
        Err(e) => Err(e),
    }
}

} // verus!
