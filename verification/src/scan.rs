//! Forward scanning of byte strings: a cursor that hands out delimited and
//! fixed-width fields and never reads past the end of its input.

use vstd::prelude::*;
use vstd::slice::slice_subrange;

verus! {

/// The space byte, which ends the first field of an envelope and of a tree record.
pub const SPACE: u8 = 0x20;

/// The NUL byte, which ends the second field of an envelope and of a tree record.
pub const NUL: u8 = 0x00;

/// The byte `needle` occurs nowhere in `s` at or after index `from`.
pub open spec fn absent_from(s: Seq<u8>, from: int, needle: u8) -> bool {
    forall|j: int| from <= j < s.len() ==> s[j] != needle
}

/// `i` is the least index at or after `from` at which `s` holds `needle`.
pub open spec fn is_first_at(s: Seq<u8>, from: int, needle: u8, i: int) -> bool {
    &&& from <= i < s.len()
    &&& s[i] == needle
    &&& forall|j: int| from <= j < i ==> s[j] != needle
}

/// The least index at or after `from` at which `s` holds `needle`, or
/// `s.len()` when there is none.
pub open spec fn first_at(s: Seq<u8>, from: int, needle: u8) -> int
    decreases s.len() - from,
{
    if from >= s.len() {
        s.len() as int
    } else if s[from] == needle {
        from
    } else {
        first_at(s, from + 1, needle)
    }
}

/// `first_at` is the least index of `needle` from `from` on, and `s.len()`
/// exactly when `needle` is absent there.
pub proof fn lemma_first_at(s: Seq<u8>, from: int, needle: u8)
    requires
        0 <= from <= s.len(),
    ensures
        from <= first_at(s, from, needle) <= s.len(),
        forall|j: int| from <= j < first_at(s, from, needle) ==> s[j] != needle,
        first_at(s, from, needle) < s.len() ==> s[first_at(s, from, needle)] == needle,
    decreases s.len() - from,
{
    if from < s.len() && s[from] != needle {
        lemma_first_at(s, from + 1, needle);
    }
}

/// An index that is least for `needle` from `from` on is the one `first_at` gives.
pub proof fn lemma_first_at_unique(s: Seq<u8>, from: int, needle: u8, i: int)
    requires
        0 <= from,
        is_first_at(s, from, needle, i),
    ensures
        first_at(s, from, needle) == i,
{
    lemma_first_at(s, from, needle);
}

/// Where `needle` is absent from `from` on, `first_at` gives `s.len()`.
pub proof fn lemma_first_at_absent(s: Seq<u8>, from: int, needle: u8)
    requires
        0 <= from <= s.len(),
        absent_from(s, from, needle),
    ensures
        first_at(s, from, needle) == s.len(),
{
    lemma_first_at(s, from, needle);
}

/// Splits `s` at its first `stop` byte: the bytes before it and the bytes
/// after it. `None` where `s` holds no `stop` byte.
pub open spec fn split_at_first(s: Seq<u8>, stop: u8) -> Option<(Seq<u8>, Seq<u8>)> {
    let i = first_at(s, 0, stop);
    if i < s.len() {
        Some((s.take(i), s.skip(i + 1)))
    } else {
        None
    }
}

/// Splits `s` after its first `n` bytes. `None` where `s` is shorter.
pub open spec fn split_fixed(s: Seq<u8>, n: int) -> Option<(Seq<u8>, Seq<u8>)> {
    if 0 <= n <= s.len() {
        Some((s.take(n), s.skip(n)))
    } else {
        None
    }
}

/// A field free of `stop`, followed by `stop` and anything, splits back into
/// the field and what followed.
pub proof fn lemma_split_at_first_joined(field: Seq<u8>, stop: u8, tail: Seq<u8>)
    requires
        absent_from(field, 0, stop),
    ensures
        split_at_first(field + seq![stop] + tail, stop) == Some((field, tail)),
{
    let s = field + seq![stop] + tail;
    let i = field.len() as int;
    assert(s[i] == stop);
    assert forall|j: int| 0 <= j < i implies s[j] != stop by {
        assert(s[j] == field[j]);
    }
    lemma_first_at_unique(s, 0, stop, i);
    assert(s.take(i) =~= field);
    assert(s.skip(i + 1) =~= tail);
}

/// What `split_at_first` gives joins back into `s`, and the field before the
/// `stop` byte is free of it. It gives nothing only where `s` is free of `stop`.
pub proof fn lemma_split_at_first_parts(s: Seq<u8>, stop: u8)
    ensures
        match split_at_first(s, stop) {
            Some((field, tail)) => {
                &&& s == field + seq![stop] + tail
                &&& absent_from(field, 0, stop)
                &&& tail.len() < s.len()
            },
            None => absent_from(s, 0, stop),
        },
{
    lemma_first_at(s, 0, stop);
    let i = first_at(s, 0, stop);
    if i < s.len() {
        assert(s =~= s.take(i) + seq![stop] + s.skip(i + 1));
    }
}

/// Finds the first `needle` in `data` at or after `from`.
pub fn find_byte(data: &[u8], from: usize, needle: u8) -> (found: Option<usize>)
    ensures
        match found {
            Some(i) => is_first_at(data@, from as int, needle, i as int),
            None => absent_from(data@, from as int, needle),
        },
{
    let mut i: usize = from;
    while i < data.len()
        invariant
            from <= i,
            forall|j: int| from <= j < i ==> data@[j] != needle,
        decreases data.len() - i,
    {
        if data[i] == needle {
            return Some(i);
        }
        i = i + 1;
    }
    None
}

/// A read position in a byte string. Every advance is checked against the
/// end of the input, and a failed read leaves the cursor where it was.
pub struct Cursor<'a> {
    data: &'a [u8],
    pos: usize,
}

impl<'a> Cursor<'a> {
    #[verifier::type_invariant]
    spec fn in_bounds(self) -> bool {
        self.pos <= self.data@.len()
    }

    /// The bytes not yet read.
    pub closed spec fn remaining(self) -> Seq<u8> {
        self.data@.skip(self.pos as int)
    }

    /// A cursor at the start of `data`.
    pub fn new(data: &'a [u8]) -> (cursor: Cursor<'a>)
        ensures
            cursor.remaining() == data@,
    {
        Cursor { data, pos: 0 }
    }

    /// Whether every byte has been read.
    pub fn is_at_end(&self) -> (done: bool)
        ensures
            done == (self.remaining().len() == 0),
    {
        proof {
            use_type_invariant(self);
        }
        self.pos >= self.data.len()
    }

    /// Number of bytes not yet read.
    pub fn remaining_len(&self) -> (n: usize)
        ensures
            n == self.remaining().len(),
    {
        proof {
            use_type_invariant(self);
        }
        self.data.len() - self.pos
    }

    /// Reads the bytes before the next `stop` byte and steps over that byte.
    /// Without a `stop` byte ahead, nothing is read.
    pub fn take_until(&mut self, stop: u8) -> (field: Option<&'a [u8]>)
        ensures
            match split_at_first(old(self).remaining(), stop) {
                Some((before, after)) => {
                    &&& field matches Some(f)
                    &&& f@ == before
                    &&& final(self).remaining() == after
                },
                None => {
                    &&& field is None
                    &&& final(self).remaining() == old(self).remaining()
                },
            },
    {
        proof {
            use_type_invariant(&*self);
        }
        let data = self.data;
        let start = self.pos;
        let ghost rest = data@.skip(start as int);
        match find_byte(data, start, stop) {
            Some(i) => {
                assert(i < data.len());
                let field = slice_subrange(data, start, i);
                proof {
                    lemma_first_at_unique(rest, 0, stop, i - start);
                    assert(field@ =~= rest.take(i - start));
                    assert(data@.skip(i + 1) =~= rest.skip(i - start + 1));
                }
                self.pos = i + 1;
                Some(field)
            },
            None => {
                proof {
                    lemma_first_at_absent(rest, 0, stop);
                }
                None
            },
        }
    }

    /// Reads exactly `n` bytes. Where fewer are left, nothing is read.
    pub fn take(&mut self, n: usize) -> (field: Option<&'a [u8]>)
        ensures
            match split_fixed(old(self).remaining(), n as int) {
                Some((before, after)) => {
                    &&& field matches Some(f)
                    &&& f@ == before
                    &&& final(self).remaining() == after
                },
                None => {
                    &&& field is None
                    &&& final(self).remaining() == old(self).remaining()
                },
            },
    {
        proof {
            use_type_invariant(&*self);
        }
        let data = self.data;
        let start = self.pos;
        if n > data.len() - start {
            return None;
        }
        let field = slice_subrange(data, start, start + n);
        proof {
            assert(field@ =~= data@.skip(start as int).take(n as int));
            assert(data@.skip(start + n) =~= data@.skip(start as int).skip(n as int));
        }
        self.pos = start + n;
        Some(field)
    }

    /// Reads every byte that is left.
    pub fn take_rest(&mut self) -> (field: &'a [u8])
        ensures
            field@ == old(self).remaining(),
            final(self).remaining().len() == 0,
    {
        proof {
            use_type_invariant(&*self);
        }
        let data = self.data;
        let field = slice_subrange(data, self.pos, data.len());
        proof {
            assert(field@ =~= data@.skip(self.pos as int));
        }
        self.pos = data.len();
        field
    }
}

} // verus!
