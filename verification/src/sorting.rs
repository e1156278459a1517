//! Sorting the entries of a tree by name: byte-wise, and stable, so that
//! the result is settled by the input.

use crate::order::{
    bytes_le, lemma_lex_le_antisymmetric, lemma_lex_le_reflexive, lemma_lex_le_total,
    lemma_lex_le_transitive, lex_le,
};
use crate::tree::{entry_views, EntryView, TreeEntry};
use vstd::multiset::{lemma_insert_increases_count_by_1, lemma_insert_other_elements_unchanged};
use vstd::prelude::*;
use vstd::seq_lib::to_multiset_build;

verus! {

/// The names of `es` never go down in byte-wise order.
pub open spec fn sorted_by_name(es: Seq<EntryView>) -> bool {
    forall|i: int, j: int| 0 <= i < j < es.len() ==> lex_le(es[i].name, es[j].name)
}

/// The entries of `es` that carry the name `name`, in their order in `es`.
pub open spec fn with_name(es: Seq<EntryView>, name: Seq<u8>) -> Seq<EntryView> {
    es.filter(|e: EntryView| e.name == name)
}

/// `sorted` holds the entries of `es` in byte-wise order of their names,
/// entries of one name in the order in which `es` holds them.
pub open spec fn is_sorted_copy(sorted: Seq<EntryView>, es: Seq<EntryView>) -> bool {
    &&& sorted_by_name(sorted)
    &&& forall|name: Seq<u8>| #[trigger] with_name(sorted, name) == with_name(es, name)
}

/// Where no entry of `es` carries `name`, `with_name` gives nothing.
proof fn lemma_with_name_none(es: Seq<EntryView>, name: Seq<u8>)
    requires
        forall|i: int| 0 <= i < es.len() ==> es[i].name != name,
    ensures
        with_name(es, name) == Seq::<EntryView>::empty(),
    decreases es.len(),
{
    reveal(Seq::filter);
    if es.len() > 0 {
        lemma_with_name_none(es.drop_last(), name);
    }
}

/// `with_name` of one entry: the entry itself where the name is its own.
proof fn lemma_with_name_one(e: EntryView, name: Seq<u8>)
    ensures
        with_name(seq![e], name) == if e.name == name {
            seq![e]
        } else {
            Seq::<EntryView>::empty()
        },
{
    reveal(Seq::filter);
    let s = seq![e];
    assert(s.drop_last() =~= Seq::<EntryView>::empty());
    lemma_with_name_none(s.drop_last(), name);
    assert(Seq::<EntryView>::empty().push(e) =~= seq![e]);
}

/// `with_name` goes through a join.
proof fn lemma_with_name_add(a: Seq<EntryView>, b: Seq<EntryView>, name: Seq<u8>)
    ensures
        with_name(a + b, name) == with_name(a, name) + with_name(b, name),
{
    Seq::filter_distributes_over_add(a, b, |e: EntryView| e.name == name);
}

/// An entry of `es` is among those of `es` that carry its name.
proof fn lemma_with_name_holds(es: Seq<EntryView>, i: int)
    requires
        0 <= i < es.len(),
    ensures
        with_name(es, es[i].name).contains(es[i]),
{
    let pred = |e: EntryView| e.name == es[i].name;
    es.lemma_filter_contains(pred, i);
}

/// What carries `name` in `es` is an entry of `es` and does carry `name`.
proof fn lemma_with_name_from(es: Seq<EntryView>, name: Seq<u8>, k: int)
    requires
        0 <= k < with_name(es, name).len(),
    ensures
        with_name(es, name)[k].name == name,
        es.contains(with_name(es, name)[k]),
{
    let pred = |e: EntryView| e.name == name;
    es.lemma_filter_pred(pred, k);
    es.lemma_filter_contains_rev(pred, with_name(es, name)[k]);
}

/// The first entry of a sequence leads those of its name, and has no part
/// in those of another name.
proof fn lemma_first_leads_its_name(es: Seq<EntryView>)
    requires
        es.len() > 0,
    ensures
        with_name(es, es[0].name) == seq![es[0]] + with_name(es.drop_first(), es[0].name),
        forall|name: Seq<u8>|
            name != es[0].name ==> #[trigger] with_name(es, name) == with_name(
                es.drop_first(),
                name,
            ),
{
    assert(es =~= seq![es[0]] + es.drop_first());
    assert forall|name: Seq<u8>| #[trigger]
        with_name(es, name) == with_name(seq![es[0]], name) + with_name(
            es.drop_first(),
            name,
        ) by {
        lemma_with_name_add(seq![es[0]], es.drop_first(), name);
        lemma_with_name_one(es[0], name);
    }
    lemma_with_name_one(es[0], es[0].name);
    assert forall|name: Seq<u8>| name != es[0].name implies #[trigger] with_name(es, name)
        == with_name(es.drop_first(), name) by {
        lemma_with_name_one(es[0], name);
        assert(Seq::<EntryView>::empty() + with_name(es.drop_first(), name) =~= with_name(
            es.drop_first(),
            name,
        ));
    }
}

/// The first name of a sequence sorted by name is no later than the name of
/// any entry that the sequence holds.
proof fn lemma_first_name_least(es: Seq<EntryView>, e: EntryView)
    requires
        sorted_by_name(es),
        es.contains(e),
    ensures
        lex_le(es[0].name, e.name),
{
    let i = choose|i: int| 0 <= i < es.len() && es[i] == e;
    if i == 0 {
        lemma_lex_le_reflexive(e.name);
    }
}

/// Sorting leaves no choice: two sequences that are both sorted copies of
/// one sequence are the same.
pub proof fn lemma_sorted_copy_unique(a: Seq<EntryView>, b: Seq<EntryView>, es: Seq<EntryView>)
    requires
        is_sorted_copy(a, es),
        is_sorted_copy(b, es),
    ensures
        a == b,
    decreases a.len(),
{
    assert forall|name: Seq<u8>| #[trigger] with_name(a, name) == with_name(b, name) by {
        assert(with_name(a, name) == with_name(es, name));
        assert(with_name(b, name) == with_name(es, name));
    }
    if a.len() == 0 || b.len() == 0 {
        if a.len() > 0 {
            lemma_with_name_holds(a, 0);
            lemma_with_name_none(b, a[0].name);
            assert(with_name(a, a[0].name) == with_name(b, a[0].name));
        }
        if b.len() > 0 {
            lemma_with_name_holds(b, 0);
            lemma_with_name_none(a, b[0].name);
            assert(with_name(a, b[0].name) == with_name(b, b[0].name));
        }
        assert(a =~= b);
    } else {
        let na = a[0].name;
        let nb = b[0].name;
        lemma_first_leads_its_name(a);
        lemma_first_leads_its_name(b);
        // Each first name occurs in the other sequence, so neither is later.
        assert(with_name(a, na)[0] == a[0]);
        assert(with_name(b, na) == with_name(a, na));
        lemma_with_name_from(b, na, 0);
        lemma_first_name_least(b, with_name(b, na)[0]);
        assert(with_name(b, nb)[0] == b[0]);
        assert(with_name(a, nb) == with_name(b, nb));
        lemma_with_name_from(a, nb, 0);
        lemma_first_name_least(a, with_name(a, nb)[0]);
        lemma_lex_le_antisymmetric(na, nb);
        assert(a[0] == b[0]);
        let ta = a.drop_first();
        let tb = b.drop_first();
        assert forall|name: Seq<u8>| #[trigger] with_name(ta, name) == with_name(tb, name) by {
            assert(with_name(a, name) == with_name(b, name));
            if name == na {
                assert(with_name(ta, name) =~= with_name(a, name).drop_first());
                assert(with_name(tb, name) =~= with_name(b, name).drop_first());
            }
        }
        assert forall|i: int, j: int| 0 <= i < j < ta.len() implies lex_le(
            ta[i].name,
            ta[j].name,
        ) by {
            assert(lex_le(a[i + 1].name, a[j + 1].name));
        }
        assert forall|i: int, j: int| 0 <= i < j < tb.len() implies lex_le(
            tb[i].name,
            tb[j].name,
        ) by {
            assert(lex_le(b[i + 1].name, b[j + 1].name));
        }
        lemma_sorted_copy_unique(ta, tb, tb);
        assert(a =~= seq![a[0]] + ta);
        assert(b =~= seq![b[0]] + tb);
    }
}

/// An entry occurs in `es` as often as among the entries of `es` that carry
/// its name.
proof fn lemma_count_with_name(es: Seq<EntryView>, e: EntryView)
    ensures
        es.to_multiset().count(e) == with_name(es, e.name).to_multiset().count(e),
    decreases es.len(),
{
    reveal(Seq::filter);
    if es.len() == 0 {
        assert(with_name(es, e.name) =~= es);
    } else {
        let front = es.drop_last();
        let last = es.last();
        lemma_count_with_name(front, e);
        assert(es =~= front.push(last));
        to_multiset_build(front, last);
        lemma_insert_increases_count_by_1(front.to_multiset(), last);
        lemma_insert_other_elements_unchanged(front.to_multiset(), last, e);
        if last.name == e.name {
            let kept = with_name(front, e.name);
            assert(with_name(es, e.name) == kept.push(last));
            to_multiset_build(kept, last);
            lemma_insert_increases_count_by_1(kept.to_multiset(), last);
            lemma_insert_other_elements_unchanged(kept.to_multiset(), last, e);
        }
    }
}

/// A sorted copy holds what was sorted, each entry as often: nothing is
/// lost, made up or doubled.
pub proof fn lemma_sorted_copy_is_permutation(sorted: Seq<EntryView>, es: Seq<EntryView>)
    requires
        is_sorted_copy(sorted, es),
    ensures
        sorted.to_multiset() == es.to_multiset(),
        sorted.len() == es.len(),
{
    assert forall|e: EntryView| sorted.to_multiset().count(e) == es.to_multiset().count(e) by {
        lemma_count_with_name(sorted, e);
        lemma_count_with_name(es, e);
        assert(with_name(sorted, e.name) == with_name(es, e.name));
    }
    assert(sorted.to_multiset() =~= es.to_multiset());
    sorted.to_multiset_ensures();
    es.to_multiset_ensures();
}

/// Index of the first entry of `sorted` whose name is no earlier than `name`.
fn insertion_point(sorted: &Vec<TreeEntry>, name: &[u8]) -> (pos: usize)
    requires
        sorted_by_name(entry_views(sorted@)),
    ensures
        pos <= sorted@.len(),
        forall|j: int| 0 <= j < pos ==> !lex_le(name@, sorted@[j].name@),
        forall|j: int| pos <= j < sorted@.len() ==> lex_le(name@, sorted@[j].name@),
{
    let mut pos: usize = 0;
    while pos < sorted.len() && !bytes_le(name, sorted[pos].name.as_slice())
        invariant
            pos <= sorted@.len(),
            forall|j: int| 0 <= j < pos ==> !lex_le(name@, sorted@[j].name@),
        decreases sorted@.len() - pos,
    {
        pos = pos + 1;
    }
    proof {
        let views = entry_views(sorted@);
        assert forall|j: int| pos <= j < sorted@.len() implies lex_le(
            name@,
            sorted@[j].name@,
        ) by {
            if j > pos {
                assert(lex_le(views[pos as int].name, views[j].name));
                lemma_lex_le_transitive(name@, sorted@[pos as int].name@, sorted@[j].name@);
            }
        }
    }
    pos
}

/// Puts `entry` into `sorted` before the first entry whose name is no
/// earlier than its own.
fn insert_by_name(sorted: &mut Vec<TreeEntry>, entry: TreeEntry)
    requires
        sorted_by_name(entry_views(old(sorted)@)),
    ensures
        final(sorted)@.len() == old(sorted)@.len() + 1,
        sorted_by_name(entry_views(final(sorted)@)),
        forall|name: Seq<u8>| #[trigger]
            with_name(entry_views(final(sorted)@), name) == with_name(
                seq![entry@] + entry_views(old(sorted)@),
                name,
            ),
{
    let pos = insertion_point(sorted, entry.name.as_slice());
    let ghost before = entry_views(sorted@);
    let ghost e = entry@;
    sorted.insert(pos, entry);
    proof {
        let after = entry_views(sorted@);
        let head = before.take(pos as int);
        let tail = before.skip(pos as int);
        assert(after =~= head + seq![e] + tail);
        assert(before =~= head + tail);
        assert forall|i: int, j: int| 0 <= i < j < after.len() implies lex_le(
            after[i].name,
            after[j].name,
        ) by {
            if j < pos {
                assert(lex_le(before[i].name, before[j].name));
            } else if j == pos {
                lemma_lex_le_total(e.name, before[i].name);
            } else if i < pos {
                assert(lex_le(before[i].name, before[j - 1].name));
            } else if i == pos {
                assert(lex_le(e.name, before[j - 1].name));
            } else {
                assert(lex_le(before[i - 1].name, before[j - 1].name));
            }
        }
        assert forall|name: Seq<u8>| #[trigger]
            with_name(after, name) == with_name(seq![e] + before, name) by {
            lemma_with_name_add(head + seq![e], tail, name);
            lemma_with_name_add(head, seq![e], name);
            lemma_with_name_add(head, tail, name);
            lemma_with_name_add(seq![e], before, name);
            lemma_with_name_one(e, name);
            if e.name == name {
                assert forall|i: int| 0 <= i < head.len() implies head[i].name != name by {
                    lemma_lex_le_reflexive(name);
                }
                lemma_with_name_none(head, name);
            }
        }
    }
}

/// Sorts entries by name, byte-wise. Entries of one name keep their order.
pub fn sort_by_name(entries: Vec<TreeEntry>) -> (sorted: Vec<TreeEntry>)
    ensures
        is_sorted_copy(entry_views(sorted@), entry_views(entries@)),
        sorted@.len() == entries@.len(),
{
    let ghost all = entry_views(entries@);
    let mut pending = entries;
    let mut sorted: Vec<TreeEntry> = Vec::new();
    assert(all.skip(all.len() as int) =~= entry_views(sorted@));
    loop
        invariant
            pending@.len() <= all.len(),
            entry_views(pending@) == all.take(pending@.len() as int),
            is_sorted_copy(entry_views(sorted@), all.skip(pending@.len() as int)),
            sorted@.len() + pending@.len() == all.len(),
        ensures
            pending@.len() == 0,
            is_sorted_copy(entry_views(sorted@), all.skip(pending@.len() as int)),
            sorted@.len() + pending@.len() == all.len(),
        decreases pending@.len(),
    {
        let ghost k = pending@.len() as int;
        let ghost done = entry_views(sorted@);
        let ghost waiting = pending@;
        match pending.pop() {
            Some(entry) => {
                let ghost e = entry@;
                insert_by_name(&mut sorted, entry);
                proof {
                    assert(entry_views(pending@) =~= all.take(k - 1));
                    assert(entry_views(waiting)[k - 1] == waiting[k - 1]@);
                    assert(e == all[k - 1]);
                    assert(all.skip(k - 1) =~= seq![e] + all.skip(k));
                    assert forall|name: Seq<u8>| #[trigger]
                        with_name(entry_views(sorted@), name) == with_name(
                            all.skip(k - 1),
                            name,
                        ) by {
                        lemma_with_name_add(seq![e], done, name);
                        lemma_with_name_add(seq![e], all.skip(k), name);
                        assert(with_name(done, name) == with_name(all.skip(k), name));
                    }
                }
            },
            None => {
                break ;
            },
        }
    }
    assert(all.skip(0) =~= all);
    sorted
}

} // verus!
