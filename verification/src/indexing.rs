//! The mathematical model of the store's indices.
//!
//! A store's contents are modelled by the sequence of its adopted items in
//! insertion order. Everything else is derived from that sequence: the id
//! index ([`id_map_of`]), the per-day buckets ([`bucket_of`]), the lookups
//! filtered by kind, and what counts as a conflict ([`spec_conflicts`]).
//! The lemmas here relate those derived forms under the store's invariants
//! (distinct ids, valid times, pairwise disjoint intervals).

use vstd::prelude::*;
use crate::model::{overlaps, GeneratorInstance, Item, Kind};

verus! {

/// Some item in `s` carries the id.
pub open spec fn contains_id(s: Seq<Item>, id: u128) -> bool {
    exists|i: int| 0 <= i < s.len() && s[i].id == id
}

/// No two items of `s` share an id.
pub open spec fn ids_distinct(s: Seq<Item>) -> bool {
    forall|i: int, j: int| 0 <= i < j < s.len() ==> s[i].id != s[j].id
}

/// Every item of `s` has ordered, in-epoch times.
pub open spec fn all_valid(s: Seq<Item>) -> bool {
    forall|i: int| 0 <= i < s.len() ==> (#[trigger] s[i]).spec_valid()
}

/// No two distinct items of `s` overlap in time.
pub open spec fn pairwise_disjoint(s: Seq<Item>) -> bool {
    forall|i: int, j: int|
        0 <= i < s.len() && 0 <= j < s.len() && i != j ==> !overlaps(s[i], s[j])
}

/// `s` with every item carrying `id` removed, order kept.
pub open spec fn remove_id(s: Seq<Item>, id: u128) -> Seq<Item>
    decreases s.len(),
{
    if s.len() == 0 {
        Seq::empty()
    } else if s.last().id == id {
        remove_id(s.drop_last(), id)
    } else {
        remove_id(s.drop_last(), id).push(s.last())
    }
}

/// The id index derived from `s`: each id maps to the item last inserted
/// under it.
pub open spec fn id_map_of(s: Seq<Item>) -> Map<u128, Item>
    decreases s.len(),
{
    if s.len() == 0 {
        Map::empty()
    } else {
        id_map_of(s.drop_last()).insert(s.last().id, s.last())
    }
}

/// The day bucket derived from `s`: the ids of the items whose span touches
/// `day`, in insertion order.
pub open spec fn bucket_of(s: Seq<Item>, day: int) -> Seq<u128>
    decreases s.len(),
{
    if s.len() == 0 {
        Seq::empty()
    } else if s.last().spans(day) {
        bucket_of(s.drop_last(), day).push(s.last().id)
    } else {
        bucket_of(s.drop_last(), day)
    }
}

/// `b` with every occurrence of `id` removed, order kept.
pub open spec fn remove_uid(b: Seq<u128>, id: u128) -> Seq<u128>
    decreases b.len(),
{
    if b.len() == 0 {
        Seq::empty()
    } else if b.last() == id {
        remove_uid(b.drop_last(), id)
    } else {
        remove_uid(b.drop_last(), id).push(b.last())
    }
}

/// The items of `s` of the given kind, in insertion order.
pub open spec fn kind_filter(s: Seq<Item>, kind: Kind) -> Seq<Item>
    decreases s.len(),
{
    if s.len() == 0 {
        Seq::empty()
    } else if s.last().kind == kind {
        kind_filter(s.drop_last(), kind).push(s.last())
    } else {
        kind_filter(s.drop_last(), kind)
    }
}

/// The items of `s` of the given kind whose span touches `day`, in
/// insertion order.
pub open spec fn day_items_of(s: Seq<Item>, day: int, kind: Kind) -> Seq<Item>
    decreases s.len(),
{
    if s.len() == 0 {
        Seq::empty()
    } else if s.last().spans(day) && s.last().kind == kind {
        day_items_of(s.drop_last(), day, kind).push(s.last())
    } else {
        day_items_of(s.drop_last(), day, kind)
    }
}

/// The items a day bucket denotes under an id index, filtered by kind:
/// what a per-day lookup resolves bucket ids to.
pub open spec fn collect_day_items(b: Seq<u128>, m: Map<u128, Item>, kind: Kind) -> Seq<Item>
    decreases b.len(),
{
    if b.len() == 0 {
        Seq::empty()
    } else if m.contains_key(b.last()) && m[b.last()].kind == kind {
        collect_day_items(b.drop_last(), m, kind).push(m[b.last()])
    } else {
        collect_day_items(b.drop_last(), m, kind)
    }
}

/// An item conflicts with the stored sequence: some stored item under a
/// different id overlaps it in time.
pub open spec fn spec_conflicts(s: Seq<Item>, it: Item) -> bool {
    exists|i: int| 0 <= i < s.len() && s[i].id != it.id && overlaps(s[i], it)
}

/// The id index contains exactly the ids carried by items of `s`.
pub proof fn lemma_id_map_of_contains(s: Seq<Item>, k: u128)
    ensures
        id_map_of(s).contains_key(k) <==> contains_id(s, k),
    decreases s.len(),
{
    if s.len() == 0 {
    } else {
        let s0 = s.drop_last();
        lemma_id_map_of_contains(s0, k);
        if s.last().id == k {
            assert(s[s.len() - 1].id == k);
        } else {
            if contains_id(s0, k) {
                let i = choose|i: int| 0 <= i < s0.len() && s0[i].id == k;
                assert(s[i].id == k);
            }
            if contains_id(s, k) {
                let i = choose|i: int| 0 <= i < s.len() && s[i].id == k;
                assert(i < s.len() - 1);
                assert(s0[i].id == k);
            }
        }
    }
}

/// Under distinct ids, the id index maps each item's id back to the item.
pub proof fn lemma_id_map_of_index(s: Seq<Item>)
    requires
        ids_distinct(s),
    ensures
        forall|i: int|
            0 <= i < s.len() ==> id_map_of(s).contains_key((#[trigger] s[i]).id)
                && id_map_of(s)[s[i].id] == s[i],
    decreases s.len(),
{
    if s.len() == 0 {
    } else {
        let s0 = s.drop_last();
        lemma_id_map_of_index(s0);
        assert forall|i: int|
            0 <= i < s.len() implies id_map_of(s).contains_key((#[trigger] s[i]).id)
            && id_map_of(s)[s[i].id] == s[i] by {
            if i < s.len() - 1 {
                assert(s0[i] == s[i]);
                assert(s[i].id != s.last().id);
            }
        }
    }
}

/// Removing an id keeps only items of other ids, each taken from `s`.
pub proof fn lemma_remove_id_parts(s: Seq<Item>, id: u128)
    ensures
        remove_id(s, id).len() <= s.len(),
        forall|j: int|
            0 <= j < remove_id(s, id).len() ==> (#[trigger] remove_id(s, id)[j]).id != id
                && exists|i: int| 0 <= i < s.len() && s[i] == remove_id(s, id)[j],
    decreases s.len(),
{
    if s.len() == 0 {
    } else {
        let s0 = s.drop_last();
        let r = remove_id(s, id);
        let r0 = remove_id(s0, id);
        lemma_remove_id_parts(s0, id);
        assert forall|j: int|
            0 <= j < r.len() implies (#[trigger] r[j]).id != id && exists|i: int|
            0 <= i < s.len() && s[i] == r[j] by {
            if s.last().id != id && j == r.len() - 1 {
                assert(r[j] == s.last());
                assert(s[s.len() - 1] == r[j]);
            } else {
                assert(r[j] == r0[j]);
                let i = choose|i: int| 0 <= i < s0.len() && s0[i] == r0[j];
                assert(s[i] == r[j]);
            }
        }
    }
}

/// Removing an id from a distinct-id sequence: the ids stay distinct, the
/// removed id is gone, other ids are untouched, and the id index loses
/// exactly that key.
pub proof fn lemma_remove_id_distinct(s: Seq<Item>, id: u128)
    requires
        ids_distinct(s),
    ensures
        ids_distinct(remove_id(s, id)),
        !contains_id(remove_id(s, id), id),
        forall|k: u128| k != id ==> (contains_id(remove_id(s, id), k) <==> contains_id(s, k)),
        id_map_of(remove_id(s, id)) == id_map_of(s).remove(id),
    decreases s.len(),
{
    let r = remove_id(s, id);
    lemma_remove_id_parts(s, id);
    if s.len() == 0 {
        assert(id_map_of(r) =~= id_map_of(s).remove(id));
    } else {
        let s0 = s.drop_last();
        let x = s.last();
        let r0 = remove_id(s0, id);
        lemma_remove_id_parts(s0, id);
        lemma_remove_id_distinct(s0, id);
        if x.id == id {
            assert(id_map_of(r) =~= id_map_of(s).remove(id));
            assert forall|k: u128| k != id implies (contains_id(r, k) <==> contains_id(
                s,
                k,
            )) by {
                if contains_id(s, k) {
                    let i = choose|i: int| 0 <= i < s.len() && s[i].id == k;
                    assert(i < s.len() - 1);
                    assert(s0[i].id == k);
                    assert(contains_id(s0, k));
                }
                if contains_id(r, k) {
                    assert(contains_id(s0, k));
                    let i = choose|i: int| 0 <= i < s0.len() && s0[i].id == k;
                    assert(s[i].id == k);
                }
            }
        } else {
            assert(r == r0.push(x));
            // the pushed item's id occurs nowhere in the prefix
            assert forall|j: int| 0 <= j < r0.len() implies (#[trigger] r0[j]).id != x.id by {
                let i = choose|i: int| 0 <= i < s0.len() && s0[i] == r0[j];
                assert(s[i] == r0[j]);
                assert(s[i].id != s[s.len() - 1].id);
            }
            assert(ids_distinct(r)) by {
                assert forall|i: int, j: int| 0 <= i < j < r.len() implies r[i].id != r[j].id by {
                    if j < r.len() - 1 {
                        assert(r0[i] == r[i] && r0[j] == r[j]);
                    } else {
                        assert(r0[i] == r[i]);
                        assert(r[j] == x);
                    }
                }
            }
            assert(!contains_id(r, id)) by {
                if contains_id(r, id) {
                    let j = choose|j: int| 0 <= j < r.len() && r[j].id == id;
                    assert(r[j].id != id);
                }
            }
            assert forall|k: u128| k != id implies (contains_id(r, k) <==> contains_id(
                s,
                k,
            )) by {
                if contains_id(r, k) {
                    let j = choose|j: int| 0 <= j < r.len() && r[j].id == k;
                    if j < r.len() - 1 {
                        assert(r0[j].id == k);
                        let i = choose|i: int| 0 <= i < s0.len() && s0[i].id == k;
                        assert(s[i].id == k);
                    } else {
                        assert(s[s.len() - 1].id == k);
                    }
                }
                if contains_id(s, k) {
                    let i = choose|i: int| 0 <= i < s.len() && s[i].id == k;
                    if i < s.len() - 1 {
                        assert(s0[i].id == k);
                        assert(contains_id(s0, k));
                        assert(contains_id(r0, k));
                        let j = choose|j: int| 0 <= j < r0.len() && r0[j].id == k;
                        assert(r[j].id == k);
                    } else {
                        assert(r[r.len() - 1].id == k);
                    }
                }
            }
            assert(id_map_of(r) == id_map_of(s).remove(id)) by {
                assert(r.drop_last() =~= r0);
                assert(id_map_of(r) == id_map_of(r0).insert(x.id, x));
                assert(id_map_of(r0).insert(x.id, x) =~= id_map_of(s0).remove(id).insert(
                    x.id,
                    x,
                ));
                assert(id_map_of(s0).remove(id).insert(x.id, x) =~= id_map_of(s0).insert(
                    x.id,
                    x,
                ).remove(id));
            }
        }
    }
}

/// Removing an id keeps every item valid and the intervals disjoint.
pub proof fn lemma_remove_id_preserves(s: Seq<Item>, id: u128)
    requires
        ids_distinct(s),
        all_valid(s),
        pairwise_disjoint(s),
    ensures
        all_valid(remove_id(s, id)),
        pairwise_disjoint(remove_id(s, id)),
{
    let r = remove_id(s, id);
    lemma_remove_id_parts(s, id);
    lemma_remove_id_distinct(s, id);
    assert forall|j: int| 0 <= j < r.len() implies (#[trigger] r[j]).spec_valid() by {
        let i = choose|i: int| 0 <= i < s.len() && s[i] == r[j];
    }
    assert forall|j1: int, j2: int|
        0 <= j1 < r.len() && 0 <= j2 < r.len() && j1 != j2 implies !overlaps(r[j1], r[j2]) by {
        let i1 = choose|i: int| 0 <= i < s.len() && s[i] == r[j1];
        let i2 = choose|i: int| 0 <= i < s.len() && s[i] == r[j2];
        if i1 == i2 {
            assert(r[j1] == r[j2]);
            if j1 < j2 {
                assert(r[j1].id != r[j2].id);
            } else {
                assert(r[j2].id != r[j1].id);
            }
        }
        assert(!overlaps(s[i1], s[i2]));
    }
}

/// Removing an id that occurs nowhere changes nothing.
pub proof fn lemma_remove_id_absent(s: Seq<Item>, id: u128)
    requires
        !contains_id(s, id),
    ensures
        remove_id(s, id) == s,
    decreases s.len(),
{
    if s.len() == 0 {
        assert(remove_id(s, id) =~= s);
    } else {
        let s0 = s.drop_last();
        assert(!contains_id(s0, id)) by {
            if contains_id(s0, id) {
                let i = choose|i: int| 0 <= i < s0.len() && s0[i].id == id;
                assert(s[i].id == id);
            }
        }
        lemma_remove_id_absent(s0, id);
        assert(s[s.len() - 1].id != id);
        assert(remove_id(s, id) =~= s);
    }
}

/// A day bucket holds exactly the ids of the items of `s` spanning the day.
pub proof fn lemma_bucket_of_members(s: Seq<Item>, day: int)
    ensures
        forall|k: u128|
            #[trigger] bucket_of(s, day).contains(k) <==> exists|i: int|
                0 <= i < s.len() && s[i].id == k && (#[trigger] s[i]).spans(day),
    decreases s.len(),
{
    if s.len() == 0 {
    } else {
        let s0 = s.drop_last();
        let x = s.last();
        let b = bucket_of(s, day);
        let b0 = bucket_of(s0, day);
        lemma_bucket_of_members(s0, day);
        assert forall|k: u128| #[trigger] b.contains(k) implies exists|i: int|
            0 <= i < s.len() && s[i].id == k && (#[trigger] s[i]).spans(day) by {
            let j = choose|j: int| 0 <= j < b.len() && b[j] == k;
            if x.spans(day) && j == b.len() - 1 {
                assert(s[s.len() - 1].id == k && s[s.len() - 1].spans(day));
            } else {
                assert(b0[j] == k);
                assert(b0.contains(k));
                let i = choose|i: int| 0 <= i < s0.len() && s0[i].id == k && s0[i].spans(day);
                assert(s[i].id == k && s[i].spans(day));
            }
        }
        assert forall|k: u128|
            (exists|i: int| 0 <= i < s.len() && s[i].id == k && (#[trigger] s[i]).spans(day))
            implies #[trigger] b.contains(k) by {
            let i = choose|i: int| 0 <= i < s.len() && s[i].id == k && s[i].spans(day);
            if i < s.len() - 1 {
                assert(s0[i].id == k && s0[i].spans(day));
                assert(b0.contains(k));
                let j = choose|j: int| 0 <= j < b0.len() && b0[j] == k;
                assert(b[j] == k);
            } else {
                assert(b[b.len() - 1] == k);
            }
        }
    }
}

/// A day's lookup result holds exactly the items of `s` of the requested
/// kind whose span touches the day.
pub proof fn lemma_day_items_members(s: Seq<Item>, day: int, kind: Kind)
    ensures
        forall|it: Item|
            #[trigger] day_items_of(s, day, kind).contains(it) <==> exists|i: int|
                0 <= i < s.len() && #[trigger] s[i] == it && it.spans(day) && it.kind == kind,
    decreases s.len(),
{
    if s.len() == 0 {
    } else {
        let s0 = s.drop_last();
        let x = s.last();
        let r = day_items_of(s, day, kind);
        let r0 = day_items_of(s0, day, kind);
        lemma_day_items_members(s0, day, kind);
        assert forall|it: Item| #[trigger] r.contains(it) implies exists|i: int|
            0 <= i < s.len() && #[trigger] s[i] == it && it.spans(day) && it.kind == kind by {
            let j = choose|j: int| 0 <= j < r.len() && r[j] == it;
            if x.spans(day) && x.kind == kind && j == r.len() - 1 {
                assert(s[s.len() - 1] == it);
            } else {
                assert(r0[j] == it);
                assert(r0.contains(it));
                let i = choose|i: int|
                    0 <= i < s0.len() && #[trigger] s0[i] == it && it.spans(day) && it.kind
                        == kind;
                assert(s[i] == it);
            }
        }
        assert forall|it: Item|
            (exists|i: int|
                0 <= i < s.len() && #[trigger] s[i] == it && it.spans(day) && it.kind == kind)
            implies #[trigger] r.contains(it) by {
            let i = choose|i: int|
                0 <= i < s.len() && #[trigger] s[i] == it && it.spans(day) && it.kind == kind;
            if i < s.len() - 1 {
                assert(s0[i] == it);
                assert(r0.contains(it));
                let j = choose|j: int| 0 <= j < r0.len() && r0[j] == it;
                assert(r[j] == it);
            } else {
                assert(r[r.len() - 1] == it);
            }
        }
    }
}

/// Removing an id commutes with taking a day bucket.
pub proof fn lemma_bucket_remove(s: Seq<Item>, id: u128, day: int)
    ensures
        bucket_of(remove_id(s, id), day) == remove_uid(bucket_of(s, day), id),
    decreases s.len(),
{
    if s.len() == 0 {
    } else {
        let s0 = s.drop_last();
        let x = s.last();
        lemma_bucket_remove(s0, id, day);
        if x.id == id {
            if x.spans(day) {
                assert(bucket_of(s0, day).push(x.id).drop_last() =~= bucket_of(s0, day));
            }
        } else {
            let r0 = remove_id(s0, id);
            assert(remove_id(s, id) == r0.push(x));
            assert(r0.push(x).drop_last() =~= r0);
            assert(r0.push(x).last() == x);
            if x.spans(day) {
                assert(bucket_of(s0, day).push(x.id).drop_last() =~= bucket_of(s0, day));
                assert(bucket_of(s0, day).push(x.id).last() == x.id);
            }
        }
    }
}

/// Removing an id that a bucket does not hold changes nothing.
pub proof fn lemma_remove_uid_absent(b: Seq<u128>, id: u128)
    requires
        !b.contains(id),
    ensures
        remove_uid(b, id) == b,
    decreases b.len(),
{
    if b.len() == 0 {
        assert(remove_uid(b, id) =~= b);
    } else {
        let b0 = b.drop_last();
        assert(!b0.contains(id)) by {
            if b0.contains(id) {
                let i = choose|i: int| 0 <= i < b0.len() && b0[i] == id;
                assert(b[i] == id);
            }
        }
        lemma_remove_uid_absent(b0, id);
        assert(b[b.len() - 1] != id);
        assert(remove_uid(b, id) =~= b);
    }
}

/// If every id found in the buckets of the days an item touches belongs to
/// a non-overlapping (or same-id) stored item, the item conflicts with
/// nothing stored: any overlap would surface in some touched day's bucket.
pub proof fn lemma_scan_complete(s: Seq<Item>, it: Item)
    requires
        ids_distinct(s),
        all_valid(s),
        it.spec_valid(),
        forall|d: int|
            #![trigger bucket_of(s, d)]
            it.start_day() <= d <= it.end_day() ==> (forall|k: u128|
                #[trigger] bucket_of(s, d).contains(k) ==> k == it.id || !overlaps(
                    id_map_of(s)[k],
                    it,
                )),
    ensures
        !spec_conflicts(s, it),
{
    lemma_id_map_of_index(s);
    assert forall|i: int|
        0 <= i < s.len() && (#[trigger] s[i]).id != it.id implies !overlaps(s[i], it) by {
        if overlaps(s[i], it) {
            crate::model::lemma_overlap_shares_day(it, s[i]);
            let d = choose|d: int| it.spans(d) && s[i].spans(d);
            lemma_bucket_of_members(s, d);
            assert(bucket_of(s, d).contains(s[i].id));
            assert(id_map_of(s)[s[i].id] == s[i]);
            assert(false);
        }
    }
}

/// Resolving a bucket through an id index ignores keys the bucket does not
/// hold.
pub proof fn lemma_collect_insert_fresh(
    b: Seq<u128>,
    m: Map<u128, Item>,
    k: u128,
    v: Item,
    kind: Kind,
)
    requires
        !b.contains(k),
    ensures
        collect_day_items(b, m.insert(k, v), kind) == collect_day_items(b, m, kind),
    decreases b.len(),
{
    if b.len() == 0 {
    } else {
        let b0 = b.drop_last();
        assert(!b0.contains(k)) by {
            if b0.contains(k) {
                let i = choose|i: int| 0 <= i < b0.len() && b0[i] == k;
                assert(b[i] == k);
            }
        }
        lemma_collect_insert_fresh(b0, m, k, v, kind);
        assert(b[b.len() - 1] != k);
    }
}

/// Resolving a day bucket through the id index yields exactly the day's
/// items of the requested kind, in insertion order.
pub proof fn lemma_collect_bucket(s: Seq<Item>, day: int, kind: Kind)
    requires
        ids_distinct(s),
    ensures
        collect_day_items(bucket_of(s, day), id_map_of(s), kind) == day_items_of(s, day, kind),
    decreases s.len(),
{
    if s.len() == 0 {
    } else {
        let s0 = s.drop_last();
        let x = s.last();
        let b0 = bucket_of(s0, day);
        let m0 = id_map_of(s0);
        let m = id_map_of(s);
        lemma_collect_bucket(s0, day, kind);
        assert(!b0.contains(x.id)) by {
            lemma_bucket_of_members(s0, day);
            if b0.contains(x.id) {
                let i = choose|i: int| 0 <= i < s0.len() && s0[i].id == x.id && s0[i].spans(day);
                assert(s[i].id == s[s.len() - 1].id);
            }
        }
        lemma_collect_insert_fresh(b0, m0, x.id, x, kind);
        if x.spans(day) {
            let b = b0.push(x.id);
            assert(b.drop_last() =~= b0);
            assert(b.last() == x.id);
            assert(m.contains_key(x.id) && m[x.id] == x);
        }
    }
}

} // verus!
