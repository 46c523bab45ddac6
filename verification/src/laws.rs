//! The store's laws: what holds of every batch, every deletion and every
//! snapshot, proved once over the model that the store's contracts speak
//! of ([`batch_outcome`], [`id_map_of`], [`bucket_of`]).

use vstd::prelude::*;
use crate::cache::{batch_outcome, ignores_conflict, StoreModel};
use crate::indexing::{
    all_valid, bucket_of, contains_id, day_items_of, id_map_of, ids_distinct,
    lemma_bucket_of_members, lemma_day_items_members, lemma_id_map_of_index,
    lemma_remove_id_absent, lemma_remove_id_distinct, pairwise_disjoint, remove_id,
    spec_conflicts,
};
use crate::model::{overlaps, GeneratorInstance, Item};
use crate::persist::{snapshot_entry, spec_item_of, spec_items_of, lemma_represents_round_trip};

verus! {

/// The model of a freshly initialized store: nothing adopted, no instances.
pub open spec fn empty_store_model() -> StoreModel {
    StoreModel { order: Seq::<Item>::empty(), instances: Map::<u128, GeneratorInstance>::empty() }
}

/// A batch of valid items that are pairwise disjoint, carry fresh distinct
/// ids, and overlap nothing stored is adopted wholly and in order: the
/// whole call succeeds and simply appends the batch.
pub proof fn lemma_batch_no_conflict(m: StoreModel, items: Seq<Item>)
    requires
        all_valid(items),
        ids_distinct(m.order + items),
        pairwise_disjoint(m.order + items),
    ensures
        batch_outcome(m, items) == (
            StoreModel { order: m.order + items, instances: m.instances },
            Option::<(crate::time::ZonedTime, crate::time::ZonedTime)>::None,
        ),
    decreases items.len(),
{
    let c = m.order + items;
    if items.len() == 0 {
        assert(c =~= m.order);
    } else {
        let it = items.first();
        let n = m.order.len() as int;
        assert(c[n] == it);
        assert(!spec_conflicts(m.order, it)) by {
            if spec_conflicts(m.order, it) {
                let i = choose|i: int|
                    0 <= i < m.order.len() && m.order[i].id != it.id && overlaps(m.order[i], it);
                assert(c[i] == m.order[i]);
                assert(!overlaps(c[i], c[n]));
            }
        }
        assert(!contains_id(m.order, it.id)) by {
            if contains_id(m.order, it.id) {
                let i = choose|i: int| 0 <= i < m.order.len() && m.order[i].id == it.id;
                assert(c[i].id == c[n].id);
            }
        }
        lemma_remove_id_absent(m.order, it.id);
        let m1 = StoreModel { order: m.order.push(it), instances: m.instances };
        let rest = items.drop_first();
        assert(m1.order + rest =~= c);
        assert(all_valid(rest)) by {
            assert forall|i: int| 0 <= i < rest.len() implies (#[trigger] rest[i]).spec_valid() by {
                assert(rest[i] == items[i + 1]);
            }
        }
        lemma_batch_no_conflict(m1, rest);
        assert(m1.order + rest == c);
    }
}

/// Two valid, non-overlapping items of distinct ids are both adopted, in
/// either order, and each is then found under its id and in the bucket of
/// every day it spans.
pub proof fn lemma_insert_pair_either_order(a: Item, b: Item)
    requires
        a.spec_valid(),
        b.spec_valid(),
        a.id != b.id,
        !overlaps(a, b),
    ensures
        batch_outcome(empty_store_model(), seq![a, b]).1 is None,
        batch_outcome(empty_store_model(), seq![b, a]).1 is None,
        pair_retrievable(batch_outcome(empty_store_model(), seq![a, b]).0.order, a, b),
        pair_retrievable(batch_outcome(empty_store_model(), seq![b, a]).0.order, a, b),
{
    lemma_insert_pair_one_order(a, b);
    lemma_insert_pair_one_order(b, a);
    assert(pair_retrievable(batch_outcome(empty_store_model(), seq![b, a]).0.order, a, b)) by {
        assert(pair_retrievable(batch_outcome(empty_store_model(), seq![b, a]).0.order, b, a));
    }
}

/// Both items are found under their ids; each day either item spans has the
/// spanning item's id in its bucket and the item itself in the day's lookup
/// result for its kind.
pub open spec fn pair_retrievable(order: Seq<Item>, a: Item, b: Item) -> bool {
    &&& id_map_of(order).contains_key(a.id) && id_map_of(order)[a.id] == a
    &&& id_map_of(order).contains_key(b.id) && id_map_of(order)[b.id] == b
    &&& forall|d: int| a.spans(d) ==> #[trigger] bucket_of(order, d).contains(a.id)
    &&& forall|d: int| b.spans(d) ==> #[trigger] bucket_of(order, d).contains(b.id)
    &&& forall|d: int| a.spans(d) ==> #[trigger] day_items_of(order, d, a.kind).contains(a)
    &&& forall|d: int| b.spans(d) ==> #[trigger] day_items_of(order, d, b.kind).contains(b)
}

proof fn lemma_insert_pair_one_order(x: Item, y: Item)
    requires
        x.spec_valid(),
        y.spec_valid(),
        x.id != y.id,
        !overlaps(x, y),
    ensures
        batch_outcome(empty_store_model(), seq![x, y]) == (
            StoreModel {
                order: seq![x, y],
                instances: Map::<u128, GeneratorInstance>::empty(),
            },
            Option::<(crate::time::ZonedTime, crate::time::ZonedTime)>::None,
        ),
        pair_retrievable(seq![x, y], x, y),
{
    let items = seq![x, y];
    assert(items[0] == x && items[1] == y);
    assert(overlaps(x, y) == overlaps(y, x));
    assert(ids_distinct(empty_store_model().order + items)) by {
        assert(empty_store_model().order + items =~= items);
    }
    assert(pairwise_disjoint(empty_store_model().order + items)) by {
        assert(empty_store_model().order + items =~= items);
    }
    lemma_batch_no_conflict(empty_store_model(), items);
    assert(empty_store_model().order + items =~= items);
    lemma_id_map_of_index(items);
    assert forall|d: int| x.spans(d) implies #[trigger] bucket_of(items, d).contains(x.id) by {
        lemma_bucket_of_members(items, d);
        assert(items[0].id == x.id && items[0].spans(d));
    }
    assert forall|d: int| y.spans(d) implies #[trigger] bucket_of(items, d).contains(y.id) by {
        lemma_bucket_of_members(items, d);
        assert(items[1].id == y.id && items[1].spans(d));
    }
    assert forall|d: int| x.spans(d) implies #[trigger] day_items_of(items, d, x.kind).contains(
        x,
    ) by {
        lemma_day_items_members(items, d, x.kind);
        assert(items[0] == x);
    }
    assert forall|d: int| y.spans(d) implies #[trigger] day_items_of(items, d, y.kind).contains(
        y,
    ) by {
        lemma_day_items_members(items, d, y.kind);
        assert(items[1] == y);
    }
}

/// An item that overlaps a stored item under another id, with no generator
/// instance telling the store to drop it, fails the call with its own times
/// and changes nothing: it reaches no index.
pub proof fn lemma_conflicting_insert_rejected(m: StoreModel, b: Item)
    requires
        spec_conflicts(m.order, b),
        !ignores_conflict(m.instances, b),
    ensures
        batch_outcome(m, seq![b]) == (m, Option::Some((b.start_time, b.end_time))),
{
    assert(seq![b].first() == b);
}

/// An item that overlaps a stored item but links to a generator instance
/// with `throw_error_when_conflict` off is dropped silently: the call
/// succeeds and the store — its item count included — is unchanged.
pub proof fn lemma_conflicting_item_dropped(m: StoreModel, b: Item)
    requires
        spec_conflicts(m.order, b),
        ignores_conflict(m.instances, b),
    ensures
        batch_outcome(m, seq![b]) == (
            m,
            Option::<(crate::time::ZonedTime, crate::time::ZonedTime)>::None,
        ),
        batch_outcome(m, seq![b]).0.order.len() == m.order.len(),
{
    reveal_with_fuel(batch_outcome, 3);
    assert(seq![b].first() == b);
    assert(seq![b].drop_first() =~= Seq::<Item>::empty());
    assert(batch_outcome(m, seq![b]) == batch_outcome(m, Seq::<Item>::empty()));
}

/// Deleting an id removes it everywhere: from the id index, from the item
/// list, and from every day bucket; every other id keeps its item.
pub proof fn lemma_delete_removes_everywhere(s: Seq<Item>, id: u128)
    requires
        ids_distinct(s),
    ensures
        !contains_id(remove_id(s, id), id),
        id_map_of(remove_id(s, id)) == id_map_of(s).remove(id),
        !id_map_of(remove_id(s, id)).contains_key(id),
        forall|d: int| !(#[trigger] bucket_of(remove_id(s, id), d)).contains(id),
        forall|k: u128| k != id ==> (contains_id(remove_id(s, id), k) <==> contains_id(s, k)),
{
    let r = remove_id(s, id);
    lemma_remove_id_distinct(s, id);
    crate::indexing::lemma_id_map_of_contains(r, id);
    assert forall|d: int| !(#[trigger] bucket_of(r, d)).contains(id) by {
        lemma_bucket_of_members(r, d);
        if bucket_of(r, d).contains(id) {
            let i = choose|i: int| 0 <= i < r.len() && r[i].id == id && r[i].spans(d);
            assert(contains_id(r, id));
        }
    }
}

/// Re-inserting under an id already present replaces the old item wholly:
/// the id maps to the new item, and the id sits in exactly the buckets of
/// the days the new item spans — the old memberships are gone.
pub proof fn lemma_reinsert_replaces(m: StoreModel, a2: Item)
    requires
        ids_distinct(m.order),
        contains_id(m.order, a2.id),
        !spec_conflicts(m.order, a2),
    ensures
        batch_outcome(m, seq![a2]).1 is None,
        batch_outcome(m, seq![a2]).0.order == remove_id(m.order, a2.id).push(a2),
        id_map_of(batch_outcome(m, seq![a2]).0.order) == id_map_of(m.order).insert(a2.id, a2),
        forall|d: int|
            #[trigger] bucket_of(batch_outcome(m, seq![a2]).0.order, d).contains(a2.id) <==> a2.spans(
                d,
            ),
{
    reveal_with_fuel(batch_outcome, 3);
    assert(seq![a2].first() == a2);
    assert(seq![a2].drop_first() =~= Seq::<Item>::empty());
    let r = remove_id(m.order, a2.id);
    let order2 = r.push(a2);
    assert(batch_outcome(m, seq![a2]).0.order == order2);
    lemma_remove_id_distinct(m.order, a2.id);
    assert(r.push(a2).drop_last() =~= r);
    assert(id_map_of(order2) == id_map_of(r).insert(a2.id, a2));
    assert(id_map_of(m.order).remove(a2.id).insert(a2.id, a2) =~= id_map_of(m.order).insert(
        a2.id,
        a2,
    ));
    crate::indexing::lemma_id_map_of_contains(r, a2.id);
    assert forall|d: int|
        #[trigger] bucket_of(order2, d).contains(a2.id) <==> a2.spans(d) by {
        lemma_bucket_of_members(order2, d);
        if a2.spans(d) {
            assert(order2[order2.len() - 1].id == a2.id && order2[order2.len() - 1].spans(d));
        }
        if bucket_of(order2, d).contains(a2.id) {
            let i = choose|i: int|
                0 <= i < order2.len() && order2[i].id == a2.id && order2[i].spans(d);
            if i < order2.len() - 1 {
                assert(r[i].id == a2.id);
                assert(contains_id(r, a2.id));
                assert(false);
            }
        }
    }
}

/// Upserting a batch of generator instances keys the table by id: a key is
/// known afterwards exactly when it was known before or occurs in the
/// batch, and a key the batch carries maps to its last occurrence.
pub proof fn lemma_upsert_all_last_wins(
    m: Map<u128, GeneratorInstance>,
    s: Seq<GeneratorInstance>,
    k: u128,
)
    ensures
        crate::cache::upsert_all(m, s).contains_key(k) <==> (m.contains_key(k) || exists|i: int|
            0 <= i < s.len() && (#[trigger] s[i]).id == k),
        (exists|i: int| 0 <= i < s.len() && (#[trigger] s[i]).id == k) ==> exists|i: int|
            {
                &&& 0 <= i < s.len()
                &&& (#[trigger] s[i]).id == k
                &&& crate::cache::upsert_all(m, s)[k] == s[i]
                &&& forall|j: int| i < j < s.len() ==> (#[trigger] s[j]).id != k
            },
        (!(exists|i: int| 0 <= i < s.len() && (#[trigger] s[i]).id == k) && m.contains_key(k))
            ==> crate::cache::upsert_all(m, s)[k] == m[k],
    decreases s.len(),
{
    if s.len() == 0 {
    } else {
        let first = s.first();
        let rest = s.drop_first();
        let m1 = m.insert(first.id, first);
        lemma_upsert_all_last_wins(m1, rest, k);
        if exists|i: int| 0 <= i < rest.len() && (#[trigger] rest[i]).id == k {
            let i = choose|i: int|
                {
                    &&& 0 <= i < rest.len()
                    &&& (#[trigger] rest[i]).id == k
                    &&& crate::cache::upsert_all(m1, rest)[k] == rest[i]
                    &&& forall|j: int| i < j < rest.len() ==> (#[trigger] rest[j]).id != k
                };
            assert(s[i + 1].id == k);
            assert(crate::cache::upsert_all(m, s)[k] == s[i + 1]);
            assert(forall|j: int| i + 1 < j < s.len() ==> (#[trigger] s[j]).id != k) by {
                assert forall|j: int| i + 1 < j < s.len() implies (#[trigger] s[j]).id != k by {
                    assert(rest[j - 1].id != k);
                }
            }
        } else {
            if first.id == k {
                assert(s[0].id == k);
                assert(crate::cache::upsert_all(m, s)[k] == first);
                assert forall|j: int| 0 < j < s.len() implies (#[trigger] s[j]).id != k by {
                    assert(rest[j - 1] == s[j]);
                    if s[j].id == k {
                        assert(rest[j - 1].id == k);
                    }
                }
            } else {
                if exists|i: int| 0 <= i < s.len() && (#[trigger] s[i]).id == k {
                    let i = choose|i: int| 0 <= i < s.len() && (#[trigger] s[i]).id == k;
                    assert(i > 0);
                    assert(rest[i - 1].id == k);
                }
            }
        }
    }
}

/// Round trip: restoring a snapshot of a well-formed store adopts every
/// record without conflict and rebuilds, in order, items identical to the
/// originals — ids, times, titles, colors, importance, categories,
/// descriptions, kinds and generator-instance links all equal.
pub proof fn lemma_snapshot_restore_round_trip(
    order: Seq<Item>,
    instances: Map<u128, GeneratorInstance>,
    models: Seq<crate::persist::PersistentModel>,
)
    requires
        ids_distinct(order),
        all_valid(order),
        pairwise_disjoint(order),
        forall|k: u128| #[trigger] instances.contains_key(k) ==> instances[k].id == k,
        forall|i: int|
            0 <= i < order.len() ==> ((#[trigger] order[i]).generator_instance matches Some(g)
                ==> instances.contains_key(g)),
        models.len() == order.len(),
        forall|i: int|
            0 <= i < models.len() ==> snapshot_entry(#[trigger] models[i], order[i], instances),
    ensures
        batch_outcome(empty_store_model(), spec_items_of(models)) == (
            StoreModel { order, instances: Map::<u128, GeneratorInstance>::empty() },
            Option::<(crate::time::ZonedTime, crate::time::ZonedTime)>::None,
        ),
{
    let items = spec_items_of(models);
    assert forall|i: int| 0 <= i < items.len() implies items[i] == order[i] by {
        assert(items[i] == spec_item_of(models[i]));
        let p = models[i];
        let it = order[i];
        match (p.generator_instance, it.generator_instance) {
            (Option::Some(g), Option::Some(gid)) => {
                assert(instances.contains_key(gid));
                assert(crate::model::instance_congruent(g, instances[gid]));
                assert(g.id == gid);
            },
            _ => {},
        }
        lemma_represents_round_trip(p, it);
    }
    assert(items =~= order);
    assert(empty_store_model().order + order =~= order);
    lemma_batch_no_conflict(empty_store_model(), order);
}

} // verus!
