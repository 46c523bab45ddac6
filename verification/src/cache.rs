//! The time-indexed store.
//!
//! The store owns every adopted item, an id index, one bucket per calendar
//! day of the supported epoch, and a table of generator instances. Its
//! standing invariant: items carry distinct ids, have valid times, and no
//! two of them overlap. Batches are adopted item by item, in order, and a
//! conflicting item either aborts the batch (leaving earlier adoptions in
//! place) or — when its generator instance says so — is silently dropped;
//! [`batch_outcome`] is the exact semantics of one call.

use vstd::prelude::*;
use vstd::pervasive::VecAdditionalExecFns;
use std::collections::HashMap;
use crate::error::InternalError;
use crate::indexing::{
    all_valid, bucket_of, collect_day_items, contains_id, day_items_of, id_map_of, ids_distinct,
    kind_filter, lemma_bucket_of_members, lemma_bucket_remove, lemma_collect_bucket,
    lemma_id_map_of_contains, lemma_id_map_of_index, lemma_remove_id_absent,
    lemma_remove_id_distinct, lemma_remove_id_parts, lemma_remove_id_preserves,
    lemma_remove_uid_absent, lemma_scan_complete, pairwise_disjoint, remove_id, remove_uid,
    spec_conflicts,
};
use crate::model::{
    instance_congruent, overlaps, GeneratorInstance, Item, Kind,
};
use crate::outside::now_millis;
use crate::time::{get_cache_day_number_from_time, MAX_DAY_NUMBER, NUM_DAYS};

verus! {

broadcast use vstd::std_specs::hash::group_hash_axioms;

/// Some instance in `s` carries the id.
pub open spec fn gi_contains(s: Seq<GeneratorInstance>, id: u128) -> bool {
    exists|i: int| 0 <= i < s.len() && s[i].id == id
}

/// No two instances of `s` share an id.
pub open spec fn gi_ids_distinct(s: Seq<GeneratorInstance>) -> bool {
    forall|i: int, j: int| 0 <= i < j < s.len() ==> s[i].id != s[j].id
}

/// The instance table derived from the table's rows.
pub open spec fn gi_map_of(s: Seq<GeneratorInstance>) -> Map<u128, GeneratorInstance>
    decreases s.len(),
{
    if s.len() == 0 {
        Map::empty()
    } else {
        gi_map_of(s.drop_last()).insert(s.last().id, s.last())
    }
}

/// The instance table contains exactly the ids of the rows.
pub proof fn lemma_gi_map_contains(s: Seq<GeneratorInstance>, k: u128)
    ensures
        gi_map_of(s).contains_key(k) <==> gi_contains(s, k),
    decreases s.len(),
{
    if s.len() == 0 {
    } else {
        let s0 = s.drop_last();
        lemma_gi_map_contains(s0, k);
        if s.last().id == k {
            assert(s[s.len() - 1].id == k);
        } else {
            if gi_contains(s0, k) {
                let i = choose|i: int| 0 <= i < s0.len() && s0[i].id == k;
                assert(s[i].id == k);
            }
            if gi_contains(s, k) {
                let i = choose|i: int| 0 <= i < s.len() && s[i].id == k;
                assert(i < s.len() - 1);
                assert(s0[i].id == k);
            }
        }
    }
}

/// Under distinct ids, the instance table maps each row's id back to the row.
pub proof fn lemma_gi_map_index(s: Seq<GeneratorInstance>)
    requires
        gi_ids_distinct(s),
    ensures
        forall|i: int|
            0 <= i < s.len() ==> gi_map_of(s).contains_key((#[trigger] s[i]).id)
                && gi_map_of(s)[s[i].id] == s[i],
    decreases s.len(),
{
    if s.len() == 0 {
    } else {
        let s0 = s.drop_last();
        lemma_gi_map_index(s0);
        assert forall|i: int|
            0 <= i < s.len() implies gi_map_of(s).contains_key((#[trigger] s[i]).id)
            && gi_map_of(s)[s[i].id] == s[i] by {
            if i < s.len() - 1 {
                assert(s0[i] == s[i]);
                assert(s[i].id != s.last().id);
            }
        }
    }
}

/// Replacing a row by one of the same id updates the table at that id.
pub proof fn lemma_gi_map_update(s: Seq<GeneratorInstance>, i: int, v: GeneratorInstance)
    requires
        gi_ids_distinct(s),
        0 <= i < s.len(),
        s[i].id == v.id,
    ensures
        gi_ids_distinct(s.update(i, v)),
        gi_map_of(s.update(i, v)) == gi_map_of(s).insert(v.id, v),
    decreases s.len(),
{
    let u = s.update(i, v);
    assert(gi_ids_distinct(u)) by {
        assert(forall|j: int| 0 <= j < s.len() ==> u[j].id == (#[trigger] s[j]).id);
    }
    let s0 = s.drop_last();
    if i == s.len() - 1 {
        assert(u.drop_last() =~= s0);
        assert(u.last() == v);
        assert(gi_map_of(u) == gi_map_of(s0).insert(v.id, v));
        assert(gi_map_of(s0).insert(v.id, v) =~= gi_map_of(s0).insert(s.last().id, s.last()).insert(
            v.id,
            v,
        ));
    } else {
        assert(u.drop_last() =~= s0.update(i, v));
        assert(u.last() == s.last());
        lemma_gi_map_update(s0, i, v);
        assert(s.last().id != v.id) by {
            assert(s[i].id != s[s.len() - 1].id);
        }
        assert(gi_map_of(s0).insert(v.id, v).insert(s.last().id, s.last()) =~= gi_map_of(
            s0,
        ).insert(s.last().id, s.last()).insert(v.id, v));
    }
}

/// The store model a batch is judged against: the adopted items in
/// insertion order, and the instance table.
pub struct StoreModel {
    pub order: Seq<Item>,
    pub instances: Map<u128, GeneratorInstance>,
}

/// A conflicting item is dropped silently rather than aborting the batch
/// exactly when it links to a known generator instance whose repeat rule
/// has `throw_error_when_conflict` off.
pub open spec fn ignores_conflict(instances: Map<u128, GeneratorInstance>, it: Item) -> bool {
    match it.generator_instance {
        Option::Some(g) => instances.contains_key(g) && match instances[g].repeat {
            Option::Some(r) => !r.throw_error_when_conflict,
            Option::None => false,
        },
        Option::None => false,
    }
}

/// What one `insert_events` call does: items are taken in order; a
/// non-conflicting item replaces any stored item of its id and is appended;
/// a conflicting item is skipped when its generator instance says so, and
/// otherwise stops the call with its times — earlier adoptions stay.
pub open spec fn batch_outcome(m: StoreModel, items: Seq<Item>) -> (StoreModel, Option<
    (crate::time::ZonedTime, crate::time::ZonedTime),
>)
    decreases items.len(),
{
    if items.len() == 0 {
        (m, Option::None)
    } else {
        let it = items.first();
        if spec_conflicts(m.order, it) {
            if ignores_conflict(m.instances, it) {
                batch_outcome(m, items.drop_first())
            } else {
                (m, Option::Some((it.start_time, it.end_time)))
            }
        } else {
            batch_outcome(
                StoreModel { order: remove_id(m.order, it.id).push(it), instances: m.instances },
                items.drop_first(),
            )
        }
    }
}

/// Upserting a batch of instances into the table, first to last.
pub open spec fn upsert_all(
    m: Map<u128, GeneratorInstance>,
    s: Seq<GeneratorInstance>,
) -> Map<u128, GeneratorInstance>
    decreases s.len(),
{
    if s.len() == 0 {
        m
    } else {
        upsert_all(m.insert(s.first().id, s.first()), s.drop_first())
    }
}

/// The time-indexed store: all items in insertion order, the id index, one
/// bucket of item ids per calendar day of the epoch, the generator-instance
/// table, and the time of the last successful mutation.
pub struct Cache {
    last_modified: i64,
    events_all: Vec<Item>,
    events_by_date: Vec<Vec<u128>>,
    events_by_id: HashMap<u128, Item>,
    instance: Vec<GeneratorInstance>,
}

impl Cache {
    /// The adopted items in insertion order.
    pub closed spec fn order(&self) -> Seq<Item> {
        self.events_all@
    }

    /// The instance table's rows in upsert order.
    pub closed spec fn instance_order(&self) -> Seq<GeneratorInstance> {
        self.instance@
    }

    /// The items by id.
    pub open spec fn items(&self) -> Map<u128, Item> {
        id_map_of(self.order())
    }

    /// The instance table by id.
    pub open spec fn instances(&self) -> Map<u128, GeneratorInstance> {
        gi_map_of(self.instance_order())
    }

    /// The store as a [`StoreModel`].
    pub open spec fn model(&self) -> StoreModel {
        StoreModel { order: self.order(), instances: self.instances() }
    }

    /// The store's standing invariant: a bucket per epoch day, distinct
    /// ids, valid times, pairwise disjoint intervals, the id index and each
    /// day bucket derived from the insertion order, and distinct instance
    /// ids.
    pub closed spec fn wf(&self) -> bool {
        &&& self.events_by_date@.len() == NUM_DAYS
        &&& ids_distinct(self.events_all@)
        &&& all_valid(self.events_all@)
        &&& pairwise_disjoint(self.events_all@)
        &&& self.events_by_id@ == id_map_of(self.events_all@)
        &&& forall|d: int|
            0 <= d < NUM_DAYS ==> (#[trigger] self.events_by_date@[d])@ == bucket_of(
                self.events_all@,
                d,
            )
        &&& gi_ids_distinct(self.instance@)
    }

    /// A well-formed store keeps its items distinct by id, valid and
    /// pairwise non-overlapping.
    pub proof fn lemma_wf_order(&self)
        requires
            self.wf(),
        ensures
            ids_distinct(self.order()),
            all_valid(self.order()),
            pairwise_disjoint(self.order()),
            gi_ids_distinct(self.instance_order()),
    {
    }

    /// A well-formed store's instance table maps each id to an instance
    /// carrying that id.
    pub proof fn lemma_instances_key_id(&self)
        requires
            self.wf(),
        ensures
            forall|k: u128|
                #[trigger] self.instances().contains_key(k) ==> self.instances()[k].id == k,
    {
        assert forall|k: u128|
            #[trigger] self.instances().contains_key(k) implies self.instances()[k].id == k by {
            lemma_gi_map_contains(self.instance@, k);
            lemma_gi_map_index(self.instance@);
            let i = choose|i: int| 0 <= i < self.instance@.len() && self.instance@[i].id == k;
            assert(gi_map_of(self.instance@)[self.instance@[i].id] == self.instance@[i]);
        }
    }

    /// A fresh, empty store with every day bucket allocated.
    pub fn init() -> (c: Cache)
        ensures
            c.wf(),
            c.order() == Seq::<Item>::empty(),
            c.instances() == Map::<u128, GeneratorInstance>::empty(),
    {
        let mut buckets: Vec<Vec<u128>> = Vec::new();
        let mut d: usize = 0;
        while d < NUM_DAYS
            invariant
                d <= NUM_DAYS,
                buckets@.len() == d,
                forall|i: int| 0 <= i < d ==> (#[trigger] buckets@[i])@ == Seq::<u128>::empty(),
            decreases NUM_DAYS - d,
        {
            buckets.push(Vec::new());
            d = d + 1;
        }
        let c = Cache {
            last_modified: now_millis(),
            events_all: Vec::new(),
            events_by_date: buckets,
            events_by_id: HashMap::new(),
            instance: Vec::new(),
        };
        proof {
            assert(c.events_by_id@ =~= id_map_of(c.events_all@));
            assert(c.instances() =~= Map::<u128, GeneratorInstance>::empty());
        }
        c
    }

    /// Every adopted item, in insertion order.
    pub fn get_all_raw_events(&self) -> (res: Vec<Item>)
        ensures
            res@ == self.order(),
    {
        let mut res: Vec<Item> = Vec::new();
        let mut i: usize = 0;
        while i < self.events_all.len()
            invariant
                i <= self.events_all.len(),
                res@ == self.events_all@.subrange(0, i as int),
            decreases self.events_all.len() - i,
        {
            res.push(self.events_all[i].self_clone(false));
            i = i + 1;
            proof {
                assert(res@ =~= self.events_all@.subrange(0, i as int));
            }
        }
        proof {
            assert(res@ =~= self.events_all@);
        }
        res
    }

    /// Every adopted item of the requested kind, in insertion order.
    pub fn get_all_events(&self, kind: Kind) -> (res: Vec<Item>)
        ensures
            res@ == kind_filter(self.order(), kind),
    {
        let mut res: Vec<Item> = Vec::new();
        let mut i: usize = 0;
        while i < self.events_all.len()
            invariant
                i <= self.events_all.len(),
                res@ == kind_filter(self.events_all@.subrange(0, i as int), kind),
            decreases self.events_all.len() - i,
        {
            let it = &self.events_all[i];
            if it.get_kind() == kind {
                res.push(it.self_clone(false));
            }
            i = i + 1;
            proof {
                let pre = self.events_all@.subrange(0, i - 1);
                let cur = self.events_all@.subrange(0, i as int);
                assert(cur.drop_last() =~= pre);
                assert(cur.last() == self.events_all@[i - 1]);
            }
        }
        proof {
            assert(self.events_all@.subrange(0, self.events_all@.len() as int) =~= self.events_all@);
        }
        res
    }

    /// The item stored under the id, if it exists and is of the requested
    /// kind; `EventNotFoundError` otherwise.
    pub fn get_events_by_id(&self, id: u128, kind: Kind) -> (res: Result<Item, InternalError>)
        requires
            self.wf(),
        ensures
            match res {
                Result::Ok(it) => self.items().contains_key(id) && it == self.items()[id]
                    && it.kind == kind,
                Result::Err(e) => e is EventNotFoundError && (!self.items().contains_key(id)
                    || self.items()[id].kind != kind),
            },
    {
        match self.events_by_id.get(&id) {
            Some(it) => {
                if it.get_kind() == kind {
                    Ok(it.self_clone(false))
                } else {
                    Err(InternalError::EventNotFoundError)
                }
            },
            None => Err(InternalError::EventNotFoundError),
        }
    }

    /// The index of the instance-table row carrying the id, if any.
    fn find_instance_index(&self, id: u128) -> (res: Option<usize>)
        ensures
            match res {
                Option::Some(i) => i < self.instance_order().len() && self.instance_order()[
                    i as int
                ].id == id,
                Option::None => !gi_contains(self.instance_order(), id),
            },
    {
        let mut i: usize = 0;
        while i < self.instance.len()
            invariant
                i <= self.instance.len(),
                forall|j: int| 0 <= j < i ==> (#[trigger] self.instance@[j]).id != id,
            decreases self.instance.len() - i,
        {
            if self.instance[i].get_id() == id {
                return Some(i);
            }
            i = i + 1;
        }
        proof {
            if gi_contains(self.instance@, id) {
                let j = choose|j: int| 0 <= j < self.instance@.len() && self.instance@[j].id == id;
                assert(self.instance@[j].id != id);
            }
        }
        None
    }

    /// A copy of the generator instance stored under the id, or nothing.
    pub fn get_instances(&self, id: u128) -> (res: Option<GeneratorInstance>)
        requires
            self.wf(),
        ensures
            match res {
                Option::Some(g) => self.instances().contains_key(id) && instance_congruent(
                    g,
                    self.instances()[id],
                ),
                Option::None => !self.instances().contains_key(id),
            },
    {
        proof {
            lemma_gi_map_contains(self.instance@, id);
            lemma_gi_map_index(self.instance@);
        }
        match self.find_instance_index(id) {
            Some(i) => Some(self.instance[i].duplicate()),
            None => None,
        }
    }

    /// A copy of every row of the instance table, in upsert order.
    pub fn get_all_instances(&self) -> (res: Vec<GeneratorInstance>)
        ensures
            res@.len() == self.instance_order().len(),
            forall|i: int|
                0 <= i < res@.len() ==> instance_congruent(
                    #[trigger] res@[i],
                    self.instance_order()[i],
                ),
    {
        let mut res: Vec<GeneratorInstance> = Vec::new();
        let mut i: usize = 0;
        while i < self.instance.len()
            invariant
                i <= self.instance.len(),
                res@.len() == i,
                forall|j: int|
                    0 <= j < i ==> instance_congruent(#[trigger] res@[j], self.instance@[j]),
            decreases self.instance.len() - i,
        {
            res.push(self.instance[i].duplicate());
            i = i + 1;
        }
        res
    }

    /// Upsert every given instance into the table, first to last, keying by
    /// id. Items and their indices are untouched.
    pub fn add_or_update_instances(&mut self, instances: Vec<GeneratorInstance>)
        requires
            old(self).wf(),
        ensures
            final(self).wf(),
            final(self).order() == old(self).order(),
            final(self).instances() == upsert_all(old(self).instances(), instances@),
    {
        let ghost target = upsert_all(old(self).instances(), instances@);
        let mut rest = instances;
        while rest.len() > 0
            invariant
                self.wf(),
                self.order() == old(self).order(),
                upsert_all(self.instances(), rest@) == target,
            decreases rest.len(),
        {
            let ghost rest0 = rest@;
            let inst = rest.remove(0);
            proof {
                assert(rest0.first() == inst);
                assert(rest0.drop_first() =~= rest@);
            }
            self.upsert_instance(inst);
        }
    }

    /// Whether an item overlaps some stored item under a different id.
    /// Scans the buckets of the days the item touches; by
    /// [`lemma_scan_complete`] that finds every overlap.
    #[verifier::loop_isolation(false)]
    fn conflicts_with_stored(&self, it: &Item) -> (b: bool)
        requires
            self.wf(),
            it.spec_valid(),
        ensures
            b == spec_conflicts(self.order(), *it),
    {
        let start_day = get_cache_day_number_from_time(&it.get_start_time()) as usize;
        let end_day = get_cache_day_number_from_time(&it.get_end_time()) as usize;
        proof {
            crate::time::lemma_day_of_monotonic(
                it.start_time.millis as int,
                it.end_time.millis as int,
            );
            lemma_id_map_of_index(self.events_all@);
        }
        let mut d: usize = start_day;
        while d <= end_day
            invariant
                start_day <= d <= end_day + 1,
                forall|dd: int, k: u128|
                    start_day <= dd < d && #[trigger] bucket_of(self.order(), dd).contains(k)
                        ==> k == it.id || !overlaps(id_map_of(self.order())[k], *it),
            decreases end_day + 1 - d,
        {
            let bucket = &self.events_by_date[d];
            let mut j: usize = 0;
            while j < bucket.len()
                invariant
                    j <= bucket.len(),
                    forall|jj: int|
                        0 <= jj < j ==> (#[trigger] bucket@[jj]) == it.id || !overlaps(
                            id_map_of(self.order())[bucket@[jj]],
                            *it,
                        ),
                decreases bucket.len() - j,
            {
                let k = bucket[j];
                if k != it.get_id() {
                    match self.events_by_id.get(&k) {
                        Some(other) => {
                            if overlap_exec(other, it) {
                                proof {
                                    assert(bucket_of(self.order(), d as int).contains(k)) by {
                                        assert(bucket@[j as int] == k);
                                    }
                                    lemma_bucket_of_members(self.order(), d as int);
                                    let i = choose|i: int|
                                        0 <= i < self.order().len() && self.order()[i].id == k
                                            && self.order()[i].spans(d as int);
                                    assert(id_map_of(self.order())[k] == self.order()[i]);
                                    assert(spec_conflicts(self.order(), *it)) by {
                                        assert(self.order()[i].id != it.id && overlaps(
                                            self.order()[i],
                                            *it,
                                        ));
                                    }
                                }
                                return true;
                            }
                        },
                        None => {
                            proof {
                                assert(bucket_of(self.order(), d as int).contains(k)) by {
                                    assert(bucket@[j as int] == k);
                                }
                                lemma_bucket_of_members(self.order(), d as int);
                                lemma_id_map_of_contains(self.events_all@, k);
                                assert(false);
                            }
                        },
                    }
                }
                j = j + 1;
            }
            proof {
                assert forall|k: u128|
                    #[trigger] bucket_of(self.order(), d as int).contains(k) implies k == it.id
                    || !overlaps(id_map_of(self.order())[k], *it) by {
                    let jj = choose|jj: int| 0 <= jj < bucket@.len() && bucket@[jj] == k;
                }
            }
            d = d + 1;
        }
        proof {
            lemma_scan_complete(self.order(), *it);
        }
        false
    }

    /// Whether a conflicting item would be dropped silently: it links to a
    /// known generator instance whose repeat rule has
    /// `throw_error_when_conflict` off.
    fn ignores_conflict_exec(&self, it: &Item) -> (b: bool)
        requires
            self.wf(),
        ensures
            b == ignores_conflict(self.instances(), *it),
    {
        match it.get_generator_instance() {
            Some(g) => {
                proof {
                    lemma_gi_map_contains(self.instance@, g);
                    lemma_gi_map_index(self.instance@);
                }
                match self.find_instance_index(g) {
                    Some(i) => match &self.instance[i].repeat {
                        Some(rep) => !rep.throw_error_when_conflict,
                        None => false,
                    },
                    None => false,
                }
            },
            None => false,
        }
    }

    /// Append a fresh, non-conflicting item to every index.
    #[verifier::loop_isolation(false)]
    fn adopt(&mut self, it: Item)
        requires
            old(self).wf(),
            it.spec_valid(),
            !contains_id(old(self).order(), it.id),
            !spec_conflicts(old(self).order(), it),
        ensures
            final(self).wf(),
            final(self).order() == old(self).order().push(it),
            final(self).instance@ == old(self).instance@,
    {
        let start_day = get_cache_day_number_from_time(&it.get_start_time()) as usize;
        let end_day = get_cache_day_number_from_time(&it.get_end_time()) as usize;
        proof {
            crate::time::lemma_day_of_monotonic(
                it.start_time.millis as int,
                it.end_time.millis as int,
            );
        }
        let ghost s_old = self.events_all@;
        let ghost s_new = s_old.push(it);
        proof {
            assert(s_new.drop_last() =~= s_old);
        }
        self.events_all.push(it.self_clone(false));
        let mut d: usize = start_day;
        while d <= end_day
            invariant
                start_day <= d <= end_day + 1,
                self.events_by_date@.len() == NUM_DAYS,
                self.events_all@ == s_new,
                self.events_by_id@ == id_map_of(s_old),
                self.instance@ == old(self).instance@,
                self.last_modified == old(self).last_modified,
                forall|k: int|
                    0 <= k < NUM_DAYS && !(start_day <= k < d) ==> (#[trigger] self
                        .events_by_date@[k])@ == bucket_of(s_old, k),
                forall|k: int|
                    start_day <= k < d ==> (#[trigger] self.events_by_date@[k])@ == bucket_of(
                        s_old,
                        k,
                    ).push(it.id),
            decreases end_day + 1 - d,
        {
            let mut nb = crate::model::copy_id_vec(&self.events_by_date[d]);
            nb.push(it.get_id());
            self.events_by_date.set(d, nb);
            d = d + 1;
        }
        self.events_by_id.insert(it.get_id(), it);
        proof {
            // the pushed item's id is fresh, so ids stay distinct
            assert(ids_distinct(s_new)) by {
                assert forall|i: int, j: int|
                    0 <= i < j < s_new.len() implies s_new[i].id != s_new[j].id by {
                    if j < s_new.len() - 1 {
                        assert(s_old[i].id != s_old[j].id);
                    } else {
                        if s_new[i].id == it.id {
                            assert(s_old[i].id == it.id);
                        }
                    }
                }
            }
            assert(all_valid(s_new)) by {
                assert forall|i: int| 0 <= i < s_new.len() implies (
                #[trigger] s_new[i]).spec_valid() by {
                    if i < s_new.len() - 1 {
                        assert(s_old[i].spec_valid());
                    }
                }
            }
            // the item conflicts with nothing stored, so intervals stay disjoint
            assert(pairwise_disjoint(s_new)) by {
                assert forall|i: int, j: int|
                    0 <= i < s_new.len() && 0 <= j < s_new.len() && i != j implies !overlaps(
                    s_new[i],
                    s_new[j],
                ) by {
                    if i < s_new.len() - 1 && j < s_new.len() - 1 {
                        assert(!overlaps(s_old[i], s_old[j]));
                    } else if j == s_new.len() - 1 && i < s_new.len() - 1 {
                        assert(s_old[i].id != it.id);
                        assert(!overlaps(s_old[i], it));
                    } else if i == s_new.len() - 1 && j < s_new.len() - 1 {
                        assert(s_old[j].id != it.id);
                        assert(!overlaps(s_old[j], it));
                    }
                }
            }
            assert(self.events_by_id@ =~= id_map_of(s_new));
            assert forall|k: int|
                0 <= k < NUM_DAYS implies (#[trigger] self.events_by_date@[k])@ == bucket_of(
                s_new,
                k,
            ) by {
                if start_day <= k <= end_day {
                    assert(it.spans(k));
                    assert(bucket_of(s_new, k) == bucket_of(s_old, k).push(it.id));
                } else {
                    assert(!it.spans(k));
                    assert(bucket_of(s_new, k) == bucket_of(s_old, k));
                }
            }
        }
    }

    /// Remove the item stored under the id from every index;
    /// `EventNotFoundError` if no item carries it.
    #[verifier::loop_isolation(false)]
    pub fn delete_event(&mut self, event_id: u128) -> (res: Result<(), InternalError>)
        requires
            old(self).wf(),
        ensures
            final(self).wf(),
            final(self).instances() == old(self).instances(),
            final(self).instance_order() == old(self).instance_order(),
            match res {
                Result::Ok(u) => contains_id(old(self).order(), event_id) && final(self).order()
                    == remove_id(old(self).order(), event_id),
                Result::Err(e) => e is EventNotFoundError && !contains_id(
                    old(self).order(),
                    event_id,
                ) && final(self).order() == old(self).order(),
            },
    {
        proof {
            lemma_id_map_of_contains(self.events_all@, event_id);
            lemma_id_map_of_index(self.events_all@);
        }
        let days: (usize, usize) = match self.events_by_id.get(&event_id) {
            None => {
                return Err(InternalError::EventNotFoundError);
            },
            Some(it) => {
                proof {
                    let i = choose|i: int|
                        0 <= i < self.events_all@.len() && self.events_all@[i].id == event_id;
                    assert(id_map_of(self.events_all@)[event_id] == self.events_all@[i]);
                }
                let sd = get_cache_day_number_from_time(&it.get_start_time());
                let ed = get_cache_day_number_from_time(&it.get_end_time());
                (sd as usize, ed as usize)
            },
        };
        let start_day = days.0;
        let end_day = days.1;
        let ghost s_old = self.events_all@;
        let ghost victim = id_map_of(s_old)[event_id];
        proof {
            crate::time::lemma_day_of_monotonic(
                victim.start_time.millis as int,
                victim.end_time.millis as int,
            );
        }
        let new_all = filter_out_id(&self.events_all, event_id);
        self.events_all = new_all;
        let mut d: usize = start_day;
        while d <= end_day
            invariant
                start_day <= d <= end_day + 1,
                self.events_by_date@.len() == NUM_DAYS,
                self.events_all@ == remove_id(s_old, event_id),
                self.events_by_id@ == id_map_of(s_old),
                self.instance@ == old(self).instance@,
                forall|k: int|
                    0 <= k < NUM_DAYS && !(start_day <= k < d) ==> (#[trigger] self
                        .events_by_date@[k])@ == bucket_of(s_old, k),
                forall|k: int|
                    start_day <= k < d ==> (#[trigger] self.events_by_date@[k])@ == remove_uid(
                        bucket_of(s_old, k),
                        event_id,
                    ),
            decreases end_day + 1 - d,
        {
            let nb = filter_out_uid(&self.events_by_date[d], event_id);
            self.events_by_date.set(d, nb);
            d = d + 1;
        }
        self.events_by_id.remove(&event_id);
        self.last_modified = now_millis();
        proof {
            let s_new = remove_id(s_old, event_id);
            lemma_remove_id_distinct(s_old, event_id);
            lemma_remove_id_preserves(s_old, event_id);
            assert(self.events_by_id@ =~= id_map_of(s_new));
            assert forall|k: int|
                0 <= k < NUM_DAYS implies (#[trigger] self.events_by_date@[k])@ == bucket_of(
                s_new,
                k,
            ) by {
                lemma_bucket_remove(s_old, event_id, k);
                if !(start_day <= k <= end_day) {
                    assert(!victim.spans(k));
                    assert(!bucket_of(s_old, k).contains(event_id)) by {
                        lemma_bucket_of_members(s_old, k);
                        if bucket_of(s_old, k).contains(event_id) {
                            let i = choose|i: int|
                                0 <= i < s_old.len() && s_old[i].id == event_id && s_old[i].spans(
                                    k,
                                );
                            assert(s_old[i] == victim);
                        }
                    }
                    lemma_remove_uid_absent(bucket_of(s_old, k), event_id);
                }
            }
        }
        Ok(())
    }

    /// Adopt a batch of items, item by item in order, exactly as
    /// [`batch_outcome`] describes: a non-conflicting item replaces any
    /// stored item of its id; a conflicting item is silently dropped when
    /// its generator instance says so, and otherwise aborts the call with
    /// `ConflictEventError` carrying its times, keeping earlier adoptions.
    #[verifier::loop_isolation(false)]
    pub fn insert_events(&mut self, events: Vec<Item>) -> (res: Result<(), InternalError>)
        requires
            old(self).wf(),
            all_valid(events@),
        ensures
            final(self).wf(),
            final(self).instances() == old(self).instances(),
            final(self).instance_order() == old(self).instance_order(),
            final(self).order() == batch_outcome(old(self).model(), events@).0.order,
            match res {
                Result::Ok(u) => batch_outcome(old(self).model(), events@).1 is None,
                Result::Err(e) => e matches InternalError::ConflictEventError {
                    start_time,
                    end_time,
                } && batch_outcome(old(self).model(), events@).1 == Option::Some(
                    (start_time, end_time),
                ),
            },
    {
        let mut rest = events;
        while rest.len() > 0
            invariant
                self.wf(),
                all_valid(rest@),
                self.instances() == old(self).instances(),
                self.instance_order() == old(self).instance_order(),
                batch_outcome(old(self).model(), events@) == batch_outcome(self.model(), rest@),
            decreases rest.len(),
        {
            let ghost rest0 = rest@;
            let it = rest.remove(0);
            proof {
                assert(rest0.first() == it);
                assert(rest0.drop_first() =~= rest@);
                assert(all_valid(rest@)) by {
                    assert forall|i: int| 0 <= i < rest@.len() implies (
                    #[trigger] rest@[i]).spec_valid() by {
                        assert(rest@[i] == rest0[i + 1]);
                    }
                }
                assert(rest0[0].spec_valid());
            }
            let conflict = self.conflicts_with_stored(&it);
            if conflict {
                if !self.ignores_conflict_exec(&it) {
                    return Err(
                        InternalError::ConflictEventError {
                            start_time: it.get_start_time(),
                            end_time: it.get_end_time(),
                        },
                    );
                }
            } else {
                proof {
                    lemma_id_map_of_contains(self.events_all@, it.id);
                }
                let ghost order_pre = self.order();
                if self.events_by_id.contains_key(&it.get_id()) {
                    let dres = self.delete_event(it.get_id());
                    proof {
                        assert(dres is Ok);
                    }
                } else {
                    proof {
                        lemma_remove_id_absent(order_pre, it.id);
                    }
                }
                proof {
                    let order_mid = self.order();
                    assert(order_mid == remove_id(order_pre, it.id));
                    lemma_remove_id_distinct(order_pre, it.id);
                    assert(!spec_conflicts(order_mid, it)) by {
                        lemma_remove_id_parts(order_pre, it.id);
                        if spec_conflicts(order_mid, it) {
                            let i = choose|i: int|
                                0 <= i < order_mid.len() && order_mid[i].id != it.id && overlaps(
                                    order_mid[i],
                                    it,
                                );
                            let w = choose|w: int|
                                0 <= w < order_pre.len() && order_pre[w] == order_mid[i];
                            assert(order_pre[w].id != it.id && overlaps(order_pre[w], it));
                        }
                    }
                }
                self.adopt(it);
            }
        }
        self.last_modified = now_millis();
        Ok(())
    }

    /// The stored items of the requested kind whose span touches the given
    /// day, in insertion order, resolved through the day's bucket.
    #[verifier::loop_isolation(false)]
    pub fn get_events_by_day(&self, day: i64, kind: Kind) -> (res: Vec<Item>)
        requires
            self.wf(),
            0 <= day <= MAX_DAY_NUMBER,
        ensures
            res@ == day_items_of(self.order(), day as int, kind),
    {
        let d = day as usize;
        let bucket = &self.events_by_date[d];
        let mut res: Vec<Item> = Vec::new();
        let mut j: usize = 0;
        while j < bucket.len()
            invariant
                j <= bucket.len(),
                res@ == collect_day_items(bucket@.subrange(0, j as int), self.items(), kind),
            decreases bucket.len() - j,
        {
            let ghost pre = bucket@.subrange(0, j as int);
            let k = bucket[j];
            match self.events_by_id.get(&k) {
                Some(other) => {
                    if other.get_kind() == kind {
                        res.push(other.self_clone(false));
                    }
                },
                None => {},
            }
            j = j + 1;
            proof {
                let cur = bucket@.subrange(0, j as int);
                assert(cur.drop_last() =~= pre);
                assert(cur.last() == bucket@[j - 1]);
            }
        }
        proof {
            assert(bucket@.subrange(0, bucket@.len() as int) =~= bucket@);
            lemma_collect_bucket(self.order(), day as int, kind);
        }
        res
    }

    /// Insert one instance, replacing any row of the same id.
    fn upsert_instance(&mut self, inst: GeneratorInstance)
        requires
            old(self).wf(),
        ensures
            final(self).wf(),
            final(self).order() == old(self).order(),
            final(self).instances() == old(self).instances().insert(inst.id, inst),
    {
        let id = inst.get_id();
        match self.find_instance_index(id) {
            Some(i) => {
                proof {
                    lemma_gi_map_update(self.instance@, i as int, inst);
                }
                self.instance.set(i, inst);
            },
            None => {
                let ghost s0 = self.instance@;
                self.instance.push(inst);
                proof {
                    assert(self.instance@.drop_last() =~= s0);
                    assert(self.instance@.last() == inst);
                    assert(gi_ids_distinct(self.instance@)) by {
                        assert forall|i: int, j: int|
                            0 <= i < j < self.instance@.len() implies self.instance@[i].id
                            != self.instance@[j].id by {
                            if j < self.instance@.len() - 1 {
                                assert(s0[i].id != s0[j].id);
                            } else {
                                assert(s0[i].id != id);
                            }
                        }
                    }
                }
            },
        }
    }
}

fn overlap_exec(a: &Item, b: &Item) -> (r: bool)
    ensures
        r == overlaps(*a, *b),
{
    a.start_time.millis < b.end_time.millis && b.start_time.millis < a.end_time.millis
}

fn filter_out_id(v: &Vec<Item>, id: u128) -> (r: Vec<Item>)
    ensures
        r@ == remove_id(v@, id),
{
    let mut r: Vec<Item> = Vec::new();
    let mut i: usize = 0;
    while i < v.len()
        invariant
            i <= v.len(),
            r@ == remove_id(v@.subrange(0, i as int), id),
        decreases v.len() - i,
    {
        let ghost pre = v@.subrange(0, i as int);
        if v[i].get_id() != id {
            r.push(v[i].self_clone(false));
        }
        i = i + 1;
        proof {
            let cur = v@.subrange(0, i as int);
            assert(cur.drop_last() =~= pre);
            assert(cur.last() == v@[i - 1]);
        }
    }
    proof {
        assert(v@.subrange(0, v@.len() as int) =~= v@);
    }
    r
}

fn filter_out_uid(v: &Vec<u128>, id: u128) -> (r: Vec<u128>)
    ensures
        r@ == remove_uid(v@, id),
{
    let mut r: Vec<u128> = Vec::new();
    let mut i: usize = 0;
    while i < v.len()
        invariant
            i <= v.len(),
            r@ == remove_uid(v@.subrange(0, i as int), id),
        decreases v.len() - i,
    {
        let ghost pre = v@.subrange(0, i as int);
        if v[i] != id {
            r.push(v[i]);
        }
        i = i + 1;
        proof {
            let cur = v@.subrange(0, i as int);
            assert(cur.drop_last() =~= pre);
            assert(cur.last() == v@[i - 1]);
        }
    }
    proof {
        assert(v@.subrange(0, v@.len() as int) =~= v@);
    }
    r
}

/// The conflicting pairs one row of the pairwise scan reports: the item at
/// `i` against every item before `j`, self-pairs excluded by id.
pub open spec fn row_pairs(s: Seq<Item>, i: int, j: int) -> Seq<(Item, Item)>
    decreases j,
{
    if j <= 0 {
        Seq::empty()
    } else if s[i].id != s[j - 1].id && overlaps(s[i], s[j - 1]) {
        row_pairs(s, i, j - 1).push((s[i], s[j - 1]))
    } else {
        row_pairs(s, i, j - 1)
    }
}

/// The conflicting pairs the full pairwise scan reports for the first `i`
/// rows.
pub open spec fn pairs_upto(s: Seq<Item>, i: int) -> Seq<(Item, Item)>
    decreases i,
{
    if i <= 0 {
        Seq::empty()
    } else {
        pairs_upto(s, i - 1) + row_pairs(s, i - 1, s.len() as int)
    }
}

/// Every ordered pair of items of `s` that carry different ids and overlap
/// in time, in scan order.
pub open spec fn conflict_pairs(s: Seq<Item>) -> Seq<(Item, Item)> {
    pairs_upto(s, s.len() as int)
}

proof fn lemma_row_pairs_empty(s: Seq<Item>, i: int, j: int)
    ensures
        (row_pairs(s, i, j).len() == 0) <==> (forall|jj: int|
            0 <= jj < j ==> !((#[trigger] s[jj]).id != s[i].id && overlaps(s[i], s[jj]))),
    decreases j,
{
    if j <= 0 {
    } else {
        lemma_row_pairs_empty(s, i, j - 1);
    }
}

proof fn lemma_pairs_upto_empty(s: Seq<Item>, i: int)
    ensures
        (pairs_upto(s, i).len() == 0) <==> (forall|ii: int, jj: int|
            0 <= ii < i && 0 <= jj < s.len() ==> !(s[ii].id != s[jj].id && overlaps(
                #[trigger] s[ii],
                #[trigger] s[jj],
            ))),
    decreases i,
{
    if i <= 0 {
    } else {
        lemma_pairs_upto_empty(s, i - 1);
        lemma_row_pairs_empty(s, i - 1, s.len() as int);
    }
}

/// The pairwise scan reports nothing exactly when no two items of distinct
/// ids overlap.
pub proof fn lemma_conflict_pairs_empty(s: Seq<Item>)
    ensures
        (conflict_pairs(s).len() == 0) <==> (forall|i: int, j: int|
            0 <= i < s.len() && 0 <= j < s.len() ==> !(s[i].id != s[j].id && overlaps(
                #[trigger] s[i],
                #[trigger] s[j],
            ))),
{
    lemma_pairs_upto_empty(s, s.len() as int);
}

/// The pairwise conflict scan over a candidate list: every ordered pair of
/// listed items that carry different ids and overlap in time.
pub fn check_conflict(events: &Vec<Item>) -> (res: Vec<(Item, Item)>)
    ensures
        res@ == conflict_pairs(events@),
{
    let mut res: Vec<(Item, Item)> = Vec::new();
    let mut i: usize = 0;
    while i < events.len()
        invariant
            i <= events.len(),
            res@ == pairs_upto(events@, i as int),
        decreases events.len() - i,
    {
        let mut j: usize = 0;
        while j < events.len()
            invariant
                j <= events.len(),
                i < events.len(),
                res@ == pairs_upto(events@, i as int) + row_pairs(events@, i as int, j as int),
            decreases events.len() - j,
        {
            let first_event = &events[i];
            let second_event = &events[j];
            if first_event.get_id() != second_event.get_id() && overlap_exec(
                first_event,
                second_event,
            ) {
                res.push((first_event.self_clone(false), second_event.self_clone(false)));
            }
            j = j + 1;
        }
        i = i + 1;
    }
    res
}

} // verus!
