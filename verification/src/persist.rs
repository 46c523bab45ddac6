//! The flattened record form of the store: the boundary contract with
//! durable storage.
//!
//! A snapshot flattens every stored item into a [`PersistentModel`] — plain
//! ids, strings, epoch-millisecond integers, per-timestamp UTC offsets, and
//! an optional embedded copy of the item's generator instance. Restoring
//! reverses this: records are rebuilt into items by their kind tag and
//! re-inserted through the same conflict-checked path the store uses at
//! runtime, and the embedded instances are upserted into the instance
//! table. Writing the records to disk (and reading them back) is the
//! caller's business; only the record form and the two conversions are
//! stated here.

use vstd::prelude::*;
use crate::cache::{
    batch_outcome, upsert_all, Cache, StoreModel,
};
use crate::error::InternalError;
use crate::model::{instance_congruent, Category, GeneratorInstance, ImportantLevel, Item, Kind};
use crate::time::ZonedTime;

verus! {

/// One stored item, flattened for durable storage. The `*_timezone` fields
/// carry each timestamp's UTC offset in seconds east; `important_level`,
/// `category` and `kind` carry the enums' persisted tags.
pub struct PersistentModel {
    pub id: u128,
    pub kind: String,
    pub title: String,
    pub description: String,
    pub start_time: i64,
    pub start_time_timezone: i32,
    pub end_time: i64,
    pub end_time_timezone: i32,
    pub color: String,
    pub important_level: String,
    pub category: String,
    pub generator_instance: Option<GeneratorInstance>,
}

/// The item a record rebuilds into: tags parsed with their documented
/// fallbacks, timestamps reassembled from millis and offset, and the
/// generator-instance linkage taken from the embedded copy's id.
pub open spec fn spec_item_of(p: PersistentModel) -> Item {
    Item {
        id: p.id,
        kind: Kind::spec_from_label(p.kind@),
        title: p.title,
        description: p.description,
        start_time: ZonedTime { millis: p.start_time, offset_seconds: p.start_time_timezone },
        end_time: ZonedTime { millis: p.end_time, offset_seconds: p.end_time_timezone },
        color: p.color,
        importance: ImportantLevel::spec_from_label(p.important_level@),
        category: Category::spec_from_label(p.category@),
        generator_instance: match p.generator_instance {
            Option::Some(g) => Option::Some(g.id),
            Option::None => Option::None,
        },
    }
}

/// The record carries exactly the item's fields (the generator instance is
/// stated separately).
pub open spec fn represents(p: PersistentModel, it: Item) -> bool {
    &&& p.id == it.id
    &&& p.kind@ == it.kind.spec_label()
    &&& p.title == it.title
    &&& p.description == it.description
    &&& p.start_time == it.start_time.millis
    &&& p.start_time_timezone == it.start_time.offset_seconds
    &&& p.end_time == it.end_time.millis
    &&& p.end_time_timezone == it.end_time.offset_seconds
    &&& p.color == it.color
    &&& p.important_level@ == it.importance.spec_label()
    &&& p.category@ == it.category.spec_label()
}

/// The record a snapshot writes for one stored item: the item's fields,
/// plus a copy of its generator instance when the table knows it.
pub open spec fn snapshot_entry(
    p: PersistentModel,
    it: Item,
    instances: Map<u128, GeneratorInstance>,
) -> bool {
    &&& represents(p, it)
    &&& match it.generator_instance {
        Option::Some(g) => if instances.contains_key(g) {
            p.generator_instance matches Option::Some(pg) && instance_congruent(pg, instances[g])
        } else {
            p.generator_instance is None
        },
        Option::None => p.generator_instance is None,
    }
}

/// The items a record list rebuilds into, in order.
pub open spec fn spec_items_of(ms: Seq<PersistentModel>) -> Seq<Item> {
    ms.map_values(|p: PersistentModel| spec_item_of(p))
}

/// The generator instances embedded in a record list, in order.
pub open spec fn embedded_instances(ms: Seq<PersistentModel>) -> Seq<GeneratorInstance>
    decreases ms.len(),
{
    if ms.len() == 0 {
        Seq::empty()
    } else {
        match ms.last().generator_instance {
            Option::Some(g) => embedded_instances(ms.drop_last()).push(g),
            Option::None => embedded_instances(ms.drop_last()),
        }
    }
}

/// A record that carries an item's fields, with a generator-instance link
/// agreeing by id, rebuilds into that item exactly.
pub proof fn lemma_represents_round_trip(p: PersistentModel, it: Item)
    requires
        represents(p, it),
        match (p.generator_instance, it.generator_instance) {
            (Option::Some(g), Option::Some(gid)) => g.id == gid,
            (Option::None, Option::None) => true,
            _ => false,
        },
    ensures
        spec_item_of(p) == it,
{
    crate::model::lemma_kind_label_round_trip(it.kind);
    crate::model::lemma_important_level_label_round_trip(it.importance);
    crate::model::lemma_category_label_round_trip(it.category);
}

impl Item {
    /// Flatten the item into its record form, embedding the given copy of
    /// its generator instance.
    pub fn convert_to(&self, generator_instance: Option<GeneratorInstance>) -> (r: PersistentModel)
        ensures
            represents(r, *self),
            r.generator_instance == generator_instance,
    {
        PersistentModel {
            id: self.id,
            kind: self.kind.label(),
            title: self.title.clone(),
            description: self.description.clone(),
            start_time: self.start_time.millis,
            start_time_timezone: self.start_time.offset_seconds,
            end_time: self.end_time.millis,
            end_time_timezone: self.end_time.offset_seconds,
            color: self.color.clone(),
            important_level: self.importance.label(),
            category: self.category.label(),
            generator_instance,
        }
    }
}

impl PersistentModel {
    /// Rebuild the item this record denotes, by its kind tag.
    pub fn convert_to(&self) -> (r: Item)
        ensures
            r == spec_item_of(*self),
    {
        Item {
            id: self.id,
            kind: Kind::from_label(self.kind.as_str()),
            title: self.title.clone(),
            description: self.description.clone(),
            start_time: ZonedTime {
                millis: self.start_time,
                offset_seconds: self.start_time_timezone,
            },
            end_time: ZonedTime { millis: self.end_time, offset_seconds: self.end_time_timezone },
            color: self.color.clone(),
            importance: ImportantLevel::from_label(self.important_level.as_str()),
            category: Category::from_label(self.category.as_str()),
            generator_instance: match self.generator_instance {
                Some(ref g) => Some(g.get_id()),
                None => None,
            },
        }
    }
}

/// The compute half of the file persistence system: what a snapshot holds,
/// and how a snapshot becomes a store again. Compressing, writing and
/// reading the records is left to the caller at the storage edge.
pub struct FilePersistenceSystem;

impl FilePersistenceSystem {
    /// Flatten every stored item, in insertion order, each with a copy of
    /// its generator instance when the table knows it.
    pub fn snapshot(cache: &Cache) -> (res: Vec<PersistentModel>)
        requires
            cache.wf(),
        ensures
            res@.len() == cache.order().len(),
            forall|i: int|
                0 <= i < res@.len() ==> snapshot_entry(
                    #[trigger] res@[i],
                    cache.order()[i],
                    cache.instances(),
                ),
    {
        let items = cache.get_all_raw_events();
        let mut res: Vec<PersistentModel> = Vec::new();
        let mut i: usize = 0;
        while i < items.len()
            invariant
                i <= items.len(),
                items@ == cache.order(),
                cache.wf(),
                res@.len() == i,
                forall|j: int|
                    0 <= j < i ==> snapshot_entry(
                        #[trigger] res@[j],
                        cache.order()[j],
                        cache.instances(),
                    ),
            decreases items.len() - i,
        {
            let it = &items[i];
            let gi = match it.get_generator_instance() {
                Some(gid) => cache.get_instances(gid),
                None => None,
            };
            res.push(it.convert_to(gi));
            i = i + 1;
        }
        res
    }

    /// Rebuild a store from a record list: records become items, the items
    /// go through the conflict-checked insert path into a fresh store, and
    /// the embedded instances are upserted into its table. Fails exactly
    /// where the insert does, with the conflicting record's times.
    pub fn restore(models: Vec<PersistentModel>) -> (res: Result<Cache, InternalError>)
        requires
            forall|i: int|
                0 <= i < models@.len() ==> spec_item_of(#[trigger] models@[i]).spec_valid(),
        ensures
            ({
                let out = batch_outcome(
                    StoreModel {
                        order: Seq::<Item>::empty(),
                        instances: Map::<u128, GeneratorInstance>::empty(),
                    },
                    spec_items_of(models@),
                );
                match res {
                    Result::Ok(c) => out.1 is None && c.wf() && c.order() == out.0.order
                        && c.instances() == upsert_all(
                        Map::<u128, GeneratorInstance>::empty(),
                        embedded_instances(models@),
                    ),
                    Result::Err(e) => e matches InternalError::ConflictEventError {
                        start_time,
                        end_time,
                    } && out.1 == Option::Some((start_time, end_time)),
                }
            }),
    {
        let ghost all = models@;
        let mut rest = models;
        let mut items: Vec<Item> = Vec::new();
        let mut gis: Vec<GeneratorInstance> = Vec::new();
        while rest.len() > 0
            invariant
                rest@ == all.skip(all.len() - rest@.len()),
                rest@.len() <= all.len(),
                items@ == spec_items_of(all.subrange(0, all.len() - rest@.len())),
                gis@ == embedded_instances(all.subrange(0, all.len() - rest@.len())),
            decreases rest.len(),
        {
            let ghost k = all.len() - rest@.len();
            let ghost rest0 = rest@;
            let p = rest.remove(0);
            proof {
                assert(rest0.drop_first() =~= rest@);
                assert(rest@ =~= all.skip(k + 1));
                assert(p == all[k]);
            }
            items.push(p.convert_to());
            match p.generator_instance {
                Some(g) => gis.push(g),
                None => {},
            }
            proof {
                let pre = all.subrange(0, k);
                let cur = all.subrange(0, k + 1);
                assert(cur.drop_last() =~= pre);
                assert(cur.last() == all[k]);
                assert(items@ =~= spec_items_of(cur));
            }
        }
        proof {
            assert(all.subrange(0, all.len() as int) =~= all);
            assert(crate::indexing::all_valid(items@)) by {
                assert forall|i: int| 0 <= i < items@.len() implies (
                #[trigger] items@[i]).spec_valid() by {
                    assert(items@[i] == spec_item_of(all[i]));
                }
            }
        }
        let mut cache = Cache::init();
        match cache.insert_events(items) {
            Ok(u) => {
                cache.add_or_update_instances(gis);
                Ok(cache)
            },
            Err(e) => Err(e),
        }
    }
}

} // verus!
