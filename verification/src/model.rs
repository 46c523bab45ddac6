//! The data model: calendar items (events and reminders as one tagged
//! union), the open enums carried on an item, and the recurrence metadata
//! (`GeneratorInstance`) the store keeps beside its items.

use vstd::prelude::*;
use crate::outside::{new_random_id, now_millis};
use crate::time::{in_epoch, spec_day_of, ZonedTime, MAX_EPOCH_MILLIS};

verus! {

/// The two kinds of stored item.
#[derive(Clone, Copy, PartialEq, Eq, Structural, Debug)]
pub enum Kind {
    Event,
    Reminder,
}

/// The importance carried on an item, ordered from `VeryLow` to `VeryHigh`.
#[derive(Clone, Copy, PartialEq, Eq, Structural, Debug)]
pub enum ImportantLevel {
    VeryLow,
    Low,
    Medium,
    High,
    VeryHigh,
}

/// The category carried on an item. `Common` is the persisted tag
/// `"Default"`; anything unrecognized parses to it.
#[derive(Clone, Copy, PartialEq, Eq, Structural, Debug)]
pub enum Category {
    Common,
    Other,
}

impl Kind {
    /// The persisted tag of this kind.
    pub open spec fn spec_label(self) -> Seq<char> {
        match self {
            Kind::Event => "Event"@,
            Kind::Reminder => "Reminder"@,
        }
    }

    /// Which kind a persisted tag denotes; unknown tags denote `Event`.
    pub open spec fn spec_from_label(s: Seq<char>) -> Kind {
        if s == "Reminder"@ {
            Kind::Reminder
        } else {
            Kind::Event
        }
    }

    pub fn label(&self) -> (r: String)
        ensures
            r@ == self.spec_label(),
    {
        match self {
            Kind::Event => "Event".to_owned(),
            Kind::Reminder => "Reminder".to_owned(),
        }
    }

    pub fn from_label(s: &str) -> (r: Kind)
        ensures
            r == Kind::spec_from_label(s@),
    {
        if s.to_owned() == "Reminder".to_owned() {
            Kind::Reminder
        } else {
            Kind::Event
        }
    }
}

/// A kind's tag parses back to the same kind.
pub proof fn lemma_kind_label_round_trip(k: Kind)
    ensures
        Kind::spec_from_label(k.spec_label()) == k,
{
    reveal_strlit("Event");
    reveal_strlit("Reminder");
    assert("Event"@.len() == 5);
    assert("Reminder"@.len() == 8);
}

impl ImportantLevel {
    /// The persisted tag of this level.
    pub open spec fn spec_label(self) -> Seq<char> {
        match self {
            ImportantLevel::VeryLow => "VeryLow"@,
            ImportantLevel::Low => "Low"@,
            ImportantLevel::Medium => "Medium"@,
            ImportantLevel::High => "High"@,
            ImportantLevel::VeryHigh => "VeryHigh"@,
        }
    }

    /// Which level a persisted tag denotes; unknown tags denote `Medium`.
    pub open spec fn spec_from_label(s: Seq<char>) -> ImportantLevel {
        if s == "VeryLow"@ {
            ImportantLevel::VeryLow
        } else if s == "Low"@ {
            ImportantLevel::Low
        } else if s == "High"@ {
            ImportantLevel::High
        } else if s == "VeryHigh"@ {
            ImportantLevel::VeryHigh
        } else {
            ImportantLevel::Medium
        }
    }

    pub fn label(&self) -> (r: String)
        ensures
            r@ == self.spec_label(),
    {
        match self {
            ImportantLevel::VeryLow => "VeryLow".to_owned(),
            ImportantLevel::Low => "Low".to_owned(),
            ImportantLevel::Medium => "Medium".to_owned(),
            ImportantLevel::High => "High".to_owned(),
            ImportantLevel::VeryHigh => "VeryHigh".to_owned(),
        }
    }

    pub fn from_label(s: &str) -> (r: ImportantLevel)
        ensures
            r == ImportantLevel::spec_from_label(s@),
    {
        let owned = s.to_owned();
        if owned == "VeryLow".to_owned() {
            ImportantLevel::VeryLow
        } else if owned == "Low".to_owned() {
            ImportantLevel::Low
        } else if owned == "High".to_owned() {
            ImportantLevel::High
        } else if owned == "VeryHigh".to_owned() {
            ImportantLevel::VeryHigh
        } else {
            ImportantLevel::Medium
        }
    }
}

/// A level's tag parses back to the same level.
pub proof fn lemma_important_level_label_round_trip(l: ImportantLevel)
    ensures
        ImportantLevel::spec_from_label(l.spec_label()) == l,
{
    reveal_strlit("VeryLow");
    reveal_strlit("Low");
    reveal_strlit("Medium");
    reveal_strlit("High");
    reveal_strlit("VeryHigh");
    assert("VeryLow"@.len() == 7);
    assert("Low"@.len() == 3);
    assert("Medium"@.len() == 6);
    assert("High"@.len() == 4);
    assert("VeryHigh"@.len() == 8);
}

impl Category {
    /// The persisted tag of this category.
    pub open spec fn spec_label(self) -> Seq<char> {
        match self {
            Category::Common => "Default"@,
            Category::Other => "Other"@,
        }
    }

    /// Which category a persisted tag denotes; unknown tags denote `Common`.
    pub open spec fn spec_from_label(s: Seq<char>) -> Category {
        if s == "Other"@ {
            Category::Other
        } else {
            Category::Common
        }
    }

    pub fn label(&self) -> (r: String)
        ensures
            r@ == self.spec_label(),
    {
        match self {
            Category::Common => "Default".to_owned(),
            Category::Other => "Other".to_owned(),
        }
    }

    pub fn from_label(s: &str) -> (r: Category)
        ensures
            r == Category::spec_from_label(s@),
    {
        if s.to_owned() == "Other".to_owned() {
            Category::Other
        } else {
            Category::Common
        }
    }
}

/// A category's tag parses back to the same category.
pub proof fn lemma_category_label_round_trip(c: Category)
    ensures
        Category::spec_from_label(c.spec_label()) == c,
{
    reveal_strlit("Default");
    reveal_strlit("Other");
    assert("Default"@.len() == 7);
    assert("Other"@.len() == 5);
}

/// A stored calendar item: an event or a reminder, told apart by `kind`.
/// `start_time` and `end_time` are the item's zoned timestamps; the store
/// orders and indexes items by their UTC instants.
pub struct Item {
    pub id: u128,
    pub kind: Kind,
    pub title: String,
    pub description: String,
    pub start_time: ZonedTime,
    pub end_time: ZonedTime,
    pub color: String,
    pub importance: ImportantLevel,
    pub category: Category,
    pub generator_instance: Option<u128>,
}

/// Two items' time intervals overlap: each starts before the other ends.
pub open spec fn overlaps(a: Item, b: Item) -> bool {
    a.start_time.millis < b.end_time.millis && b.start_time.millis < a.end_time.millis
}

impl Item {
    /// The item's times are ordered and fall within the supported epoch.
    pub open spec fn spec_valid(self) -> bool {
        &&& self.start_time.millis < self.end_time.millis
        &&& in_epoch(self.start_time.millis as int)
        &&& in_epoch(self.end_time.millis as int)
    }

    /// The first day number the item touches.
    pub open spec fn start_day(self) -> int {
        spec_day_of(self.start_time.millis as int)
    }

    /// The last day number the item touches.
    pub open spec fn end_day(self) -> int {
        spec_day_of(self.end_time.millis as int)
    }

    /// The item's `[start, end]` span touches the given day.
    pub open spec fn spans(self, day: int) -> bool {
        self.start_day() <= day <= self.end_day()
    }

    /// A fresh item of the given kind. With `id` absent a random id is
    /// drawn; both timestamps start out at the current instant (an invalid
    /// zero-length span) and must be set before the item can be stored.
    pub fn init(kind: Kind, id: Option<u128>) -> (r: Item)
        ensures
            r.kind == kind,
            (id matches Some(v) ==> r.id == v),
            r.title@ == Seq::<char>::empty(),
            r.description@ == Seq::<char>::empty(),
            r.color@ == Seq::<char>::empty(),
            r.start_time == r.end_time,
            r.start_time.offset_seconds == 0,
            r.importance == (match kind {
                Kind::Reminder => ImportantLevel::Low,
                Kind::Event => ImportantLevel::Medium,
            }),
            r.category == Category::Common,
            r.generator_instance is None,
    {
        let fresh = new_random_id();
        let now = ZonedTime { millis: now_millis(), offset_seconds: 0 };
        Item {
            id: match id {
                Some(v) => v,
                None => fresh,
            },
            kind,
            title: String::new(),
            description: String::new(),
            start_time: now,
            end_time: now,
            color: String::new(),
            importance: match kind {
                Kind::Reminder => ImportantLevel::Low,
                Kind::Event => ImportantLevel::Medium,
            },
            category: Category::Common,
            generator_instance: None,
        }
    }

    /// A copy of the item; with `is_new` the copy carries a fresh random id.
    pub fn self_clone(&self, is_new: bool) -> (r: Item)
        ensures
            !is_new ==> r == *self,
            is_new ==> r == (Item { id: r.id, ..*self }),
    {
        Item {
            id: if is_new {
                new_random_id()
            } else {
                self.id
            },
            kind: self.kind,
            title: self.title.clone(),
            description: self.description.clone(),
            start_time: self.start_time,
            end_time: self.end_time,
            color: self.color.clone(),
            importance: self.importance,
            category: self.category,
            generator_instance: self.generator_instance,
        }
    }

    pub fn get_id(&self) -> (r: u128)
        ensures
            r == self.id,
    {
        self.id
    }

    pub fn get_kind(&self) -> (r: Kind)
        ensures
            r == self.kind,
    {
        self.kind
    }

    pub fn get_title(&self) -> (r: &str)
        ensures
            r@ == self.title@,
    {
        self.title.as_str()
    }

    pub fn set_title(&mut self, title: &str)
        ensures
            *final(self) == (Item { title: final(self).title, ..*old(self) }),
            final(self).title@ == title@,
    {
        self.title = title.to_owned();
    }

    pub fn get_description(&self) -> (r: &str)
        ensures
            r@ == self.description@,
    {
        self.description.as_str()
    }

    pub fn set_description(&mut self, description: &str)
        ensures
            *final(self) == (Item { description: final(self).description, ..*old(self) }),
            final(self).description@ == description@,
    {
        self.description = description.to_owned();
    }

    pub fn get_start_time(&self) -> (r: ZonedTime)
        ensures
            r == self.start_time,
    {
        self.start_time
    }

    pub fn get_end_time(&self) -> (r: ZonedTime)
        ensures
            r == self.end_time,
    {
        self.end_time
    }

    pub fn set_duration(&mut self, start_time: ZonedTime, end_time: ZonedTime)
        ensures
            *final(self) == (Item { start_time, end_time, ..*old(self) }),
    {
        self.start_time = start_time;
        self.end_time = end_time;
    }

    pub fn get_color(&self) -> (r: &str)
        ensures
            r@ == self.color@,
    {
        self.color.as_str()
    }

    pub fn set_color(&mut self, color: &str)
        ensures
            *final(self) == (Item { color: final(self).color, ..*old(self) }),
            final(self).color@ == color@,
    {
        self.color = color.to_owned();
    }

    pub fn get_importance(&self) -> (r: ImportantLevel)
        ensures
            r == self.importance,
    {
        self.importance
    }

    pub fn set_importance(&mut self, important_level: ImportantLevel)
        ensures
            *final(self) == (Item { importance: important_level, ..*old(self) }),
    {
        self.importance = important_level;
    }

    pub fn get_categories(&self) -> (r: Category)
        ensures
            r == self.category,
    {
        self.category
    }

    pub fn set_categories(&mut self, category: Category)
        ensures
            *final(self) == (Item { category, ..*old(self) }),
    {
        self.category = category;
    }

    pub fn get_generator_instance(&self) -> (r: Option<u128>)
        ensures
            r == self.generator_instance,
    {
        self.generator_instance
    }

    pub fn set_generator_instance(&mut self, generator_instance: u128)
        ensures
            *final(self) == (Item {
                generator_instance: Some(generator_instance),
                ..*old(self)
            }),
    {
        self.generator_instance = Some(generator_instance);
    }

    /// Whether the item may be handed to the store: its times are ordered
    /// and lie within the supported epoch.
    pub fn check_valid(&self) -> (r: bool)
        ensures
            r == self.spec_valid(),
    {
        self.start_time.millis < self.end_time.millis && 0 <= self.start_time.millis
            && self.end_time.millis <= MAX_EPOCH_MILLIS
    }
}

/// Two valid overlapping items touch a common calendar day: the later of
/// the two start instants lies inside both intervals, so its day is in both
/// spans. This is why checking the buckets of the days a new item touches
/// finds every overlap.
pub proof fn lemma_overlap_shares_day(a: Item, b: Item)
    requires
        a.spec_valid(),
        b.spec_valid(),
        overlaps(a, b),
    ensures
        exists|d: int| a.spans(d) && b.spans(d),
{
    let t: int = if a.start_time.millis >= b.start_time.millis {
        a.start_time.millis as int
    } else {
        b.start_time.millis as int
    };
    let d = spec_day_of(t);
    crate::time::lemma_day_of_monotonic(a.start_time.millis as int, t);
    crate::time::lemma_day_of_monotonic(t, a.end_time.millis as int);
    crate::time::lemma_day_of_monotonic(b.start_time.millis as int, t);
    crate::time::lemma_day_of_monotonic(t, b.end_time.millis as int);
    assert(a.spans(d) && b.spans(d));
}

/// How a recurrence repeats: gaps between occurrences, skip flags, and the
/// day range the rule covers.
#[derive(Clone, Copy, PartialEq, Eq, Structural, Debug)]
pub struct RepeatStrategy {
    pub repeat_gap_day: u32,
    pub repeat_gap_month: u32,
    pub repeat_gap_year: u32,
    pub skip_weekday: bool,
    pub skip_weekend: bool,
    pub skip_holiday: bool,
    pub start_day: i64,
    pub until_day: i64,
}

impl RepeatStrategy {
    /// The day range is ordered and the skip flags do not rule out every
    /// day of the week.
    pub open spec fn spec_check_valid(self) -> bool {
        self.until_day >= self.start_day && !(self.skip_weekday && self.skip_weekend)
    }

    pub fn check_valid(repeat_strategy: &RepeatStrategy) -> (r: bool)
        ensures
            r == repeat_strategy.spec_check_valid(),
    {
        if repeat_strategy.until_day < repeat_strategy.start_day {
            return false;
        }
        if repeat_strategy.skip_weekday && repeat_strategy.skip_weekend {
            return false;
        }
        true
    }
}

/// A recurrence rule: its strategy, the items it has produced, and whether
/// a conflicting occurrence aborts the batch or is silently dropped.
pub struct Repeat {
    pub repeat_strategy: RepeatStrategy,
    pub event_queue: Vec<u128>,
    pub throw_error_when_conflict: bool,
}

/// Soft scheduling preferences; the store never reads them.
#[derive(Clone, Copy, PartialEq, Eq, Structural, Debug)]
pub struct PreferStrategy {
    pub prefer_morning: bool,
    pub prefer_afternoon: bool,
    pub prefer_evening: bool,
    pub prefer_night: bool,
    pub prefer_weekday: bool,
    pub prefer_weekend: bool,
    pub prefer_holiday: bool,
    pub prefer_non_holiday: bool,
}

/// Recurrence metadata the store keeps beside its items, looked up by id.
pub struct GeneratorInstance {
    pub id: u128,
    pub repeat: Option<Repeat>,
    pub prefer_strategy: Option<PreferStrategy>,
}

/// Two repeat descriptors hold the same data, comparing the produced-item
/// list by its contents.
pub open spec fn repeat_congruent(a: Repeat, b: Repeat) -> bool {
    &&& a.repeat_strategy == b.repeat_strategy
    &&& a.event_queue@ == b.event_queue@
    &&& a.throw_error_when_conflict == b.throw_error_when_conflict
}

/// Two generator instances hold the same data, comparing repeat descriptors
/// by [`repeat_congruent`].
pub open spec fn instance_congruent(a: GeneratorInstance, b: GeneratorInstance) -> bool {
    &&& a.id == b.id
    &&& a.prefer_strategy == b.prefer_strategy
    &&& match (a.repeat, b.repeat) {
        (Option::None, Option::None) => true,
        (Option::Some(x), Option::Some(y)) => repeat_congruent(x, y),
        _ => false,
    }
}

pub(crate) fn copy_id_vec(v: &Vec<u128>) -> (r: Vec<u128>)
    ensures
        r@ == v@,
{
    let mut r: Vec<u128> = Vec::new();
    let mut i: usize = 0;
    while i < v.len()
        invariant
            0 <= i <= v.len(),
            r@ == v@.subrange(0, i as int),
        decreases v.len() - i,
    {
        r.push(v[i]);
        i = i + 1;
        proof {
            assert(r@ =~= v@.subrange(0, i as int));
        }
    }
    proof {
        assert(r@ =~= v@);
    }
    r
}

impl GeneratorInstance {
    /// A fresh instance with a random id and no rule attached.
    pub fn new() -> (r: GeneratorInstance)
        ensures
            r.repeat is None,
            r.prefer_strategy is None,
    {
        GeneratorInstance { id: new_random_id(), repeat: None, prefer_strategy: None }
    }

    pub fn get_id(&self) -> (r: u128)
        ensures
            r == self.id,
    {
        self.id
    }

    /// A copy of the instance, equal to it up to [`instance_congruent`].
    pub fn duplicate(&self) -> (r: GeneratorInstance)
        ensures
            instance_congruent(r, *self),
    {
        GeneratorInstance {
            id: self.id,
            repeat: match &self.repeat {
                Some(rep) => Some(
                    Repeat {
                        repeat_strategy: rep.repeat_strategy,
                        event_queue: copy_id_vec(&rep.event_queue),
                        throw_error_when_conflict: rep.throw_error_when_conflict,
                    },
                ),
                None => None,
            },
            prefer_strategy: self.prefer_strategy,
        }
    }
}

} // verus!
