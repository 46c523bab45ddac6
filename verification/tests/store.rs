use timestore::cache::Cache;
use timestore::error::InternalError;
use timestore::model::{GeneratorInstance, Item, Kind, Repeat, RepeatStrategy};
use timestore::time::{get_cache_day_number_from_time, ZonedTime};

fn now_zoned() -> ZonedTime {
    ZonedTime::new(chrono::Utc::now().timestamp_millis(), 0)
}

fn plus_hours(t: ZonedTime, hours: i64) -> ZonedTime {
    ZonedTime::new(t.millis + hours * 3_600_000, t.offset_seconds)
}

fn plus_days(t: ZonedTime, days: i64) -> ZonedTime {
    ZonedTime::new(t.millis + days * 86_400_000, t.offset_seconds)
}

#[test]
fn get_events_returns_error_when_no_matching_event() {
    let cache = Cache::init();
    let events = cache.get_events_by_id(1, Kind::Event);
    assert!(events.is_err());
}

#[test]
fn set_events_adds_event_to_cache() {
    let mut cache = Cache::init();
    let mut event = Item::init(Kind::Event, None);
    let start_time = now_zoned();
    let end_time = plus_days(start_time, 1);
    event.set_duration(start_time, end_time);
    let id = event.get_id();
    cache.insert_events(vec![event]).unwrap();
    let events = cache.get_all_events(Kind::Event);
    assert_eq!(events.len(), 1);
    assert_eq!(events[0].get_id(), id);
    assert_eq!(events[0].get_start_time(), start_time);
    assert_eq!(events[0].get_end_time(), end_time);
    let events = cache.get_events_by_day(get_cache_day_number_from_time(&start_time), Kind::Event);
    assert_eq!(events.len(), 1);
    assert_eq!(events[0].get_id(), id);
    assert_eq!(events[0].get_start_time(), start_time);
    assert_eq!(events[0].get_end_time(), end_time);
    let events = cache.get_events_by_day(get_cache_day_number_from_time(&end_time), Kind::Event);
    assert_eq!(events.len(), 1);
    assert_eq!(events[0].get_id(), id);
    assert_eq!(events[0].get_start_time(), start_time);
    assert_eq!(events[0].get_end_time(), end_time);
    let events = cache.get_events_by_id(id, Kind::Event);
    assert!(events.is_ok());
    let events = events.unwrap();
    assert_eq!(events.get_id(), id);
    assert_eq!(events.get_start_time(), start_time);
    assert_eq!(events.get_end_time(), end_time);
}

#[test]
fn set_events_returns_error_when_events_conflict() {
    let mut cache = Cache::init();
    let mut event1 = Item::init(Kind::Event, None);
    let mut event2 = Item::init(Kind::Event, None);
    let event1_start_time = now_zoned();
    let event1_end_time = plus_days(event1_start_time, 1);
    event1.set_duration(event1_start_time, event1_end_time);
    let event2_start_time = plus_days(event1_start_time, -1);
    let event2_end_time = plus_hours(event1_start_time, 12);
    event2.set_duration(event2_start_time, event2_end_time);
    cache.insert_events(vec![event1]).unwrap();
    let result = cache.insert_events(vec![event2]);
    assert!(result.is_err());
    assert_eq!(cache.get_all_events(Kind::Event).len(), 1);

    let mut generated_instance = GeneratorInstance::new();
    generated_instance.repeat = Some(Repeat {
        repeat_strategy: RepeatStrategy {
            repeat_gap_day: 0,
            repeat_gap_month: 0,
            repeat_gap_year: 0,
            skip_weekday: false,
            skip_weekend: false,
            skip_holiday: false,
            start_day: 0,
            until_day: 0,
        },
        event_queue: vec![],
        throw_error_when_conflict: true,
    });
    let instance_id = generated_instance.get_id();
    cache.add_or_update_instances(vec![generated_instance]);
    let mut event2 = Item::init(Kind::Event, None);
    event2.set_duration(event2_start_time, event2_end_time);
    event2.set_generator_instance(instance_id);
    let result = cache.insert_events(vec![event2]);
    assert!(result.is_err());
    assert_eq!(cache.get_all_events(Kind::Event).len(), 1);

    let mut generated_instance = GeneratorInstance::new();
    generated_instance.repeat = Some(Repeat {
        repeat_strategy: RepeatStrategy {
            repeat_gap_day: 0,
            repeat_gap_month: 0,
            repeat_gap_year: 0,
            skip_weekday: false,
            skip_weekend: false,
            skip_holiday: false,
            start_day: 0,
            until_day: 0,
        },
        event_queue: vec![],
        throw_error_when_conflict: false,
    });
    let instance_id = generated_instance.get_id();
    cache.add_or_update_instances(vec![generated_instance]);
    let mut event2 = Item::init(Kind::Event, None);
    event2.set_duration(event2_start_time, event2_end_time);
    event2.set_generator_instance(instance_id);
    let result = cache.insert_events(vec![event2]);
    assert!(result.is_ok());
    assert_eq!(cache.get_all_events(Kind::Event).len(), 1);
}

#[test]
fn delete_event_removes_event_from_cache() {
    let mut cache = Cache::init();
    let mut event = Item::init(Kind::Event, None);
    let start_time = now_zoned();
    let end_time = plus_days(start_time, 2);
    event.set_duration(start_time, end_time);
    let id = event.get_id();
    cache.insert_events(vec![event]).unwrap();
    assert_eq!(
        cache
            .get_events_by_day(get_cache_day_number_from_time(&start_time), Kind::Event)
            .len(),
        1
    );
    assert_eq!(
        cache
            .get_events_by_day(
                get_cache_day_number_from_time(&plus_days(start_time, 1)),
                Kind::Event
            )
            .len(),
        1
    );
    assert_eq!(
        cache
            .get_events_by_day(get_cache_day_number_from_time(&end_time), Kind::Event)
            .len(),
        1
    );
    assert!(cache.get_events_by_id(id, Kind::Event).is_ok());
    assert_eq!(cache.get_all_events(Kind::Event).len(), 1);
    assert_eq!(
        cache.get_all_raw_events().first().unwrap().get_start_time(),
        start_time
    );
    assert_eq!(
        cache.get_events_by_id(id, Kind::Event).unwrap().get_end_time(),
        end_time
    );
    cache.delete_event(id).unwrap();
    let events = cache.get_all_events(Kind::Event);
    assert!(events.is_empty());
    assert!(cache.get_events_by_id(id, Kind::Event).is_err());
    assert!(cache
        .get_events_by_day(get_cache_day_number_from_time(&start_time), Kind::Event)
        .is_empty());
}

#[test]
fn set_reminders_adds_reminder_to_cache() {
    let mut cache = Cache::init();
    let mut reminder = Item::init(Kind::Reminder, None);
    let start = now_zoned();
    reminder.set_duration(start, plus_hours(start, 1));
    let id = reminder.get_id();
    cache.insert_events(vec![reminder]).unwrap();
    let reminders = cache.get_events_by_id(id, Kind::Reminder);
    assert_eq!(reminders.is_ok(), true);
    assert_eq!(reminders.unwrap().get_kind().label(), "Reminder");
}

#[test]
fn delete_missing_id_reports_not_found() {
    let mut cache = Cache::init();
    let result = cache.delete_event(42);
    assert!(matches!(result, Err(InternalError::EventNotFoundError)));
}

#[test]
fn conflict_error_carries_the_rejected_items_times() {
    let mut cache = Cache::init();
    let mut a = Item::init(Kind::Event, None);
    let base = now_zoned();
    a.set_duration(base, plus_hours(base, 2));
    cache.insert_events(vec![a]).unwrap();
    let mut b = Item::init(Kind::Event, None);
    let b_start = plus_hours(base, 1);
    let b_end = plus_hours(base, 3);
    b.set_duration(b_start, b_end);
    match cache.insert_events(vec![b]) {
        Err(InternalError::ConflictEventError { start_time, end_time }) => {
            assert_eq!(start_time, b_start);
            assert_eq!(end_time, b_end);
        }
        _ => panic!("expected a conflict"),
    }
    assert_eq!(cache.get_all_events(Kind::Event).len(), 1);
}

#[test]
fn reinserting_an_id_replaces_the_item() {
    let mut cache = Cache::init();
    let mut first = Item::init(Kind::Event, Some(7));
    let base = now_zoned();
    first.set_duration(base, plus_days(base, 1));
    cache.insert_events(vec![first]).unwrap();
    let old_day = get_cache_day_number_from_time(&base);

    let mut replacement = Item::init(Kind::Event, Some(7));
    let new_start = plus_days(base, 10);
    let new_end = plus_days(base, 11);
    replacement.set_duration(new_start, new_end);
    replacement.set_title("moved");
    cache.insert_events(vec![replacement]).unwrap();

    assert_eq!(cache.get_all_events(Kind::Event).len(), 1);
    assert!(cache.get_events_by_day(old_day, Kind::Event).is_empty());
    let found = cache
        .get_events_by_day(get_cache_day_number_from_time(&new_start), Kind::Event);
    assert_eq!(found.len(), 1);
    assert_eq!(found[0].get_id(), 7);
    assert_eq!(found[0].get_title(), "moved");
    assert_eq!(found[0].get_start_time(), new_start);
}

#[test]
fn lookup_by_day_on_a_known_june_weekend() {
    // insert 2024-06-01T00:00Z .. 2024-06-02T00:00Z
    let mut cache = Cache::init();
    let mut event = Item::init(Kind::Event, None);
    let start = ZonedTime::new(1_717_200_000_000, 0);
    let end = ZonedTime::new(1_717_286_400_000, 0);
    event.set_duration(start, end);
    let id = event.get_id();
    cache.insert_events(vec![event]).unwrap();
    let june_first: i64 = 19_875;
    assert_eq!(get_cache_day_number_from_time(&start), june_first);
    let day1 = cache.get_events_by_day(june_first, Kind::Event);
    assert_eq!(day1.len(), 1);
    assert_eq!(day1[0].get_id(), id);
    let day2 = cache.get_events_by_day(june_first + 1, Kind::Event);
    assert_eq!(day2.len(), 1);
    assert_eq!(day2[0].get_id(), id);
    let day3 = cache.get_events_by_day(june_first + 2, Kind::Event);
    assert!(day3.is_empty());
}

#[test]
fn insert_pair_in_either_order_keeps_both() {
    let base = now_zoned();
    for flip in [false, true] {
        let mut cache = Cache::init();
        let mut a = Item::init(Kind::Event, Some(1));
        a.set_duration(base, plus_hours(base, 1));
        let mut b = Item::init(Kind::Event, Some(2));
        b.set_duration(plus_hours(base, 2), plus_hours(base, 3));
        let batch = if flip { vec![b, a] } else { vec![a, b] };
        cache.insert_events(batch).unwrap();
        assert!(cache.get_events_by_id(1, Kind::Event).is_ok());
        assert!(cache.get_events_by_id(2, Kind::Event).is_ok());
        let day = get_cache_day_number_from_time(&base);
        let found = cache.get_events_by_day(day, Kind::Event);
        assert_eq!(found.len(), 2);
    }
}

#[test]
fn check_conflict_reports_overlapping_pairs_only() {
    let base = now_zoned();
    let mut a = Item::init(Kind::Event, Some(1));
    a.set_duration(base, plus_hours(base, 2));
    let mut b = Item::init(Kind::Event, Some(2));
    b.set_duration(plus_hours(base, 1), plus_hours(base, 3));
    let mut c = Item::init(Kind::Event, Some(3));
    c.set_duration(plus_hours(base, 5), plus_hours(base, 6));
    let pairs = timestore::cache::check_conflict(&vec![a, b, c]);
    // a-b overlap, reported in both orders; c conflicts with nothing
    assert_eq!(pairs.len(), 2);
    assert_eq!(pairs[0].0.get_id(), 1);
    assert_eq!(pairs[0].1.get_id(), 2);
    assert_eq!(pairs[1].0.get_id(), 2);
    assert_eq!(pairs[1].1.get_id(), 1);

    let mut twin = Item::init(Kind::Event, Some(4));
    twin.set_duration(base, plus_hours(base, 2));
    let mut same_id = Item::init(Kind::Event, Some(4));
    same_id.set_duration(base, plus_hours(base, 2));
    // same id: never a conflict with itself
    let pairs = timestore::cache::check_conflict(&vec![twin, same_id]);
    assert!(pairs.is_empty());
}

#[test]
fn instances_are_upserted_by_id() {
    let mut cache = Cache::init();
    let mut first = GeneratorInstance::new();
    let id = first.get_id();
    first.repeat = None;
    cache.add_or_update_instances(vec![first]);
    assert!(cache.get_instances(id).is_some());
    assert!(cache.get_instances(id).unwrap().repeat.is_none());

    let mut second = GeneratorInstance::new();
    // an update reuses the id
    let replacement = GeneratorInstance {
        id,
        repeat: Some(Repeat {
            repeat_strategy: RepeatStrategy {
                repeat_gap_day: 1,
                repeat_gap_month: 0,
                repeat_gap_year: 0,
                skip_weekday: false,
                skip_weekend: false,
                skip_holiday: false,
                start_day: 0,
                until_day: 5,
            },
            event_queue: vec![9],
            throw_error_when_conflict: true,
        }),
        prefer_strategy: None,
    };
    second.repeat = None;
    let second_id = second.get_id();
    cache.add_or_update_instances(vec![replacement, second]);
    assert_eq!(cache.get_all_instances().len(), 2);
    let got = cache.get_instances(id).unwrap();
    assert!(got.repeat.is_some());
    assert_eq!(got.repeat.unwrap().event_queue, vec![9]);
    assert!(cache.get_instances(second_id).is_some());
    assert!(cache.get_instances(77).is_none());
}
