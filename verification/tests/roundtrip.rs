use timestore::cache::Cache;
use timestore::coordinator::{
    coordinator_step, CoordinatorAction, MutationEvent, MutationState, ProcessQueue,
};
use timestore::model::{
    Category, GeneratorInstance, ImportantLevel, Item, Kind, PreferStrategy, Repeat,
    RepeatStrategy,
};
use timestore::persist::FilePersistenceSystem;
use timestore::time::{get_all_day_numbers, get_cache_day_number_from_time, ZonedTime};

#[test]
fn save_load_round_trip_preserves_items() {
    let mut cache = Cache::init();
    let mut instance = GeneratorInstance::new();
    let instance_id = instance.get_id();
    instance.repeat = Some(Repeat {
        repeat_strategy: RepeatStrategy {
            repeat_gap_day: 2,
            repeat_gap_month: 0,
            repeat_gap_year: 0,
            skip_weekday: false,
            skip_weekend: true,
            skip_holiday: false,
            start_day: 0,
            until_day: 30,
        },
        event_queue: vec![],
        throw_error_when_conflict: true,
    });
    instance.prefer_strategy = Some(PreferStrategy {
        prefer_morning: true,
        prefer_afternoon: false,
        prefer_evening: false,
        prefer_night: false,
        prefer_weekday: true,
        prefer_weekend: false,
        prefer_holiday: false,
        prefer_non_holiday: true,
    });
    cache.add_or_update_instances(vec![instance]);

    let base = ZonedTime::new(1_717_200_000_000, 3600);
    let mut event = Item::init(Kind::Event, None);
    event.set_duration(base, ZonedTime::new(base.millis + 7_200_000, 3600));
    event.set_title("standup");
    event.set_description("daily");
    event.set_color("blue");
    event.set_importance(ImportantLevel::High);
    event.set_categories(Category::Other);
    event.set_generator_instance(instance_id);
    let event_id = event.get_id();

    let mut reminder = Item::init(Kind::Reminder, None);
    reminder.set_duration(
        ZonedTime::new(base.millis + 86_400_000, -1800),
        ZonedTime::new(base.millis + 90_000_000, -1800),
    );
    reminder.set_title("pay rent");
    let reminder_id = reminder.get_id();

    cache.insert_events(vec![event, reminder]).unwrap();

    let records = FilePersistenceSystem::snapshot(&cache);
    assert_eq!(records.len(), 2);
    let loaded = FilePersistenceSystem::restore(records).unwrap();

    let got = loaded.get_events_by_id(event_id, Kind::Event).unwrap();
    assert_eq!(got.get_start_time(), base);
    assert_eq!(got.get_start_time().offset_seconds, 3600);
    assert_eq!(got.get_end_time().millis, base.millis + 7_200_000);
    assert_eq!(got.get_title(), "standup");
    assert_eq!(got.get_description(), "daily");
    assert_eq!(got.get_color(), "blue");
    assert_eq!(got.get_importance(), ImportantLevel::High);
    assert_eq!(got.get_categories(), Category::Other);
    assert_eq!(got.get_generator_instance(), Some(instance_id));

    let got = loaded.get_events_by_id(reminder_id, Kind::Reminder).unwrap();
    assert_eq!(got.get_title(), "pay rent");
    assert_eq!(got.get_start_time().offset_seconds, -1800);
    assert_eq!(got.get_generator_instance(), None);

    // the embedded instance was upserted into the restored table
    let got = loaded.get_instances(instance_id).unwrap();
    assert!(got.repeat.is_some());
    let rep = got.repeat.unwrap();
    assert!(rep.throw_error_when_conflict);
    assert_eq!(rep.repeat_strategy.until_day, 30);

    // by day too
    let day = get_cache_day_number_from_time(&base);
    let by_day = loaded.get_events_by_day(day, Kind::Event);
    assert_eq!(by_day.len(), 1);
    assert_eq!(by_day[0].get_id(), event_id);
}

#[test]
fn record_fields_flatten_the_item() {
    let mut event = Item::init(Kind::Event, Some(99));
    event.set_duration(ZonedTime::new(1000, 60), ZonedTime::new(2000, 60));
    event.set_title("t");
    event.set_importance(ImportantLevel::VeryHigh);
    let record = event.convert_to(None);
    assert_eq!(record.id, 99);
    assert_eq!(record.kind, "Event");
    assert_eq!(record.title, "t");
    assert_eq!(record.start_time, 1000);
    assert_eq!(record.start_time_timezone, 60);
    assert_eq!(record.end_time, 2000);
    assert_eq!(record.end_time_timezone, 60);
    assert_eq!(record.important_level, "VeryHigh");
    assert_eq!(record.category, "Default");
    let back = record.convert_to();
    assert_eq!(back.get_id(), 99);
    assert_eq!(back.get_kind(), Kind::Event);
    assert_eq!(back.get_importance(), ImportantLevel::VeryHigh);
    assert_eq!(back.get_start_time(), ZonedTime::new(1000, 60));
}

#[test]
fn unknown_tags_fall_back_when_parsed() {
    assert_eq!(Kind::from_label("Reminder"), Kind::Reminder);
    assert_eq!(Kind::from_label("nonsense"), Kind::Event);
    assert_eq!(ImportantLevel::from_label("VeryLow"), ImportantLevel::VeryLow);
    assert_eq!(ImportantLevel::from_label("nonsense"), ImportantLevel::Medium);
    assert_eq!(Category::from_label("Other"), Category::Other);
    assert_eq!(Category::from_label("nonsense"), Category::Common);
    assert_eq!(ImportantLevel::High.label(), "High");
    assert_eq!(Category::Common.label(), "Default");
}

#[test]
fn epoch_day_arithmetic() {
    assert_eq!(get_all_day_numbers(), 47_846);
    assert_eq!(get_cache_day_number_from_time(&ZonedTime::new(0, 0)), 0);
    assert_eq!(
        get_cache_day_number_from_time(&ZonedTime::new(86_399_999, 0)),
        0
    );
    assert_eq!(
        get_cache_day_number_from_time(&ZonedTime::new(86_400_000, 0)),
        1
    );
    assert_eq!(
        get_cache_day_number_from_time(&ZonedTime::new(1_717_200_000_000, 7200)),
        19_875
    );
}

#[test]
fn repeat_strategy_validity() {
    let mut strategy = RepeatStrategy {
        repeat_gap_day: 1,
        repeat_gap_month: 0,
        repeat_gap_year: 0,
        skip_weekday: false,
        skip_weekend: false,
        skip_holiday: false,
        start_day: 0,
        until_day: 10,
    };
    assert!(RepeatStrategy::check_valid(&strategy));
    strategy.until_day = -1;
    assert!(!RepeatStrategy::check_valid(&strategy));
    strategy.until_day = 10;
    strategy.skip_weekday = true;
    strategy.skip_weekend = true;
    assert!(!RepeatStrategy::check_valid(&strategy));
}

#[test]
fn item_validity_needs_ordered_in_epoch_times() {
    let mut event = Item::init(Kind::Event, None);
    event.set_duration(ZonedTime::new(5, 0), ZonedTime::new(5, 0));
    assert!(!event.check_valid());
    event.set_duration(ZonedTime::new(5, 0), ZonedTime::new(6, 0));
    assert!(event.check_valid());
    event.set_duration(ZonedTime::new(-1, 0), ZonedTime::new(6, 0));
    assert!(!event.check_valid());
    event.set_duration(ZonedTime::new(5, 0), ZonedTime::new(4_133_980_799_001, 0));
    assert!(!event.check_valid());
}

#[test]
fn mutation_request_walks_the_success_path() {
    let (s, a) = coordinator_step(MutationState::Submitted, MutationEvent::PoolAccepted);
    assert_eq!(s, MutationState::WaitingForLock);
    assert_eq!(a, CoordinatorAction::AwaitLock);
    let (s, a) = coordinator_step(s, MutationEvent::LockAcquired);
    assert_eq!(s, MutationState::Executing);
    assert_eq!(a, CoordinatorAction::RunClosure);
    let (s, a) = coordinator_step(s, MutationEvent::ClosureFinished);
    assert_eq!(s, MutationState::Completed);
    assert_eq!(a, CoordinatorAction::StartPersist);
    // terminal states absorb anything further
    let (s, a) = coordinator_step(s, MutationEvent::WaitTimedOut);
    assert_eq!(s, MutationState::Completed);
    assert_eq!(a, CoordinatorAction::Ignore);
}

#[test]
fn mutation_request_walks_the_busy_path() {
    let (s, _) = coordinator_step(MutationState::Submitted, MutationEvent::PoolAccepted);
    let (s, a) = coordinator_step(s, MutationEvent::WaitTimedOut);
    assert_eq!(s, MutationState::WaitingFailed);
    assert_eq!(a, CoordinatorAction::Defer);
    let (s, a) = coordinator_step(s, MutationEvent::DeferralAccepted);
    assert_eq!(s, MutationState::Queued);
    assert_eq!(a, CoordinatorAction::ReportBusy);
    let (s, a) = coordinator_step(MutationState::WaitingFailed, MutationEvent::DeferralRefused);
    assert_eq!(s, MutationState::Rejected);
    assert_eq!(a, CoordinatorAction::ReportBusy);
}

#[test]
fn process_queue_keeps_fifo_order() {
    let mut queue = ProcessQueue::new();
    assert_eq!(queue.len(), 0);
    queue.add_to_queue(3).unwrap();
    queue.add_to_queue(1).unwrap();
    queue.add_to_queue(2).unwrap();
    assert_eq!(queue.len(), 3);
}
