//! The error taxonomy of the store and its coordinator.

use vstd::prelude::*;
use crate::time::ZonedTime;

verus! {

/// Every failure the store, the coordinator or the persistence boundary can
/// report.
///
/// `ConflictEventError` carries the start and end time of the item whose
/// insertion was rejected. `BusyCache` is the one retryable error: it means a
/// mutation could not take the exclusive lock within the bounded wait.
#[derive(Debug)]
pub enum InternalError {
    InvalidStartEndTimeError { start_time: ZonedTime, end_time: ZonedTime },
    InvalidTimeZoneError { time_zone: String },
    ConflictEventError { start_time: ZonedTime, end_time: ZonedTime },
    EventsAlreadyExistError { event_id: u128 },
    DataPersistenceError,
    UnknownError,
    EventNotFoundError,
    BusyCache,
}

} // verus!
