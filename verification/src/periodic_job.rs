//! Jobs that run again and again, at an interval that their event gives:
//! reading the event, entering the job in the registry, and saying which
//! timer the driver is to set.

use crate::error::ProtocolViolation;
use crate::log::{LogEntry, LogEntryView, LogSource};
use crate::state::State;
use crate::text::{hex_body, hex_value, is_hex_u256, u256_from_hex_str};
use crate::u256::U256;
use vstd::prelude::*;

verus! {

/// The event that announces a periodic job: its identifier, and the seconds
/// between two of its runs.
#[derive(Clone, Copy, Debug, PartialEq, Eq)]
pub struct NewJobEvent {
    pub job_id: U256,
    pub job_sleep_interval: U256,
}

/// The timer that the driver is to set for a periodic job.
#[derive(Clone, Copy, Debug, PartialEq, Eq)]
pub struct JobTimer {
    pub job_id: U256,
    pub interval_secs: u64,
}

/// What a log record announces, as numbers `(job_id, job_sleep_interval)`,
/// or why it announces nothing. The identifier is the second topic, the
/// interval the third, both in hexadecimal.
pub open spec fn announced_job(entry: LogEntryView) -> Result<(nat, nat), ProtocolViolation> {
    if entry.topics.len() < 2 {
        Err(ProtocolViolation::MissingTopic)
    } else if !is_hex_u256(entry.topics[1]) {
        Err(ProtocolViolation::InvalidJobId)
    } else if entry.topics.len() < 3 {
        Err(ProtocolViolation::MissingTopic)
    } else if !is_hex_u256(entry.topics[2]) {
        Err(ProtocolViolation::InvalidSchedule)
    } else {
        Ok((hex_value(hex_body(entry.topics[1])), hex_value(hex_body(entry.topics[2]))))
    }
}

/// The timer that a log record asks for, as `(job_id, interval_secs)`, or
/// why it asks for none: what it announces, with an interval that fits in 64
/// bits.
pub open spec fn requested_timer(entry: LogEntryView) -> Result<(nat, u64), ProtocolViolation> {
    match announced_job(entry) {
        Err(e) => Err(e),
        Ok((id, interval)) => if interval <= u64::MAX {
            Ok((id, interval as u64))
        } else {
            Err(ProtocolViolation::ScheduleOutOfRange)
        },
    }
}

impl NewJobEvent {
    /// Reads the event that a log record announces.
    pub fn decode(entry: &LogEntry) -> (r: Result<NewJobEvent, ProtocolViolation>)
        ensures
            match announced_job(entry@) {
                Ok((id, interval)) => r matches Ok(event) && event.job_id@ == id
                    && event.job_sleep_interval@ == interval,
                Err(e) => r == Err::<NewJobEvent, ProtocolViolation>(e),
            },
    {
        if entry.topics.len() < 2 {
            return Err(ProtocolViolation::MissingTopic);
        }
        let job_id = match u256_from_hex_str(entry.topics[1].as_str()) {
            Some(v) => v,
            None => {
                return Err(ProtocolViolation::InvalidJobId);
            },
        };
        if entry.topics.len() < 3 {
            return Err(ProtocolViolation::MissingTopic);
        }
        let job_sleep_interval = match u256_from_hex_str(entry.topics[2].as_str()) {
            Some(v) => v,
            None => {
                return Err(ProtocolViolation::InvalidSchedule);
            },
        };
        Ok(NewJobEvent { job_id, job_sleep_interval })
    }
}

/// Processes a pending event: moves it to the processed ones, reads the
/// periodic job that its record announces, enters the job in the registry
/// under its interval, and returns the timer to set.
///
/// Fails, and changes nothing, where the event is not pending. Where the
/// record asks for no timer, the event stays processed and the registry
/// stays as it was.
pub fn job(state: &mut State, event_source: LogSource, event: LogEntry) -> (r: Result<
    JobTimer,
    ProtocolViolation,
>)
    ensures
        old(state).same_but_logs_and_jobs(*final(state)),
        final(state).logs@.disjoint(),
        match old(state).logs@.record_processed(event_source@) {
            Err(e) => r == Err::<JobTimer, ProtocolViolation>(e) && *final(state) == *old(state),
            Ok(next) => final(state).logs@ == next && match requested_timer(event@) {
                Err(e) => r == Err::<JobTimer, ProtocolViolation>(e)
                    && final(state).job_execution_times == old(state).job_execution_times,
                Ok((id, interval)) => r matches Ok(timer) && timer.job_id@ == id
                    && timer.interval_secs == interval
                    && final(state).job_execution_times@ == old(
                    state,
                ).job_execution_times@.insert(id, interval),
            },
        },
{
    match state.record_processed_log(event_source) {
        Err(e) => {
            return Err(e);
        },
        Ok(_) => {},
    }
    match NewJobEvent::decode(&event) {
        Err(e) => Err(e),
        Ok(announced) => match announced.job_sleep_interval.checked_as_u64() {
            Some(interval_secs) => {
                state.add_job(announced.job_id, interval_secs);
                Ok(JobTimer { job_id: announced.job_id, interval_secs })
            },
            None => Err(ProtocolViolation::ScheduleOutOfRange),
        },
    }
}

} // verus!
