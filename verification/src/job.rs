//! Jobs that run once, at a time that their event gives: reading the event,
//! and entering the job in the registry.

use crate::error::ProtocolViolation;
use crate::log::{LogEntry, LogEntryView, LogSource};
use crate::state::State;
use crate::text::{hex_body, hex_value, is_hex_u256, u256_from_hex_str};
use crate::u256::U256;
use vstd::prelude::*;

verus! {

/// The event that announces a job: its identifier, and the time at which it
/// is to run, in seconds since the epoch.
#[derive(Clone, Copy, Debug, PartialEq, Eq)]
pub struct NewJobEvent {
    pub job_execution_time: U256,
    pub job_id: U256,
}

/// What a log record announces, as numbers `(job_id, job_execution_time)`,
/// or why it announces nothing. The identifier is the second topic, the
/// execution time the data, both in hexadecimal.
pub open spec fn announced_job(entry: LogEntryView) -> Result<(nat, nat), ProtocolViolation> {
    if entry.topics.len() < 2 {
        Err(ProtocolViolation::MissingTopic)
    } else if !is_hex_u256(entry.topics[1]) {
        Err(ProtocolViolation::InvalidJobId)
    } else if !is_hex_u256(entry.data) {
        Err(ProtocolViolation::InvalidSchedule)
    } else {
        Ok((hex_value(hex_body(entry.topics[1])), hex_value(hex_body(entry.data))))
    }
}

/// What a log record asks the registry to hold, as `(job_id,
/// execution_time)`, or why it asks for nothing: what it announces, with an
/// execution time that fits in 64 bits.
pub open spec fn scheduled_job(entry: LogEntryView) -> Result<(nat, u64), ProtocolViolation> {
    match announced_job(entry) {
        Err(e) => Err(e),
        Ok((id, time)) => if time <= u64::MAX {
            Ok((id, time as u64))
        } else {
            Err(ProtocolViolation::ScheduleOutOfRange)
        },
    }
}

impl NewJobEvent {
    /// Reads the event that a log record announces.
    pub fn decode(entry: &LogEntry) -> (r: Result<NewJobEvent, ProtocolViolation>)
        ensures
            match announced_job(entry@) {
                Ok((id, time)) => r matches Ok(event) && event.job_id@ == id
                    && event.job_execution_time@ == time,
                Err(e) => r == Err::<NewJobEvent, ProtocolViolation>(e),
            },
    {
        if entry.topics.len() < 2 {
            return Err(ProtocolViolation::MissingTopic);
        }
        let job_id = match u256_from_hex_str(entry.topics[1].as_str()) {
            Some(v) => v,
            None => {
                return Err(ProtocolViolation::InvalidJobId);
            },
        };
        let job_execution_time = match u256_from_hex_str(entry.data.as_str()) {
            Some(v) => v,
            None => {
                return Err(ProtocolViolation::InvalidSchedule);
            },
        };
        Ok(NewJobEvent { job_execution_time, job_id })
    }
}

/// Reads the job that a log record asks the registry to hold.
fn decode_scheduled(entry: &LogEntry) -> (r: Result<(NewJobEvent, u64), ProtocolViolation>)
    ensures
        match scheduled_job(entry@) {
            Ok((id, time)) => r matches Ok((event, t)) && event.job_id@ == id
                && event.job_execution_time@ == time && t == time,
            Err(e) => r matches Err(x) && x == e,
        },
{
    match NewJobEvent::decode(entry) {
        Err(e) => Err(e),
        Ok(event) => match event.job_execution_time.checked_as_u64() {
            Some(t) => Ok((event, t)),
            None => Err(ProtocolViolation::ScheduleOutOfRange),
        },
    }
}

/// Processes a pending event: moves it to the processed ones, reads the job
/// that its record announces, and enters the job in the registry.
///
/// Fails, and changes nothing, where the event is not pending. Where the
/// record announces no job that the registry can hold, the event stays
/// processed and the registry stays as it was.
pub fn job(state: &mut State, event_source: LogSource, event: LogEntry) -> (r: Result<
    NewJobEvent,
    ProtocolViolation,
>)
    ensures
        old(state).same_but_logs_and_jobs(*final(state)),
        final(state).logs@.disjoint(),
        match old(state).logs@.record_processed(event_source@) {
            Err(e) => r == Err::<NewJobEvent, ProtocolViolation>(e) && *final(state) == *old(
                state,
            ),
            Ok(next) => final(state).logs@ == next && match scheduled_job(event@) {
                Err(e) => r == Err::<NewJobEvent, ProtocolViolation>(e)
                    && final(state).job_execution_times == old(state).job_execution_times,
                Ok((id, time)) => r matches Ok(announced) && announced.job_id@ == id
                    && announced.job_execution_time@ == time
                    && final(state).job_execution_times@ == old(
                    state,
                ).job_execution_times@.insert(id, time),
            },
        },
{
    match state.record_processed_log(event_source) {
        Err(e) => {
            return Err(e);
        },
        Ok(_) => {},
    }
    match decode_scheduled(&event) {
        Err(e) => Err(e),
        Ok((announced, time)) => {
            state.add_job(announced.job_id, time);
            Ok(announced)
        },
    }
}

/// Takes in a log record from the chain: records its event as pending,
/// processes it at once, and enters the job that it announces in the
/// registry.
///
/// Fails, and changes nothing, where the record has no identity, or its
/// event is pending already or was processed before. Where the record
/// announces no job that the registry can hold, the event is processed and
/// the registry stays as it was.
pub fn handle_event(state: &mut State, log_entry: &LogEntry) -> (r: Result<
    NewJobEvent,
    ProtocolViolation,
>)
    ensures
        old(state).same_but_logs_and_jobs(*final(state)),
        final(state).logs@.disjoint(),
        match log_entry@.source() {
            None => r == Err::<NewJobEvent, ProtocolViolation>(ProtocolViolation::UnfinalizedLog)
                && *final(state) == *old(state),
            Some(identity) => match old(state).logs@.record_pending(identity, log_entry@) {
                Err(e) => r == Err::<NewJobEvent, ProtocolViolation>(e) && *final(state) == *old(
                    state,
                ),
                Ok(waiting) => waiting.record_processed(identity) == Ok::<
                    crate::ledger::LedgerView,
                    ProtocolViolation,
                >(final(state).logs@) && match scheduled_job(log_entry@) {
                    Err(e) => r == Err::<NewJobEvent, ProtocolViolation>(e)
                        && final(state).job_execution_times == old(state).job_execution_times,
                    Ok((id, time)) => r matches Ok(announced) && announced.job_id@ == id
                        && announced.job_execution_time@ == time
                        && final(state).job_execution_times@ == old(
                        state,
                    ).job_execution_times@.insert(id, time),
                },
            },
        },
{
    let event_source = match log_entry.source() {
        Some(s) => s,
        None => {
            proof {
                use_type_invariant(&state.logs);
                state.logs.lemma_well_formed_disjoint();
            }
            return Err(ProtocolViolation::UnfinalizedLog);
        },
    };
    match state.record_log_to_process(log_entry) {
        Err(e) => {
            return Err(e);
        },
        Ok(()) => {},
    }
    job(state, event_source, log_entry.clone())
}

} // verus!
