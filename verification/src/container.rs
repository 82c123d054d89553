//! The one place where the state of the process lives, the two ways in (to
//! read it, and to change it), and the phases that the process goes through.
//! Either way in takes the container for itself while it is open: a scope
//! inside a scope cannot be written.

use crate::error::ProtocolViolation;
use crate::snapshot::{parse_snapshot, snapshot_bytes, SnapshotView};
use crate::state::State;
use vstd::prelude::*;

verus! {

/// The phase of the process.
#[derive(Clone, Copy, Debug, PartialEq, Eq, Structural)]
pub enum Phase {
    /// The state is not set yet. Only setting it is of use.
    Uninitialized,
    /// The state is set, and can be read and changed.
    Running,
    /// A snapshot was taken. The state rests until a snapshot is resumed.
    Suspended,
}

/// The holder of the state of the process.
pub struct StateContainer {
    state: Option<State>,
    suspended: bool,
}

impl StateContainer {
    /// The state that the container holds, if it was set.
    pub closed spec fn state(self) -> Option<State> {
        self.state
    }

    /// The phase that the process is in.
    pub closed spec fn phase(self) -> Phase {
        if self.state is None {
            Phase::Uninitialized
        } else if self.suspended {
            Phase::Suspended
        } else {
            Phase::Running
        }
    }

    /// The state is missing in the first phase and in no other.
    pub proof fn lemma_phase_and_state(self)
        ensures
            self.phase() == Phase::Uninitialized <==> self.state() is None,
    {
    }

    /// A container whose state is not set yet.
    pub fn new() -> (r: StateContainer)
        ensures
            r.phase() == Phase::Uninitialized,
            r.state() is None,
    {
        StateContainer { state: None, suspended: false }
    }

    /// The phase that the process is in.
    pub fn current_phase(&self) -> (r: Phase)
        ensures
            r == self.phase(),
    {
        if self.state.is_none() {
            Phase::Uninitialized
        } else if self.suspended {
            Phase::Suspended
        } else {
            Phase::Running
        }
    }
}

/// Sets the current state to `state`, in whatever phase the process is, and
/// lets it run.
pub fn initialize_state(container: &mut StateContainer, state: State)
    ensures
        final(container).phase() == Phase::Running,
        final(container).state() == Some(state),
{
    container.state = Some(state);
    container.suspended = false;
}

/// Reads (part of) the current state using `f`, and leaves the container as
/// it is. `None`, and no call of `f`, where the process is not running.
///
/// The container is borrowed whole for as long as `f` runs, as it is by
/// `mutate_state`, so that no scope can be opened inside another.
pub fn read_state<R, F: FnOnce(&State) -> R>(container: &mut StateContainer, f: F) -> (r: Option<
    R,
>)
    requires
        old(container).phase() == Phase::Running ==> call_requires(
            f,
            (&old(container).state()->0,),
        ),
    ensures
        *final(container) == *old(container),
        old(container).phase() == Phase::Running ==> r is Some && call_ensures(
            f,
            (&old(container).state()->0,),
            r->0,
        ),
        old(container).phase() != Phase::Running ==> r is None,
{
    if container.suspended {
        return None;
    }
    match &container.state {
        Some(s) => Some(f(s)),
        None => None,
    }
}

/// Mutates (part of) the current state using `f`. `None`, and no call of `f`
/// nor any change, where the process is not running.
pub fn mutate_state<R, F: FnOnce(&mut State) -> R>(container: &mut StateContainer, f: F) -> (r:
    Option<R>)
    requires
        forall|m: &mut State|
            old(container).phase() == Phase::Running && old(container).state() == Some(*m)
                ==> call_requires(f, (m,)),
    ensures
        final(container).phase() == old(container).phase(),
        old(container).phase() == Phase::Running ==> r is Some && exists|m: &mut State|
            Some(*m) == old(container).state() && Some(*final(m)) == final(container).state()
                && call_ensures(f, (m,), r->0),
        old(container).phase() != Phase::Running ==> r is None && *final(container) == *old(container),
{
    if container.suspended {
        return None;
    }
    match &mut container.state {
        Some(s) => Some(f(s)),
        None => None,
    }
}

/// Takes the snapshot of the running state and lets the state rest. `None`,
/// and no change, where the process is not running.
pub fn suspend(container: &mut StateContainer) -> (r: Option<Vec<u8>>)
    ensures
        final(container).state() == old(container).state(),
        old(container).phase() == Phase::Running ==> final(container).phase() == Phase::Suspended
            && r is Some && r->0@ == snapshot_bytes(
            old(container).state()->0.last_scraped_block_number@,
            old(container).state()->0.job_execution_times@,
        ) && parse_snapshot(r->0@) == Ok::<SnapshotView, ProtocolViolation>(
            SnapshotView {
                cursor: old(container).state()->0.last_scraped_block_number@,
                jobs: old(container).state()->0.job_execution_times@,
            },
        ),
        old(container).phase() != Phase::Running ==> r is None && *final(container) == *old(container),
{
    if container.suspended {
        return None;
    }
    let bytes = match &container.state {
        Some(s) => s.on_suspend(),
        None => {
            return None;
        },
    };
    container.suspended = true;
    Some(bytes)
}

/// Takes the job registry and the scraping cursor of the resting state from
/// a snapshot, and lets the state run again. Fails, and changes nothing,
/// where no state rests, or the bytes are no snapshot, or one of another
/// version.
pub fn resume(container: &mut StateContainer, bytes: &[u8]) -> (r: Result<(), ProtocolViolation>)
    ensures
        old(container).phase() != Phase::Suspended ==> r == Err::<(), ProtocolViolation>(
            ProtocolViolation::NotSuspended,
        ) && *final(container) == *old(container),
        old(container).phase() == Phase::Suspended ==> match parse_snapshot(bytes@) {
            Ok(held) => r is Ok && final(container).phase() == Phase::Running && final(container).state() is Some && old(container).state()->0.same_but_snapshot(
                final(container).state()->0,
            ) && final(container).state()->0.job_execution_times@ == held.jobs && final(container).state()->0.last_scraped_block_number@ == held.cursor,
            Err(e) => r == Err::<(), ProtocolViolation>(e) && *final(container) == *old(container),
        },
{
    if !container.suspended {
        return Err(ProtocolViolation::NotSuspended);
    }
    let result = match &mut container.state {
        Some(s) => s.on_resume(bytes),
        None => {
            return Err(ProtocolViolation::NotSuspended);
        },
    };
    if result.is_ok() {
        container.suspended = false;
    }
    result
}

} // verus!
