//! The deduplication ledger: each log event is pending, then processed, and
//! never either of them twice.

use crate::assoc::{
    distinct_keys, has_key, index_of, lemma_to_map_at, lemma_to_map_insert, lemma_to_map_len,
    lemma_to_map_push, lemma_to_map_remove, to_map,
};
use crate::error::ProtocolViolation;
use crate::log::{
    lemma_log_source_order_total, LogEntry, LogEntryView, LogSource, LogSourceView,
};
use vstd::prelude::*;

verus! {

/// What a ledger holds: the records that wait, and those that were processed,
/// each by the identity of its event.
pub struct LedgerView {
    pub pending: Map<LogSourceView, LogEntryView>,
    pub processed: Map<LogSourceView, LogEntryView>,
}

impl LedgerView {
    /// The ledger that holds nothing.
    pub open spec fn empty() -> LedgerView {
        LedgerView { pending: Map::empty(), processed: Map::empty() }
    }

    /// Whether no identity is both pending and processed.
    pub open spec fn disjoint(self) -> bool {
        forall|k: LogSourceView|
            !(#[trigger] self.pending.contains_key(k) && #[trigger] self.processed.contains_key(k))
    }

    /// The ledger after a new event was recorded as pending, or the reason
    /// for which it cannot be.
    pub open spec fn record_pending(self, identity: LogSourceView, record: LogEntryView) -> Result<
        LedgerView,
        ProtocolViolation,
    > {
        if self.pending.contains_key(identity) {
            Err(ProtocolViolation::DuplicatePendingLog)
        } else if self.processed.contains_key(identity) {
            Err(ProtocolViolation::LogAlreadyProcessed)
        } else {
            Ok(
                LedgerView {
                    pending: self.pending.insert(identity, record),
                    processed: self.processed,
                },
            )
        }
    }

    /// The ledger after a pending event was moved to the processed ones, or
    /// the reason for which it cannot be.
    pub open spec fn record_processed(self, identity: LogSourceView) -> Result<
        LedgerView,
        ProtocolViolation,
    > {
        if self.pending.contains_key(identity) {
            Ok(
                LedgerView {
                    pending: self.pending.remove(identity),
                    processed: self.processed.insert(identity, self.pending[identity]),
                },
            )
        } else {
            Err(ProtocolViolation::UnknownLog)
        }
    }
}

/// The empty ledger keeps pending and processed apart, and so does every
/// ledger that comes of one that does by recording an event as pending or as
/// processed.
pub proof fn lemma_disjoint_preserved(
    ledger: LedgerView,
    identity: LogSourceView,
    record: LogEntryView,
)
    requires
        ledger.disjoint(),
    ensures
        LedgerView::empty().disjoint(),
        ledger.record_pending(identity, record) matches Ok(next) ==> next.disjoint(),
        ledger.record_processed(identity) matches Ok(next) ==> next.disjoint(),
{
    if let Ok(next) = ledger.record_pending(identity, record) {
        assert forall|k: LogSourceView|
            !(#[trigger] next.pending.contains_key(k) && #[trigger] next.processed.contains_key(
                k,
            )) by {
            if k != identity {
                assert(next.pending.contains_key(k) == ledger.pending.contains_key(k));
            }
        }
    }
    if let Ok(next) = ledger.record_processed(identity) {
        assert forall|k: LogSourceView|
            !(#[trigger] next.pending.contains_key(k) && #[trigger] next.processed.contains_key(
                k,
            )) by {
            if k != identity {
                assert(next.pending.contains_key(k) == ledger.pending.contains_key(k));
                assert(next.processed.contains_key(k) == ledger.processed.contains_key(k));
            }
        }
    }
}

/// An event that went from pending to processed cannot become pending again:
/// recording it a second time fails, whatever record comes with it.
pub proof fn lemma_processed_at_most_once(
    ledger: LedgerView,
    identity: LogSourceView,
    record: LogEntryView,
    again: LogEntryView,
)
    requires
        ledger.record_pending(identity, record) is Ok,
    ensures
        ledger.record_pending(identity, record)->Ok_0.record_processed(identity) is Ok,
        ledger.record_pending(identity, record)->Ok_0.record_processed(
            identity,
        )->Ok_0.record_pending(identity, again) == Err::<LedgerView, ProtocolViolation>(
            ProtocolViolation::LogAlreadyProcessed,
        ),
{
}

/// Once an event is processed it stays so: it cannot be recorded as pending
/// nor be processed again, and each of the two operations, on whatever
/// event, leaves it processed and not pending.
pub proof fn lemma_processed_stays_processed(
    ledger: LedgerView,
    done: LogSourceView,
    identity: LogSourceView,
    record: LogEntryView,
)
    requires
        ledger.processed.contains_key(done),
        !ledger.pending.contains_key(done),
    ensures
        ledger.record_pending(done, record) is Err,
        ledger.record_processed(done) is Err,
        ledger.record_pending(identity, record) matches Ok(next) ==> next.processed.contains_key(
            done,
        ) && !next.pending.contains_key(done),
        ledger.record_processed(identity) matches Ok(next) ==> next.processed.contains_key(done)
            && !next.pending.contains_key(done),
{
}

/// One call on a ledger: to record an event as pending, or as processed.
pub enum LedgerOp {
    RecordPending { identity: LogSourceView, record: LogEntryView },
    RecordProcessed { identity: LogSourceView },
}

impl LedgerView {
    /// The ledger after one call. A call that fails changes nothing.
    pub open spec fn step(self, op: LedgerOp) -> LedgerView {
        match op {
            LedgerOp::RecordPending { identity, record } => match self.record_pending(
                identity,
                record,
            ) {
                Ok(next) => next,
                Err(_) => self,
            },
            LedgerOp::RecordProcessed { identity } => match self.record_processed(identity) {
                Ok(next) => next,
                Err(_) => self,
            },
        }
    }

    /// The ledger after a sequence of calls, made in their order.
    pub open spec fn run(self, ops: Seq<LedgerOp>) -> LedgerView
        decreases ops.len(),
    {
        if ops.len() == 0 {
            self
        } else {
            self.run(ops.drop_last()).step(ops.last())
        }
    }

    /// How often, in a sequence of calls, the event went from pending to
    /// processed.
    pub open spec fn times_processed(self, ops: Seq<LedgerOp>, identity: LogSourceView) -> nat
        decreases ops.len(),
    {
        if ops.len() == 0 {
            0
        } else {
            let before = self.run(ops.drop_last());
            let moved: nat = if ops.last() == (LedgerOp::RecordProcessed { identity })
                && before.record_processed(identity) is Ok {
                1
            } else {
                0
            };
            self.times_processed(ops.drop_last(), identity) + moved
        }
    }
}

/// Whatever calls are made on an empty ledger, and in whatever order, no
/// identity is both pending and processed afterwards.
pub proof fn lemma_always_disjoint(ops: Seq<LedgerOp>)
    ensures
        LedgerView::empty().run(ops).disjoint(),
    decreases ops.len(),
{
    if ops.len() > 0 {
        lemma_always_disjoint(ops.drop_last());
        let before = LedgerView::empty().run(ops.drop_last());
        match ops.last() {
            LedgerOp::RecordPending { identity, record } => {
                lemma_disjoint_preserved(before, identity, record);
            },
            LedgerOp::RecordProcessed { identity } => {
                lemma_disjoint_preserved(before, identity, arbitrary());
            },
        }
    }
}

/// Whatever calls are made on an empty ledger, an event goes from pending to
/// processed at most once; and once it has, it is processed and not pending.
pub proof fn lemma_processed_at_most_once_ever(ops: Seq<LedgerOp>, identity: LogSourceView)
    ensures
        LedgerView::empty().times_processed(ops, identity) <= 1,
        LedgerView::empty().times_processed(ops, identity) == 1 ==> LedgerView::empty().run(
            ops,
        ).processed.contains_key(identity) && !LedgerView::empty().run(ops).pending.contains_key(
            identity,
        ),
    decreases ops.len(),
{
    if ops.len() > 0 {
        let start = LedgerView::empty();
        let before = start.run(ops.drop_last());
        lemma_processed_at_most_once_ever(ops.drop_last(), identity);
        lemma_always_disjoint(ops.drop_last());
        lemma_always_disjoint(ops);
        if start.times_processed(ops.drop_last(), identity) == 1 {
            match ops.last() {
                LedgerOp::RecordPending { identity: other, record } => {
                    lemma_processed_stays_processed(before, identity, other, record);
                },
                LedgerOp::RecordProcessed { identity: other } => {
                    lemma_processed_stays_processed(before, identity, other, arbitrary());
                },
            }
        }
    }
}

/// The records of a table as pairs of plain values.
pub open spec fn log_pairs(s: Seq<(LogSource, LogEntry)>) -> Seq<(LogSourceView, LogEntryView)> {
    Seq::new(s.len(), |i: int| (s[i].0@, s[i].1@))
}

/// Whether the identities rise from each record to the next, in the order of
/// the identities: by hash, and for one hash by index.
pub open spec fn is_rising(s: Seq<(LogSourceView, LogEntryView)>) -> bool {
    forall|i: int, j: int|
        0 <= i < j < s.len() ==> (#[trigger] s[i]).0.less_than((#[trigger] s[j]).0)
}

/// The place of an identity among records that rise by identity: the first
/// record that does not come before it, or the end.
fn log_place(entries: &Vec<(LogSource, LogEntry)>, identity: &LogSource) -> (r: usize)
    requires
        is_rising(log_pairs(entries@)),
    ensures
        r <= entries.len(),
        forall|j: int| 0 <= j < r ==> entries[j].0@.less_than(identity@),
        forall|j: int| r <= j < entries.len() ==> !entries[j].0@.less_than(identity@),
{
    let mut i: usize = 0;
    while i < entries.len()
        invariant
            i <= entries.len(),
            is_rising(log_pairs(entries@)),
            forall|j: int| 0 <= j < i ==> entries[j].0@.less_than(identity@),
        decreases entries.len() - i,
    {
        if !entries[i].0.less_than(identity) {
            proof {
                let p = log_pairs(entries@);
                assert forall|j: int| i <= j < entries.len() implies !entries[j].0@.less_than(
                    identity@,
                ) by {
                    if i < j {
                        assert(p[i as int].0.less_than(p[j].0));
                        lemma_log_source_order_total(p[i as int].0, p[j].0, identity@);
                    }
                }
            }
            return i;
        }
        i += 1;
    }
    i
}

/// The position of an identity among the records, if it is there.
fn find_log(entries: &Vec<(LogSource, LogEntry)>, identity: &LogSource) -> (r: Option<usize>)
    ensures
        match r {
            Some(i) => i < entries.len() && entries[i as int].0@ == identity@,
            None => !has_key(log_pairs(entries@), identity@),
        },
{
    let mut i: usize = 0;
    while i < entries.len()
        invariant
            i <= entries.len(),
            forall|j: int| 0 <= j < i ==> entries[j].0@ != identity@,
        decreases entries.len() - i,
    {
        if entries[i].0.equals(identity) {
            return Some(i);
        }
        i += 1;
    }
    proof {
        let p = log_pairs(entries@);
        if has_key(p, identity@) {
            let j = choose|j: int| 0 <= j < p.len() && (#[trigger] p[j]).0 == identity@;
            assert(entries[j].0@ == identity@);
        }
    }
    None
}

/// The deduplication ledger. An identity is pending or processed or
/// neither, never both. The pending records are kept by rising identity.
#[derive(Debug)]
pub struct DedupLedger {
    pending: Vec<(LogSource, LogEntry)>,
    processed: Vec<(LogSource, LogEntry)>,
}

impl View for DedupLedger {
    type V = LedgerView;

    closed spec fn view(&self) -> LedgerView {
        LedgerView {
            pending: to_map(log_pairs(self.pending@)),
            processed: to_map(log_pairs(self.processed@)),
        }
    }
}

/// A copy of a list of records.
fn clone_logs(logs: &Vec<(LogSource, LogEntry)>) -> (r: Vec<(LogSource, LogEntry)>)
    ensures
        log_pairs(r@) == log_pairs(logs@),
        r.len() == logs.len(),
        forall|j: int| 0 <= j < r.len() ==> (#[trigger] r[j]).0@ == logs[j].0@,
{
    let mut out: Vec<(LogSource, LogEntry)> = Vec::new();
    let mut i: usize = 0;
    while i < logs.len()
        invariant
            i <= logs.len(),
            out.len() == i,
            forall|j: int|
                0 <= j < i ==> (#[trigger] out[j]).0@ == logs[j].0@ && out[j].1@ == logs[j].1@,
        decreases logs.len() - i,
    {
        out.push((logs[i].0.clone(), logs[i].1.clone()));
        i += 1;
    }
    assert(log_pairs(out@) =~= log_pairs(logs@));
    out
}

impl Clone for DedupLedger {
    fn clone(&self) -> (r: Self)
        ensures
            r@ == self@,
    {
        proof {
            use_type_invariant(self);
        }
        DedupLedger { pending: clone_logs(&self.pending), processed: clone_logs(&self.processed) }
    }
}

impl DedupLedger {
    /// What holds of every ledger: no identity stands twice among the
    /// pending records, nor twice among the processed ones, nor in both;
    /// and the pending records are kept by rising identity.
    #[verifier::type_invariant]
    pub closed spec fn well_formed(self) -> bool {
        &&& is_rising(log_pairs(self.pending@))
        &&& distinct_keys(log_pairs(self.pending@))
        &&& distinct_keys(log_pairs(self.processed@))
        &&& forall|i: int, j: int|
            0 <= i < self.pending@.len() && 0 <= j < self.processed@.len() ==> (
            #[trigger] self.pending@[i]).0@ != (#[trigger] self.processed@[j]).0@
    }

    /// A ledger keeps pending and processed apart.
    pub proof fn lemma_well_formed_disjoint(self)
        requires
            self.well_formed(),
        ensures
            self@.disjoint(),
    {
        let p = log_pairs(self.pending@);
        let q = log_pairs(self.processed@);
        assert forall|k: LogSourceView|
            !(#[trigger] self@.pending.contains_key(k) && #[trigger] self@.processed.contains_key(
                k,
            )) by {
            if has_key(p, k) && has_key(q, k) {
                let i = index_of(p, k);
                let j = index_of(q, k);
                assert(self.pending@[i].0@ == k);
                assert(self.processed@[j].0@ == k);
            }
        }
    }

    /// A ledger that holds nothing.
    pub fn new() -> (r: DedupLedger)
        ensures
            r@ == LedgerView::empty(),
    {
        let r = DedupLedger { pending: Vec::new(), processed: Vec::new() };
        assert(r@.pending =~= Map::empty());
        assert(r@.processed =~= Map::empty());
        r
    }

    /// Records a new event as pending. Fails, and changes nothing, where the
    /// identity is pending already or was processed before.
    pub fn record_pending(&mut self, identity: LogSource, record: LogEntry) -> (r: Result<
        (),
        ProtocolViolation,
    >)
        ensures
            match old(self)@.record_pending(identity@, record@) {
                Ok(next) => r is Ok && final(self)@ == next,
                Err(e) => r == Err::<(), ProtocolViolation>(e) && *final(self) == *old(self),
            },
            final(self)@.disjoint(),
    {
        proof {
            use_type_invariant(&*self);
            self.lemma_well_formed_disjoint();
        }
        if let Some(i) = find_log(&self.pending, &identity) {
            proof {
                lemma_to_map_at(log_pairs(self.pending@), i as int);
            }
            return Err(ProtocolViolation::DuplicatePendingLog);
        }
        if let Some(j) = find_log(&self.processed, &identity) {
            proof {
                lemma_to_map_at(log_pairs(self.processed@), j as int);
            }
            return Err(ProtocolViolation::LogAlreadyProcessed);
        }
        let ghost before = log_pairs(self.pending@);
        let ghost key = identity@;
        let ghost value = record@;
        let place = log_place(&self.pending, &identity);
        let mut pending: Vec<(LogSource, LogEntry)> = Vec::new();
        std::mem::swap(&mut pending, &mut self.pending);
        pending.insert(place, (identity, record));
        proof {
            let p = place as int;
            let after = log_pairs(pending@);
            lemma_to_map_insert(before, p, key, value);
            assert(after =~= before.insert(p, (key, value)));
            assert forall|i: int, j: int|
                0 <= i < pending@.len() && 0 <= j < self.processed@.len() implies (
            #[trigger] pending@[i]).0@ != (#[trigger] self.processed@[j]).0@ by {
                if i < p {
                    assert(pending@[i] == old(self).pending@[i]);
                } else if i > p {
                    assert(pending@[i] == old(self).pending@[i - 1]);
                } else {
                    assert(log_pairs(self.processed@)[j].0 == self.processed@[j].0@);
                }
            }
            assert forall|j: int| p <= j < before.len() implies key.less_than(
                (#[trigger] before[j]).0,
            ) by {
                assert(before[j].0 == old(self).pending@[j].0@);
                assert(before[j].0 != key);
                lemma_log_source_order_total(before[j].0, key, key);
            }
            assert forall|a: int, b: int| 0 <= a < b < after.len() implies (
            #[trigger] after[a]).0.less_than((#[trigger] after[b]).0) by {
                let a1 = if a < p {
                    a
                } else {
                    a - 1
                };
                let b1 = if b < p {
                    b
                } else {
                    b - 1
                };
                if a != p {
                    assert(after[a] == before[a1]);
                    assert(before[a1].0 == old(self).pending@[a1].0@);
                }
                if b != p {
                    assert(after[b] == before[b1]);
                }
                if a != p && b != p {
                    assert(before[a1].0.less_than(before[b1].0));
                }
            }
        }
        self.pending = pending;
        proof {
            self.lemma_well_formed_disjoint();
        }
        Ok(())
    }

    /// Moves a pending event to the processed ones and returns its record.
    /// Fails, and changes nothing, where the identity is not pending.
    pub fn record_processed(&mut self, identity: &LogSource) -> (r: Result<
        LogEntry,
        ProtocolViolation,
    >)
        ensures
            match old(self)@.record_processed(identity@) {
                Ok(next) => r matches Ok(record) && record@ == old(self)@.pending[identity@]
                    && final(self)@ == next,
                Err(e) => r == Err::<LogEntry, ProtocolViolation>(e) && *final(self) == *old(self),
            },
            final(self)@.disjoint(),
    {
        proof {
            use_type_invariant(&*self);
            self.lemma_well_formed_disjoint();
        }
        match find_log(&self.pending, identity) {
            None => Err(ProtocolViolation::UnknownLog),
            Some(i) => {
                let ghost p = log_pairs(self.pending@);
                let ghost q = log_pairs(self.processed@);
                let ghost key = identity@;
                proof {
                    lemma_to_map_at(p, i as int);
                    assert(!has_key(q, key)) by {
                        if has_key(q, key) {
                            let j = index_of(q, key);
                            assert(self.processed@[j].0@ == key);
                        }
                    }
                }
                let mut pending: Vec<(LogSource, LogEntry)> = Vec::new();
                std::mem::swap(&mut pending, &mut self.pending);
                let moved = pending.remove(i);
                proof {
                    lemma_to_map_remove(p, i as int);
                    let after = log_pairs(pending@);
                    assert(after =~= p.remove(i as int));
                    assert forall|a: int, b: int|
                        0 <= a < pending@.len() && 0 <= b < self.processed@.len() implies (
                    #[trigger] pending@[a]).0@ != (#[trigger] self.processed@[b]).0@ by {
                        let a1 = if a < i {
                            a
                        } else {
                            a + 1
                        };
                        assert(pending@[a] == old(self).pending@[a1]);
                    }
                    assert forall|a: int, b: int| 0 <= a < b < after.len() implies (
                    #[trigger] after[a]).0.less_than((#[trigger] after[b]).0) by {
                        let a1 = if a < i {
                            a
                        } else {
                            a + 1
                        };
                        let b1 = if b < i {
                            b
                        } else {
                            b + 1
                        };
                        assert(after[a] == p[a1] && after[b] == p[b1]);
                        assert(p[a1].0.less_than(p[b1].0));
                    }
                }
                self.pending = pending;
                let record = moved.1.clone();
                let mut processed: Vec<(LogSource, LogEntry)> = Vec::new();
                std::mem::swap(&mut processed, &mut self.processed);
                processed.push(moved);
                proof {
                    lemma_to_map_push(q, key, moved.1@);
                    assert(log_pairs(processed@) =~= q.push((key, moved.1@)));
                    assert forall|a: int, b: int|
                        0 <= a < self.pending@.len() && 0 <= b < processed@.len() implies (
                    #[trigger] self.pending@[a]).0@ != (#[trigger] processed@[b]).0@ by {
                        let a1 = if a < i {
                            a
                        } else {
                            a + 1
                        };
                        assert(self.pending@[a] == old(self).pending@[a1]);
                        if b < q.len() {
                            assert(processed@[b] == old(self).processed@[b]);
                        } else {
                            assert(p[a1].0 == old(self).pending@[a1].0@);
                            if a1 < i {
                                assert(p[a1].0 != p[i as int].0);
                            } else {
                                assert(p[i as int].0 != p[a1].0);
                            }
                        }
                    }
                }
                self.processed = processed;
                proof {
                    self.lemma_well_formed_disjoint();
                }
                Ok(record)
            },
        }
    }

    /// The pending events, each with its record, by rising identity: in the
    /// order of the hashes and, for one hash, of the indices.
    pub fn pending_logs(&self) -> (r: Vec<(LogSource, LogEntry)>)
        ensures
            is_rising(log_pairs(r@)),
            distinct_keys(log_pairs(r@)),
            to_map(log_pairs(r@)) == self@.pending,
    {
        proof {
            use_type_invariant(self);
        }
        clone_logs(&self.pending)
    }

    /// Whether any event is pending.
    pub fn has_pending(&self) -> (r: bool)
        ensures
            r == (self@.pending != Map::<LogSourceView, LogEntryView>::empty()),
    {
        proof {
            use_type_invariant(self);
            if self.pending@.len() > 0 {
                lemma_to_map_at(log_pairs(self.pending@), 0);
            } else {
                assert(self@.pending =~= Map::empty());
            }
        }
        self.pending.len() > 0
    }

    /// Whether the event is pending.
    pub fn is_pending(&self, identity: &LogSource) -> (r: bool)
        ensures
            r == self@.pending.contains_key(identity@),
    {
        proof {
            use_type_invariant(self);
        }
        match find_log(&self.pending, identity) {
            Some(i) => {
                proof {
                    lemma_to_map_at(log_pairs(self.pending@), i as int);
                }
                true
            },
            None => false,
        }
    }

    /// Whether the event was processed.
    pub fn is_processed(&self, identity: &LogSource) -> (r: bool)
        ensures
            r == self@.processed.contains_key(identity@),
    {
        proof {
            use_type_invariant(self);
        }
        match find_log(&self.processed, identity) {
            Some(i) => {
                proof {
                    lemma_to_map_at(log_pairs(self.processed@), i as int);
                }
                true
            },
            None => false,
        }
    }

    /// The number of pending events.
    pub fn pending_len(&self) -> (r: usize)
        ensures
            self@.pending.dom().finite(),
            r == self@.pending.dom().len(),
    {
        proof {
            use_type_invariant(self);
            lemma_to_map_len(log_pairs(self.pending@));
        }
        self.pending.len()
    }

    /// The number of processed events.
    pub fn processed_len(&self) -> (r: usize)
        ensures
            self@.processed.dom().finite(),
            r == self@.processed.dom().len(),
    {
        proof {
            use_type_invariant(self);
            lemma_to_map_len(log_pairs(self.processed@));
        }
        self.processed.len()
    }
}

} // verus!
