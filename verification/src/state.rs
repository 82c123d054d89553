//! The state of the process: the ledgers, the job registry, the scraping
//! cursor, and the configuration that travels with them.

use crate::error::ProtocolViolation;
use crate::ledger::DedupLedger;
use crate::log::{
    clone_number, clone_text, clone_texts, number_view, text_view, texts_view, LogEntry, LogSource,
};
use crate::natural::Natural;
use crate::registry::{is_earliest, JobRegistry};
use crate::skipped::SkippedBlocks;
use crate::u256::U256;
use evm_rpc_canister_types::{BlockTag, RpcService, RpcServices};
use ic_cdk::api::management_canister::ecdsa::EcdsaKeyId;
use std::collections::HashSet;
use vstd::prelude::*;

verus! {

/// The providers that answer for a chain, from `evm_rpc_canister_types`. The
/// state carries the value and never looks into it.
#[verifier::external_type_specification]
#[verifier::external_body]
pub struct ExRpcServices(evm_rpc_canister_types::RpcServices);

/// One provider, from `evm_rpc_canister_types`. Carried, never looked into.
#[verifier::external_type_specification]
#[verifier::external_body]
pub struct ExRpcService(evm_rpc_canister_types::RpcService);

/// The block up to which logs are asked for, from `evm_rpc_canister_types`.
/// Carried, never looked into.
#[verifier::external_type_specification]
#[verifier::external_body]
pub struct ExBlockTag(evm_rpc_canister_types::BlockTag);

/// The name of the signing key, from `ic_cdk`. Carried, never looked into.
#[verifier::external_type_specification]
#[verifier::external_body]
pub struct ExEcdsaKeyId(ic_cdk::api::management_canister::ecdsa::EcdsaKeyId);

/// The derived `Clone` of `evm_rpc_canister_types::RpcServices`. Trusted: the
/// copy is the value that was copied.
pub assume_specification[ <evm_rpc_canister_types::RpcServices as Clone>::clone ](
    services: &evm_rpc_canister_types::RpcServices,
) -> (r: evm_rpc_canister_types::RpcServices)
    ensures
        r == *services,
;

/// The derived `Clone` of `ic_cdk`'s `EcdsaKeyId`. Trusted: the copy is the
/// value that was copied.
pub assume_specification[ <ic_cdk::api::management_canister::ecdsa::EcdsaKeyId as Clone>::clone ](
    key_id: &ic_cdk::api::management_canister::ecdsa::EcdsaKeyId,
) -> (r: ic_cdk::api::management_canister::ecdsa::EcdsaKeyId)
    ensures
        r == *key_id,
;

/// The derived `Clone` of `evm_rpc_canister_types::RpcService`. Trusted: the
/// copy is the value that was copied.
pub assume_specification[ <evm_rpc_canister_types::RpcService as Clone>::clone ](
    service: &evm_rpc_canister_types::RpcService,
) -> (r: evm_rpc_canister_types::RpcService)
    ensures
        r == *service,
;

/// The derived `Clone` of `evm_rpc_canister_types::BlockTag`. Trusted: the
/// copy is the value that was copied.
pub assume_specification[ <evm_rpc_canister_types::BlockTag as Clone>::clone ](
    tag: &evm_rpc_canister_types::BlockTag,
) -> (r: evm_rpc_canister_types::BlockTag)
    ensures
        r == *tag,
;

/// The periodic tasks of the process.
#[derive(Debug, Hash, Copy, Clone, PartialEq, Eq)]
pub enum TaskType {
    ProcessLogs,
    ScrapeLogs,
}

/// What is wrong with a configuration that a state cannot be made of.
#[derive(Debug, Eq, PartialEq)]
pub enum InvalidStateError {
    InvalidEthereumContractAddress(String),
    InvalidTopic(String),
}

/// Everything the process keeps between two calls.
#[derive(Debug)]
pub struct State {
    pub rpc_services: RpcServices,
    pub rpc_service: RpcService,
    pub get_logs_addresses: Vec<String>,
    pub get_logs_topics: Option<Vec<Vec<String>>>,
    pub last_scraped_block_number: Natural,
    pub last_observed_block_number: Option<Natural>,
    pub logs: DedupLedger,
    pub skipped_blocks: SkippedBlocks,
    pub active_tasks: HashSet<TaskType>,
    pub ecdsa_pub_key: Option<Vec<u8>>,
    pub ecdsa_key_id: EcdsaKeyId,
    pub evm_address: Option<String>,
    pub nonce: U256,
    pub block_tag: BlockTag,
    pub job_execution_times: JobRegistry,
}

/// Copies the set of running tasks with the `Clone` of std's `HashSet`.
///
/// Trusted: the copy holds what the set holds.
#[verifier::external_body]
fn clone_tasks(tasks: &HashSet<TaskType>) -> (r: HashSet<TaskType>)
    ensures
        r@ == tasks@,
{
    tasks.clone()
}

/// The characters of the topics of a filter: for each place in the list of
/// topics the texts that are let through.
pub open spec fn topics_view(t: Option<Vec<Vec<String>>>) -> Option<Seq<Seq<Seq<char>>>> {
    match t {
        Some(lists) => Some(Seq::new(lists@.len(), |i: int| texts_view(lists@[i]@))),
        None => None,
    }
}

/// A copy of the topics of a filter.
fn clone_topics(t: &Option<Vec<Vec<String>>>) -> (r: Option<Vec<Vec<String>>>)
    ensures
        topics_view(r) == topics_view(*t),
{
    match t {
        None => None,
        Some(lists) => {
            let mut out: Vec<Vec<String>> = Vec::new();
            let mut i: usize = 0;
            while i < lists.len()
                invariant
                    i <= lists.len(),
                    out.len() == i,
                    forall|j: int| 0 <= j < i ==> texts_view(out[j]@) == texts_view(lists[j]@),
                decreases lists.len() - i,
            {
                out.push(clone_texts(&lists[i]));
                i += 1;
            }
            let r = Some(out);
            assert(topics_view(r)->0 =~= topics_view(*t)->0);
            r
        },
    }
}

/// A copy of an optional list of bytes.
fn clone_bytes(b: &Option<Vec<u8>>) -> (r: Option<Vec<u8>>)
    ensures
        r is Some == b is Some,
        r is Some ==> r->0@ == b->0@,
{
    match b {
        None => None,
        Some(bytes) => {
            let mut out: Vec<u8> = Vec::new();
            let mut i: usize = 0;
            while i < bytes.len()
                invariant
                    i <= bytes.len(),
                    out@ == bytes@.subrange(0, i as int),
                decreases bytes.len() - i,
            {
                out.push(bytes[i]);
                assert(out@ =~= bytes@.subrange(0, i + 1));
                i += 1;
            }
            assert(out@ =~= bytes@);
            Some(out)
        },
    }
}

impl Clone for State {
    /// A state that holds what this state holds.
    fn clone(&self) -> (r: Self)
        ensures
            r.rpc_services == self.rpc_services,
            r.rpc_service == self.rpc_service,
            texts_view(r.get_logs_addresses@) == texts_view(self.get_logs_addresses@),
            topics_view(r.get_logs_topics) == topics_view(self.get_logs_topics),
            r.last_scraped_block_number@ == self.last_scraped_block_number@,
            number_view(r.last_observed_block_number) == number_view(
                self.last_observed_block_number,
            ),
            r.logs@ == self.logs@,
            r.skipped_blocks@ == self.skipped_blocks@,
            r.active_tasks@ == self.active_tasks@,
            r.ecdsa_pub_key is Some == self.ecdsa_pub_key is Some,
            r.ecdsa_pub_key is Some ==> r.ecdsa_pub_key->0@ == self.ecdsa_pub_key->0@,
            r.ecdsa_key_id == self.ecdsa_key_id,
            text_view(r.evm_address) == text_view(self.evm_address),
            r.nonce == self.nonce,
            r.block_tag == self.block_tag,
            r.job_execution_times@ == self.job_execution_times@,
    {
        State {
            rpc_services: self.rpc_services.clone(),
            rpc_service: self.rpc_service.clone(),
            get_logs_addresses: clone_texts(&self.get_logs_addresses),
            get_logs_topics: clone_topics(&self.get_logs_topics),
            last_scraped_block_number: self.last_scraped_block_number.clone(),
            last_observed_block_number: clone_number(&self.last_observed_block_number),
            logs: self.logs.clone(),
            skipped_blocks: self.skipped_blocks.clone(),
            active_tasks: clone_tasks(&self.active_tasks),
            ecdsa_pub_key: clone_bytes(&self.ecdsa_pub_key),
            ecdsa_key_id: self.ecdsa_key_id.clone(),
            evm_address: clone_text(&self.evm_address),
            nonce: self.nonce,
            block_tag: self.block_tag.clone(),
            job_execution_times: self.job_execution_times.clone(),
        }
    }
}

impl State {
    /// Whether two states differ at most in their log ledger.
    pub open spec fn same_but_logs(self, other: State) -> bool {
        other == (State { logs: other.logs, ..self })
    }

    /// Whether two states differ at most in their skipped blocks.
    pub open spec fn same_but_skipped_blocks(self, other: State) -> bool {
        other == (State { skipped_blocks: other.skipped_blocks, ..self })
    }

    /// Whether two states differ at most in their job registry.
    pub open spec fn same_but_jobs(self, other: State) -> bool {
        other == (State { job_execution_times: other.job_execution_times, ..self })
    }

    /// Whether two states differ at most in their log ledger and their job
    /// registry.
    pub open spec fn same_but_logs_and_jobs(self, other: State) -> bool {
        other == (State {
            logs: other.logs,
            job_execution_times: other.job_execution_times,
            ..self
        })
    }

    /// Records the event of a log record as pending, under the identity of
    /// the record. Fails, and changes nothing, where the record has no
    /// identity, or its identity is pending already or was processed before.
    pub fn record_log_to_process(&mut self, log_entry: &LogEntry) -> (r: Result<
        (),
        ProtocolViolation,
    >)
        ensures
            old(self).same_but_logs(*final(self)),
            final(self).logs@.disjoint(),
            match log_entry@.source() {
                None => r == Err::<(), ProtocolViolation>(ProtocolViolation::UnfinalizedLog)
                    && *final(self) == *old(self),
                Some(identity) => match old(self).logs@.record_pending(identity, log_entry@) {
                    Ok(next) => r is Ok && final(self).logs@ == next,
                    Err(e) => r == Err::<(), ProtocolViolation>(e) && *final(self) == *old(self),
                },
            },
    {
        match log_entry.source() {
            None => {
                proof {
                    use_type_invariant(&self.logs);
                    self.logs.lemma_well_formed_disjoint();
                }
                Err(ProtocolViolation::UnfinalizedLog)
            },
            Some(event_source) => self.logs.record_pending(event_source, log_entry.clone()),
        }
    }

    /// Moves a pending event to the processed ones and returns its record.
    /// Fails, and changes nothing, where the event is not pending.
    pub fn record_processed_log(&mut self, source: LogSource) -> (r: Result<
        LogEntry,
        ProtocolViolation,
    >)
        ensures
            old(self).same_but_logs(*final(self)),
            final(self).logs@.disjoint(),
            match old(self).logs@.record_processed(source@) {
                Ok(next) => r matches Ok(record) && record@ == old(self).logs@.pending[source@]
                    && final(self).logs@ == next,
                Err(e) => r == Err::<LogEntry, ProtocolViolation>(e) && *final(self) == *old(self),
            },
    {
        self.logs.record_processed(&source)
    }

    /// Records a block as skipped. Fails, and changes nothing, where the
    /// block was skipped before.
    pub fn record_skipped_block(&mut self, block_number: Natural) -> (r: Result<
        (),
        ProtocolViolation,
    >)
        ensures
            old(self).same_but_skipped_blocks(*final(self)),
            old(self).skipped_blocks@.contains(block_number@) ==> r == Err::<
                (),
                ProtocolViolation,
            >(ProtocolViolation::BlockAlreadySkipped) && *final(self) == *old(self),
            !old(self).skipped_blocks@.contains(block_number@) ==> r is Ok
                && final(self).skipped_blocks@ == old(self).skipped_blocks@.insert(block_number@),
    {
        self.skipped_blocks.record_skipped(block_number)
    }

    /// Whether any event is pending.
    pub fn has_logs_to_process(&self) -> (r: bool)
        ensures
            r == (self.logs@.pending != Map::<
                crate::log::LogSourceView,
                crate::log::LogEntryView,
            >::empty()),
    {
        self.logs.has_pending()
    }

    /// A copy of the providers that answer for the chain.
    pub fn rpc_services(&self) -> (r: RpcServices)
        ensures
            r == self.rpc_services,
    {
        self.rpc_services.clone()
    }

    /// A copy of the name of the signing key.
    pub fn key_id(&self) -> (r: EcdsaKeyId)
        ensures
            r == self.ecdsa_key_id,
    {
        self.ecdsa_key_id.clone()
    }

    /// A copy of the contract addresses whose logs are scraped.
    pub fn get_logs_addresses(&self) -> (r: Vec<String>)
        ensures
            texts_view(r@) == texts_view(self.get_logs_addresses@),
    {
        clone_texts(&self.get_logs_addresses)
    }

    /// The transaction count of the signing address.
    pub fn nonce(&self) -> (r: U256)
        ensures
            r == self.nonce,
    {
        self.nonce
    }

    /// Registers a job, or gives a registered job a new execution time.
    pub fn add_job(&mut self, job_id: U256, execution_time: u64)
        ensures
            old(self).same_but_jobs(*final(self)),
            final(self).job_execution_times@ == old(self).job_execution_times@.insert(
                job_id@,
                execution_time,
            ),
    {
        self.job_execution_times.upsert(job_id, execution_time);
    }

    /// Takes a job out of the registry and returns the execution time it
    /// had; `None`, and no change, where the job is not registered.
    pub fn remove_job(&mut self, job_id: &U256) -> (r: Option<u64>)
        ensures
            old(self).same_but_jobs(*final(self)),
            final(self).job_execution_times@ == old(self).job_execution_times@.remove(job_id@),
            r == (if old(self).job_execution_times@.contains_key(job_id@) {
                Some(old(self).job_execution_times@[job_id@])
            } else {
                None
            }),
    {
        self.job_execution_times.remove(job_id)
    }

    /// The job that is due first: the least execution time and, among the
    /// jobs that share it, the least identifier. `None` exactly where no job
    /// is registered.
    pub fn get_earliest_job(&self) -> (r: Option<(U256, u64)>)
        ensures
            match r {
                Some((id, t)) => is_earliest(self.job_execution_times@, id@, t),
                None => self.job_execution_times@ == Map::<nat, u64>::empty(),
            },
    {
        self.job_execution_times.earliest()
    }
}

} // verus!
