use chain_fusion::container::{
    initialize_state, mutate_state, read_state, resume, suspend, Phase, StateContainer,
};
use chain_fusion::error::ProtocolViolation;
use chain_fusion::job::{handle_event, job, NewJobEvent};
use chain_fusion::ledger::DedupLedger;
use chain_fusion::log::{LogEntry, LogSource};
use chain_fusion::natural::Natural;
use chain_fusion::periodic_job::JobTimer;
use chain_fusion::registry::JobRegistry;
use chain_fusion::skipped::SkippedBlocks;
use chain_fusion::state::{InvalidStateError, State, TaskType};
use chain_fusion::u256::U256;
use evm_rpc_canister_types::{BlockTag, EthMainnetService, RpcService, RpcServices};
use ic_cdk::api::management_canister::ecdsa::{EcdsaCurve, EcdsaKeyId};
use std::collections::HashSet;

fn new_state() -> State {
    State {
        rpc_services: RpcServices::EthMainnet(None),
        rpc_service: RpcService::EthMainnet(EthMainnetService::Cloudflare),
        get_logs_addresses: vec!["0xc0ffee".to_string(), "0xdecaf".to_string()],
        get_logs_topics: None,
        last_scraped_block_number: Natural::zero(),
        last_observed_block_number: None,
        logs: DedupLedger::new(),
        skipped_blocks: SkippedBlocks::new(),
        active_tasks: HashSet::new(),
        ecdsa_pub_key: None,
        ecdsa_key_id: EcdsaKeyId { curve: EcdsaCurve::Secp256k1, name: "test_key".to_string() },
        evm_address: None,
        nonce: U256::from_u64(3),
        block_tag: BlockTag::Latest,
        job_execution_times: JobRegistry::new(),
    }
}

fn event(hash: &str, index: u64, topics: &[&str], data: &str) -> LogEntry {
    LogEntry {
        transaction_hash: Some(hash.to_string()),
        block_number: Some(Natural::from_u64(12)),
        data: data.to_string(),
        block_hash: None,
        transaction_index: None,
        topics: topics.iter().map(|t| t.to_string()).collect(),
        address: "0xc0ffee".to_string(),
        log_index: Some(Natural::from_u64(index)),
        removed: false,
    }
}

fn source(hash: &str, index: u64) -> LogSource {
    LogSource { transaction_hash: hash.to_string(), log_index: Natural::from_u64(index) }
}

#[test]
fn ingest_overwrite_cancel_scenario() {
    let mut state = new_state();
    let e1 = event("0xe1", 0, &["0xsig", "0x7"], "0x3e8");
    assert_eq!(
        handle_event(&mut state, &e1),
        Ok(NewJobEvent { job_execution_time: U256::from_u64(1000), job_id: U256::from_u64(7) })
    );
    assert_eq!(state.get_earliest_job(), Some((U256::from_u64(7), 1000)));
    let e2 = event("0xe2", 0, &["0xsig", "0x7"], "0x1f4");
    assert_eq!(
        handle_event(&mut state, &e2),
        Ok(NewJobEvent { job_execution_time: U256::from_u64(500), job_id: U256::from_u64(7) })
    );
    assert_eq!(state.get_earliest_job(), Some((U256::from_u64(7), 500)));
    assert_eq!(state.job_execution_times.len(), 1);
    assert_eq!(state.remove_job(&U256::from_u64(7)), Some(500));
    assert_eq!(state.get_earliest_job(), None);
    assert_eq!(state.remove_job(&U256::from_u64(7)), None);
}

#[test]
fn a_redelivered_event_changes_no_job() {
    let mut state = new_state();
    let e1 = event("0xe1", 0, &["0xsig", "0x7"], "0x3e8");
    assert!(handle_event(&mut state, &e1).is_ok());
    let again = event("0xe1", 0, &["0xsig", "0x7"], "0x1");
    assert_eq!(handle_event(&mut state, &again), Err(ProtocolViolation::LogAlreadyProcessed));
    assert_eq!(state.get_earliest_job(), Some((U256::from_u64(7), 1000)));
    assert!(state.logs.is_processed(&source("0xe1", 0)));
    assert!(!state.has_logs_to_process());
}

#[test]
fn an_event_without_identity_is_refused() {
    let mut state = new_state();
    let mut e = event("0xe1", 0, &["0xsig", "0x7"], "0x3e8");
    e.log_index = None;
    assert_eq!(handle_event(&mut state, &e), Err(ProtocolViolation::UnfinalizedLog));
    assert_eq!(state.record_log_to_process(&e), Err(ProtocolViolation::UnfinalizedLog));
    assert!(!state.has_logs_to_process());
    assert_eq!(state.get_earliest_job(), None);
}

#[test]
fn job_processes_a_pending_event() {
    let mut state = new_state();
    let e = event("0xe1", 4, &["0xsig", "0000000000000000000000000000000000000000000000000000000000000010"], "ff");
    assert_eq!(state.record_log_to_process(&e), Ok(()));
    assert_eq!(
        state.record_log_to_process(&e),
        Err(ProtocolViolation::DuplicatePendingLog)
    );
    assert!(state.has_logs_to_process());
    assert_eq!(
        job(&mut state, source("0xe1", 4), e.clone()),
        Ok(NewJobEvent { job_execution_time: U256::from_u64(255), job_id: U256::from_u64(16) })
    );
    assert!(!state.has_logs_to_process());
    assert!(state.logs.is_processed(&source("0xe1", 4)));
    assert_eq!(state.job_execution_times.get(&U256::from_u64(16)), Some(255));
    assert_eq!(job(&mut state, source("0xe1", 4), e.clone()), Err(ProtocolViolation::UnknownLog));
    assert_eq!(state.record_log_to_process(&e), Err(ProtocolViolation::LogAlreadyProcessed));
}

#[test]
fn job_for_an_unknown_event_changes_nothing() {
    let mut state = new_state();
    let e = event("0xe1", 4, &["0xsig", "0x7"], "0x3e8");
    assert_eq!(job(&mut state, source("0xe1", 4), e), Err(ProtocolViolation::UnknownLog));
    assert_eq!(state.get_earliest_job(), None);
    assert!(!state.logs.is_processed(&source("0xe1", 4)));
}

#[test]
fn record_processed_log_returns_the_record() {
    let mut state = new_state();
    let e = event("0xe1", 4, &["0xsig", "0x7"], "0x3e8");
    assert_eq!(state.record_log_to_process(&e), Ok(()));
    assert_eq!(state.record_processed_log(source("0xe1", 4)), Ok(e));
    assert_eq!(
        state.record_processed_log(source("0xe1", 4)),
        Err(ProtocolViolation::UnknownLog)
    );
}

#[test]
fn an_event_that_announces_no_job_stays_processed() {
    let cases: Vec<(LogEntry, ProtocolViolation)> = vec![
        (event("0xe1", 0, &["0xsig"], "0x3e8"), ProtocolViolation::MissingTopic),
        (event("0xe1", 0, &[], "0x3e8"), ProtocolViolation::MissingTopic),
        (event("0xe1", 0, &["0xsig", "0xg"], "0x3e8"), ProtocolViolation::InvalidJobId),
        (event("0xe1", 0, &["0xsig", "7 "], "0x3e8"), ProtocolViolation::InvalidJobId),
        (event("0xe1", 0, &["0xsig", "0x7"], "0X3e8"), ProtocolViolation::InvalidSchedule),
        (event("0xe1", 0, &["0xsig", "0x7"], "1000 s"), ProtocolViolation::InvalidSchedule),
        (
            event("0xe1", 0, &["0xsig", "0x7"], "0x10000000000000000"),
            ProtocolViolation::ScheduleOutOfRange,
        ),
    ];
    for (e, expected) in cases {
        let mut state = new_state();
        state.add_job(U256::from_u64(1), 1);
        assert_eq!(handle_event(&mut state, &e), Err(expected));
        assert!(state.logs.is_processed(&source("0xe1", 0)));
        assert!(!state.logs.is_pending(&source("0xe1", 0)));
        assert_eq!(state.job_execution_times.len(), 1);
        assert_eq!(state.get_earliest_job(), Some((U256::from_u64(1), 1)));
    }
}

#[test]
fn hexadecimal_fields_are_read_as_the_chain_writes_them() {
    let decode = |id: &str, data: &str| NewJobEvent::decode(&event("0xe1", 0, &["0xsig", id], data));
    let ok = |id: U256, t: U256| Ok(NewJobEvent { job_execution_time: t, job_id: id });
    assert_eq!(decode("0x7", "0x3e8"), ok(U256::from_u64(7), U256::from_u64(1000)));
    assert_eq!(decode("7", "3E8"), ok(U256::from_u64(7), U256::from_u64(1000)));
    assert_eq!(decode("0x", ""), ok(U256::zero(), U256::zero()));
    assert_eq!(decode("0x0a", "0xABCDEF"), ok(U256::from_u64(10), U256::from_u64(0xabcdef)));
    assert_eq!(
        decode(
            "0xffffffffffffffffffffffffffffffffffffffffffffffffffffffffffffffff",
            "0x10000000000000000"
        ),
        ok(U256([u64::MAX, u64::MAX, u64::MAX, u64::MAX]), U256([0, 1, 0, 0]))
    );
    assert_eq!(
        decode("0x0123456789abcdef00000000000000020000000000000003f000000000000004", "0"),
        ok(
            U256([0xf000000000000004, 3, 2, 0x0123456789abcdef]),
            U256::zero()
        )
    );
    // 65 digits are one too many, whatever they are.
    assert_eq!(
        decode("0x00000000000000000000000000000000000000000000000000000000000000001", "0"),
        Err(ProtocolViolation::InvalidJobId)
    );
    assert_eq!(decode("0x0x7", "0"), Err(ProtocolViolation::InvalidJobId));
    assert_eq!(decode("x7", "0"), Err(ProtocolViolation::InvalidJobId));
    assert_eq!(decode("0x-7", "0"), Err(ProtocolViolation::InvalidJobId));
    assert_eq!(decode("0x7", "0x é"), Err(ProtocolViolation::InvalidSchedule));
}

#[test]
fn a_periodic_job_asks_for_its_timer() {
    let mut state = new_state();
    let e = event("0xe1", 0, &["0xsig", "0x2a", "0x3c"], "0x");
    assert_eq!(state.record_log_to_process(&e), Ok(()));
    assert_eq!(
        chain_fusion::periodic_job::job(&mut state, source("0xe1", 0), e.clone()),
        Ok(JobTimer { job_id: U256::from_u64(42), interval_secs: 60 })
    );
    assert!(state.logs.is_processed(&source("0xe1", 0)));
    assert_eq!(state.get_earliest_job(), Some((U256::from_u64(42), 60)));
    assert_eq!(state.job_execution_times.len(), 1);
    assert_eq!(
        chain_fusion::periodic_job::job(&mut state, source("0xe1", 0), e),
        Err(ProtocolViolation::UnknownLog)
    );
    assert_eq!(state.job_execution_times.len(), 1);
    let again = event("0xe2", 0, &["0xsig", "0x2a", "0x1e"], "0x");
    assert_eq!(state.record_log_to_process(&again), Ok(()));
    assert_eq!(
        chain_fusion::periodic_job::job(&mut state, source("0xe2", 0), again),
        Ok(JobTimer { job_id: U256::from_u64(42), interval_secs: 30 })
    );
    assert_eq!(state.get_earliest_job(), Some((U256::from_u64(42), 30)));
    assert_eq!(state.job_execution_times.len(), 1);
}

#[test]
fn a_periodic_event_is_read_topic_by_topic() {
    let decode = |topics: &[&str]| {
        chain_fusion::periodic_job::NewJobEvent::decode(&event("0xe1", 0, topics, "0x"))
    };
    assert_eq!(
        decode(&["0xsig", "0x2a", "0x3c"]),
        Ok(chain_fusion::periodic_job::NewJobEvent {
            job_id: U256::from_u64(42),
            job_sleep_interval: U256::from_u64(60),
        })
    );
    assert_eq!(decode(&["0xsig"]), Err(ProtocolViolation::MissingTopic));
    assert_eq!(decode(&["0xsig", "0x2a"]), Err(ProtocolViolation::MissingTopic));
    assert_eq!(decode(&["0xsig", "zz"]), Err(ProtocolViolation::InvalidJobId));
    assert_eq!(decode(&["0xsig", "zz", "0x3c"]), Err(ProtocolViolation::InvalidJobId));
    assert_eq!(decode(&["0xsig", "0x2a", "zz"]), Err(ProtocolViolation::InvalidSchedule));
}

#[test]
fn a_periodic_job_with_an_interval_beyond_64_bits_gets_no_timer() {
    let mut state = new_state();
    let e = event("0xe1", 0, &["0xsig", "0x2a", "0x10000000000000000"], "0x");
    assert_eq!(state.record_log_to_process(&e), Ok(()));
    assert_eq!(
        chain_fusion::periodic_job::job(&mut state, source("0xe1", 0), e),
        Err(ProtocolViolation::ScheduleOutOfRange)
    );
    assert!(state.logs.is_processed(&source("0xe1", 0)));
    assert_eq!(state.get_earliest_job(), None);
}

#[test]
fn state_skips_a_block_once() {
    let mut state = new_state();
    assert_eq!(state.record_skipped_block(Natural::from_u64(100)), Ok(()));
    assert_eq!(
        state.record_skipped_block(Natural::from_u64(100)),
        Err(ProtocolViolation::BlockAlreadySkipped)
    );
    assert_eq!(state.record_skipped_block(Natural::from_u64(101)), Ok(()));
    assert_eq!(state.skipped_blocks.len(), 2);
}

#[test]
fn state_hands_out_copies_of_its_configuration() {
    let mut state = new_state();
    state.active_tasks.insert(TaskType::ScrapeLogs);
    assert_eq!(state.get_logs_addresses(), vec!["0xc0ffee".to_string(), "0xdecaf".to_string()]);
    assert_eq!(state.nonce(), U256::from_u64(3));
    assert_eq!(state.key_id().name, "test_key");
    assert!(matches!(state.rpc_services(), RpcServices::EthMainnet(None)));
    assert!(state.active_tasks.contains(&TaskType::ScrapeLogs));
    assert!(!state.active_tasks.contains(&TaskType::ProcessLogs));
    assert_ne!(
        InvalidStateError::InvalidTopic("0x".to_string()),
        InvalidStateError::InvalidEthereumContractAddress("0x".to_string())
    );
}

#[test]
fn the_container_is_empty_until_initialized() {
    let mut container = StateContainer::new();
    assert_eq!(container.current_phase(), Phase::Uninitialized);
    assert_eq!(read_state(&mut container, |s| s.nonce()), None);
    assert_eq!(mutate_state(&mut container, |s| s.add_job(U256::from_u64(1), 2)), None);
    assert_eq!(suspend(&mut container), None);
    assert_eq!(resume(&mut container, &[]), Err(ProtocolViolation::NotSuspended));
    assert_eq!(container.current_phase(), Phase::Uninitialized);
    initialize_state(&mut container, new_state());
    assert_eq!(container.current_phase(), Phase::Running);
    assert_eq!(mutate_state(&mut container, |s| s.add_job(U256::from_u64(1), 2)), Some(()));
    assert_eq!(
        read_state(&mut container, |s| s.get_earliest_job()),
        Some(Some((U256::from_u64(1), 2)))
    );
    initialize_state(&mut container, new_state());
    assert_eq!(read_state(&mut container, |s| s.get_earliest_job()), Some(None));
}

#[test]
fn a_suspended_state_rests_until_it_is_resumed() {
    let mut container = StateContainer::new();
    initialize_state(&mut container, new_state());
    mutate_state(&mut container, |s| {
        s.add_job(U256::from_u64(7), 1000);
        s.last_scraped_block_number = Natural::from_u64(77);
    });
    assert_eq!(resume(&mut container, &[]), Err(ProtocolViolation::NotSuspended));
    let bytes = suspend(&mut container).unwrap();
    assert_eq!(container.current_phase(), Phase::Suspended);
    assert_eq!(suspend(&mut container), None);
    assert_eq!(read_state(&mut container, |s| s.nonce()), None);
    assert_eq!(mutate_state(&mut container, |s| s.add_job(U256::from_u64(1), 2)), None);
    assert_eq!(resume(&mut container, &bytes[1..]), Err(ProtocolViolation::MalformedSnapshot));
    assert_eq!(container.current_phase(), Phase::Suspended);
    assert_eq!(resume(&mut container, &bytes), Ok(()));
    assert_eq!(container.current_phase(), Phase::Running);
    assert_eq!(
        read_state(&mut container, |s| s.get_earliest_job()),
        Some(Some((U256::from_u64(7), 1000)))
    );
    assert_eq!(
        read_state(&mut container, |s| s.last_scraped_block_number.clone()),
        Some(Natural::from_u64(77))
    );
    assert_eq!(
        read_state(&mut container, |s| s.job_execution_times.len()),
        Some(1)
    );
}
