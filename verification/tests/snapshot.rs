use chain_fusion::error::ProtocolViolation;
use chain_fusion::ledger::DedupLedger;
use chain_fusion::log::{LogEntry, LogSource};
use chain_fusion::natural::Natural;
use chain_fusion::registry::JobRegistry;
use chain_fusion::skipped::SkippedBlocks;
use chain_fusion::snapshot::{restore, snapshot, SNAPSHOT_MAGIC, SNAPSHOT_VERSION};
use chain_fusion::state::State;
use chain_fusion::u256::U256;
use chain_fusion::words::{decode_words, encode_words};
use evm_rpc_canister_types::{BlockTag, EthMainnetService, RpcService, RpcServices};
use ic_cdk::api::management_canister::ecdsa::{EcdsaCurve, EcdsaKeyId};
use std::collections::HashSet;

fn new_state() -> State {
    State {
        rpc_services: RpcServices::EthMainnet(None),
        rpc_service: RpcService::EthMainnet(EthMainnetService::Cloudflare),
        get_logs_addresses: vec!["0xc0ffee".to_string()],
        get_logs_topics: None,
        last_scraped_block_number: Natural::zero(),
        last_observed_block_number: None,
        logs: DedupLedger::new(),
        skipped_blocks: SkippedBlocks::new(),
        active_tasks: HashSet::new(),
        ecdsa_pub_key: None,
        ecdsa_key_id: EcdsaKeyId { curve: EcdsaCurve::Secp256k1, name: "test_key".to_string() },
        evm_address: None,
        nonce: U256::zero(),
        block_tag: BlockTag::Latest,
        job_execution_times: JobRegistry::new(),
    }
}

fn words(bytes: &[u8]) -> Vec<u64> {
    decode_words(bytes).unwrap()
}

#[test]
fn words_are_written_least_significant_byte_first() {
    assert_eq!(
        encode_words(&vec![0x0102_0304_0506_0708, 1]),
        vec![8, 7, 6, 5, 4, 3, 2, 1, 1, 0, 0, 0, 0, 0, 0, 0]
    );
    assert_eq!(encode_words(&vec![]), Vec::<u8>::new());
    assert_eq!(
        decode_words(&[8, 7, 6, 5, 4, 3, 2, 1, 1, 0, 0, 0, 0, 0, 0, 0]),
        Some(vec![0x0102_0304_0506_0708, 1])
    );
    assert_eq!(decode_words(&[]), Some(vec![]));
    assert_eq!(decode_words(&[1, 2, 3]), None);
    assert_eq!(decode_words(&[0; 9]), None);
    let w = vec![u64::MAX, 0, 42, 1 << 63];
    assert_eq!(decode_words(&encode_words(&w)), Some(w));
}

#[test]
fn snapshot_has_the_documented_layout() {
    let mut jobs = JobRegistry::new();
    jobs.upsert(U256::from_u64(7), 1000);
    let bytes = snapshot(&jobs, &Natural::from_u64(5));
    let mut expected: Vec<u8> = Vec::new();
    expected.extend_from_slice(b"CFSNAPSH");
    for w in [1u64, 1, 5, 1, 7, 0, 0, 0, 1000] {
        expected.extend_from_slice(&w.to_le_bytes());
    }
    assert_eq!(bytes, expected);
    assert_eq!(words(&bytes)[0], SNAPSHOT_MAGIC);
    assert_eq!(words(&bytes)[1], SNAPSHOT_VERSION);
}

#[test]
fn snapshot_bytes_do_not_depend_on_the_order_of_entry() {
    let mut first = JobRegistry::new();
    first.upsert(U256::from_u64(7), 1000);
    first.upsert(U256([0, 0, 1, 0]), 5);
    first.upsert(U256::from_u64(3), 9);
    let mut second = JobRegistry::new();
    second.upsert(U256::from_u64(3), 1);
    second.upsert(U256([0, 0, 1, 0]), 5);
    second.upsert(U256::from_u64(8), 8);
    second.upsert(U256::from_u64(7), 1000);
    second.remove(&U256::from_u64(8));
    second.upsert(U256::from_u64(3), 9);
    let cursor = Natural::from_u64(5);
    assert_eq!(snapshot(&first, &cursor), snapshot(&second, &cursor));
    assert_eq!(
        words(&snapshot(&first, &cursor)),
        vec![SNAPSHOT_MAGIC, SNAPSHOT_VERSION, 1, 5, 3, 3, 0, 0, 0, 9, 7, 0, 0, 0, 1000, 0, 0, 1, 0, 5]
    );
}

#[test]
fn suspend_yields_the_same_bytes_for_the_same_registry_and_cursor() {
    let mut one = new_state();
    one.add_job(U256::from_u64(2), 20);
    one.add_job(U256::from_u64(1), 10);
    one.last_scraped_block_number = Natural::from_limbs(vec![4, 4]);
    let mut other = new_state();
    other.add_job(U256::from_u64(1), 10);
    other.add_job(U256::from_u64(2), 20);
    other.last_scraped_block_number = Natural::from_limbs(vec![4, 4, 0]);
    other.nonce = U256::from_u64(77);
    assert_eq!(other.record_skipped_block(Natural::from_u64(3)), Ok(()));
    other.evm_address = Some("0xfeed".to_string());
    assert_eq!(one.on_suspend(), other.on_suspend());
    assert_eq!(one.get_earliest_job(), Some((U256::from_u64(1), 10)));
}

#[test]
fn a_copy_of_a_state_holds_what_the_state_holds() {
    let mut state = new_state();
    state.add_job(U256::from_u64(2), 20);
    assert_eq!(state.record_skipped_block(Natural::from_u64(3)), Ok(()));
    state.active_tasks.insert(chain_fusion::state::TaskType::ProcessLogs);
    state.ecdsa_pub_key = Some(vec![1, 2, 3]);
    state.get_logs_topics = Some(vec![vec!["0xaa".to_string()], vec![]]);
    state.last_observed_block_number = Some(Natural::from_u64(8));
    let mut copy = state.clone();
    assert_eq!(copy.on_suspend(), state.on_suspend());
    assert_eq!(copy.get_logs_addresses(), state.get_logs_addresses());
    assert_eq!(copy.get_logs_topics, state.get_logs_topics);
    assert_eq!(copy.ecdsa_pub_key, Some(vec![1, 2, 3]));
    assert_eq!(copy.active_tasks, state.active_tasks);
    assert_eq!(copy.last_observed_block_number, Some(Natural::from_u64(8)));
    assert_eq!(copy.key_id(), state.key_id());
    assert!(copy.skipped_blocks.contains(&Natural::from_u64(3)));
    copy.add_job(U256::from_u64(1), 1);
    assert_eq!(state.get_earliest_job(), Some((U256::from_u64(2), 20)));
    assert_eq!(copy.get_earliest_job(), Some((U256::from_u64(1), 1)));
    let ledger_copy = state.logs.clone();
    assert_eq!(ledger_copy.pending_len(), 0);
    assert_eq!(state.skipped_blocks.clone().len(), 1);
}

#[test]
fn snapshot_of_nothing_is_four_words() {
    let bytes = snapshot(&JobRegistry::new(), &Natural::zero());
    assert_eq!(words(&bytes), vec![SNAPSHOT_MAGIC, SNAPSHOT_VERSION, 0, 0]);
    let (jobs, cursor) = restore(&bytes).unwrap();
    assert!(jobs.is_empty());
    assert_eq!(cursor, Natural::zero());
}

#[test]
fn snapshot_round_trip_keeps_registry_and_cursor() {
    let mut jobs = JobRegistry::new();
    jobs.upsert(U256::from_u64(1), 50);
    jobs.upsert(U256([9, 8, 7, 6]), u64::MAX);
    jobs.upsert(U256::from_u64(3), 0);
    let cursor = Natural::from_limbs(vec![17, 0, 4]);
    let (read_jobs, read_cursor) = restore(&snapshot(&jobs, &cursor)).unwrap();
    assert_eq!(read_cursor, cursor);
    assert_eq!(read_jobs.len(), 3);
    assert_eq!(read_jobs.get(&U256::from_u64(1)), Some(50));
    assert_eq!(read_jobs.get(&U256([9, 8, 7, 6])), Some(u64::MAX));
    assert_eq!(read_jobs.get(&U256::from_u64(3)), Some(0));
    assert_eq!(read_jobs.earliest(), Some((U256::from_u64(3), 0)));
}

#[test]
fn restore_rejects_bytes_that_are_no_snapshot() {
    let malformed = Err(ProtocolViolation::MalformedSnapshot);
    let check = |w: Vec<u64>| restore(&encode_words(&w)).map(|_| ());
    assert_eq!(restore(&[]).map(|_| ()), malformed);
    assert_eq!(restore(&[1, 2, 3]).map(|_| ()), malformed);
    assert_eq!(restore(b"DIDL\x00\x00\x00\x00").map(|_| ()), malformed);
    assert_eq!(check(vec![SNAPSHOT_MAGIC]), malformed);
    assert_eq!(check(vec![SNAPSHOT_MAGIC + 1, SNAPSHOT_VERSION, 0, 0]), malformed);
    assert_eq!(check(vec![SNAPSHOT_MAGIC, SNAPSHOT_VERSION]), malformed);
    assert_eq!(check(vec![SNAPSHOT_MAGIC, SNAPSHOT_VERSION, 0]), malformed);
    // More limbs announced than there are words.
    assert_eq!(check(vec![SNAPSHOT_MAGIC, SNAPSHOT_VERSION, 2, 5]), malformed);
    assert_eq!(check(vec![SNAPSHOT_MAGIC, SNAPSHOT_VERSION, u64::MAX, 5]), malformed);
    // A word too many, a word too few.
    assert_eq!(check(vec![SNAPSHOT_MAGIC, SNAPSHOT_VERSION, 0, 0, 0]), malformed);
    assert_eq!(check(vec![SNAPSHOT_MAGIC, SNAPSHOT_VERSION, 0, 1, 7, 0, 0, 0]), malformed);
    assert_eq!(check(vec![SNAPSHOT_MAGIC, SNAPSHOT_VERSION, 0, u64::MAX, 7, 0, 0, 0, 9]), malformed);
    // A cursor whose most significant limb is zero.
    assert_eq!(check(vec![SNAPSHOT_MAGIC, SNAPSHOT_VERSION, 2, 5, 0, 0]), malformed);
    // One job twice.
    assert_eq!(
        check(vec![SNAPSHOT_MAGIC, SNAPSHOT_VERSION, 0, 2, 7, 0, 0, 0, 1, 7, 0, 0, 0, 2]),
        malformed
    );
    // The same words, with two jobs, are a snapshot.
    assert_eq!(
        check(vec![SNAPSHOT_MAGIC, SNAPSHOT_VERSION, 0, 2, 7, 0, 0, 0, 1, 8, 0, 0, 0, 2]),
        Ok(())
    );
}

#[test]
fn restore_rejects_another_version() {
    let check = |w: Vec<u64>| restore(&encode_words(&w)).map(|_| ());
    assert_eq!(
        check(vec![SNAPSHOT_MAGIC, 2, 0, 0]),
        Err(ProtocolViolation::UnsupportedSnapshotVersion)
    );
    assert_eq!(
        check(vec![SNAPSHOT_MAGIC, 0]),
        Err(ProtocolViolation::UnsupportedSnapshotVersion)
    );
}

#[test]
fn resume_takes_registry_and_cursor_and_nothing_else() {
    let mut before = new_state();
    before.add_job(U256::from_u64(7), 1000);
    before.add_job(U256::from_u64(8), 900);
    before.last_scraped_block_number = Natural::from_u64(4242);
    let bytes = before.on_suspend();

    let mut after = new_state();
    let e = LogSource { transaction_hash: "0xabc".to_string(), log_index: Natural::from_u64(1) };
    let r = LogEntry {
        transaction_hash: Some("0xabc".to_string()),
        block_number: None,
        data: "0x01".to_string(),
        block_hash: None,
        transaction_index: None,
        topics: vec![],
        address: "0xc0ffee".to_string(),
        log_index: Some(Natural::from_u64(1)),
        removed: false,
    };
    assert_eq!(after.record_log_to_process(&r), Ok(()));
    assert_eq!(after.record_skipped_block(Natural::from_u64(3)), Ok(()));
    after.add_job(U256::from_u64(99), 1);
    after.nonce = U256::from_u64(12);

    assert_eq!(after.on_resume(&bytes), Ok(()));
    assert_eq!(after.last_scraped_block_number, Natural::from_u64(4242));
    assert_eq!(after.job_execution_times.len(), 2);
    assert_eq!(after.get_earliest_job(), Some((U256::from_u64(8), 900)));
    assert_eq!(after.job_execution_times.get(&U256::from_u64(7)), Some(1000));
    assert_eq!(after.job_execution_times.get(&U256::from_u64(99)), None);
    assert!(after.logs.is_pending(&e));
    assert!(after.has_logs_to_process());
    assert!(after.skipped_blocks.contains(&Natural::from_u64(3)));
    assert_eq!(after.nonce(), U256::from_u64(12));
}

#[test]
fn failed_resume_changes_nothing() {
    let mut state = new_state();
    state.add_job(U256::from_u64(7), 1000);
    state.last_scraped_block_number = Natural::from_u64(10);
    let mut bytes = state.on_suspend();
    bytes.pop();
    assert_eq!(state.on_resume(&bytes), Err(ProtocolViolation::MalformedSnapshot));
    let mut other = new_state().on_suspend();
    other[8] = 9;
    assert_eq!(state.on_resume(&other), Err(ProtocolViolation::UnsupportedSnapshotVersion));
    assert_eq!(state.get_earliest_job(), Some((U256::from_u64(7), 1000)));
    assert_eq!(state.last_scraped_block_number, Natural::from_u64(10));
}
