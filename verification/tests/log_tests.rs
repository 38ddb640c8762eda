use chronicles::builder::register_deployment;
use chronicles::errors::LogError;
use chronicles::model::{ContractRecord, CtorValue, DeploymentLog, HistoryEntry};
use chronicles::reconcile::reconcile;
use chronicles::screen::{RegisterContractWorkflow, Screen, WorkflowResult};

fn empty_log() -> DeploymentLog {
    DeploymentLog { chain_id: "1".to_string(), latest: vec![], history: vec![] }
}

fn reg(
    log: &mut DeploymentLog,
    name: &str,
    addr: &str,
    ts: u64,
) -> Result<(), LogError> {
    register_deployment(
        log,
        name.to_string(),
        addr.to_string(),
        "0xtxhash".to_string(),
        ts,
        true,
        None,
        None,
    )
}

fn latest_of<'a>(
    log: &'a DeploymentLog,
    name: &str,
) -> &'a chronicles::model::LatestRecord {
    &log.latest.iter().find(|(n, _)| n == name).expect("name missing in latest").1
}

#[test]
fn empty_log_single_registration() {
    let mut log = empty_log();
    let addr = "0xAAAAAAAAAAAAAAAAAAAAAAAAAAAAAAAAAAAAAAAA";
    let r = reg(&mut log, "Foo", addr, 1000);
    assert!(r.is_ok());
    assert_eq!(log.history.len(), 1);
    assert_eq!(log.latest.len(), 1);
    let lr = latest_of(&log, "Foo");
    assert_eq!(lr.address, addr);
    assert_eq!(lr.proxy, false);
    assert_eq!(lr.deployment_txn, "0xtxhash");
    assert_eq!(lr.timestamp, 1000);
    assert!(lr.commit_hash.is_none());
    assert!(lr.pool_init_code_hash.is_none());
    let entry = &log.history[0];
    assert_eq!(entry.timestamp, 1000);
    assert_eq!(entry.contracts.len(), 1);
    assert_eq!(entry.contracts[0].0, "Foo");
    assert!(entry.contracts[0].1.constructor.is_empty());
}

#[test]
fn two_registrations_latest_is_most_recent() {
    let mut log = empty_log();
    reg(&mut log, "Foo", "0xA1", 1000).unwrap();
    reg(&mut log, "Foo", "0xA2", 2000).unwrap();
    assert_eq!(log.history.len(), 2);
    assert_eq!(log.history[0].timestamp, 2000);
    assert_eq!(log.history[1].timestamp, 1000);
    assert_eq!(log.latest.len(), 1);
    let lr = latest_of(&log, "Foo");
    assert_eq!(lr.timestamp, 2000);
    assert_eq!(lr.address, "0xA2");
}

#[test]
fn duplicate_address_rejected_and_log_unchanged() {
    let mut log = empty_log();
    reg(&mut log, "Foo", "0xA1", 1000).unwrap();
    let r = reg(&mut log, "Bar", "0xA1", 2000);
    match r {
        Err(LogError::DuplicateContract(a)) => assert_eq!(a, "0xA1"),
        other => panic!("expected DuplicateContract, got {:?}", other),
    }
    assert_eq!(log.history.len(), 1);
    assert_eq!(log.latest.len(), 1);
    assert_eq!(latest_of(&log, "Foo").address, "0xA1");
}

#[test]
fn missing_artifact_rejected() {
    let mut log = empty_log();
    let r = register_deployment(
        &mut log,
        "Foo".to_string(),
        "0xA1".to_string(),
        "0xtx".to_string(),
        1000,
        false,
        None,
        None,
    );
    assert!(matches!(r, Err(LogError::ArtifactNotFound)));
    assert_eq!(log.history.len(), 0);
}

#[test]
fn factory_name_populates_pool_init_code_hash() {
    let mut log = empty_log();
    let hash = "0x96e8ac4277198ff8b6f785478aa9a39f403cb768dd02cbee326c3e7da348845f";
    register_deployment(
        &mut log,
        "UniswapV2Factory".to_string(),
        "0xF1".to_string(),
        "0xtx".to_string(),
        1000,
        true,
        None,
        Some(hash.to_string()),
    )
    .unwrap();
    let entry_rec = &log.history[0].contracts[0].1;
    assert_eq!(entry_rec.pool_init_code_hash.as_deref(), Some(hash));
    assert_eq!(latest_of(&log, "UniswapV2Factory").pool_init_code_hash.as_deref(), Some(hash));
}

#[test]
fn non_factory_name_never_populates_pool_init_code_hash() {
    let mut log = empty_log();
    register_deployment(
        &mut log,
        "Foo".to_string(),
        "0xF2".to_string(),
        "0xtx".to_string(),
        1000,
        true,
        None,
        Some("0xdeadbeef".to_string()),
    )
    .unwrap();
    assert!(log.history[0].contracts[0].1.pool_init_code_hash.is_none());
    assert!(latest_of(&log, "Foo").pool_init_code_hash.is_none());
}

#[test]
fn equal_timestamps_first_registered_wins() {
    let mut log = empty_log();
    reg(&mut log, "Foo", "0xA1", 1000).unwrap();
    reg(&mut log, "Foo", "0xA2", 1000).unwrap();
    assert_eq!(log.history.len(), 2);
    let lr = latest_of(&log, "Foo");
    assert_eq!(lr.timestamp, 1000);
    assert_eq!(lr.address, "0xA1");
}

#[test]
fn latest_timestamp_is_max_per_name() {
    let mut log = empty_log();
    reg(&mut log, "Foo", "0xA1", 1000).unwrap();
    reg(&mut log, "Bar", "0xB1", 3000).unwrap();
    reg(&mut log, "Foo", "0xA2", 2000).unwrap();
    assert_eq!(log.history.len(), 3);
    assert_eq!(log.history[0].timestamp, 3000);
    assert_eq!(log.history[1].timestamp, 2000);
    assert_eq!(log.history[2].timestamp, 1000);
    assert_eq!(latest_of(&log, "Foo").timestamp, 2000);
    assert_eq!(latest_of(&log, "Foo").address, "0xA2");
    assert_eq!(latest_of(&log, "Bar").timestamp, 3000);
}

#[test]
fn distinct_addresses_each_in_one_entry() {
    let mut log = empty_log();
    let addrs = ["0xA1", "0xA2", "0xA3"];
    for (i, a) in addrs.iter().enumerate() {
        reg(&mut log, "C", a, 1000 + i as u64).unwrap();
    }
    assert_eq!(log.history.len(), 3);
    for a in addrs.iter() {
        let occurrences = log
            .history
            .iter()
            .filter(|e| e.contracts.iter().any(|(_, r)| &r.address == a))
            .count();
        assert_eq!(occurrences, 1);
    }
}

fn record(addr: &str) -> ContractRecord {
    ContractRecord {
        address: addr.to_string(),
        proxy: false,
        deployment_txn: "0xtx".to_string(),
        constructor: Vec::<(String, CtorValue)>::new(),
        pool_init_code_hash: None,
    }
}

fn entry(name: &str, addr: &str, ts: u64) -> HistoryEntry {
    HistoryEntry {
        timestamp: ts,
        commit_hash: None,
        contracts: vec![(name.to_string(), record(addr))],
    }
}

#[test]
fn reconcile_sorts_descending_and_is_idempotent() {
    let history = vec![
        entry("A", "0x1", 100),
        entry("B", "0x2", 300),
        entry("A", "0x3", 200),
    ];
    let (sorted, latest) = reconcile(history);
    let ts: Vec<u64> = sorted.iter().map(|e| e.timestamp).collect();
    assert_eq!(ts, vec![300, 200, 100]);
    assert_eq!(latest.len(), 2);

    let (sorted2, latest2) = reconcile(sorted);
    let ts2: Vec<u64> = sorted2.iter().map(|e| e.timestamp).collect();
    assert_eq!(ts2, vec![300, 200, 100]);
    let keys: Vec<&String> = latest.iter().map(|(n, _)| n).collect();
    let keys2: Vec<&String> = latest2.iter().map(|(n, _)| n).collect();
    assert_eq!(keys, keys2);
    for ((_, a), (_, b)) in latest.iter().zip(latest2.iter()) {
        assert_eq!(a.address, b.address);
        assert_eq!(a.timestamp, b.timestamp);
    }
}

#[test]
fn reconcile_carries_commit_and_pool_hashes() {
    let mut e1 = entry("A", "0x1", 100);
    e1.commit_hash = Some("abc".to_string());
    e1.contracts[0].1.pool_init_code_hash = Some("0xpool".to_string());
    let history = vec![e1, entry("B", "0x2", 50)];
    let (_, latest) = reconcile(history);
    let a = &latest.iter().find(|(n, _)| n == "A").unwrap().1;
    assert_eq!(a.commit_hash.as_deref(), Some("abc"));
    assert_eq!(a.pool_init_code_hash.as_deref(), Some("0xpool"));
    let b = &latest.iter().find(|(n, _)| n == "B").unwrap().1;
    assert!(b.commit_hash.is_none());
}

#[test]
fn workflow_screen_sequence() {
    let mut w = RegisterContractWorkflow::new();
    assert_eq!(w.next_screen(), WorkflowResult::NextScreen(Screen::ChainId));
    assert_eq!(w.next_screen(), WorkflowResult::NextScreen(Screen::RpcUrl));
    assert_eq!(w.next_screen(), WorkflowResult::NextScreen(Screen::EnterAddress));
    assert_eq!(w.next_screen(), WorkflowResult::Finished);
}

#[test]
fn workflow_previous_screen_stops_at_first() {
    let mut w = RegisterContractWorkflow::new();
    w.next_screen();
    w.next_screen();
    assert_eq!(w.previous_screen(), WorkflowResult::NextScreen(Screen::ChainId));
    assert_eq!(w.previous_screen(), WorkflowResult::NextScreen(Screen::ChainId));
}

#[test]
fn workflow_connection_error_returns_to_rpc_screen() {
    let mut w = RegisterContractWorkflow::new();
    w.next_screen();
    w.next_screen();
    assert_eq!(w.handle_error(true), WorkflowResult::NextScreen(Screen::RpcUrl));
    assert_eq!(w.handle_error(false), WorkflowResult::Finished);
    let mut w2 = RegisterContractWorkflow::new();
    w2.next_screen();
    assert_eq!(w2.handle_error(true), WorkflowResult::Finished);
}

#[test]
fn validate_number_keeps_digits() {
    assert_eq!(chronicles::screen::validate_number("a1b2c3".to_string(), 0), "123");
    assert_eq!(chronicles::screen::validate_number("abc".to_string(), 0), "");
    assert_eq!(chronicles::screen::validate_number("".to_string(), 0), "");
    assert_eq!(chronicles::screen::validate_number("00420".to_string(), 3), "00420");
}
