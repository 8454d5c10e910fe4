use financoor::jobs::{job_id_string, parse_job_id, JobStatus, JobStore, ProofResult};

fn sample_result(tax: u64) -> ProofResult {
    ProofResult {
        ledger_commitment: "ab".repeat(32),
        total_tax_paisa: tax,
        user_type_code: 0,
        used_44ada: false,
        proof: "cHJvb2Y=".to_string(),
        public_values: "dmFsdWVz".to_string(),
        vk_hash: "0x1234".to_string(),
    }
}

#[test]
fn test_submit_returns_id_immediately_and_reads_pending() {
    let mut store = JobStore::new();
    let id = store.submit();
    match store.status(id) {
        Some(JobStatus::Pending) => {},
        _ => panic!("a submitted job must read back as pending"),
    }
}

#[test]
fn test_unknown_id_is_not_found() {
    let mut store = JobStore::new();
    assert!(store.status(0xdead_beef).is_none());
    let id = store.submit();
    let other = id.wrapping_add(1);
    assert!(store.status(other).is_none());
}

#[test]
fn test_completion_is_terminal_and_stable() {
    let mut store = JobStore::new();
    let id = store.submit();
    store.complete(id, sample_result(100));
    let first = match store.status(id) {
        Some(JobStatus::Done(r)) => r.total_tax_paisa,
        _ => panic!("completed job must read as done"),
    };
    assert_eq!(first, 100);
    // A second completion, or a late failure, changes nothing.
    store.complete(id, sample_result(999));
    store.fail(id, "late failure".to_string());
    match store.status(id) {
        Some(JobStatus::Done(r)) => assert_eq!(r.total_tax_paisa, 100),
        _ => panic!("terminal state must never be overwritten"),
    }
}

#[test]
fn test_failure_is_terminal_and_stable() {
    let mut store = JobStore::new();
    let id = store.submit();
    store.fail(id, "backend unavailable".to_string());
    match store.status(id) {
        Some(JobStatus::Error(m)) => assert_eq!(m, "backend unavailable"),
        _ => panic!("failed job must read as error"),
    }
    store.complete(id, sample_result(7));
    match store.status(id) {
        Some(JobStatus::Error(_)) => {},
        _ => panic!("terminal state must never be overwritten"),
    }
}

#[test]
fn test_finishing_unknown_id_stores_nothing() {
    let mut store = JobStore::new();
    store.complete(42, sample_result(1));
    store.fail(43, "nope".to_string());
    assert!(store.status(42).is_none());
    assert!(store.status(43).is_none());
}

#[test]
fn test_job_id_rendering() {
    assert_eq!(job_id_string(0), "0");
    assert_eq!(job_id_string(0xabc123), "abc123");
    assert_eq!(job_id_string(u64::MAX), "ffffffffffffffff");
}

#[test]
fn test_job_id_parsing() {
    assert_eq!(parse_job_id("0"), Some(0));
    assert_eq!(parse_job_id("abc123"), Some(0xabc123));
    assert_eq!(parse_job_id("ffffffffffffffff"), Some(u64::MAX));
    assert_eq!(parse_job_id(""), None);
    assert_eq!(parse_job_id("0abc"), None);
    assert_eq!(parse_job_id("xyz"), None);
    assert_eq!(parse_job_id("ABC"), None);
    assert_eq!(parse_job_id("10000000000000000"), None);
}

#[test]
fn test_job_id_roundtrip() {
    for id in [0u64, 1, 15, 16, 0xdead_beef, u64::MAX] {
        assert_eq!(parse_job_id(&job_id_string(id)), Some(id));
    }
}
