use vn_core::chunk::{create_chunks, response_status_acceptable, DownloadChunk, MAX_CHUNK_RETRIES};
use vn_core::status::DownloadStatus;

const MIB: u64 = 1024 * 1024;

#[test]
fn plan_five_mib_exact() {
    let chunks = create_chunks(5 * MIB, MIB);
    assert_eq!(chunks.len(), 5);
    assert_eq!(chunks[0].start, 0);
    for i in 0..5 {
        assert_eq!(chunks[i].size, MIB);
        assert_eq!(chunks[i].id, i as u32);
        assert_eq!(chunks[i].downloaded, 0);
        assert!(matches!(chunks[i].status, DownloadStatus::Pending));
        assert_eq!(chunks[i].retry_count, 0);
        if i > 0 {
            assert_eq!(chunks[i - 1].end + 1, chunks[i].start);
        }
    }
    assert_eq!(chunks[4].end, 5 * MIB - 1);
    let sum: u64 = chunks.iter().map(|c| c.size).sum();
    assert_eq!(sum, 5 * MIB);
}

#[test]
fn plan_short_last_chunk() {
    let chunks = create_chunks(5 * MIB + 3, MIB);
    assert_eq!(chunks.len(), 6);
    for c in chunks.iter().take(5) {
        assert_eq!(c.size, MIB);
    }
    assert_eq!(chunks[5].size, 3);
    assert_eq!(chunks[5].start, 5 * MIB);
    assert_eq!(chunks[5].end, 5 * MIB + 2);
    let sum: u64 = chunks.iter().map(|c| c.size).sum();
    assert_eq!(sum, 5 * MIB + 3);
}

#[test]
fn plan_total_smaller_than_chunk() {
    let chunks = create_chunks(10, MIB);
    assert_eq!(chunks.len(), 1);
    assert_eq!(chunks[0].start, 0);
    assert_eq!(chunks[0].end, 9);
    assert_eq!(chunks[0].size, 10);
}

#[test]
fn plan_zero_total_is_empty() {
    let chunks = create_chunks(0, MIB);
    assert!(chunks.is_empty());
}

#[test]
fn record_bytes_accumulates() {
    let mut c = DownloadChunk::new(0, 0, 999);
    assert_eq!(c.size, 1000);
    assert!(c.record_bytes(400));
    assert!(c.record_bytes(600));
    assert_eq!(c.downloaded, 1000);
}

#[test]
fn record_bytes_rejects_oversize() {
    let mut c = DownloadChunk::new(0, 0, 999);
    assert!(c.record_bytes(999));
    // One more byte would fit exactly; two would overshoot the range.
    assert!(!c.record_bytes(2));
    assert_eq!(c.downloaded, 999);
}

#[test]
fn finish_attempt_completes_only_exact() {
    let mut c = DownloadChunk::new(0, 0, 9);
    assert!(c.record_bytes(10));
    assert!(c.finish_attempt());
    assert!(matches!(c.status, DownloadStatus::Completed));
    assert_eq!(c.downloaded, c.size);
}

#[test]
fn short_read_fails_and_spends_retry() {
    let mut c = DownloadChunk::new(0, 0, 9);
    assert!(c.record_bytes(4));
    assert!(!c.finish_attempt());
    assert!(matches!(c.status, DownloadStatus::Failed));
    assert_eq!(c.downloaded, 0);
    assert_eq!(c.retry_count, 1);
    assert!(c.is_eligible());
}

#[test]
fn acceptable_response_statuses() {
    assert!(response_status_acceptable(200));
    assert!(response_status_acceptable(206));
    assert!(response_status_acceptable(299));
    assert!(!response_status_acceptable(301));
    assert!(!response_status_acceptable(404));
    assert!(!response_status_acceptable(500));
    assert!(!response_status_acceptable(199));
}

#[test]
fn retry_budget_stops_at_three() {
    let mut c = DownloadChunk::new(0, 0, 9);
    c.fail_attempt();
    c.fail_attempt();
    assert_eq!(c.retry_count, 2);
    assert!(c.is_eligible());
    c.fail_attempt();
    assert_eq!(c.retry_count, MAX_CHUNK_RETRIES);
    assert!(!c.is_eligible());
    // Failing further never pushes the count past the ceiling.
    c.fail_attempt();
    assert_eq!(c.retry_count, MAX_CHUNK_RETRIES);
}
