use vn_core::chunk::DownloadChunk;
use vn_core::job::{
    DownloadState, DEFAULT_CHUNK_SIZE, DEFAULT_MAX_CONCURRENT_CHUNKS, PROGRESS_FULL,
};
use vn_core::status::DownloadStatus;

const MIB: u64 = 1024 * 1024;

fn job(total: u64, sources: &[&str]) -> DownloadState {
    DownloadState::new(
        "game-1".to_string(),
        "Some Game".to_string(),
        total,
        None,
        sources.iter().map(|s| s.to_string()).collect(),
        "task-1".to_string(),
        1_700_000_000,
    )
}

/// A fetch that brought the whole range home.
fn completed_chunk(l: &vn_core::job::Launch, id: u32, retry: u32) -> DownloadChunk {
    DownloadChunk {
        id,
        start: l.start,
        end: l.end,
        size: l.end - l.start + 1,
        downloaded: l.end - l.start + 1,
        status: DownloadStatus::Completed,
        source_url: l.url.clone(),
        retry_count: retry,
    }
}

/// A fetch that died: counter reset, one retry spent.
fn failed_chunk(l: &vn_core::job::Launch, id: u32, retry: u32) -> DownloadChunk {
    DownloadChunk {
        id,
        start: l.start,
        end: l.end,
        size: l.end - l.start + 1,
        downloaded: 0,
        status: DownloadStatus::Failed,
        source_url: l.url.clone(),
        retry_count: retry,
    }
}

#[test]
fn new_job_shape() {
    let j = job(5 * MIB, &["https://a", "https://b"]);
    assert!(matches!(j.status, DownloadStatus::Pending));
    assert_eq!(j.total_size, 5 * MIB);
    assert_eq!(j.downloaded_size, 0);
    assert_eq!(j.progress, 0);
    assert_eq!(j.chunk_size, DEFAULT_CHUNK_SIZE);
    assert_eq!(j.max_concurrent_chunks, DEFAULT_MAX_CONCURRENT_CHUNKS);
    assert_eq!(j.chunks.len(), 5);
    assert_eq!(j.sources.len(), 2);
    assert_eq!(j.sources[0].url, "https://a");
    assert_eq!(j.sources[0].priority, 0);
    assert_eq!(j.sources[1].url, "https://b");
    assert_eq!(j.sources[1].priority, 1);
    assert_eq!(j.in_flight, 0);
    assert!(j.message.is_none());
    let snap = j.snapshot();
    assert_eq!(snap.game_id, "game-1");
    assert_eq!(snap.game_name, "Some Game");
    assert_eq!(snap.total_size, 5 * MIB);
    assert_eq!(snap.progress, 0);
    assert_eq!(snap.started_at, 1_700_000_000);
}

#[test]
fn scheduling_respects_ceiling_and_source_order() {
    let mut j = job(5 * MIB, &["https://a", "https://b"]);
    j.max_concurrent_chunks = 2;
    let launches = j.schedule_launches();
    // The ceiling caps the pass at two fetches, both from the preferred
    // source, which still has slots to spare.
    assert_eq!(launches.len(), 2);
    assert_eq!(launches[0].chunk_index, 0);
    assert_eq!(launches[1].chunk_index, 1);
    assert_eq!(launches[0].url, "https://a");
    assert_eq!(launches[1].url, "https://a");
    assert_eq!(j.in_flight, 2);
    assert_eq!(j.sources[0].active_connections, 2);
    // At the ceiling, another pass launches nothing.
    let more = j.schedule_launches();
    assert!(more.is_empty());
    assert_eq!(j.in_flight, 2);
}

#[test]
fn scheduling_spills_to_next_source_when_first_is_full() {
    let mut j = job(5 * MIB, &["https://a", "https://b"]);
    j.sources[0].max_connections = 2;
    let launches = j.schedule_launches();
    // Under the ceiling of 8 all five chunks launch at once: the first
    // two on the preferred source until its own connection ceiling, the
    // rest on the next one.
    assert_eq!(launches.len(), 5);
    assert_eq!(launches[0].url, "https://a");
    assert_eq!(launches[1].url, "https://a");
    assert_eq!(launches[2].url, "https://b");
    assert_eq!(launches[3].url, "https://b");
    assert_eq!(launches[4].url, "https://b");
    assert_eq!(j.sources[0].active_connections, 2);
    assert_eq!(j.sources[1].active_connections, 3);
    for l in &launches {
        assert!(matches!(j.chunks[l.chunk_index].status, DownloadStatus::Downloading));
    }
}

#[test]
fn scheduling_stops_without_eligible_source() {
    let mut j = job(5 * MIB, &["https://a"]);
    j.sources[0].failures = 3;
    let launches = j.schedule_launches();
    assert!(launches.is_empty());
    assert_eq!(j.in_flight, 0);
    assert!(j.has_eligible_chunks());
}

#[test]
fn progress_aggregates_and_rises() {
    let mut j = job(2 * MIB, &["https://a"]);
    let launches = j.schedule_launches();
    assert_eq!(launches.len(), 2);
    // First chunk comes home whole: half way.
    let done0 = completed_chunk(&launches[0], 0, 0);
    j.apply_fetch_result(0, done0, launches[0].source_index, true, 2_000);
    assert_eq!(j.downloaded_size, MIB);
    assert_eq!(j.progress, PROGRESS_FULL / 2);
    assert_eq!(j.updated_at, 2_000);
    assert_eq!(j.in_flight, 1);
    assert_eq!(j.sources[0].active_connections, 1);
    // Second chunk fails: progress may not fall below the completed part.
    let lost1 = failed_chunk(&launches[1], 1, 1);
    j.apply_fetch_result(1, lost1, launches[1].source_index, false, 3_000);
    assert_eq!(j.downloaded_size, MIB);
    assert_eq!(j.progress, PROGRESS_FULL / 2);
    assert_eq!(j.sources[0].failures, 1);
    assert_eq!(j.sources[0].active_connections, 0);
    assert_eq!(j.in_flight, 0);
    // Retry the failed chunk and finish: everything accounted for.
    let retry = j.schedule_launches();
    assert_eq!(retry.len(), 1);
    assert_eq!(retry[0].chunk_index, 1);
    let done1 = completed_chunk(&retry[0], 1, 1);
    j.apply_fetch_result(1, done1, retry[0].source_index, true, 4_000);
    assert_eq!(j.downloaded_size, 2 * MIB);
    assert_eq!(j.progress, PROGRESS_FULL);
    assert!(j.all_chunks_completed());
    // Success cleared the failure streak.
    assert_eq!(j.sources[0].failures, 0);
}

#[test]
fn update_progress_exact_share() {
    let mut j = job(1000, &["https://a"]);
    assert_eq!(j.chunks.len(), 1);
    j.chunks[0].downloaded = 250;
    j.update_progress(5_000);
    assert_eq!(j.downloaded_size, 250);
    assert_eq!(j.progress, 2500);
    assert_eq!(j.updated_at, 5_000);
}

#[test]
fn zero_total_completes_immediately() {
    let mut j = job(0, &["https://a"]);
    assert!(j.chunks.is_empty());
    assert!(!j.has_eligible_chunks());
    assert!(j.all_chunks_completed());
    let launches = j.schedule_launches();
    assert!(launches.is_empty());
    j.complete(9_000);
    assert!(matches!(j.status, DownloadStatus::Completed));
    assert_eq!(j.progress, PROGRESS_FULL);
    assert_eq!(j.downloaded_size, 0);
    assert_eq!(j.snapshot().message.as_deref(), Some("Download complete"));
}

#[test]
fn pause_then_resume_keeps_completed_chunks() {
    let mut j = job(2 * MIB, &["https://a"]);
    let launches = j.schedule_launches();
    let done0 = completed_chunk(&launches[0], 0, 0);
    j.apply_fetch_result(0, done0, launches[0].source_index, true, 2_000);
    // Chunk 1 is still in flight when the user pauses.
    j.pause(3_000);
    assert!(matches!(j.status, DownloadStatus::Paused));
    assert_eq!(j.in_flight, 0);
    assert_eq!(j.sources[0].active_connections, 0);
    assert!(matches!(j.chunks[0].status, DownloadStatus::Completed));
    assert_eq!(j.chunks[0].downloaded, MIB);
    assert!(matches!(j.chunks[1].status, DownloadStatus::Downloading));
    assert_eq!(j.snapshot().message.as_deref(), Some("Paused by user"));
    // Resume: the completed chunk is untouched, the interrupted one
    // reopens, and only it gets scheduled again.
    assert!(j.prepare_resume());
    assert!(matches!(j.status, DownloadStatus::Pending));
    assert!(matches!(j.chunks[0].status, DownloadStatus::Completed));
    assert_eq!(j.chunks[0].downloaded, MIB);
    assert!(matches!(j.chunks[1].status, DownloadStatus::Pending));
    assert_eq!(j.chunks[1].downloaded, 0);
    let relaunched = j.schedule_launches();
    assert_eq!(relaunched.len(), 1);
    assert_eq!(relaunched[0].chunk_index, 1);
}

#[test]
fn resume_only_from_paused_or_failed() {
    let mut j = job(MIB, &["https://a"]);
    assert!(!j.prepare_resume());
    assert!(matches!(j.status, DownloadStatus::Pending));
    j.fail("Download failed - not all chunks completed".to_string(), 2_000);
    assert!(matches!(j.status, DownloadStatus::Failed));
    assert!(j.prepare_resume());
    assert!(matches!(j.status, DownloadStatus::Pending));
    j.cancel(3_000);
    assert!(matches!(j.status, DownloadStatus::Cancelled));
    assert!(!j.prepare_resume());
    assert!(matches!(j.status, DownloadStatus::Cancelled));
    assert_eq!(j.snapshot().message.as_deref(), Some("Cancelled by user"));
}

#[test]
fn switch_source_reranks_and_reports() {
    let mut j = job(MIB, &["https://a/mirror1", "https://b/mirror2"]);
    let found = j.switch_preferred_source("mirror2");
    assert!(found);
    assert_eq!(j.sources[0].url, "https://b/mirror2");
    assert_eq!(j.sources[0].priority, 0);
    assert_eq!(j.sources[1].url, "https://a/mirror1");
    assert_eq!(j.sources[1].priority, 1);
    // A switch that matches nothing reports so.
    let found2 = j.switch_preferred_source("mirror9");
    assert!(!found2);
}

#[test]
fn switch_source_twice_is_a_no_op() {
    let mut j = job(MIB, &["https://a/mirror1", "https://b/mirror2"]);
    let first = j.switch_preferred_source("mirror2");
    let urls_once: Vec<String> = j.sources.iter().map(|s| s.url.clone()).collect();
    let prios_once: Vec<u32> = j.sources.iter().map(|s| s.priority).collect();
    let second = j.switch_preferred_source("mirror2");
    let urls_twice: Vec<String> = j.sources.iter().map(|s| s.url.clone()).collect();
    let prios_twice: Vec<u32> = j.sources.iter().map(|s| s.priority).collect();
    assert!(first);
    assert!(second);
    assert_eq!(urls_once, urls_twice);
    assert_eq!(prios_once, prios_twice);
}

#[test]
fn wf_check_accepts_sound_records() {
    let j = job(5 * MIB, &["https://a", "https://b"]);
    assert!(j.wf_check());
    let z = job(0, &["https://a"]);
    assert!(z.wf_check());
}

#[test]
fn wf_check_refuses_corrupted_records() {
    // A counter past its chunk's size.
    let mut a = job(2 * MIB, &["https://a"]);
    a.chunks[0].downloaded = a.chunks[0].size + 1;
    assert!(!a.wf_check());
    // A gap between adjacent ranges.
    let mut b = job(2 * MIB, &["https://a"]);
    b.chunks[1].start += 1;
    assert!(!b.wf_check());
    // A size that disagrees with its range.
    let mut c = job(2 * MIB, &["https://a"]);
    c.chunks[0].size -= 1;
    assert!(!c.wf_check());
    // A plan that stops short of the total.
    let mut d = job(2 * MIB, &["https://a"]);
    d.total_size += 1;
    assert!(!d.wf_check());
    // A retry count past the ceiling.
    let mut e = job(2 * MIB, &["https://a"]);
    e.chunks[0].retry_count = 4;
    assert!(!e.wf_check());
    // A source past its own connection ceiling.
    let mut f = job(2 * MIB, &["https://a"]);
    f.sources[0].active_connections = f.sources[0].max_connections + 1;
    assert!(!f.wf_check());
    // More fetches in flight than the job's ceiling.
    let mut g = job(2 * MIB, &["https://a"]);
    g.in_flight = g.max_concurrent_chunks + 1;
    assert!(!g.wf_check());
    // A chunk marked complete with bytes missing.
    let mut h = job(2 * MIB, &["https://a"]);
    h.chunks[0].status = DownloadStatus::Completed;
    assert!(!h.wf_check());
}

#[test]
fn integrity_mismatch_fails_job_before_extraction() {
    let mut j = job(MIB, &["https://a"]);
    j.integrity_hash = Some("a9993e364706816aba3e25717850c26c9cd0d89d".to_string());
    // The digest computed over the assembled bytes disagrees with the
    // expected one: the check comes back false, nothing goes on to
    // extraction, and the job fails with the reason on record.
    let gate = vn_core::integrity::assembled_integrity_ok(
        "da39a3ee5e6b4b0d3255bfef95601890afd80709",
        &j.integrity_hash,
    );
    assert!(!gate);
    j.fail("Integrity check failed".to_string(), 7_000);
    assert!(matches!(j.status, DownloadStatus::Failed));
    assert_eq!(j.snapshot().message.as_deref(), Some("Integrity check failed"));
}

#[test]
fn failure_reason_tells_the_two_stalls_apart() {
    // Sources dried up while work remains: transient, a resume with a
    // switched or recovered source can continue.
    let mut j = job(MIB, &["https://a"]);
    j.sources[0].failures = 3;
    assert!(j.has_eligible_chunks());
    assert_eq!(
        j.failure_reason(),
        "Download failed - no eligible source for remaining chunks"
    );
    // Every unfinished chunk spent its retries: nothing left to select.
    let mut k = job(MIB, &["https://a"]);
    k.chunks[0].status = DownloadStatus::Failed;
    k.chunks[0].retry_count = 3;
    assert!(!k.has_eligible_chunks());
    assert_eq!(k.failure_reason(), "Download failed - not all chunks completed");
}

#[test]
fn throttle_first_update_emits() {
    let mut j = job(MIB, &["https://a"]);
    let first = j.maybe_emit_event(0);
    assert!(first.is_some());
    let again = j.maybe_emit_event(1);
    assert!(again.is_none());
}

#[test]
fn throttle_interval_and_delta() {
    let mut j = job(10_000, &["https://a"]);
    assert!(j.maybe_emit_event(0).is_some());
    // Within the interval with unchanged progress: nothing.
    assert!(j.maybe_emit_event(700).is_none());
    // The interval alone lets one through.
    assert!(j.maybe_emit_event(750).is_some());
    // Progress moving half a point lets one through at once.
    j.chunks[0].downloaded = 60;
    j.update_progress(1_000);
    assert_eq!(j.progress, 60);
    assert!(j.maybe_emit_event(751).is_some());
    // A small move stays throttled.
    j.chunks[0].downloaded = 70;
    j.update_progress(1_001);
    assert!(j.maybe_emit_event(752).is_none());
}

#[test]
fn throttle_never_drops_status_changes() {
    let mut j = job(MIB, &["https://a"]);
    assert!(j.maybe_emit_event(0).is_some());
    j.status = DownloadStatus::Downloading;
    let e = j.maybe_emit_event(1);
    assert!(e.is_some());
    assert!(matches!(e.unwrap().status, DownloadStatus::Downloading));
    // Terminal statuses always pass, even with no change at all.
    j.complete(2_000);
    assert!(j.maybe_emit_event(2).is_some());
    assert!(j.maybe_emit_event(3).is_some());
}
