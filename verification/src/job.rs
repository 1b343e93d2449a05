//! The job state machine: one resumable transfer, its chunks and
//! sources, its scheduling decisions, progress aggregation, and the
//! throttled emission of snapshots.

use vstd::prelude::*;
use vstd::arithmetic::div_mod::lemma_div_is_ordered;
use vstd::arithmetic::mul::lemma_mul_inequality;
use vstd::std_specs::vec::vec_index_mut;
use crate::status::DownloadStatus;
use crate::chunk::{
    DownloadChunk, MAX_CHUNK_RETRIES, chunk_fresh, chunk_range_wf, chunk_sizes_nominal,
    chunks_adjacent, chunks_cover, create_chunks, lemma_cover_sum, lemma_sum_sizes_prefix_le,
    lemma_sum_update, sum_downloaded, sum_sizes,
};
use crate::source::{
    DEFAULT_MAX_CONNECTIONS, DownloadSource, MAX_SOURCE_FAILURES, lemma_multiset_eq_contains,
    reprioritize_sources, reprioritized, select_best_source, sort_sources, sources_sorted,
};
use crate::text::contains_seq;

verus! {

/// Nominal chunk size: one mebibyte.
pub const DEFAULT_CHUNK_SIZE: u64 = 1024 * 1024;

/// Concurrent chunk fetches one job runs at most, by default.
pub const DEFAULT_MAX_CONCURRENT_CHUNKS: u32 = 8;

/// Progress is counted in hundredths of a percentage point; this is
/// 100 percent.
pub const PROGRESS_FULL: u64 = 10000;

/// Milliseconds that must pass before the throttle lets a routine
/// progress event through.
pub const EMIT_INTERVAL_MS: u64 = 750;

/// Progress change (hundredths of a point) that lets an event through
/// on its own: half a percentage point.
pub const EMIT_PROGRESS_DELTA: u64 = 50;

/// Sentinel for "nothing emitted yet": far enough below zero that the
/// first progress update always clears the delta threshold.
pub const EMIT_PROGRESS_NONE: i64 = -100;

/// An immutable projection of a job, safe to hand to an observer or
/// write to storage: no scheduling internals.
pub struct DownloadSnapshot {
    pub game_id: String,
    pub game_name: String,
    pub status: DownloadStatus,
    /// Hundredths of a percentage point, 0 through 10000.
    pub progress: u64,
    pub downloaded_size: u64,
    pub total_size: u64,
    /// Bytes per second.
    pub speed: u64,
    pub eta_seconds: u64,
    pub message: Option<String>,
    pub started_at: i64,
    pub updated_at: i64,
}

/// One fetch the scheduler decided to start: which chunk, from which
/// source, over which byte range. The unverified shell turns each into
/// a ranged request (`bytes=start-end`, both ends inclusive) against
/// `url` and streams the body into the file at offset `start`.
pub struct Launch {
    pub chunk_index: usize,
    pub source_index: usize,
    pub url: String,
    pub start: u64,
    pub end: u64,
}

/// One resumable transfer: identity, aggregate counters, the source
/// pool, the chunk plan, and the emission throttle's bookkeeping.
pub struct DownloadState {
    pub game_id: String,
    pub game_name: String,
    pub status: DownloadStatus,
    pub downloaded_size: u64,
    pub total_size: u64,
    /// Hundredths of a percentage point, 0 through 10000.
    pub progress: u64,
    pub speed: u64,
    pub eta_seconds: u64,
    pub message: Option<String>,
    pub created_at: i64,
    pub updated_at: i64,
    /// Expected hex digest of the assembled file, if the caller gave one.
    pub integrity_hash: Option<String>,
    pub sources: Vec<DownloadSource>,
    pub chunks: Vec<DownloadChunk>,
    pub chunk_size: u64,
    pub max_concurrent_chunks: u32,
    pub task_id: String,
    /// Fetches launched and not yet folded back in.
    pub in_flight: u32,
    pub last_event_emit_ms: u64,
    pub last_event_progress: i64,
    pub last_event_status: DownloadStatus,
}

/// What one entry of the scheduler's launch list promises: the chunk
/// was eligible, the range is the chunk's own, the URL is the chosen
/// source's, and the chunk is now marked in flight with its counter
/// reset.
pub open spec fn launch_ok(pre: DownloadState, post: DownloadState, l: Launch) -> bool {
    &&& l.chunk_index < pre.chunks@.len()
    &&& l.source_index < pre.sources@.len()
    &&& pre.chunks@[l.chunk_index as int].spec_eligible()
    &&& l.start == pre.chunks@[l.chunk_index as int].start
    &&& l.end == pre.chunks@[l.chunk_index as int].end
    &&& l.url == pre.sources@[l.source_index as int].url
    &&& post.chunks@.len() == pre.chunks@.len()
    &&& post.chunks@[l.chunk_index as int] == (DownloadChunk {
        status: DownloadStatus::Downloading,
        downloaded: 0,
        source_url: l.url,
        ..pre.chunks@[l.chunk_index as int]
    })
}

/// Chunk `i` is among the launches.
pub open spec fn launched(ls: Seq<Launch>, i: int) -> bool {
    exists|k: int| 0 <= k < ls.len() && (#[trigger] ls[k]).chunk_index == i
}

/// The source kept its identity and configuration through a scheduling
/// pass; only its active-connection count may have grown.
pub open spec fn source_kept(pre: DownloadSource, post: DownloadSource) -> bool {
    &&& post.url == pre.url
    &&& post.priority == pre.priority
    &&& post.max_connections == pre.max_connections
    &&& post.failures == pre.failures
    &&& post.last_speed == pre.last_speed
    &&& post.active_connections >= pre.active_connections
}

/// A connection slot released, never below zero.
pub open spec fn release_slot(active: u32) -> u32 {
    if active > 0 {
        (active - 1) as u32
    } else {
        0u32
    }
}

/// One more consecutive failure, saturating at the exclusion threshold.
pub open spec fn bump_failures(f: u32) -> u32 {
    if f < MAX_SOURCE_FAILURES {
        (f + 1) as u32
    } else {
        f
    }
}

/// Share of `total` that `downloaded` covers, in hundredths of a
/// percentage point, clamped to [0, 10000]; zero when the total is
/// unknown.
pub open spec fn progress_of(downloaded: u64, total: u64) -> int {
    if total == 0 {
        0
    } else if (downloaded as int * PROGRESS_FULL as int) / (total as int) > PROGRESS_FULL as int {
        PROGRESS_FULL as int
    } else {
        (downloaded as int * PROGRESS_FULL as int) / (total as int)
    }
}

/// Progress grows with the downloaded size: the aggregate percentage is
/// monotone in the bytes on disk.
pub proof fn lemma_progress_monotone(d1: u64, d2: u64, total: u64)
    requires
        d1 <= d2,
    ensures
        progress_of(d1, total) <= progress_of(d2, total),
{
    if total != 0 {
        lemma_mul_inequality(d1 as int, d2 as int, PROGRESS_FULL as int);
        lemma_div_is_ordered(
            d1 as int * PROGRESS_FULL as int,
            d2 as int * PROGRESS_FULL as int,
            total as int,
        );
    }
}

impl DownloadState {
    pub open spec fn chunks_wf(self) -> bool {
        forall|i: int| 0 <= i < self.chunks@.len() ==> (#[trigger] self.chunks@[i]).wf()
    }

    pub open spec fn sources_wf(self) -> bool {
        forall|i: int| 0 <= i < self.sources@.len() ==> (#[trigger] self.sources@[i]).wf()
    }

    /// Structural soundness of the whole job: well-formed chunks that
    /// partition the total, well-formed sources, a bounded fetch count,
    /// progress within scale, and throttle bookkeeping within range.
    pub open spec fn wf(self) -> bool {
        &&& self.chunks_wf()
        &&& self.sources_wf()
        &&& chunks_cover(self.chunks@, self.total_size)
        &&& self.in_flight <= self.max_concurrent_chunks
        &&& self.progress <= PROGRESS_FULL
        &&& EMIT_PROGRESS_NONE <= self.last_event_progress <= PROGRESS_FULL as i64
    }

    /// The aggregate byte counter agrees with the chunks.
    pub open spec fn aggregate_consistent(self) -> bool {
        self.downloaded_size == sum_downloaded(self.chunks@)
    }

    /// Everything an observer sees of the job.
    pub open spec fn spec_snapshot(self) -> DownloadSnapshot {
        DownloadSnapshot {
            game_id: self.game_id,
            game_name: self.game_name,
            status: self.status,
            progress: self.progress,
            downloaded_size: self.downloaded_size,
            total_size: self.total_size,
            speed: self.speed,
            eta_seconds: self.eta_seconds,
            message: self.message,
            started_at: self.created_at,
            updated_at: self.updated_at,
        }
    }

    /// Start a fresh job: sources ranked in the order given, the total
    /// partitioned into nominal chunks, nothing downloaded, nothing
    /// emitted yet.
    pub fn new(
        game_id: String,
        game_name: String,
        total_size: u64,
        integrity_hash: Option<String>,
        sources: Vec<String>,
        task_id: String,
        now_ts: i64,
    ) -> (r: Self)
        requires
            total_size <= DEFAULT_CHUNK_SIZE * 0xFFFF_FFFEu64,
            sources@.len() <= u32::MAX,
        ensures
            r.wf(),
            r.game_id == game_id,
            r.game_name == game_name,
            r.status == DownloadStatus::Pending,
            r.downloaded_size == 0,
            r.total_size == total_size,
            r.progress == 0,
            r.speed == 0,
            r.eta_seconds == 0,
            r.message is None,
            r.created_at == now_ts,
            r.updated_at == now_ts,
            r.integrity_hash == integrity_hash,
            r.sources@.len() == sources@.len(),
            forall|i: int|
                0 <= i < sources@.len() ==> (#[trigger] r.sources@[i]).url == sources@[i]
                    && r.sources@[i].priority == i && r.sources@[i].active_connections == 0
                    && r.sources@[i].failures == 0 && r.sources@[i].max_connections
                    == DEFAULT_MAX_CONNECTIONS && r.sources@[i].last_speed == 0,
            chunks_cover(r.chunks@, total_size),
            chunk_sizes_nominal(r.chunks@, DEFAULT_CHUNK_SIZE),
            forall|i: int| 0 <= i < r.chunks@.len() ==> chunk_fresh(r.chunks@, i),
            r.chunk_size == DEFAULT_CHUNK_SIZE,
            r.max_concurrent_chunks == DEFAULT_MAX_CONCURRENT_CHUNKS,
            r.task_id == task_id,
            r.in_flight == 0,
            r.last_event_progress == EMIT_PROGRESS_NONE,
            r.last_event_status == DownloadStatus::Pending,
            r.aggregate_consistent(),
    {
        let mut download_sources: Vec<DownloadSource> = Vec::new();
        let n = sources.len();
        let mut i: usize = 0;
        while i < n
            invariant
                n == sources@.len(),
                n <= u32::MAX,
                i <= n,
                download_sources@.len() == i,
                forall|k: int|
                    0 <= k < i ==> (#[trigger] download_sources@[k]).url == sources@[k]
                        && download_sources@[k].priority == k
                        && download_sources@[k].active_connections == 0
                        && download_sources@[k].failures == 0
                        && download_sources@[k].max_connections == DEFAULT_MAX_CONNECTIONS
                        && download_sources@[k].last_speed == 0 && download_sources@[k].wf(),
            decreases n - i,
        {
            download_sources.push(DownloadSource::new(sources[i].clone(), i as u32));
            i = i + 1;
        }
        let chunks = create_chunks(total_size, DEFAULT_CHUNK_SIZE);
        proof {
            assert forall|k: int| 0 <= k < chunks@.len() implies (#[trigger] chunks@[k]).wf() by {
                assert(chunk_fresh(chunks@, k));
            }
            assert forall|k: int|
                0 <= k < chunks@.len() implies (#[trigger] chunks@[k]).downloaded == 0 by {
                assert(chunk_fresh(chunks@, k));
            }
            crate::chunk::lemma_sum_untouched(chunks@);
        }
        DownloadState {
            game_id,
            game_name,
            status: DownloadStatus::Pending,
            downloaded_size: 0,
            total_size,
            progress: 0,
            speed: 0,
            eta_seconds: 0,
            message: None,
            created_at: now_ts,
            updated_at: now_ts,
            integrity_hash,
            sources: download_sources,
            chunks,
            chunk_size: DEFAULT_CHUNK_SIZE,
            max_concurrent_chunks: DEFAULT_MAX_CONCURRENT_CHUNKS,
            task_id,
            in_flight: 0,
            last_event_emit_ms: 0,
            last_event_progress: EMIT_PROGRESS_NONE,
            last_event_status: DownloadStatus::Pending,
        }
    }

    pub fn snapshot(&self) -> (r: DownloadSnapshot)
        ensures
            r == self.spec_snapshot(),
    {
        let message = self.message.clone();
        proof {
            assert(message == self.message);
        }
        DownloadSnapshot {
            game_id: self.game_id.clone(),
            game_name: self.game_name.clone(),
            status: self.status,
            progress: self.progress,
            downloaded_size: self.downloaded_size,
            total_size: self.total_size,
            speed: self.speed,
            eta_seconds: self.eta_seconds,
            message,
            started_at: self.created_at,
            updated_at: self.updated_at,
        }
    }

    /// Recompute the aggregate from the chunks: the downloaded size
    /// becomes the sum of the per-chunk counters, progress its share of
    /// the total, and the record is stamped with the time of the update.
    pub fn update_progress(&mut self, now_ts: i64)
        requires
            old(self).wf(),
        ensures
            final(self).wf(),
            final(self).aggregate_consistent(),
            final(self).downloaded_size == sum_downloaded(old(self).chunks@),
            final(self).progress == progress_of(final(self).downloaded_size, old(self).total_size),
            *final(self) == (DownloadState {
                downloaded_size: final(self).downloaded_size,
                progress: final(self).progress,
                updated_at: now_ts,
                ..*old(self)
            }),
    {
        proof {
            lemma_cover_sum(self.chunks@, self.total_size);
        }
        let n = self.chunks.len();
        let mut total: u64 = 0;
        let mut i: usize = 0;
        while i < n
            invariant
                self.wf(),
                n == self.chunks@.len(),
                i <= n,
                sum_sizes(self.chunks@) == self.total_size,
                total == sum_downloaded(self.chunks@.subrange(0, i as int)),
                total <= sum_sizes(self.chunks@.subrange(0, i as int)),
            decreases n - i,
        {
            let ghost prefix = self.chunks@.subrange(0, i as int);
            let ghost next = self.chunks@.subrange(0, i as int + 1);
            proof {
                assert(next.drop_last() =~= prefix);
                assert(next.last() == self.chunks@[i as int]);
                lemma_sum_sizes_prefix_le(self.chunks@, i as int + 1);
            }
            total = total + self.chunks[i].downloaded;
            i = i + 1;
        }
        proof {
            assert(self.chunks@.subrange(0, n as int) =~= self.chunks@);
        }
        self.downloaded_size = total;
        let p: u64 = if self.total_size == 0 {
            0
        } else {
            proof {
                assert(self.downloaded_size as int * PROGRESS_FULL as int <= u64::MAX as int
                    * PROGRESS_FULL as int) by (nonlinear_arith)
                    requires
                        self.downloaded_size <= u64::MAX,
                ;
            }
            let scaled: u128 = (self.downloaded_size as u128) * (PROGRESS_FULL as u128) / (
            self.total_size as u128);
            if scaled > PROGRESS_FULL as u128 {
                PROGRESS_FULL
            } else {
                scaled as u64
            }
        };
        self.progress = p;
        self.updated_at = now_ts;
    }

    /// An event is due when the throttle interval elapsed, the progress
    /// moved at least the delta, the status changed, or the status is
    /// terminal — the last two bypass the throttle so that state
    /// transitions are never dropped.
    pub open spec fn emit_due(self, now_ms: u64) -> bool {
        ||| now_ms >= self.last_event_emit_ms + EMIT_INTERVAL_MS
        ||| self.progress as int - self.last_event_progress as int >= EMIT_PROGRESS_DELTA as int
        ||| self.last_event_progress as int - self.progress as int >= EMIT_PROGRESS_DELTA as int
        ||| self.status.spec_is_terminal()
        ||| self.status != self.last_event_status
    }

    /// Hand back a snapshot to forward to the observer if one is due,
    /// and remember what was emitted; otherwise change nothing.
    pub fn maybe_emit_event(&mut self, now_ms: u64) -> (r: Option<DownloadSnapshot>)
        requires
            old(self).wf(),
        ensures
            final(self).wf(),
            old(self).emit_due(now_ms) ==> r == Some(old(self).spec_snapshot()) && *final(self)
                == (DownloadState {
                last_event_emit_ms: now_ms,
                last_event_progress: old(self).progress as i64,
                last_event_status: old(self).status,
                ..*old(self)
            }),
            !old(self).emit_due(now_ms) ==> r is None && *final(self) == *old(self),
    {
        let time_due = now_ms >= EMIT_INTERVAL_MS && now_ms - EMIT_INTERVAL_MS
            >= self.last_event_emit_ms;
        let p = self.progress as i64;
        let delta_due = p - self.last_event_progress >= EMIT_PROGRESS_DELTA as i64
            || self.last_event_progress - p >= EMIT_PROGRESS_DELTA as i64;
        let terminal = self.status.is_terminal();
        let status_changed = self.status != self.last_event_status;
        if time_due || delta_due || terminal || status_changed {
            let snap = self.snapshot();
            self.last_event_emit_ms = now_ms;
            self.last_event_progress = p;
            self.last_event_status = self.status;
            Some(snap)
        } else {
            None
        }
    }

    /// Commit one scheduling decision: claim a slot on the source, mark
    /// the chunk in flight with its counter reset, and describe the
    /// fetch to start.
    fn launch_one(&mut self, chunk_index: usize, source_index: usize) -> (l: Launch)
        requires
            old(self).wf(),
            chunk_index < old(self).chunks@.len(),
            source_index < old(self).sources@.len(),
            old(self).chunks@[chunk_index as int].spec_eligible(),
            old(self).sources@[source_index as int].spec_eligible(),
            old(self).in_flight < old(self).max_concurrent_chunks,
        ensures
            final(self).wf(),
            launch_ok(*old(self), *final(self), l),
            l.chunk_index == chunk_index,
            l.source_index == source_index,
            final(self).in_flight == old(self).in_flight + 1,
            final(self).chunks@ == old(self).chunks@.update(
                chunk_index as int,
                final(self).chunks@[chunk_index as int],
            ),
            final(self).sources@ == old(self).sources@.update(
                source_index as int,
                (DownloadSource {
                    active_connections: (old(self).sources@[source_index as int].active_connections
                        + 1) as u32,
                    ..old(self).sources@[source_index as int]
                }),
            ),
            *final(self) == (DownloadState {
                chunks: final(self).chunks,
                sources: final(self).sources,
                in_flight: final(self).in_flight,
                ..*old(self)
            }),
    {
        let url = self.sources[source_index].url.clone();
        let start = self.chunks[chunk_index].start;
        let end = self.chunks[chunk_index].end;
        {
            let src = vec_index_mut(&mut self.sources, source_index);
            src.active_connections = src.active_connections + 1;
        }
        {
            let ch = vec_index_mut(&mut self.chunks, chunk_index);
            ch.status = DownloadStatus::Downloading;
            ch.downloaded = 0;
            ch.source_url = url.clone();
        }
        self.in_flight = self.in_flight + 1;
        proof {
            let a = old(self).chunks@;
            let b = self.chunks@;
            let ci = chunk_index as int;
            assert(b[ci].start == a[ci].start && b[ci].end == a[ci].end && b[ci].size == a[ci].size);
            assert forall|i: int|
                0 <= i < b.len() - 1 implies crate::chunk::chunks_adjacent(b, i) by {
                assert(crate::chunk::chunks_adjacent(a, i));
            }
            assert forall|i: int| 0 <= i < b.len() implies crate::chunk::chunk_range_wf(b, i) by {
                assert(crate::chunk::chunk_range_wf(a, i));
            }
            assert forall|i: int| 0 <= i < b.len() implies (#[trigger] b[i]).wf() by {
                assert(a[i].wf());
            }
        }
        Launch { chunk_index, source_index, url, start, end }
    }

    /// One scheduling pass: launch eligible chunks in plan order, best
    /// source first, until the concurrency ceiling is reached, the pool
    /// has no eligible source, or no eligible chunk remains. Completed
    /// chunks are never launched, no source goes past its own
    /// connection ceiling, and the job never has more fetches in flight
    /// than its concurrency ceiling.
    pub fn schedule_launches(&mut self) -> (launches: Vec<Launch>)
        requires
            old(self).wf(),
        ensures
            final(self).wf(),
            final(self).in_flight == old(self).in_flight + launches@.len(),
            final(self).in_flight <= final(self).max_concurrent_chunks,
            final(self).chunks@.len() == old(self).chunks@.len(),
            final(self).sources@.len() == old(self).sources@.len(),
            *final(self) == (DownloadState {
                chunks: final(self).chunks,
                sources: final(self).sources,
                in_flight: final(self).in_flight,
                ..*old(self)
            }),
            forall|i: int|
                0 <= i < old(self).chunks@.len() && !launched(launches@, i)
                    ==> final(self).chunks@[i] == old(self).chunks@[i],
            forall|k: int|
                0 <= k < launches@.len() ==> launch_ok(
                    *old(self),
                    *final(self),
                    #[trigger] launches@[k],
                ),
            forall|k1: int, k2: int|
                0 <= k1 < k2 < launches@.len() ==> (#[trigger] launches@[k1]).chunk_index < (
                #[trigger] launches@[k2]).chunk_index,
            forall|j: int|
                0 <= j < old(self).sources@.len() ==> source_kept(
                    #[trigger] old(self).sources@[j],
                    final(self).sources@[j],
                ),
            // The pass is maximal: it only leaves an eligible chunk
            // behind with capacity to spare when no source can take it.
            final(self).in_flight < final(self).max_concurrent_chunks && (exists|i: int|
                0 <= i < final(self).chunks@.len()
                    && (#[trigger] final(self).chunks@[i]).spec_eligible()) ==> forall|j: int|
                0 <= j < final(self).sources@.len()
                    ==> !(#[trigger] final(self).sources@[j]).spec_eligible(),
    {
        let mut launches: Vec<Launch> = Vec::new();
        let ghost mut stalled: bool = false;
        let n = self.chunks.len();
        let mut idx: usize = 0;
        while idx < n && self.in_flight < self.max_concurrent_chunks
            invariant
                !stalled ==> forall|i: int|
                    0 <= i < idx ==> !(#[trigger] self.chunks@[i]).spec_eligible(),
                stalled ==> forall|j: int|
                    0 <= j < self.sources@.len() ==> !(#[trigger] self.sources@[j]).spec_eligible(),
                stalled ==> idx == n,
                old(self).wf(),
                self.wf(),
                n == self.chunks@.len(),
                self.chunks@.len() == old(self).chunks@.len(),
                self.sources@.len() == old(self).sources@.len(),
                idx <= n,
                self.in_flight == old(self).in_flight + launches@.len(),
                *self == (DownloadState {
                    chunks: self.chunks,
                    sources: self.sources,
                    in_flight: self.in_flight,
                    ..*old(self)
                }),
                forall|i: int|
                    0 <= i < n && !launched(launches@, i) ==> self.chunks@[i]
                        == old(self).chunks@[i],
                forall|k: int|
                    0 <= k < launches@.len() ==> launch_ok(
                        *old(self),
                        *self,
                        #[trigger] launches@[k],
                    ),
                forall|k: int|
                    0 <= k < launches@.len() ==> (#[trigger] launches@[k]).chunk_index < idx,
                forall|k1: int, k2: int|
                    0 <= k1 < k2 < launches@.len() ==> (#[trigger] launches@[k1]).chunk_index < (
                    #[trigger] launches@[k2]).chunk_index,
                forall|j: int|
                    0 <= j < old(self).sources@.len() ==> source_kept(
                        #[trigger] old(self).sources@[j],
                        self.sources@[j],
                    ),
            decreases n - idx,
        {
            proof {
                assert(!launched(launches@, idx as int));
                assert(self.chunks@[idx as int] == old(self).chunks@[idx as int]);
            }
            if self.chunks[idx].is_eligible() {
                match select_best_source(&self.sources) {
                    Some(si) => {
                        let ghost mid = *self;
                        let ghost prev_launches = launches@;
                        let l = self.launch_one(idx, si);
                        launches.push(l);
                        proof {
                            assert(launches@ == prev_launches.push(l));
                            assert(launches@[launches@.len() - 1] == l);
                            assert(forall|k: int|
                                0 <= k < prev_launches.len() ==> launches@[k] == prev_launches[k]);
                            assert(source_kept(old(self).sources@[si as int], mid.sources@[si as int]));
                            assert(launch_ok(*old(self), *self, l)) by {
                                assert(launch_ok(mid, *self, l));
                                assert(mid.chunks@[idx as int] == old(self).chunks@[idx as int]);
                            }
                            assert forall|k: int|
                                0 <= k < launches@.len() implies launch_ok(
                                *old(self),
                                *self,
                                #[trigger] launches@[k],
                            ) by {
                                if k < prev_launches.len() {
                                    assert(launch_ok(*old(self), mid, prev_launches[k]));
                                    assert(launches@[k].chunk_index < idx);
                                    assert(self.chunks@[launches@[k].chunk_index as int]
                                        == mid.chunks@[launches@[k].chunk_index as int]);
                                }
                            }
                            assert forall|i: int|
                                0 <= i < n && !launched(launches@, i) implies self.chunks@[i]
                                == old(self).chunks@[i] by {
                                assert(!launched(prev_launches, i));
                                assert(i != idx as int);
                            }
                            assert forall|j: int|
                                0 <= j < old(self).sources@.len() implies source_kept(
                                #[trigger] old(self).sources@[j],
                                self.sources@[j],
                            ) by {
                                assert(source_kept(old(self).sources@[j], mid.sources@[j]));
                            }
                        }
                        idx = idx + 1;
                    },
                    None => {
                        proof {
                            stalled = true;
                        }
                        idx = n;
                    },
                }
            } else {
                idx = idx + 1;
            }
        }
        launches
    }

    /// Fold one finished fetch back in: store the chunk as the fetch
    /// left it, release the serving source's slot — success clears its
    /// failure streak, failure lengthens it — recompute the aggregate,
    /// and stamp the time. A write-back that lost no bytes never lowers
    /// the aggregate progress.
    pub fn apply_fetch_result(
        &mut self,
        chunk_index: usize,
        chunk: DownloadChunk,
        source_index: usize,
        success: bool,
        now_ts: i64,
    )
        requires
            old(self).wf(),
            chunk_index < old(self).chunks@.len(),
            source_index < old(self).sources@.len(),
            chunk.wf(),
            chunk.start == old(self).chunks@[chunk_index as int].start,
            chunk.end == old(self).chunks@[chunk_index as int].end,
            old(self).in_flight > 0,
        ensures
            final(self).wf(),
            final(self).aggregate_consistent(),
            final(self).chunks@ == old(self).chunks@.update(chunk_index as int, chunk),
            final(self).in_flight == old(self).in_flight - 1,
            final(self).progress == progress_of(final(self).downloaded_size, old(self).total_size),
            final(self).updated_at == now_ts,
            final(self).sources@ == old(self).sources@.update(
                source_index as int,
                (DownloadSource {
                    active_connections: release_slot(
                        old(self).sources@[source_index as int].active_connections,
                    ),
                    failures: if success {
                        0u32
                    } else {
                        bump_failures(old(self).sources@[source_index as int].failures)
                    },
                    ..old(self).sources@[source_index as int]
                }),
            ),
            *final(self) == (DownloadState {
                chunks: final(self).chunks,
                sources: final(self).sources,
                in_flight: final(self).in_flight,
                downloaded_size: final(self).downloaded_size,
                progress: final(self).progress,
                updated_at: now_ts,
                ..*old(self)
            }),
            old(self).aggregate_consistent() && chunk.downloaded >= old(self).chunks@[chunk_index
                as int].downloaded && old(self).progress == progress_of(
                old(self).downloaded_size,
                old(self).total_size,
            ) ==> final(self).downloaded_size >= old(self).downloaded_size && final(self).progress
                >= old(self).progress,
    {
        let ghost pre = *old(self);
        let ghost stored = chunk;
        {
            let ch = vec_index_mut(&mut self.chunks, chunk_index);
            *ch = chunk;
        }
        {
            let src = vec_index_mut(&mut self.sources, source_index);
            if src.active_connections > 0 {
                src.active_connections = src.active_connections - 1;
            }
            if success {
                src.failures = 0;
            } else if src.failures < MAX_SOURCE_FAILURES {
                src.failures = src.failures + 1;
            }
        }
        self.in_flight = self.in_flight - 1;
        proof {
            let a = pre.chunks@;
            let b = self.chunks@;
            let ci = chunk_index as int;
            assert(b == a.update(ci, stored));
            assert(stored.size == a[ci].size) by {
                assert(a[ci].wf());
            }
            assert forall|i: int|
                0 <= i < b.len() - 1 implies crate::chunk::chunks_adjacent(b, i) by {
                assert(crate::chunk::chunks_adjacent(a, i));
            }
            assert forall|i: int| 0 <= i < b.len() implies crate::chunk::chunk_range_wf(b, i) by {
                assert(crate::chunk::chunk_range_wf(a, i));
            }
            assert forall|i: int| 0 <= i < b.len() implies (#[trigger] b[i]).wf() by {
                assert(a[i].wf());
            }
            assert forall|i: int|
                0 <= i < self.sources@.len() implies (#[trigger] self.sources@[i]).wf() by {
                assert(pre.sources@[i].wf());
            }
        }
        self.update_progress(now_ts);
        proof {
            lemma_sum_update(pre.chunks@, chunk_index as int, stored);
            if pre.aggregate_consistent() && stored.downloaded >= pre.chunks@[chunk_index
                as int].downloaded && pre.progress == progress_of(
                pre.downloaded_size,
                pre.total_size,
            ) {
                lemma_progress_monotone(pre.downloaded_size, self.downloaded_size, pre.total_size);
            }
        }
    }

    /// Any chunk still eligible for scheduling?
    pub fn has_eligible_chunks(&self) -> (r: bool)
        ensures
            r == exists|i: int|
                0 <= i < self.chunks@.len() && (#[trigger] self.chunks@[i]).spec_eligible(),
    {
        let n = self.chunks.len();
        let mut i: usize = 0;
        while i < n
            invariant
                n == self.chunks@.len(),
                i <= n,
                forall|k: int| 0 <= k < i ==> !(#[trigger] self.chunks@[k]).spec_eligible(),
            decreases n - i,
        {
            if self.chunks[i].is_eligible() {
                return true;
            }
            i = i + 1;
        }
        false
    }

    /// Has every chunk been fully fetched?
    pub fn all_chunks_completed(&self) -> (r: bool)
        ensures
            r == forall|i: int|
                0 <= i < self.chunks@.len() ==> (#[trigger] self.chunks@[i]).status
                    == DownloadStatus::Completed,
    {
        let n = self.chunks.len();
        let mut i: usize = 0;
        while i < n
            invariant
                n == self.chunks@.len(),
                i <= n,
                forall|k: int|
                    0 <= k < i ==> (#[trigger] self.chunks@[k]).status
                        == DownloadStatus::Completed,
            decreases n - i,
        {
            if !matches!(self.chunks[i].status, DownloadStatus::Completed) {
                return false;
            }
            i = i + 1;
        }
        true
    }

    /// Decide the job invariant at run time. A checkpoint read back
    /// from storage is untrusted text: a record that fails this check
    /// must be refused before any transition runs on it.
    pub fn wf_check(&self) -> (r: bool)
        ensures
            r == self.wf(),
    {
        if self.in_flight > self.max_concurrent_chunks {
            return false;
        }
        if self.progress > PROGRESS_FULL {
            return false;
        }
        if self.last_event_progress < EMIT_PROGRESS_NONE || self.last_event_progress
            > PROGRESS_FULL as i64 {
            return false;
        }
        let sn = self.sources.len();
        let mut j: usize = 0;
        while j < sn
            invariant
                sn == self.sources@.len(),
                j <= sn,
                forall|k: int| 0 <= k < j ==> (#[trigger] self.sources@[k]).wf(),
            decreases sn - j,
        {
            if self.sources[j].active_connections > self.sources[j].max_connections {
                proof {
                    assert(!self.sources@[j as int].wf());
                }
                return false;
            }
            j = j + 1;
        }
        let n = self.chunks.len();
        let mut i: usize = 0;
        while i < n
            invariant
                n == self.chunks@.len(),
                i <= n,
                forall|k: int| 0 <= k < i ==> (#[trigger] self.chunks@[k]).wf(),
            decreases n - i,
        {
            let start = self.chunks[i].start;
            let end = self.chunks[i].end;
            if start > end {
                return false;
            }
            let span = end - start;
            // A range of 2^64 bytes has no representable size.
            if span == u64::MAX || self.chunks[i].size != span + 1 {
                return false;
            }
            if self.chunks[i].downloaded > self.chunks[i].size {
                return false;
            }
            if self.chunks[i].retry_count > MAX_CHUNK_RETRIES {
                return false;
            }
            if matches!(self.chunks[i].status, DownloadStatus::Completed)
                && self.chunks[i].downloaded != self.chunks[i].size {
                return false;
            }
            i = i + 1;
        }
        if n == 0 {
            return self.total_size == 0;
        }
        if self.total_size == 0 {
            return false;
        }
        if self.chunks[0].start != 0 {
            return false;
        }
        if self.chunks[n - 1].end != self.total_size - 1 {
            return false;
        }
        let mut a: usize = 0;
        while a + 1 < n
            invariant
                n == self.chunks@.len(),
                a < n,
                forall|k: int| 0 <= k < a ==> chunks_adjacent(self.chunks@, k),
            decreases n - a,
        {
            let e = self.chunks[a].end;
            let st = self.chunks[a + 1].start;
            if st == 0 || e != st - 1 {
                proof {
                    assert(!chunks_adjacent(self.chunks@, a as int));
                }
                return false;
            }
            proof {
                assert(chunks_adjacent(self.chunks@, a as int));
            }
            a = a + 1;
        }
        proof {
            assert forall|k: int|
                0 <= k < self.chunks@.len() implies chunk_range_wf(self.chunks@, k) by {
                assert(self.chunks@[k].wf());
            }
            assert(chunks_cover(self.chunks@, self.total_size));
        }
        true
    }

    /// Why a run that launched nothing more stopped short of
    /// completion: chunks still eligible means the source pool ran dry
    /// (transient — a resume with recovered or switched sources can
    /// continue); none eligible means every unfinished chunk exhausted
    /// its retries.
    pub fn failure_reason(&self) -> (r: &'static str)
        ensures
            (exists|i: int|
                0 <= i < self.chunks@.len() && (#[trigger] self.chunks@[i]).spec_eligible())
                ==> r@ == "Download failed - no eligible source for remaining chunks"@,
            !(exists|i: int|
                0 <= i < self.chunks@.len() && (#[trigger] self.chunks@[i]).spec_eligible())
                ==> r@ == "Download failed - not all chunks completed"@,
    {
        if self.has_eligible_chunks() {
            "Download failed - no eligible source for remaining chunks"
        } else {
            "Download failed - not all chunks completed"
        }
    }

    /// Abort-side bookkeeping: after this, no fetch is in flight and no
    /// source holds a connection slot.
    fn clear_connections(&mut self)
        requires
            old(self).wf(),
        ensures
            final(self).wf(),
            final(self).in_flight == 0,
            final(self).sources@.len() == old(self).sources@.len(),
            forall|j: int|
                0 <= j < old(self).sources@.len() ==> final(self).sources@[j] == (DownloadSource {
                    active_connections: 0,
                    ..(#[trigger] old(self).sources@[j])
                }),
            *final(self) == (DownloadState {
                sources: final(self).sources,
                in_flight: 0,
                ..*old(self)
            }),
    {
        self.in_flight = 0;
        let n = self.sources.len();
        let mut j: usize = 0;
        while j < n
            invariant
                n == self.sources@.len(),
                j <= n,
                self.sources@.len() == old(self).sources@.len(),
                forall|k: int|
                    0 <= k < j ==> self.sources@[k] == (DownloadSource {
                        active_connections: 0,
                        ..(#[trigger] old(self).sources@[k])
                    }),
                forall|k: int| j <= k < n ==> self.sources@[k] == old(self).sources@[k],
                *self == (DownloadState {
                    sources: self.sources,
                    in_flight: 0,
                    ..*old(self)
                }),
            decreases n - j,
        {
            let src = vec_index_mut(&mut self.sources, j);
            src.active_connections = 0;
            j = j + 1;
        }
        proof {
            assert forall|i: int|
                0 <= i < self.sources@.len() implies (#[trigger] self.sources@[i]).wf() by {
                assert(self.sources@[i] == (DownloadSource {
                    active_connections: 0,
                    ..old(self).sources@[i]
                }));
            }
        }
    }

    /// Terminal success, reached only with every chunk complete: the
    /// assembled file is in place and verified. The job reads complete
    /// at full progress, every byte of the total accounted for, with
    /// the transient counters settled; its chunks are untouched.
    pub fn complete(&mut self, now_ts: i64)
        requires
            old(self).wf(),
            forall|i: int|
                0 <= i < old(self).chunks@.len() ==> (#[trigger] old(self).chunks@[i]).status
                    == DownloadStatus::Completed,
        ensures
            final(self).downloaded_size == final(self).total_size,
            final(self).wf(),
            final(self).status == DownloadStatus::Completed,
            final(self).progress == PROGRESS_FULL,
            final(self).speed == 0,
            final(self).eta_seconds == 0,
            final(self).message matches Some(m) && m@ == "Download complete"@,
            final(self).updated_at == now_ts,
            final(self).chunks@ == old(self).chunks@,
            final(self).sources@ == old(self).sources@,
            final(self).aggregate_consistent(),
            *final(self) == (DownloadState {
                status: DownloadStatus::Completed,
                progress: PROGRESS_FULL,
                speed: 0,
                eta_seconds: 0,
                message: final(self).message,
                updated_at: now_ts,
                downloaded_size: final(self).downloaded_size,
                ..*old(self)
            }),
    {
        proof {
            crate::chunk::lemma_sum_completed(self.chunks@);
            lemma_cover_sum(self.chunks@, self.total_size);
        }
        self.update_progress(now_ts);
        self.status = DownloadStatus::Completed;
        self.progress = PROGRESS_FULL;
        self.speed = 0;
        self.eta_seconds = 0;
        self.message = Some("Download complete".to_owned());
    }

    /// Terminal failure with the reason spelled out; chunk progress is
    /// kept exactly as it stands, for a later resume.
    pub fn fail(&mut self, message: String, now_ts: i64)
        requires
            old(self).wf(),
        ensures
            final(self).wf(),
            *final(self) == (DownloadState {
                status: DownloadStatus::Failed,
                message: Some(message),
                updated_at: now_ts,
                ..*old(self)
            }),
    {
        self.status = DownloadStatus::Failed;
        self.message = Some(message);
        self.updated_at = now_ts;
    }

    /// User-driven pause: in-flight fetches are aborted and every
    /// connection slot released; chunk progress is kept exactly as it
    /// stands, so a later resume re-fetches nothing that completed.
    pub fn pause(&mut self, now_ts: i64)
        requires
            old(self).wf(),
        ensures
            final(self).wf(),
            final(self).status == DownloadStatus::Paused,
            final(self).message matches Some(m) && m@ == "Paused by user"@,
            final(self).updated_at == now_ts,
            final(self).in_flight == 0,
            final(self).chunks@ == old(self).chunks@,
            final(self).sources@.len() == old(self).sources@.len(),
            forall|j: int|
                0 <= j < old(self).sources@.len() ==> final(self).sources@[j] == (DownloadSource {
                    active_connections: 0,
                    ..(#[trigger] old(self).sources@[j])
                }),
            *final(self) == (DownloadState {
                status: DownloadStatus::Paused,
                message: final(self).message,
                updated_at: now_ts,
                in_flight: 0,
                sources: final(self).sources,
                ..*old(self)
            }),
    {
        self.clear_connections();
        self.status = DownloadStatus::Paused;
        self.message = Some("Paused by user".to_owned());
        self.updated_at = now_ts;
    }

    /// User-driven cancel: terminal, never resumed. In-flight fetches
    /// are aborted and every connection slot released.
    pub fn cancel(&mut self, now_ts: i64)
        requires
            old(self).wf(),
        ensures
            final(self).wf(),
            final(self).status == DownloadStatus::Cancelled,
            final(self).message matches Some(m) && m@ == "Cancelled by user"@,
            final(self).updated_at == now_ts,
            final(self).in_flight == 0,
            final(self).chunks@ == old(self).chunks@,
            *final(self) == (DownloadState {
                status: DownloadStatus::Cancelled,
                message: final(self).message,
                updated_at: now_ts,
                in_flight: 0,
                sources: final(self).sources,
                ..*old(self)
            }),
    {
        self.clear_connections();
        self.status = DownloadStatus::Cancelled;
        self.message = Some("Cancelled by user".to_owned());
        self.updated_at = now_ts;
    }

    /// Resume gate: permitted only from `Paused` or `Failed`. The job
    /// returns to `Pending`; chunks caught mid-flight reopen (their
    /// whole range will be re-fetched), completed chunks and retry
    /// counts are kept, and the transient connection bookkeeping
    /// clears. From any other status nothing changes.
    pub fn prepare_resume(&mut self) -> (permitted: bool)
        requires
            old(self).wf(),
        ensures
            final(self).wf(),
            permitted == (old(self).status == DownloadStatus::Paused || old(self).status
                == DownloadStatus::Failed),
            !permitted ==> *final(self) == *old(self),
            permitted ==> {
                &&& final(self).status == DownloadStatus::Pending
                &&& final(self).message matches Some(m) && m@ == "Resuming download"@
                &&& final(self).chunks@.len() == old(self).chunks@.len()
                &&& forall|i: int|
                    0 <= i < old(self).chunks@.len() ==> final(self).chunks@[i] == resumed_chunk(
                        #[trigger] old(self).chunks@[i],
                    )
                &&& final(self).in_flight == 0
                &&& final(self).sources@.len() == old(self).sources@.len()
                &&& forall|j: int|
                    0 <= j < old(self).sources@.len() ==> final(self).sources@[j]
                        == (DownloadSource {
                        active_connections: 0,
                        ..(#[trigger] old(self).sources@[j])
                    })
                &&& *final(self) == (DownloadState {
                    status: DownloadStatus::Pending,
                    message: final(self).message,
                    chunks: final(self).chunks,
                    sources: final(self).sources,
                    in_flight: 0,
                    ..*old(self)
                })
            },
    {
        let permitted = matches!(
            self.status,
            DownloadStatus::Paused | DownloadStatus::Failed
        );
        if !permitted {
            return false;
        }
        self.clear_connections();
        self.status = DownloadStatus::Pending;
        self.message = Some("Resuming download".to_owned());
        let ghost mid = *self;
        let n = self.chunks.len();
        let mut i: usize = 0;
        while i < n
            invariant
                n == self.chunks@.len(),
                i <= n,
                self.chunks@.len() == mid.chunks@.len(),
                mid.chunks@ == old(self).chunks@,
                forall|k: int|
                    0 <= k < i ==> self.chunks@[k] == resumed_chunk(#[trigger] mid.chunks@[k]),
                forall|k: int| i <= k < n ==> self.chunks@[k] == mid.chunks@[k],
                *self == (DownloadState { chunks: self.chunks, ..mid }),
                mid.wf(),
            decreases n - i,
        {
            if matches!(self.chunks[i].status, DownloadStatus::Downloading) {
                let ch = vec_index_mut(&mut self.chunks, i);
                ch.status = DownloadStatus::Pending;
                ch.downloaded = 0;
            }
            i = i + 1;
        }
        proof {
            let a = old(self).chunks@;
            let b = self.chunks@;
            assert forall|k: int|
                0 <= k < b.len() - 1 implies crate::chunk::chunks_adjacent(b, k) by {
                assert(crate::chunk::chunks_adjacent(a, k));
            }
            assert forall|k: int| 0 <= k < b.len() implies crate::chunk::chunk_range_wf(b, k) by {
                assert(crate::chunk::chunk_range_wf(a, k));
            }
            assert forall|k: int| 0 <= k < b.len() implies (#[trigger] b[k]).wf() by {
                assert(a[k].wf());
            }
        }
        true
    }

    /// Live source switch: sources whose URL contains the substring
    /// move to priority zero, former leaders that do not match step
    /// back to rank one, and the pool re-sorts by the selection key.
    /// Connection and failure bookkeeping is untouched. Reports whether
    /// any source matched; the caller re-emits a snapshot so observers
    /// see the new ranking. A pool that is already sorted and already
    /// settled under this re-ranking — as the pool left by an earlier
    /// switch to the same substring is, by `lemma_switch_pool_settled`
    /// — comes through unchanged: repeating a switch is a no-op.
    pub fn switch_preferred_source(&mut self, substring: &str) -> (found: bool)
        requires
            old(self).wf(),
        ensures
            final(self).wf(),
            found == exists|i: int|
                0 <= i < old(self).sources@.len() && contains_seq(
                    (#[trigger] old(self).sources@[i]).url@,
                    substring@,
                ),
            final(self).sources@.to_multiset() == old(self).sources@.map_values(
                |s: DownloadSource| reprioritized(s, substring@),
            ).to_multiset(),
            sources_sorted(final(self).sources@),
            final(self).sources@.len() == old(self).sources@.len(),
            *final(self) == (DownloadState { sources: final(self).sources, ..*old(self) }),
            sources_sorted(old(self).sources@) && (forall|i: int|
                0 <= i < old(self).sources@.len() ==> reprioritized(
                    #[trigger] old(self).sources@[i],
                    substring@,
                ) == old(self).sources@[i]) ==> final(self).sources@ == old(self).sources@,
    {
        let ghost mapped = old(self).sources@.map_values(
            |s: DownloadSource| reprioritized(s, substring@),
        );
        let found = reprioritize_sources(&mut self.sources, substring);
        proof {
            assert(self.sources@ =~= mapped);
            if forall|i: int|
                0 <= i < old(self).sources@.len() ==> reprioritized(
                    #[trigger] old(self).sources@[i],
                    substring@,
                ) == old(self).sources@[i] {
                assert(self.sources@ =~= old(self).sources@);
            }
        }
        sort_sources(&mut self.sources);
        proof {
            lemma_multiset_eq_contains(self.sources@, mapped);
            assert forall|j: int|
                0 <= j < self.sources@.len() implies (#[trigger] self.sources@[j]).wf() by {
                let x = self.sources@[j];
                assert(self.sources@.contains(x));
                assert(mapped.contains(x));
                let k = choose|k: int| 0 <= k < mapped.len() && mapped[k] == x;
                assert(mapped[k] == reprioritized(old(self).sources@[k], substring@));
                assert(old(self).sources@[k].wf());
            }
        }
        found
    }
}

/// How one chunk comes back on resume: one caught mid-flight reopens
/// and will re-fetch its whole range; everything else — completed
/// chunks and retry counts above all — is kept exactly as persisted.
pub open spec fn resumed_chunk(c: DownloadChunk) -> DownloadChunk {
    if c.status == DownloadStatus::Downloading {
        DownloadChunk { status: DownloadStatus::Pending, downloaded: 0, ..c }
    } else {
        c
    }
}

/// Resume keeps every completed chunk exactly as it was, and such a
/// chunk is never eligible for scheduling: it is not re-fetched.
pub proof fn lemma_resume_keeps_completed(c: DownloadChunk)
    requires
        c.status == DownloadStatus::Completed,
    ensures
        resumed_chunk(c) == c,
        !resumed_chunk(c).spec_eligible(),
{
}

/// A chunk that is `Completed` when scheduling runs is never among the
/// launches: launched chunks were eligible, and a completed chunk never
/// is. With `lemma_resume_keeps_completed` this means a paused and
/// resumed job re-fetches none of its completed chunks.
pub proof fn lemma_completed_never_launched(
    pre: DownloadState,
    post: DownloadState,
    launches: Seq<Launch>,
    i: int,
)
    requires
        0 <= i < pre.chunks@.len(),
        pre.chunks@[i].status == DownloadStatus::Completed,
        forall|k: int| 0 <= k < launches.len() ==> launch_ok(pre, post, #[trigger] launches[k]),
    ensures
        !launched(launches, i),
{
    if launched(launches, i) {
        let k = choose|k: int|
            0 <= k < launches.len() && (#[trigger] launches[k]).chunk_index == i;
        assert(launch_ok(pre, post, launches[k]));
        assert(pre.chunks@[i].spec_eligible());
    }
}

/// Pausing and resuming never re-fetches completed work. The
/// hypotheses are exactly what `pause` (chunks untouched),
/// `prepare_resume` and `schedule_launches` promise; under them a chunk
/// that was `Completed` when the job paused is still exactly as it was
/// after the resumed job's scheduling pass, and is not among the
/// launches.
pub proof fn lemma_pause_resume_no_refetch(
    paused: DownloadState,
    resumed: DownloadState,
    scheduled: DownloadState,
    launches: Seq<Launch>,
    i: int,
)
    requires
        0 <= i < paused.chunks@.len(),
        paused.chunks@[i].status == DownloadStatus::Completed,
        resumed.chunks@.len() == paused.chunks@.len(),
        forall|k: int|
            0 <= k < paused.chunks@.len() ==> resumed.chunks@[k] == resumed_chunk(
                #[trigger] paused.chunks@[k],
            ),
        scheduled.chunks@.len() == resumed.chunks@.len(),
        forall|k: int| 0 <= k < launches.len() ==> launch_ok(resumed, scheduled, #[trigger] launches[k]),
        forall|k: int|
            0 <= k < resumed.chunks@.len() && !launched(launches, k) ==> scheduled.chunks@[k]
                == resumed.chunks@[k],
    ensures
        !launched(launches, i),
        scheduled.chunks@[i] == paused.chunks@[i],
        scheduled.chunks@[i].status == DownloadStatus::Completed,
{
    lemma_resume_keeps_completed(paused.chunks@[i]);
    lemma_completed_never_launched(resumed, scheduled, launches, i);
}

/// A job whose expected size is zero has no chunks at all: nothing is
/// ever eligible to fetch, every chunk is (vacuously) complete, and
/// completion takes it straight to full progress with no fetch
/// performed.
pub proof fn lemma_zero_total_immediate(j: DownloadState)
    requires
        j.wf(),
        j.total_size == 0,
    ensures
        j.chunks@.len() == 0,
        !exists|i: int|
            0 <= i < j.chunks@.len() && (#[trigger] j.chunks@[i]).spec_eligible(),
        forall|i: int|
            0 <= i < j.chunks@.len() ==> (#[trigger] j.chunks@[i]).status
                == DownloadStatus::Completed,
{
}

/// In a well-formed job no source ever exceeds its own connection
/// ceiling and the fetches in flight never exceed the job's concurrency
/// ceiling; every scheduling step preserves well-formedness, so this
/// holds at every step.
pub proof fn lemma_scheduling_limits(j: DownloadState)
    requires
        j.wf(),
    ensures
        j.in_flight <= j.max_concurrent_chunks,
        forall|i: int|
            0 <= i < j.sources@.len() ==> (#[trigger] j.sources@[i]).active_connections
                <= j.sources@[i].max_connections,
{
}

} // verus!
