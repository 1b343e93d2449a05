//! Chunks: fixed byte ranges of the target file, and the plan that
//! partitions the whole file into them.

use vstd::prelude::*;
use crate::status::DownloadStatus;

verus! {

/// Failed attempts allowed to one chunk before it stops being
/// rescheduled.
pub const MAX_CHUNK_RETRIES: u32 = 3;

/// One contiguous byte range `[start, end]` (both inclusive) of the
/// target file, fetched independently of every other chunk.
pub struct DownloadChunk {
    pub id: u32,
    pub start: u64,
    pub end: u64,
    pub size: u64,
    pub downloaded: u64,
    pub status: DownloadStatus,
    pub source_url: String,
    pub retry_count: u32,
}

impl DownloadChunk {
    /// Structural soundness of one chunk: a fixed non-empty range, a
    /// byte counter that never runs past the declared size, a bounded
    /// retry count, and completion only with every byte accounted for.
    pub open spec fn wf(self) -> bool {
        &&& self.start <= self.end
        &&& self.size == self.end - self.start + 1
        &&& self.downloaded <= self.size
        &&& self.retry_count <= MAX_CHUNK_RETRIES
        &&& (self.status == DownloadStatus::Completed ==> self.downloaded == self.size)
    }

    /// A chunk the scheduler may (re)launch: untouched, or failed with
    /// retry budget remaining.
    pub open spec fn spec_eligible(self) -> bool {
        ||| self.status == DownloadStatus::Pending
        ||| (self.status == DownloadStatus::Failed && self.retry_count < MAX_CHUNK_RETRIES)
    }

    pub fn is_eligible(&self) -> (r: bool)
        ensures
            r == self.spec_eligible(),
    {
        match self.status {
            DownloadStatus::Pending => true,
            DownloadStatus::Failed => self.retry_count < MAX_CHUNK_RETRIES,
            _ => false,
        }
    }

    pub fn new(id: u32, start: u64, end: u64) -> (r: Self)
        requires
            start <= end,
            end - start < u64::MAX,
        ensures
            r.wf(),
            r.id == id,
            r.start == start,
            r.end == end,
            r.size == end - start + 1,
            r.downloaded == 0,
            r.status == DownloadStatus::Pending,
            r.source_url@ == Seq::<char>::empty(),
            r.retry_count == 0,
    {
        DownloadChunk {
            id,
            start,
            end,
            size: end - start + 1,
            downloaded: 0,
            status: DownloadStatus::Pending,
            source_url: String::new(),
            retry_count: 0,
        }
    }

    /// Accumulate bytes of the response body as they arrive. A count
    /// that would run the counter past the declared size is refused and
    /// leaves the chunk untouched: more data than the range holds
    /// signals protocol desync, an unrecoverable corruption sign for
    /// this attempt.
    pub fn record_bytes(&mut self, n: u64) -> (ok: bool)
        ensures
            ok == (old(self).downloaded + n <= old(self).size),
            ok ==> *final(self) == (DownloadChunk {
                downloaded: (old(self).downloaded + n) as u64,
                ..*old(self)
            }),
            !ok ==> *final(self) == *old(self),
    {
        if n <= self.size && self.downloaded <= self.size - n {
            self.downloaded = self.downloaded + n;
            true
        } else {
            false
        }
    }

    /// One more retry spent, saturating at the ceiling.
    pub open spec fn spec_bumped_retries(self) -> u32 {
        if self.retry_count < MAX_CHUNK_RETRIES {
            (self.retry_count + 1) as u32
        } else {
            self.retry_count
        }
    }

    /// Close an attempt whose response body ended cleanly. The chunk
    /// completes only when every byte of the range arrived; a short
    /// read (a truncated connection) counts as a failed attempt,
    /// eligible for retry while budget remains.
    pub fn finish_attempt(&mut self) -> (complete: bool)
        requires
            old(self).wf(),
        ensures
            final(self).wf(),
            complete == (old(self).downloaded == old(self).size),
            complete ==> *final(self) == (DownloadChunk {
                status: DownloadStatus::Completed,
                ..*old(self)
            }),
            !complete ==> *final(self) == (DownloadChunk {
                status: DownloadStatus::Failed,
                downloaded: 0,
                retry_count: old(self).spec_bumped_retries(),
                ..*old(self)
            }),
    {
        if self.downloaded == self.size {
            self.status = DownloadStatus::Completed;
            true
        } else {
            self.fail_attempt();
            false
        }
    }

    /// Record a failed attempt (network error, unacceptable response
    /// status, desync, or short read). The byte counter resets: a later
    /// attempt re-fetches the whole range, so partial bytes of this one
    /// are not counted as progress.
    pub fn fail_attempt(&mut self)
        requires
            old(self).wf(),
        ensures
            final(self).wf(),
            *final(self) == (DownloadChunk {
                status: DownloadStatus::Failed,
                downloaded: 0,
                retry_count: old(self).spec_bumped_retries(),
                ..*old(self)
            }),
    {
        self.status = DownloadStatus::Failed;
        self.downloaded = 0;
        if self.retry_count < MAX_CHUNK_RETRIES {
            self.retry_count = self.retry_count + 1;
        }
    }
}

/// The wire contract accepts a plain success (2xx) or a partial-content
/// answer to the ranged request; any other response status is a
/// retryable transfer error.
pub open spec fn spec_status_acceptable(status: u16) -> bool {
    (200 <= status < 300) || status == 206
}

pub fn response_status_acceptable(status: u16) -> (r: bool)
    ensures
        r == spec_status_acceptable(status),
{
    (200 <= status && status < 300) || status == 206
}

/// With every chunk complete, the downloaded bytes are exactly the
/// declared bytes.
pub proof fn lemma_sum_completed(chunks: Seq<DownloadChunk>)
    requires
        forall|i: int| 0 <= i < chunks.len() ==> (#[trigger] chunks[i]).wf(),
        forall|i: int|
            0 <= i < chunks.len() ==> (#[trigger] chunks[i]).status == DownloadStatus::Completed,
    ensures
        sum_downloaded(chunks) == sum_sizes(chunks),
    decreases chunks.len(),
{
    if chunks.len() > 0 {
        lemma_sum_completed(chunks.drop_last());
    }
}

/// Untouched chunks hold no bytes: a fresh plan's aggregate is zero.
pub proof fn lemma_sum_untouched(chunks: Seq<DownloadChunk>)
    requires
        forall|i: int| 0 <= i < chunks.len() ==> (#[trigger] chunks[i]).downloaded == 0,
    ensures
        sum_downloaded(chunks) == 0,
    decreases chunks.len(),
{
    if chunks.len() > 0 {
        lemma_sum_untouched(chunks.drop_last());
    }
}

/// A chunk that is `Completed` has downloaded exactly its size: the
/// byte counter neither under- nor overshoots the declared range.
pub proof fn lemma_completed_is_exact(c: DownloadChunk)
    requires
        c.wf(),
        c.status == DownloadStatus::Completed,
    ensures
        c.downloaded == c.size,
{
}

/// A chunk's retry count never exceeds the ceiling, and a failed chunk
/// that has reached the ceiling stops being selected as eligible: it is
/// rescheduled only while its count is below the ceiling.
pub proof fn lemma_retry_ceiling(c: DownloadChunk)
    requires
        c.wf(),
    ensures
        c.retry_count <= MAX_CHUNK_RETRIES,
        c.status == DownloadStatus::Failed ==> (c.spec_eligible() <==> c.retry_count
            < MAX_CHUNK_RETRIES),
{
}

/// A `Completed` chunk is never eligible for scheduling: once all its
/// bytes are on disk it is not re-fetched.
pub proof fn lemma_completed_never_eligible(c: DownloadChunk)
    requires
        c.status == DownloadStatus::Completed,
    ensures
        !c.spec_eligible(),
{
}

/// Chunk `i + 1` starts right where chunk `i` ends: no gap, no overlap.
pub open spec fn chunks_adjacent(chunks: Seq<DownloadChunk>, i: int) -> bool {
    chunks[i].end + 1 == chunks[i + 1].start
}

/// The range of chunk `i` is non-empty and its size matches it.
pub open spec fn chunk_range_wf(chunks: Seq<DownloadChunk>, i: int) -> bool {
    chunks[i].start <= chunks[i].end && chunks[i].size == chunks[i].end - chunks[i].start + 1
}

/// The planned chunks partition `[0, total)` exactly: the first starts
/// at zero, each next chunk starts right after the one before it, the
/// last ends at `total - 1`, and each size matches its range.
pub open spec fn chunks_cover(chunks: Seq<DownloadChunk>, total: u64) -> bool {
    &&& (chunks.len() == 0 <==> total == 0)
    &&& (chunks.len() > 0 ==> chunks[0].start == 0 && chunks[chunks.len() - 1].end + 1 == total)
    &&& (forall|i: int| 0 <= i < chunks.len() - 1 ==> chunks_adjacent(chunks, i))
    &&& (forall|i: int| 0 <= i < chunks.len() ==> chunk_range_wf(chunks, i))
}

/// Every chunk of the plan has the nominal size, except the last, which
/// may be shorter.
pub open spec fn chunk_sizes_nominal(chunks: Seq<DownloadChunk>, chunk_size: u64) -> bool {
    &&& (forall|i: int| 0 <= i < chunks.len() - 1 ==> (#[trigger] chunks[i]).size == chunk_size)
    &&& (chunks.len() > 0 ==> chunks[chunks.len() - 1].size <= chunk_size)
}

/// A freshly planned chunk: untouched, unassigned, with its index as id.
pub open spec fn chunk_fresh(chunks: Seq<DownloadChunk>, i: int) -> bool {
    &&& chunks[i].wf()
    &&& chunks[i].id == i
    &&& chunks[i].downloaded == 0
    &&& chunks[i].status == DownloadStatus::Pending
    &&& chunks[i].source_url@ == Seq::<char>::empty()
    &&& chunks[i].retry_count == 0
}

/// Total bytes the chunks were declared with.
pub open spec fn sum_sizes(chunks: Seq<DownloadChunk>) -> int
    decreases chunks.len(),
{
    if chunks.len() == 0 {
        0
    } else {
        sum_sizes(chunks.drop_last()) + chunks.last().size
    }
}

/// Total bytes the chunks have downloaded so far.
pub open spec fn sum_downloaded(chunks: Seq<DownloadChunk>) -> int
    decreases chunks.len(),
{
    if chunks.len() == 0 {
        0
    } else {
        sum_downloaded(chunks.drop_last()) + chunks.last().downloaded
    }
}

/// Partition a total of `total_size` bytes into ranges of `chunk_size`
/// bytes each, the last possibly shorter. A total of zero plans no
/// chunks at all: such a job has nothing to fetch.
#[verifier::rlimit(100)]
pub fn create_chunks(total_size: u64, chunk_size: u64) -> (chunks: Vec<DownloadChunk>)
    requires
        chunk_size > 0,
        total_size <= chunk_size * 0xFFFF_FFFEu64,
    ensures
        chunks_cover(chunks@, total_size),
        chunk_sizes_nominal(chunks@, chunk_size),
        forall|i: int| 0 <= i < chunks@.len() ==> chunk_fresh(chunks@, i),
{
    let mut chunks: Vec<DownloadChunk> = Vec::new();
    if total_size == 0 {
        return chunks;
    }
    let mut offset: u64 = 0;
    let mut chunk_id: u32 = 0;
    while offset < total_size
        invariant
            chunk_size > 0,
            total_size > 0,
            total_size <= chunk_size * 0xFFFF_FFFEu64,
            offset <= total_size,
            chunks@.len() == chunk_id,
            chunks@.len() == 0 <==> offset == 0,
            chunks@.len() > 0 ==> chunks@[0].start == 0 && chunks@[chunks@.len() - 1].end + 1
                == offset,
            offset < total_size ==> offset == chunk_id * chunk_size,
            forall|i: int| 0 <= i < chunks@.len() - 1 ==> chunks_adjacent(chunks@, i),
            forall|i: int| 0 <= i < chunks@.len() ==> chunk_range_wf(chunks@, i),
            forall|i: int|
                0 <= i < chunks@.len() - 1 ==> (#[trigger] chunks@[i]).size == chunk_size,
            chunks@.len() > 0 ==> chunks@[chunks@.len() - 1].size <= chunk_size,
            offset < total_size && chunks@.len() > 0 ==> chunks@[chunks@.len() - 1].size
                == chunk_size,
            forall|i: int| 0 <= i < chunks@.len() ==> chunk_fresh(chunks@, i),
        decreases total_size - offset,
    {
        let ghost prev = chunks@;
        proof {
            assert(chunk_id < 0xFFFF_FFFEu64) by (nonlinear_arith)
                requires
                    offset == chunk_id * chunk_size,
                    offset < total_size,
                    total_size <= chunk_size * 0xFFFF_FFFEu64,
                    chunk_size > 0,
            ;
        }
        let remaining = total_size - offset;
        let this_size = if chunk_size <= remaining {
            chunk_size
        } else {
            remaining
        };
        let end = offset + (this_size - 1);
        let chunk = DownloadChunk::new(chunk_id, offset, end);
        chunks.push(chunk);
        proof {
            assert(chunks@ == prev.push(chunk));
            assert(chunks@[chunks@.len() - 1] == chunk);
            assert(forall|i: int| 0 <= i < prev.len() ==> chunks@[i] == prev[i]);
            assert forall|i: int| 0 <= i < chunks@.len() implies chunk_fresh(chunks@, i) by {
                if i < prev.len() {
                    assert(chunk_fresh(prev, i));
                }
            }
            assert forall|i: int| 0 <= i < chunks@.len() - 1 implies chunks_adjacent(
                chunks@,
                i,
            ) by {
                if i < prev.len() - 1 {
                    assert(chunks_adjacent(prev, i));
                }
            }
            assert forall|i: int| 0 <= i < chunks@.len() implies chunk_range_wf(chunks@, i) by {
                if i < prev.len() {
                    assert(chunk_range_wf(prev, i));
                }
            }
            assert((chunk_id + 1) * chunk_size == chunk_id * chunk_size + chunk_size)
                by (nonlinear_arith);
        }
        offset = end + 1;
        chunk_id = chunk_id + 1;
    }
    chunks
}

/// The sizes of the first `k` chunks of a gap-free plan add up to one
/// past the end of chunk `k - 1`.
proof fn lemma_chain_sum_prefix(chunks: Seq<DownloadChunk>, k: int)
    requires
        0 < k <= chunks.len(),
        chunks[0].start == 0,
        forall|i: int| 0 <= i < chunks.len() - 1 ==> chunks_adjacent(chunks, i),
        forall|i: int| 0 <= i < chunks.len() ==> chunk_range_wf(chunks, i),
    ensures
        sum_sizes(chunks.subrange(0, k)) == chunks[k - 1].end + 1,
    decreases k,
{
    let prefix = chunks.subrange(0, k);
    assert(prefix.last() == chunks[k - 1]);
    assert(chunk_range_wf(chunks, k - 1));
    assert(sum_sizes(prefix) == sum_sizes(prefix.drop_last()) + prefix.last().size);
    if k == 1 {
        assert(prefix.drop_last() =~= Seq::<DownloadChunk>::empty());
        assert(sum_sizes(prefix.drop_last()) == 0);
    } else {
        assert(prefix.drop_last() =~= chunks.subrange(0, k - 1));
        lemma_chain_sum_prefix(chunks, k - 1);
        assert(sum_sizes(prefix.drop_last()) == chunks[k - 2].end + 1);
        assert(chunks_adjacent(chunks, k - 2));
        assert(chunks[k - 2].end + 1 == chunks[k - 1].start);
    }
    assert(sum_sizes(prefix) == chunks[k - 1].end + 1);
}

/// The chunk sizes of a plan add up to the planned total: the ranges
/// partition `[0, total)` with no gap and no overlap.
pub proof fn lemma_cover_sum(chunks: Seq<DownloadChunk>, total: u64)
    requires
        chunks_cover(chunks, total),
    ensures
        sum_sizes(chunks) == total,
{
    if chunks.len() > 0 {
        lemma_chain_sum_prefix(chunks, chunks.len() as int);
        assert(chunks.subrange(0, chunks.len() as int) =~= chunks);
    }
}

/// A prefix never holds more declared bytes than the whole plan.
pub proof fn lemma_sum_sizes_prefix_le(chunks: Seq<DownloadChunk>, k: int)
    requires
        0 <= k <= chunks.len(),
    ensures
        sum_sizes(chunks.subrange(0, k)) <= sum_sizes(chunks),
    decreases chunks.len(),
{
    if k == chunks.len() {
        assert(chunks.subrange(0, k) =~= chunks);
    } else {
        assert(chunks.subrange(0, k) =~= chunks.drop_last().subrange(0, k));
        lemma_sum_sizes_prefix_le(chunks.drop_last(), k);
    }
}

/// Replacing the chunk at `i` changes the downloaded sum by exactly the
/// difference at `i`, and the size sum by the difference in sizes.
pub proof fn lemma_sum_update(chunks: Seq<DownloadChunk>, i: int, c: DownloadChunk)
    requires
        0 <= i < chunks.len(),
    ensures
        sum_downloaded(chunks.update(i, c)) == sum_downloaded(chunks) - chunks[i].downloaded
            + c.downloaded,
        sum_sizes(chunks.update(i, c)) == sum_sizes(chunks) - chunks[i].size + c.size,
    decreases chunks.len(),
{
    let updated = chunks.update(i, c);
    if i == chunks.len() - 1 {
        assert(updated.drop_last() =~= chunks.drop_last());
    } else {
        assert(updated.drop_last() =~= chunks.drop_last().update(i, c));
        lemma_sum_update(chunks.drop_last(), i, c);
    }
}

} // verus!
