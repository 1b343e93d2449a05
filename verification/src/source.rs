//! Candidate origins: their concurrency budget, health, and selection.

use vstd::prelude::*;
use vstd::std_specs::vec::vec_index_mut;
use crate::text::{contains_seq, str_contains};

verus! {

/// Parallel fetches one origin serves by default.
pub const DEFAULT_MAX_CONNECTIONS: u32 = 4;

/// Consecutive failures that exclude a source from selection until it
/// is explicitly reset.
pub const MAX_SOURCE_FAILURES: u32 = 3;

/// One candidate origin able to serve ranged requests for the target.
pub struct DownloadSource {
    pub url: String,
    /// Rank among the candidates; lower is preferred.
    pub priority: u32,
    pub max_connections: u32,
    pub active_connections: u32,
    /// Consecutive failures since the last success or explicit reset.
    pub failures: u32,
    /// Last observed transfer speed, in bytes per second.
    pub last_speed: u64,
}

impl DownloadSource {
    /// A source never serves more fetches than its own ceiling.
    pub open spec fn wf(self) -> bool {
        self.active_connections <= self.max_connections
    }

    /// Selection may pick this source: it has a free connection slot
    /// and has not failed repeatedly.
    pub open spec fn spec_eligible(self) -> bool {
        self.active_connections < self.max_connections && self.failures < MAX_SOURCE_FAILURES
    }

    pub fn is_eligible(&self) -> (r: bool)
        ensures
            r == self.spec_eligible(),
    {
        self.active_connections < self.max_connections && self.failures < MAX_SOURCE_FAILURES
    }

    pub fn new(url: String, priority: u32) -> (r: Self)
        ensures
            r.wf(),
            r.url == url,
            r.priority == priority,
            r.max_connections == DEFAULT_MAX_CONNECTIONS,
            r.active_connections == 0,
            r.failures == 0,
            r.last_speed == 0,
    {
        DownloadSource {
            url,
            priority,
            max_connections: DEFAULT_MAX_CONNECTIONS,
            active_connections: 0,
            failures: 0,
            last_speed: 0,
        }
    }

    /// Strict selection order: explicit priority first, then current
    /// load, then reliability.
    pub open spec fn key_lt(self, other: Self) -> bool {
        ||| self.priority < other.priority
        ||| (self.priority == other.priority && self.active_connections
            < other.active_connections)
        ||| (self.priority == other.priority && self.active_connections
            == other.active_connections && self.failures < other.failures)
    }

    /// Selection order, allowing equal keys.
    pub open spec fn key_le(self, other: Self) -> bool {
        ||| self.key_lt(other)
        ||| (self.priority == other.priority && self.active_connections
            == other.active_connections && self.failures == other.failures)
    }

    pub fn key_less(&self, other: &Self) -> (r: bool)
        ensures
            r == self.key_lt(*other),
    {
        if self.priority != other.priority {
            self.priority < other.priority
        } else if self.active_connections != other.active_connections {
            self.active_connections < other.active_connections
        } else {
            self.failures < other.failures
        }
    }

    pub fn key_at_most(&self, other: &Self) -> (r: bool)
        ensures
            r == self.key_le(*other),
    {
        if self.priority != other.priority {
            self.priority < other.priority
        } else if self.active_connections != other.active_connections {
            self.active_connections < other.active_connections
        } else {
            self.failures <= other.failures
        }
    }
}

/// Among sources with a free slot and a clean-enough record, the one
/// minimizing (priority, active connections, failures), ties broken by
/// pool order: the first index attaining the minimum. `None` is the
/// scheduling signal that no source can take more work right now.
pub fn select_best_source(sources: &Vec<DownloadSource>) -> (r: Option<usize>)
    ensures
        match r {
            Some(i) => {
                &&& i < sources@.len()
                &&& sources@[i as int].spec_eligible()
                &&& forall|j: int|
                    0 <= j < sources@.len() && (#[trigger] sources@[j]).spec_eligible()
                        ==> sources@[i as int].key_le(sources@[j])
                &&& forall|j: int|
                    0 <= j < i && (#[trigger] sources@[j]).spec_eligible()
                        ==> sources@[i as int].key_lt(sources@[j])
            },
            None => forall|j: int|
                0 <= j < sources@.len() ==> !(#[trigger] sources@[j]).spec_eligible(),
        },
{
    let mut best: Option<usize> = None;
    let n = sources.len();
    let mut idx: usize = 0;
    while idx < n
        invariant
            n == sources@.len(),
            idx <= n,
            match best {
                Some(i) => {
                    &&& i < idx
                    &&& sources@[i as int].spec_eligible()
                    &&& forall|j: int|
                        0 <= j < idx && (#[trigger] sources@[j]).spec_eligible()
                            ==> sources@[i as int].key_le(sources@[j])
                    &&& forall|j: int|
                        0 <= j < i && (#[trigger] sources@[j]).spec_eligible()
                            ==> sources@[i as int].key_lt(sources@[j])
                },
                None => forall|j: int|
                    0 <= j < idx ==> !(#[trigger] sources@[j]).spec_eligible(),
            },
        decreases n - idx,
    {
        if sources[idx].is_eligible() {
            best = match best {
                None => Some(idx),
                Some(b) => {
                    if sources[idx].key_less(&sources[b]) {
                        Some(idx)
                    } else {
                        Some(b)
                    }
                },
            };
        }
        idx = idx + 1;
    }
    best
}

/// The priority a source takes when preference switches to the sources
/// whose URL contains `sub`: a match comes first; a former leader that
/// no longer matches steps back to rank one; everything else keeps its
/// rank.
pub open spec fn repriority(s: DownloadSource, sub: Seq<char>) -> u32 {
    if contains_seq(s.url@, sub) {
        0u32
    } else if s.priority == 0 {
        1u32
    } else {
        s.priority
    }
}

/// The source with its priority replaced as `repriority` says; every
/// other attribute, the connection counts included, is untouched.
pub open spec fn reprioritized(s: DownloadSource, sub: Seq<char>) -> DownloadSource {
    DownloadSource { priority: repriority(s, sub), ..s }
}

/// Prefer the sources whose URL contains `substring`: they move to
/// priority zero, former leaders that do not match step back to one.
/// Reports whether any source matched.
pub fn reprioritize_sources(sources: &mut Vec<DownloadSource>, substring: &str) -> (found: bool)
    ensures
        final(sources)@.len() == old(sources)@.len(),
        forall|i: int|
            0 <= i < old(sources)@.len() ==> final(sources)@[i] == reprioritized(
                old(sources)@[i],
                substring@,
            ),
        found == exists|i: int|
            0 <= i < old(sources)@.len() && contains_seq(
                (#[trigger] old(sources)@[i]).url@,
                substring@,
            ),
{
    let ghost orig = sources@;
    let mut found = false;
    let n = sources.len();
    let mut i: usize = 0;
    while i < n
        invariant
            n == orig.len(),
            sources@.len() == orig.len(),
            i <= n,
            forall|k: int| 0 <= k < i ==> sources@[k] == reprioritized(orig[k], substring@),
            forall|k: int| i <= k < n ==> sources@[k] == orig[k],
            found == exists|k: int|
                0 <= k < i && contains_seq((#[trigger] orig[k]).url@, substring@),
        decreases n - i,
    {
        proof {
            assert(sources@[i as int] == orig[i as int]);
        }
        let matches = str_contains(sources[i].url.as_str(), substring);
        if matches {
            let entry = vec_index_mut(sources, i);
            entry.priority = 0;
            found = true;
            proof {
                assert(contains_seq(orig[i as int].url@, substring@));
            }
        } else if sources[i].priority == 0 {
            let entry = vec_index_mut(sources, i);
            entry.priority = 1;
        }
        proof {
            if !matches {
                assert(!contains_seq(orig[i as int].url@, substring@));
            }
        }
        i = i + 1;
    }
    found
}

/// The pool is ordered by the selection key.
pub open spec fn sources_sorted_upto(s: Seq<DownloadSource>, n: int) -> bool {
    forall|a: int, b: int| 0 <= a < b < n ==> (#[trigger] s[a]).key_le(#[trigger] s[b])
}

pub open spec fn sources_sorted(s: Seq<DownloadSource>) -> bool {
    sources_sorted_upto(s, s.len() as int)
}

/// Inserting an element anywhere adds exactly it to the multiset.
proof fn lemma_insert_to_multiset(s: Seq<DownloadSource>, p: int, v: DownloadSource)
    requires
        0 <= p <= s.len(),
    ensures
        s.insert(p, v).to_multiset() == s.to_multiset().insert(v),
    decreases s.len(),
{
    broadcast use vstd::seq_lib::group_to_multiset_ensures;

    s.insert_ensures(p, v);
    let t = s.insert(p, v);
    if p == s.len() {
        assert(t =~= s.push(v));
    } else {
        assert(t.last() == s.last());
        assert(t.drop_last() =~= s.drop_last().insert(p, v));
        s.drop_last().insert_ensures(p, v);
        lemma_insert_to_multiset(s.drop_last(), p, v);
        assert(t =~= t.drop_last().push(t.last()));
        assert(s =~= s.drop_last().push(s.last()));
        assert(t.to_multiset() =~= s.to_multiset().insert(v));
    }
}

/// Two pools with equal multisets hold exactly the same sources.
pub proof fn lemma_multiset_eq_contains(a: Seq<DownloadSource>, b: Seq<DownloadSource>)
    requires
        a.to_multiset() == b.to_multiset(),
    ensures
        forall|x: DownloadSource| a.contains(x) <==> b.contains(x),
{
    broadcast use vstd::seq_lib::group_to_multiset_ensures;

    assert forall|x: DownloadSource| a.contains(x) <==> b.contains(x) by {
        assert(a.contains(x) <==> a.to_multiset().count(x) > 0);
        assert(b.contains(x) <==> b.to_multiset().count(x) > 0);
    }
}

/// Re-ranking a source twice is the same as re-ranking it once: a
/// source the switch already placed stays exactly where it stands.
pub proof fn lemma_repriority_idempotent(s: DownloadSource, sub: Seq<char>)
    ensures
        reprioritized(reprioritized(s, sub), sub) == reprioritized(s, sub),
{
}

/// After one switch the pool is settled: every source it holds is a
/// fixed point of the re-ranking, and whether any source matches the
/// substring reads the same off the new pool as off the old one. With
/// the pool also sorted, a second switch to the same substring
/// therefore changes nothing and reports the same flag.
pub proof fn lemma_switch_pool_settled(
    orig: Seq<DownloadSource>,
    pool: Seq<DownloadSource>,
    sub: Seq<char>,
)
    requires
        pool.to_multiset() == orig.map_values(
            |s: DownloadSource| reprioritized(s, sub),
        ).to_multiset(),
    ensures
        forall|i: int|
            0 <= i < pool.len() ==> reprioritized(#[trigger] pool[i], sub) == pool[i],
        (exists|i: int| 0 <= i < pool.len() && contains_seq((#[trigger] pool[i]).url@, sub))
            <==> (exists|k: int|
            0 <= k < orig.len() && contains_seq((#[trigger] orig[k]).url@, sub)),
{
    let mapped = orig.map_values(|s: DownloadSource| reprioritized(s, sub));
    lemma_multiset_eq_contains(pool, mapped);
    assert forall|i: int|
        0 <= i < pool.len() implies reprioritized(#[trigger] pool[i], sub) == pool[i] by {
        assert(pool.contains(pool[i]));
        assert(mapped.contains(pool[i]));
        let k = choose|k: int| 0 <= k < mapped.len() && mapped[k] == pool[i];
        assert(mapped[k] == reprioritized(orig[k], sub));
        lemma_repriority_idempotent(orig[k], sub);
    }
    if exists|i: int| 0 <= i < pool.len() && contains_seq((#[trigger] pool[i]).url@, sub) {
        let i = choose|i: int|
            0 <= i < pool.len() && contains_seq((#[trigger] pool[i]).url@, sub);
        assert(pool.contains(pool[i]));
        assert(mapped.contains(pool[i]));
        let k = choose|k: int| 0 <= k < mapped.len() && mapped[k] == pool[i];
        assert(mapped[k] == reprioritized(orig[k], sub));
        assert(pool[i].url == orig[k].url);
        assert(contains_seq((orig[k]).url@, sub));
    }
    if exists|k: int| 0 <= k < orig.len() && contains_seq((#[trigger] orig[k]).url@, sub) {
        let k = choose|k: int|
            0 <= k < orig.len() && contains_seq((#[trigger] orig[k]).url@, sub);
        assert(mapped[k] == reprioritized(orig[k], sub));
        assert(mapped.contains(mapped[k]));
        assert(pool.contains(mapped[k]));
        let i = choose|i: int| 0 <= i < pool.len() && pool[i] == mapped[k];
        assert(pool[i].url == orig[k].url);
        assert(contains_seq((pool[i]).url@, sub));
    }
}

/// Sort the pool by the selection key (stable order among equal keys is
/// not promised). The pool keeps exactly the same sources.
pub fn sort_sources(sources: &mut Vec<DownloadSource>)
    ensures
        final(sources)@.len() == old(sources)@.len(),
        final(sources)@.to_multiset() == old(sources)@.to_multiset(),
        sources_sorted(final(sources)@),
        sources_sorted(old(sources)@) ==> final(sources)@ == old(sources)@,
{
    let ghost orig = sources@;
    let n = sources.len();
    if n <= 1 {
        proof {
            assert(sources_sorted(sources@));
        }
        return ;
    }
    let mut i: usize = 1;
    while i < n
        invariant
            n == sources@.len(),
            1 <= i <= n,
            sources@.to_multiset() == orig.to_multiset(),
            orig.len() == n,
            sources_sorted_upto(sources@, i as int),
            sources_sorted(orig) ==> sources@ == orig,
        decreases n - i,
    {
        let mut p: usize = 0;
        while p < i && sources[p].key_at_most(&sources[i])
            invariant
                n == sources@.len(),
                i < n,
                p <= i,
                forall|q: int| 0 <= q < p ==> (#[trigger] sources@[q]).key_le(sources@[i as int]),
            decreases i - p,
        {
            p = p + 1;
        }
        let ghost before = sources@;
        let ghost c = sources@[i as int];
        proof {
            if sources_sorted(orig) {
                // A sorted pool is left exactly as it stands: the scan
                // runs to the element's own place.
                assert(before == orig);
                assert((#[trigger] before[p as int]).key_le(before[i as int]));
                assert(p == i);
            }
        }
        let moved = sources.remove(i);
        sources.insert(p, moved);
        proof {
            broadcast use vstd::seq_lib::group_to_multiset_ensures;

            if sources_sorted(orig) {
                let removed = before.remove(i as int);
                removed.insert_ensures(i as int, c);
                assert forall|j: int| 0 <= j < before.len() implies sources@[j] == before[j] by {
                    if j < i as int {
                        assert(removed[j] == before[j]);
                    } else if j > i as int {
                        assert(removed[j - 1] == before[j]);
                    }
                }
                assert(sources@ =~= before);
            }

            let removed = before.remove(i as int);
            removed.insert_ensures(p as int, c);
            lemma_insert_to_multiset(removed, p as int, c);
            assert(before.to_multiset().contains(c)) by {
                assert(before.contains(c));
            }
            assert(sources@.to_multiset() =~= before.to_multiset());
            assert forall|a: int, b: int| 0 <= a < b < i + 1 implies (#[trigger] sources@[a]).key_le(
                #[trigger] sources@[b],
            ) by {
                let pi = p as int;
                let ii = i as int;
                if b < pi {
                    assert(sources@[a] == before[a] && sources@[b] == before[b]);
                } else if b == pi {
                    assert(sources@[a] == before[a] && sources@[b] == c);
                } else if a < pi {
                    assert(sources@[a] == before[a] && sources@[b] == before[b - 1]);
                    if a < b - 1 {
                    } else {
                        assert(a == b - 1);
                        assert(sources@[b] == before[a]);
                    }
                } else if a == pi {
                    assert(sources@[a] == c && sources@[b] == before[b - 1]);
                    assert(pi < i);
                    assert(!before[pi].key_le(c));
                    assert(c.key_lt(before[pi]));
                    if b - 1 > pi {
                        assert(before[pi].key_le(before[b - 1]));
                    }
                } else {
                    assert(sources@[a] == before[a - 1] && sources@[b] == before[b - 1]);
                }
            }
        }
        i = i + 1;
    }
}

} // verus!
