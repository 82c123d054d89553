//! The snapshot that carries the job registry and the scraping cursor over a
//! restart, and nothing else.
//!
//! A snapshot is a sequence of 64-bit words, each written as eight bytes,
//! least significant first: the mark of the format, its version, the number
//! of limbs of the cursor, those limbs, the number of jobs, and for each job
//! the four limbs of its identifier and its scheduling parameter. The jobs
//! are written by rising identifier, so that the bytes depend on what the
//! registry holds and not on how it came to hold it.

use crate::assoc::{
    ascending, distinct_keys, has_key, lemma_ascending_distinct, lemma_ascending_exists,
    lemma_ascending_of, lemma_to_map_at, lemma_to_map_push, to_map,
};
use crate::error::ProtocolViolation;
use crate::natural::{canonical_limbs, is_canonical, lemma_canonical_limbs, limbs_to_nat, Natural};
use crate::registry::{job_pairs, JobRegistry};
use crate::state::State;
use crate::u256::{
    lemma_u256_bounded, lemma_u256_limbs, lemma_u256_limbs_value, limbs_value, u256_limb,
    u256_limit, U256,
};
use crate::words::{
    bytes_to_words, decode_words, encode_words, lemma_words_round_trip, words_to_bytes,
};
use vstd::prelude::*;

verus! {

/// The first word of every snapshot; its bytes read `CFSNAPSH`.
pub const SNAPSHOT_MAGIC: u64 = 0x4853_5041_4e53_4643;

/// The version of the layout that this crate writes and reads.
pub const SNAPSHOT_VERSION: u64 = 1;

/// What a snapshot holds: the cursor, and the scheduling parameter of each
/// job by the number of its identifier.
pub struct SnapshotView {
    pub cursor: nat,
    pub jobs: Map<nat, u64>,
}

/// The words of the jobs: five for each, the four limbs of the identifier,
/// least significant first, and then the scheduling parameter.
pub open spec fn job_words(jobs: Seq<(nat, u64)>) -> Seq<u64> {
    Seq::new(
        (5 * jobs.len()) as nat,
        |k: int|
            if k % 5 < 4 {
                u256_limb(jobs[k / 5].0, k % 5)
            } else {
                jobs[k / 5].1
            },
    )
}

/// The words of a snapshot that holds the cursor of the given limbs and the
/// given jobs, in their order.
pub open spec fn layout_words(cursor: Seq<u64>, jobs: Seq<(nat, u64)>) -> Seq<u64> {
    seq![SNAPSHOT_MAGIC, SNAPSHOT_VERSION, cursor.len() as u64] + cursor + seq![
        jobs.len() as u64,
    ] + job_words(jobs)
}

/// The words of the snapshot of a cursor and of the jobs of a registry: the
/// cursor by its canonical limbs, the jobs by rising identifier.
pub open spec fn snapshot_words(cursor: nat, jobs: Map<nat, u64>) -> Seq<u64> {
    layout_words(canonical_limbs(cursor), ascending(jobs))
}

/// The bytes of the snapshot of a cursor and of the jobs of a registry.
pub open spec fn snapshot_bytes(cursor: nat, jobs: Map<nat, u64>) -> Seq<u8> {
    words_to_bytes(snapshot_words(cursor, jobs))
}

/// The `count` jobs that stand in the words from position `base` on.
pub open spec fn parsed_jobs(w: Seq<u64>, base: int, count: int) -> Seq<(nat, u64)> {
    Seq::new(
        count as nat,
        |i: int|
            (
                limbs_value(
                    w[base + 5 * i],
                    w[base + 5 * i + 1],
                    w[base + 5 * i + 2],
                    w[base + 5 * i + 3],
                ),
                w[base + 5 * i + 4],
            ),
    )
}

/// What the words of a snapshot hold, or why they are none. The words are a
/// snapshot where they begin with the mark and the version, their number is
/// what the two counts ask for, the limbs of the cursor are canonical, and
/// no job identifier comes twice.
pub open spec fn parse_words(w: Seq<u64>) -> Result<SnapshotView, ProtocolViolation> {
    if w.len() < 2 || w[0] != SNAPSHOT_MAGIC {
        Err(ProtocolViolation::MalformedSnapshot)
    } else if w[1] != SNAPSHOT_VERSION {
        Err(ProtocolViolation::UnsupportedSnapshotVersion)
    } else if w.len() < 4 || w.len() - 4 < w[2] {
        Err(ProtocolViolation::MalformedSnapshot)
    } else {
        let n = w[2] as int;
        let cursor = w.subrange(3, 3 + n);
        let m = w[3 + n] as int;
        let jobs = parsed_jobs(w, 4 + n, m);
        if w.len() != 4 + n + 5 * m || !is_canonical(cursor) || !distinct_keys(jobs) {
            Err(ProtocolViolation::MalformedSnapshot)
        } else {
            Ok(SnapshotView { cursor: limbs_to_nat(cursor), jobs: to_map(jobs) })
        }
    }
}

/// What the bytes of a snapshot hold, or why they are none.
pub open spec fn parse_snapshot(b: Seq<u8>) -> Result<SnapshotView, ProtocolViolation> {
    if b.len() % 8 != 0 {
        Err(ProtocolViolation::MalformedSnapshot)
    } else {
        parse_words(bytes_to_words(b))
    }
}

/// Words laid out for a cursor and a list of jobs are read back as that
/// cursor and those jobs.
pub proof fn lemma_layout_round_trip(cursor: Seq<u64>, jobs: Seq<(nat, u64)>)
    requires
        is_canonical(cursor),
        distinct_keys(jobs),
        forall|i: int| 0 <= i < jobs.len() ==> (#[trigger] jobs[i]).0 < u256_limit(),
        cursor.len() <= u64::MAX,
        jobs.len() <= u64::MAX,
    ensures
        parse_snapshot(words_to_bytes(layout_words(cursor, jobs))) == Ok::<
            SnapshotView,
            ProtocolViolation,
        >(SnapshotView { cursor: limbs_to_nat(cursor), jobs: to_map(jobs) }),
{
    let w = layout_words(cursor, jobs);
    let n = cursor.len() as int;
    let m = jobs.len() as int;
    lemma_words_round_trip(w);
    assert(w.len() == 4 + n + 5 * m);
    assert(w[0] == SNAPSHOT_MAGIC);
    assert(w[1] == SNAPSHOT_VERSION);
    assert(w[2] == n);
    assert(w.subrange(3, 3 + n) =~= cursor);
    assert(w[3 + n] == m);
    let parsed = parsed_jobs(w, 4 + n, m);
    assert forall|i: int| 0 <= i < m implies parsed[i] == jobs[i] by {
        let jw = job_words(jobs);
        assert forall|j: int| 0 <= j < 5 implies w[4 + n + 5 * i + j] == #[trigger] jw[5 * i + j] by {}
        assert((5 * i) / 5 == i && (5 * i) % 5 == 0);
        assert((5 * i + 1) / 5 == i && (5 * i + 1) % 5 == 1);
        assert((5 * i + 2) / 5 == i && (5 * i + 2) % 5 == 2);
        assert((5 * i + 3) / 5 == i && (5 * i + 3) % 5 == 3);
        assert((5 * i + 4) / 5 == i && (5 * i + 4) % 5 == 4);
        assert(jw[5 * i + 0] == u256_limb(jobs[i].0, 0));
        assert(jw[5 * i + 1] == u256_limb(jobs[i].0, 1));
        assert(jw[5 * i + 2] == u256_limb(jobs[i].0, 2));
        assert(jw[5 * i + 3] == u256_limb(jobs[i].0, 3));
        assert(jw[5 * i + 4] == jobs[i].1);
        lemma_u256_limbs_value(jobs[i].0);
    }
    assert(parsed =~= jobs);
}

/// The snapshot of a cursor and of the jobs of a registry is read back as
/// that cursor and, job for job, that registry; and it is made of the
/// cursor and the jobs alone, whatever the order in which the jobs came.
pub proof fn lemma_snapshot_round_trip(cursor: nat, jobs: Map<nat, u64>)
    requires
        jobs.dom().finite(),
        forall|k: nat| jobs.contains_key(k) ==> k < u256_limit(),
        jobs.dom().len() <= u64::MAX,
        canonical_limbs(cursor).len() <= u64::MAX,
    ensures
        parse_snapshot(snapshot_bytes(cursor, jobs)) == Ok::<SnapshotView, ProtocolViolation>(
            SnapshotView { cursor, jobs },
        ),
{
    let s = ascending(jobs);
    lemma_ascending_exists(jobs);
    lemma_ascending_distinct(s);
    lemma_canonical_limbs(cursor);
    assert forall|i: int| 0 <= i < s.len() implies (#[trigger] s[i]).0 < u256_limit() by {
        lemma_to_map_at(s, i);
    }
    lemma_layout_round_trip(canonical_limbs(cursor), s);
}

/// Writes the snapshot of a registry and a cursor. The bytes depend on the
/// jobs and the cursor alone: the jobs are written by rising identifier.
pub fn snapshot(jobs: &JobRegistry, cursor: &Natural) -> (r: Vec<u8>)
    ensures
        r@ == snapshot_bytes(cursor@, jobs@),
        parse_snapshot(r@) == Ok::<SnapshotView, ProtocolViolation>(
            SnapshotView { cursor: cursor@, jobs: jobs@ },
        ),
{
    let limbs = cursor.to_limbs();
    let entries = jobs.to_entries();
    let mut words: Vec<u64> = Vec::new();
    words.push(SNAPSHOT_MAGIC);
    words.push(SNAPSHOT_VERSION);
    words.push(limbs.len() as u64);
    let mut i: usize = 0;
    while i < limbs.len()
        invariant
            i <= limbs.len(),
            words@ == seq![SNAPSHOT_MAGIC, SNAPSHOT_VERSION, limbs.len() as u64] + limbs@.subrange(
                0,
                i as int,
            ),
        decreases limbs.len() - i,
    {
        words.push(limbs[i]);
        assert(limbs@.subrange(0, i + 1) =~= limbs@.subrange(0, i as int).push(limbs@[i as int]));
        assert(words@ =~= seq![SNAPSHOT_MAGIC, SNAPSHOT_VERSION, limbs.len() as u64]
            + limbs@.subrange(0, i + 1));
        i += 1;
    }
    assert(limbs@.subrange(0, i as int) =~= limbs@);
    words.push(entries.len() as u64);
    let ghost head = words@;
    let ghost pairs = job_pairs(entries@);
    let mut j: usize = 0;
    while j < entries.len()
        invariant
            j <= entries.len(),
            pairs == job_pairs(entries@),
            words@ == head + job_words(pairs.subrange(0, j as int)),
        decreases entries.len() - j,
    {
        let entry = &entries[j];
        let ghost before = words@;
        words.push(entry.0.0[0]);
        words.push(entry.0.0[1]);
        words.push(entry.0.0[2]);
        words.push(entry.0.0[3]);
        words.push(entry.1);
        proof {
            lemma_u256_limbs(entry.0);
            let p = pairs.subrange(0, j as int);
            let q = pairs.subrange(0, j + 1);
            let target = head + job_words(q);
            assert(words@.len() == target.len());
            assert forall|k: int| 0 <= k < target.len() implies words@[k] == target[k] by {
                if k < head.len() {
                } else {
                    let x = k - head.len();
                    if x < 5 * j {
                        assert(x / 5 < j);
                        assert(q[x / 5] == p[x / 5]);
                        assert(before[k] == job_words(p)[x]);
                    } else {
                        assert(x / 5 == j);
                        assert(x % 5 == x - 5 * j);
                        assert(q[x / 5] == pairs[j as int]);
                        assert(pairs[j as int] == (entry.0@, entry.1));
                    }
                }
            }
            assert(words@ =~= target);
        }
        j += 1;
    }
    proof {
        assert(pairs.subrange(0, j as int) =~= pairs);
        assert(words@ =~= layout_words(limbs@, pairs));
        assert forall|i: int| 0 <= i < pairs.len() implies (#[trigger] pairs[i]).0
            < u256_limit() by {
            lemma_u256_bounded(entries@[i].0);
        }
        lemma_ascending_distinct(pairs);
        lemma_layout_round_trip(limbs@, pairs);
        lemma_ascending_of(pairs);
    }
    encode_words(&words)
}

/// Reads a snapshot: the registry and the cursor that it holds. Fails where
/// the bytes are no snapshot, or one of another version.
pub fn restore(bytes: &[u8]) -> (r: Result<(JobRegistry, Natural), ProtocolViolation>)
    ensures
        match parse_snapshot(bytes@) {
            Ok(held) => r matches Ok((jobs, cursor)) && jobs@ == held.jobs && cursor@
                == held.cursor,
            Err(e) => r matches Err(x) && x == e,
        },
{
    let words = match decode_words(bytes) {
        Some(w) => w,
        None => {
            return Err(ProtocolViolation::MalformedSnapshot);
        },
    };
    let len = words.len();
    if len < 2 || words[0] != SNAPSHOT_MAGIC {
        return Err(ProtocolViolation::MalformedSnapshot);
    }
    if words[1] != SNAPSHOT_VERSION {
        return Err(ProtocolViolation::UnsupportedSnapshotVersion);
    }
    if len < 4 || ((len - 4) as u64) < words[2] {
        return Err(ProtocolViolation::MalformedSnapshot);
    }
    let n = words[2] as usize;
    let m = words[3 + n];
    let rest = len - 4 - n;
    if rest % 5 != 0 || (rest / 5) as u64 != m {
        return Err(ProtocolViolation::MalformedSnapshot);
    }
    let m = m as usize;
    let ghost w = words@;
    let ghost held_cursor = w.subrange(3, 3 + n);
    let ghost held_jobs = parsed_jobs(w, 4 + n, m as int);
    if n > 0 && words[2 + n] == 0 {
        assert(held_cursor.last() == w[2 + n]);
        return Err(ProtocolViolation::MalformedSnapshot);
    }
    let mut limbs: Vec<u64> = Vec::new();
    let mut i: usize = 0;
    while i < n
        invariant
            i <= n,
            3 + n <= words.len(),
            limbs@ == words@.subrange(3, 3 + i),
        decreases n - i,
    {
        limbs.push(words[3 + i]);
        assert(limbs@ =~= words@.subrange(3, 3 + i + 1));
        i += 1;
    }
    assert(is_canonical(limbs@)) by {
        if n > 0 {
            assert(limbs@.last() == w[2 + n]);
        }
    }
    let cursor = Natural::from_limbs(limbs);
    let mut jobs = JobRegistry::new();
    let base = 4 + n;
    let mut j: usize = 0;
    while j < m
        invariant
            j <= m,
            !distinct_keys(held_jobs) ==> parse_snapshot(bytes@) == Err::<
                SnapshotView,
                ProtocolViolation,
            >(ProtocolViolation::MalformedSnapshot),
            base == 4 + n,
            w == words@,
            words.len() == base + 5 * m,
            held_jobs == parsed_jobs(w, base as int, m as int),
            distinct_keys(held_jobs.subrange(0, j as int)),
            jobs@ == to_map(held_jobs.subrange(0, j as int)),
        decreases m - j,
    {
        let at = base + 5 * j;
        let id = U256([words[at], words[at + 1], words[at + 2], words[at + 3]]);
        let time = words[at + 4];
        let ghost seen = held_jobs.subrange(0, j as int);
        assert(held_jobs[j as int] == (id@, time));
        if jobs.get(&id).is_some() {
            proof {
                assert(has_key(seen, id@));
                let k = crate::assoc::index_of(seen, id@);
                assert(held_jobs[k] == seen[k]);
                assert(held_jobs[k].0 == held_jobs[j as int].0);
            }
            return Err(ProtocolViolation::MalformedSnapshot);
        }
        jobs.upsert(id, time);
        proof {
            lemma_to_map_push(seen, id@, time);
            assert(held_jobs.subrange(0, j + 1) =~= seen.push((id@, time)));
        }
        j += 1;
    }
    assert(held_jobs.subrange(0, j as int) =~= held_jobs);
    Ok((jobs, cursor))
}

impl State {
    /// Whether two states differ at most in their job registry and their
    /// scraping cursor.
    pub open spec fn same_but_snapshot(self, other: State) -> bool {
        other == (State {
            job_execution_times: other.job_execution_times,
            last_scraped_block_number: other.last_scraped_block_number,
            ..self
        })
    }

    /// The snapshot to keep over a restart: the job registry and the
    /// scraping cursor.
    pub fn on_suspend(&self) -> (r: Vec<u8>)
        ensures
            r@ == snapshot_bytes(self.last_scraped_block_number@, self.job_execution_times@),
            parse_snapshot(r@) == Ok::<SnapshotView, ProtocolViolation>(
                SnapshotView {
                    cursor: self.last_scraped_block_number@,
                    jobs: self.job_execution_times@,
                },
            ),
    {
        snapshot(&self.job_execution_times, &self.last_scraped_block_number)
    }

    /// Takes the job registry and the scraping cursor from a snapshot, and
    /// leaves the rest of the state as it is. Fails, and changes nothing,
    /// where the bytes are no snapshot, or one of another version.
    pub fn on_resume(&mut self, bytes: &[u8]) -> (r: Result<(), ProtocolViolation>)
        ensures
            old(self).same_but_snapshot(*final(self)),
            match parse_snapshot(bytes@) {
                Ok(held) => r is Ok && final(self).job_execution_times@ == held.jobs
                    && final(self).last_scraped_block_number@ == held.cursor,
                Err(e) => r == Err::<(), ProtocolViolation>(e) && *final(self) == *old(self),
            },
    {
        match restore(bytes) {
            Ok((jobs, cursor)) => {
                self.job_execution_times = jobs;
                self.last_scraped_block_number = cursor;
                Ok(())
            },
            Err(e) => Err(e),
        }
    }
}

} // verus!
