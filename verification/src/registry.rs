//! The job registry: for each job identifier its scheduling parameter, with
//! the query for the job that is due first.

use crate::assoc::{
    ascending, has_key, is_ascending, lemma_ascending_insert, lemma_ascending_of,
    lemma_to_map_at, lemma_to_map_insert, lemma_to_map_len, lemma_to_map_remove,
    lemma_to_map_update, to_map,
};
use crate::u256::U256;
use vstd::prelude::*;

verus! {

/// The entries of a registry as pairs of numbers: each identifier by the
/// number it denotes.
pub open spec fn job_pairs(s: Seq<(U256, u64)>) -> Seq<(nat, u64)> {
    Seq::new(s.len(), |i: int| (s[i].0@, s[i].1))
}

/// Whether `(id, t)` is the entry of `m` that is due first: `t` is the least
/// scheduling parameter in `m`, and `id` is the least identifier that has it.
pub open spec fn is_earliest(m: Map<nat, u64>, id: nat, t: u64) -> bool {
    &&& m.contains_key(id)
    &&& m[id] == t
    &&& forall|k: nat| #[trigger] m.contains_key(k) ==> t < m[k] || (t == m[k] && id <= k)
}

/// At most one entry of a map is due first.
pub proof fn lemma_earliest_unique(m: Map<nat, u64>, a: nat, t: u64, b: nat, u: u64)
    requires
        is_earliest(m, a, t),
        is_earliest(m, b, u),
    ensures
        a == b,
        t == u,
{
}

/// The entry that is due first has the least scheduling parameter of all.
pub proof fn lemma_earliest_is_minimum(m: Map<nat, u64>, id: nat, t: u64, k: nat)
    requires
        is_earliest(m, id, t),
        m.contains_key(k),
    ensures
        t <= m[k],
{
}

/// The position of an identifier among the entries, if it is there.
fn find_job(entries: &Vec<(U256, u64)>, job_id: &U256) -> (r: Option<usize>)
    ensures
        match r {
            Some(i) => i < entries.len() && entries[i as int].0@ == job_id@,
            None => !has_key(job_pairs(entries@), job_id@),
        },
{
    let mut i: usize = 0;
    while i < entries.len()
        invariant
            i <= entries.len(),
            forall|j: int| 0 <= j < i ==> entries[j].0@ != job_id@,
        decreases entries.len() - i,
    {
        if entries[i].0.equals(job_id) {
            return Some(i);
        }
        i += 1;
    }
    proof {
        let p = job_pairs(entries@);
        if has_key(p, job_id@) {
            let j = choose|j: int| 0 <= j < p.len() && (#[trigger] p[j]).0 == job_id@;
            assert(entries[j].0@ == job_id@);
        }
    }
    None
}

/// The place of an identifier among entries that rise by identifier: the
/// first entry that is not below it, or the end.
fn job_place(entries: &Vec<(U256, u64)>, job_id: &U256) -> (r: usize)
    requires
        is_ascending(job_pairs(entries@)),
    ensures
        r <= entries.len(),
        forall|j: int| 0 <= j < r ==> entries[j].0@ < job_id@,
        forall|j: int| r <= j < entries.len() ==> job_id@ <= entries[j].0@,
{
    let mut i: usize = 0;
    while i < entries.len()
        invariant
            i <= entries.len(),
            is_ascending(job_pairs(entries@)),
            forall|j: int| 0 <= j < i ==> entries[j].0@ < job_id@,
        decreases entries.len() - i,
    {
        if !entries[i].0.less_than(job_id) {
            proof {
                let p = job_pairs(entries@);
                assert forall|j: int| i <= j < entries.len() implies job_id@ <= entries[j].0@ by {
                    if i < j {
                        assert(p[i as int].0 < p[j].0);
                    }
                }
            }
            return i;
        }
        i += 1;
    }
    i
}

/// The registry of scheduled jobs. No identifier has two entries, and the
/// entries are kept in the order of their identifiers.
#[derive(Debug)]
pub struct JobRegistry {
    entries: Vec<(U256, u64)>,
}

impl View for JobRegistry {
    type V = Map<nat, u64>;

    /// The scheduling parameter of each registered job, by the number of its
    /// identifier.
    open spec fn view(&self) -> Map<nat, u64> {
        to_map(job_pairs(self.entries()))
    }
}

impl Clone for JobRegistry {
    fn clone(&self) -> (r: Self)
        ensures
            r.entries() == self.entries(),
            r@ == self@,
    {
        proof {
            use_type_invariant(self);
        }
        let mut entries: Vec<(U256, u64)> = Vec::new();
        let mut i: usize = 0;
        while i < self.entries.len()
            invariant
                i <= self.entries.len(),
                entries@ == self.entries@.subrange(0, i as int),
            decreases self.entries.len() - i,
        {
            entries.push(self.entries[i]);
            assert(entries@ =~= self.entries@.subrange(0, i + 1));
            i += 1;
        }
        assert(entries@ =~= self.entries@);
        JobRegistry { entries }
    }
}

impl JobRegistry {
    #[verifier::type_invariant]
    spec fn rising(self) -> bool {
        is_ascending(job_pairs(self.entries@))
    }

    /// The entries in the order in which the registry keeps them: by rising
    /// identifier.
    pub closed spec fn entries(self) -> Seq<(U256, u64)> {
        self.entries@
    }

    /// A registry without jobs.
    pub fn new() -> (r: JobRegistry)
        ensures
            r@ == Map::<nat, u64>::empty(),
            r.entries() == Seq::<(U256, u64)>::empty(),
    {
        let r = JobRegistry { entries: Vec::new() };
        assert(r@ =~= Map::<nat, u64>::empty());
        r
    }

    /// The number of registered jobs.
    pub fn len(&self) -> (r: usize)
        ensures
            r == self@.dom().len(),
            r == self.entries().len(),
            self@.dom().finite(),
    {
        proof {
            use_type_invariant(self);
            lemma_to_map_len(job_pairs(self.entries@));
        }
        self.entries.len()
    }

    /// Whether no job is registered.
    pub fn is_empty(&self) -> (r: bool)
        ensures
            r == (self@ == Map::<nat, u64>::empty()),
    {
        proof {
            use_type_invariant(self);
            if self.entries@.len() > 0 {
                lemma_to_map_at(job_pairs(self.entries@), 0);
            } else {
                assert(self@ =~= Map::<nat, u64>::empty());
            }
        }
        self.entries.len() == 0
    }

    /// The scheduling parameter of a job, if the job is registered.
    pub fn get(&self, job_id: &U256) -> (r: Option<u64>)
        ensures
            r == (if self@.contains_key(job_id@) {
                Some(self@[job_id@])
            } else {
                None
            }),
    {
        proof {
            use_type_invariant(self);
        }
        match find_job(&self.entries, job_id) {
            Some(i) => {
                proof {
                    lemma_to_map_at(job_pairs(self.entries@), i as int);
                }
                Some(self.entries[i].1)
            },
            None => None,
        }
    }

    /// Registers a job, or gives a registered job a new scheduling parameter.
    pub fn upsert(&mut self, job_id: U256, scheduling_parameter: u64)
        ensures
            final(self)@ == old(self)@.insert(job_id@, scheduling_parameter),
    {
        proof {
            use_type_invariant(&*self);
        }
        let mut entries: Vec<(U256, u64)> = Vec::new();
        std::mem::swap(&mut entries, &mut self.entries);
        let ghost before = job_pairs(entries@);
        let place = job_place(&entries, &job_id);
        if place < entries.len() && entries[place].0.equals(&job_id) {
            entries.set(place, (job_id, scheduling_parameter));
            proof {
                lemma_to_map_update(before, place as int, scheduling_parameter);
                let after = job_pairs(entries@);
                assert(after =~= before.update(
                    place as int,
                    (before[place as int].0, scheduling_parameter),
                ));
                assert forall|i: int, j: int| 0 <= i < j < after.len() implies (
                #[trigger] after[i]).0 < (#[trigger] after[j]).0 by {
                    assert(after[i].0 == before[i].0 && after[j].0 == before[j].0);
                }
            }
        } else {
            entries.insert(place, (job_id, scheduling_parameter));
            proof {
                assert forall|j: int| place <= j < before.len() implies job_id@ < (
                #[trigger] before[j]).0 by {
                    if j > place {
                        assert(before[place as int].0 < before[j].0);
                    }
                }
                lemma_ascending_insert(before, place as int, job_id@, scheduling_parameter);
                lemma_to_map_insert(before, place as int, job_id@, scheduling_parameter);
                assert(job_pairs(entries@) =~= before.insert(
                    place as int,
                    (job_id@, scheduling_parameter),
                ));
            }
        }
        self.entries = entries;
    }

    /// Takes a job out of the registry and returns the scheduling parameter
    /// it had. Leaves the registry as it is where the job is not registered.
    pub fn remove(&mut self, job_id: &U256) -> (r: Option<u64>)
        ensures
            final(self)@ == old(self)@.remove(job_id@),
            r == (if old(self)@.contains_key(job_id@) {
                Some(old(self)@[job_id@])
            } else {
                None
            }),
            r is None ==> final(self).entries() == old(self).entries(),
    {
        proof {
            use_type_invariant(&*self);
        }
        match find_job(&self.entries, job_id) {
            Some(i) => {
                let mut entries: Vec<(U256, u64)> = Vec::new();
                std::mem::swap(&mut entries, &mut self.entries);
                let ghost before = job_pairs(entries@);
                let removed = entries.remove(i);
                proof {
                    lemma_to_map_at(before, i as int);
                    lemma_to_map_remove(before, i as int);
                    let after = job_pairs(entries@);
                    assert(after =~= before.remove(i as int));
                    assert forall|a: int, b: int| 0 <= a < b < after.len() implies (
                    #[trigger] after[a]).0 < (#[trigger] after[b]).0 by {
                        let a1 = if a < i {
                            a
                        } else {
                            a + 1
                        };
                        let b1 = if b < i {
                            b
                        } else {
                            b + 1
                        };
                        assert(after[a] == before[a1] && after[b] == before[b1]);
                        assert(before[a1].0 < before[b1].0);
                    }
                }
                self.entries = entries;
                Some(removed.1)
            },
            None => {
                assert(self@ =~= self@.remove(job_id@));
                None
            },
        }
    }

    /// The job that is due first: the entry with the least scheduling
    /// parameter and, among those that share it, the least identifier.
    /// `None` exactly where no job is registered.
    pub fn earliest(&self) -> (r: Option<(U256, u64)>)
        ensures
            match r {
                Some((id, t)) => is_earliest(self@, id@, t),
                None => self@ == Map::<nat, u64>::empty(),
            },
    {
        proof {
            use_type_invariant(self);
        }
        let n = self.entries.len();
        if n == 0 {
            assert(self@ =~= Map::<nat, u64>::empty());
            return None;
        }
        let ghost pairs = job_pairs(self.entries@);
        let mut best: usize = 0;
        let mut i: usize = 1;
        while i < n
            invariant
                n == self.entries.len(),
                pairs == job_pairs(self.entries@),
                1 <= i <= n,
                best < i,
                forall|j: int|
                    0 <= j < i ==> pairs[best as int].1 < (#[trigger] pairs[j]).1 || (pairs[best as int].1
                        == pairs[j].1 && pairs[best as int].0 <= pairs[j].0),
            decreases n - i,
        {
            let candidate = &self.entries[i];
            let held = &self.entries[best];
            if candidate.1 < held.1 || (candidate.1 == held.1 && candidate.0.less_than(&held.0)) {
                best = i;
            }
            i += 1;
        }
        let found = self.entries[best];
        proof {
            lemma_to_map_at(pairs, best as int);
            assert forall|k: nat| #[trigger] self@.contains_key(k) implies found.1 < self@[k] || (
            found.1 == self@[k] && found.0@ <= k) by {
                let j = crate::assoc::index_of(pairs, k);
                lemma_to_map_at(pairs, j);
            }
        }
        Some(found)
    }

    /// The entries of the registry, in the order of their identifiers.
    pub fn to_entries(&self) -> (r: Vec<(U256, u64)>)
        ensures
            r@ == self.entries(),
            is_ascending(job_pairs(r@)),
            job_pairs(r@) == ascending(self@),
    {
        proof {
            use_type_invariant(self);
            lemma_ascending_of(job_pairs(self.entries@));
        }
        self.clone().entries
    }
}

} // verus!
