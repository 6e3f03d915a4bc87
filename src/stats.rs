use vstd::prelude::*;
use std::collections::HashMap;
use vstd::std_specs::iter::IteratorSpec;

verus! {

broadcast use vstd::std_specs::hash::group_hash_axioms;

/// How many population samples the history keeps by default.
pub const DEFAULT_MAX_HISTORY: usize = 1000;

/// A 64-bit counter increased by one, stopping at the largest value.
pub open spec fn bump64(x: u64) -> u64 {
    if x < u64::MAX { (x + 1) as u64 } else { x }
}

/// A histogram with one more occurrence of `key`.
pub open spec fn histogram_add(h: Map<usize, usize>, key: usize) -> Map<usize, usize> {
    let c = if h.contains_key(key) { h[key] } else { 0 };
    h.insert(key, if c < usize::MAX { (c + 1) as usize } else { c })
}

/// A histogram with one less occurrence of `key`; a count that reaches zero
/// leaves the histogram, and an absent key changes nothing.
pub open spec fn histogram_remove(h: Map<usize, usize>, key: usize) -> Map<usize, usize> {
    if !h.contains_key(key) {
        h
    } else if h[key] <= 1 {
        h.remove(key)
    } else {
        h.insert(key, (h[key] - 1) as usize)
    }
}

/// The history after appending `sample`, dropping the oldest entry beyond `max` entries.
pub open spec fn history_after(h: Seq<usize>, sample: usize, max: int) -> Seq<usize> {
    let pushed = h.push(sample);
    if pushed.len() > max { pushed.drop_first() } else { pushed }
}

/// Counters, distributions and a bounded history of the simulation.
#[derive(Debug, Clone)]
pub struct Statistics {
    /// Instructions executed.
    pub total_instructions: u64,
    /// Organisms created.
    pub total_organisms_created: u64,
    /// Organisms that died.
    pub total_organisms_died: u64,
    /// Organisms currently alive.
    pub current_population: usize,
    /// Mutations applied.
    pub total_mutations: u64,
    /// Rejected reproductions.
    pub failed_replications: u64,
    /// Reproductions that produced an offspring.
    pub successful_replications: u64,
    /// Organism size to count.
    pub size_distribution: HashMap<usize, usize>,
    /// Generation to count.
    pub generation_distribution: HashMap<usize, usize>,
    /// Allocated cells at the last sample.
    pub memory_used: usize,
    /// Cells of the soup.
    pub memory_total: usize,
    /// Recent population samples, oldest first.
    pub population_history: Vec<usize>,
    /// The most samples the history keeps.
    pub max_history_size: usize,
}

impl Statistics {
    /// The counters never decrease from `self` to `other`.
    pub open spec fn counters_le(&self, other: &Statistics) -> bool {
        &&& self.total_instructions <= other.total_instructions
        &&& self.total_organisms_created <= other.total_organisms_created
        &&& self.total_organisms_died <= other.total_organisms_died
        &&& self.total_mutations <= other.total_mutations
        &&& self.failed_replications <= other.failed_replications
        &&& self.successful_replications <= other.successful_replications
    }

    /// The history holds at most `max_history_size` samples.
    pub open spec fn wf(&self) -> bool {
        self.population_history@.len() <= self.max_history_size
    }

    /// Fresh statistics for a soup of `memory_total` cells.
    pub fn new(memory_total: usize) -> (r: Statistics)
        ensures
            r.wf(),
            r.total_instructions == 0,
            r.total_organisms_created == 0,
            r.total_organisms_died == 0,
            r.current_population == 0,
            r.total_mutations == 0,
            r.failed_replications == 0,
            r.successful_replications == 0,
            r.size_distribution@ == Map::<usize, usize>::empty(),
            r.generation_distribution@ == Map::<usize, usize>::empty(),
            r.memory_used == 0,
            r.memory_total == memory_total,
            r.population_history@ == Seq::<usize>::empty(),
            r.max_history_size == DEFAULT_MAX_HISTORY,
    {
        Statistics {
            total_instructions: 0,
            total_organisms_created: 0,
            total_organisms_died: 0,
            current_population: 0,
            total_mutations: 0,
            failed_replications: 0,
            successful_replications: 0,
            size_distribution: HashMap::new(),
            generation_distribution: HashMap::new(),
            memory_used: 0,
            memory_total,
            population_history: Vec::new(),
            max_history_size: DEFAULT_MAX_HISTORY,
        }
    }

    /// Count one executed instruction.
    pub fn record_instruction(&mut self)
        ensures
            *final(self) == (Statistics { total_instructions: bump64(old(self).total_instructions), ..*old(self) }),
    {
        self.total_instructions = self.total_instructions.saturating_add(1);
    }

    /// Count a new organism of the given size and generation.
    pub fn record_birth(&mut self, size: usize, generation: usize)
        ensures
            final(self).total_organisms_created == bump64(old(self).total_organisms_created),
            final(self).current_population == crate::organism::bump(old(self).current_population),
            final(self).size_distribution@ == histogram_add(old(self).size_distribution@, size),
            final(self).generation_distribution@ == histogram_add(old(self).generation_distribution@, generation),
            final(self).total_instructions == old(self).total_instructions,
            final(self).total_organisms_died == old(self).total_organisms_died,
            final(self).total_mutations == old(self).total_mutations,
            final(self).failed_replications == old(self).failed_replications,
            final(self).successful_replications == old(self).successful_replications,
            final(self).memory_used == old(self).memory_used,
            final(self).memory_total == old(self).memory_total,
            final(self).population_history == old(self).population_history,
            final(self).max_history_size == old(self).max_history_size,
    {
        self.total_organisms_created = self.total_organisms_created.saturating_add(1);
        self.current_population = self.current_population.saturating_add(1);
        histogram_increment(&mut self.size_distribution, size);
        histogram_increment(&mut self.generation_distribution, generation);
    }

    /// Count a death of an organism of the given size and generation.
    pub fn record_death(&mut self, size: usize, generation: usize)
        ensures
            final(self).total_organisms_died == bump64(old(self).total_organisms_died),
            final(self).current_population == if old(self).current_population > 0 {
                (old(self).current_population - 1) as usize
            } else {
                0
            },
            final(self).size_distribution@ == histogram_remove(old(self).size_distribution@, size),
            final(self).generation_distribution@ == histogram_remove(old(self).generation_distribution@, generation),
            final(self).total_instructions == old(self).total_instructions,
            final(self).total_organisms_created == old(self).total_organisms_created,
            final(self).total_mutations == old(self).total_mutations,
            final(self).failed_replications == old(self).failed_replications,
            final(self).successful_replications == old(self).successful_replications,
            final(self).memory_used == old(self).memory_used,
            final(self).memory_total == old(self).memory_total,
            final(self).population_history == old(self).population_history,
            final(self).max_history_size == old(self).max_history_size,
    {
        self.total_organisms_died = self.total_organisms_died.saturating_add(1);
        self.current_population = self.current_population.saturating_sub(1);
        histogram_decrement(&mut self.size_distribution, size);
        histogram_decrement(&mut self.generation_distribution, generation);
    }

    /// Count one mutation.
    pub fn record_mutation(&mut self)
        ensures
            *final(self) == (Statistics { total_mutations: bump64(old(self).total_mutations), ..*old(self) }),
    {
        self.total_mutations = self.total_mutations.saturating_add(1);
    }

    /// Count a reproduction attempt and its outcome.
    pub fn record_replication(&mut self, success: bool)
        ensures
            success ==> *final(self) == (Statistics {
                successful_replications: bump64(old(self).successful_replications),
                ..*old(self)
            }),
            !success ==> *final(self) == (Statistics {
                failed_replications: bump64(old(self).failed_replications),
                ..*old(self)
            }),
    {
        if success {
            self.successful_replications = self.successful_replications.saturating_add(1);
        } else {
            self.failed_replications = self.failed_replications.saturating_add(1);
        }
    }

    /// Record how many cells are allocated.
    pub fn update_memory_usage(&mut self, used: usize)
        ensures
            *final(self) == (Statistics { memory_used: used, ..*old(self) }),
    {
        self.memory_used = used;
    }

    /// Append a population sample, dropping the oldest beyond the bound.
    pub fn update_history(&mut self, population: usize)
        ensures
            final(self).population_history@ == history_after(
                old(self).population_history@,
                population,
                old(self).max_history_size as int,
            ),
            old(self).wf() ==> final(self).wf(),
            final(self).max_history_size == old(self).max_history_size,
            final(self).total_instructions == old(self).total_instructions,
            final(self).total_organisms_created == old(self).total_organisms_created,
            final(self).total_organisms_died == old(self).total_organisms_died,
            final(self).current_population == old(self).current_population,
            final(self).total_mutations == old(self).total_mutations,
            final(self).failed_replications == old(self).failed_replications,
            final(self).successful_replications == old(self).successful_replications,
            final(self).size_distribution == old(self).size_distribution,
            final(self).generation_distribution == old(self).generation_distribution,
            final(self).memory_used == old(self).memory_used,
            final(self).memory_total == old(self).memory_total,
    {
        self.population_history.push(population);
        if self.population_history.len() > self.max_history_size {
            self.population_history.remove(0);
            assert(self.population_history@ =~= old(self).population_history@.push(population).drop_first());
        }
    }

    /// The most common organism size: a size whose count no other size exceeds;
    /// none when no size is recorded.
    pub fn most_common_size(&self) -> (r: Option<usize>)
        ensures
            r is None <==> self.size_distribution@.dom().len() == 0,
            r matches Some(s) ==> {
                &&& self.size_distribution@.contains_key(s)
                &&& forall|k: usize| #[trigger] self.size_distribution@.contains_key(k)
                    ==> self.size_distribution@[k] <= self.size_distribution@[s]
            },
    {
        let mut best: Option<usize> = None;
        let mut best_count: usize = 0;
        for (k, c) in it: self.size_distribution.iter()
            invariant
                it.seq() == vstd::std_specs::hash::spec_hash_map_iter(&self.size_distribution).remaining(),
                best is None <==> it.index() == 0,
                best matches Some(b) ==> self.size_distribution@.contains_key(b) && self.size_distribution@[b] == best_count,
                forall|i: int| 0 <= i < it.index() ==> *(#[trigger] it.seq()[i]).1 <= best_count,
        {
            if best.is_none() || *c > best_count {
                best = Some(*k);
                best_count = *c;
            }
        }
        proof {
            let v = vstd::std_specs::hash::spec_hash_map_iter(&self.size_distribution).remaining();
            assert forall|k: usize| #[trigger] self.size_distribution@.contains_key(k)
                implies self.size_distribution@[k] <= best_count by {
                assert(v.contains((&k, &self.size_distribution@[k])));
                let i = choose|i: int| 0 <= i < v.len() && v[i] == (&k, &self.size_distribution@[k]);
                assert(*v[i].1 <= best_count);
            }
            if self.size_distribution@.dom().len() > 0 {
                assert(v.len() > 0);
            }
        }
        best
    }

    /// The highest generation recorded, zero when none is.
    pub fn highest_generation(&self) -> (r: usize)
        ensures
            self.generation_distribution@.dom().len() == 0 ==> r == 0,
            self.generation_distribution@.dom().len() > 0 ==> self.generation_distribution@.contains_key(r),
            forall|g: usize| #[trigger] self.generation_distribution@.contains_key(g) ==> g <= r,
    {
        let mut best: Option<usize> = None;
        for (g, c) in it: self.generation_distribution.iter()
            invariant
                it.seq() == vstd::std_specs::hash::spec_hash_map_iter(&self.generation_distribution).remaining(),
                best is None <==> it.index() == 0,
                best matches Some(b) ==> self.generation_distribution@.contains_key(b),
                forall|i: int| 0 <= i < it.index() ==> (best matches Some(b) && *(#[trigger] it.seq()[i]).0 <= b),
        {
            match best {
                Some(b) => {
                    if *g > b {
                        best = Some(*g);
                    }
                },
                None => best = Some(*g),
            }
        }
        proof {
            let v = vstd::std_specs::hash::spec_hash_map_iter(&self.generation_distribution).remaining();
            assert forall|g: usize| #[trigger] self.generation_distribution@.contains_key(g)
                implies (best matches Some(b) && g <= b) by {
                assert(v.contains((&g, &self.generation_distribution@[g])));
                let i = choose|i: int| 0 <= i < v.len() && v[i] == (&g, &self.generation_distribution@[g]);
                assert(*v[i].0 <= best.unwrap());
            }
            if self.generation_distribution@.dom().len() > 0 {
                assert(v.len() > 0);
            }
        }
        match best {
            Some(b) => b,
            None => 0,
        }
    }
}

/// Add one occurrence of `key` to a histogram.
fn histogram_increment(h: &mut HashMap<usize, usize>, key: usize)
    ensures
        final(h)@ == histogram_add(old(h)@, key),
{
    let c: usize = match h.get(&key) {
        Some(c) => *c,
        None => 0,
    };
    h.insert(key, c.saturating_add(1));
}

/// Remove one occurrence of `key` from a histogram.
fn histogram_decrement(h: &mut HashMap<usize, usize>, key: usize)
    ensures
        final(h)@ == histogram_remove(old(h)@, key),
{
    match h.get(&key) {
        Some(c) => {
            let c = *c;
            if c <= 1 {
                h.remove(&key);
            } else {
                h.insert(key, c - 1);
            }
        },
        None => {},
    }
}

impl Default for Statistics {
    fn default() -> (r: Statistics)
        ensures
            r.wf(),
            r.memory_total == 65536,
            r.total_instructions == 0,
    {
        Statistics::new(65536)
    }
}

} // verus!
