use vstd::prelude::*;
use vstd::arithmetic::div_mod::{lemma_mod_bound, lemma_small_mod};
use rand::rngs::StdRng;
use crate::memory::{add_mod, cell_at};
use crate::organism::{Organism, OrganismView};
use crate::random::{random_below, random_ratio};

verus! {

/// The default number of instructions an organism runs per turn.
pub const DEFAULT_TIME_SLICE: usize = 25;

/// The live organisms of a population, in order.
pub open spec fn alive_only(s: Seq<Organism>) -> Seq<Organism>
    decreases s.len(),
{
    if s.len() == 0 {
        s
    } else if s.last().alive {
        alive_only(s.drop_last()).push(s.last())
    } else {
        alive_only(s.drop_last())
    }
}

/// Whether any organism of the population is alive.
pub open spec fn any_alive(s: Seq<Organism>) -> bool {
    exists|j: int| 0 <= j < s.len() && #[trigger] s[j].alive
}

/// The number of live organisms of a population.
pub fn live_count(organisms: &Vec<Organism>) -> (r: usize)
    ensures
        r == alive_only(organisms@).len(),
{
    let mut count: usize = 0;
    let mut i: usize = 0;
    while i < organisms.len()
        invariant
            i <= organisms@.len(),
            count == alive_only(organisms@.take(i as int)).len(),
            count <= i,
        decreases organisms@.len() - i,
    {
        assert(organisms@.take(i as int + 1).drop_last() =~= organisms@.take(i as int));
        if organisms[i].alive {
            count += 1;
        }
        i += 1;
    }
    assert(organisms@.take(i as int) =~= organisms@);
    count
}

/// Round-robin scheduler over the population, with occasional random jumps.
pub struct Scheduler {
    /// Cursor: where the next search for a live organism starts.
    pub current_index: usize,
    /// Instructions per organism per turn.
    pub time_slice: usize,
}

impl Scheduler {
    /// A scheduler whose cursor starts at the first organism.
    pub fn new(time_slice: usize) -> (r: Scheduler)
        ensures
            r.current_index == 0,
            r.time_slice == time_slice,
    {
        Scheduler { current_index: 0, time_slice }
    }

    /// Pick the next live organism: with probability one in ten the cursor
    /// first jumps to a random organism. The chosen organism's energy is set to
    /// the time slice.
    pub fn select_next(&mut self, organisms: &mut Vec<Organism>, rng: &mut StdRng) -> (r: Option<usize>)
        ensures
            final(self).time_slice == old(self).time_slice,
            final(organisms)@.len() == old(organisms)@.len(),
            r is None <==> !any_alive(old(organisms)@),
            r is None ==> final(organisms)@ == old(organisms)@,
            r matches Some(i) ==> {
                &&& i < old(organisms)@.len()
                &&& old(organisms)@[i as int].alive
                &&& final(self).current_index == (i + 1) % (old(organisms)@.len() as int)
                &&& final(organisms)@[i as int]@ == (OrganismView {
                    energy: old(self).time_slice,
                    ..old(organisms)@[i as int]@
                })
                &&& forall|j: int| 0 <= j < old(organisms)@.len() && j != i ==>
                    #[trigger] final(organisms)@[j] == old(organisms)@[j]
            },
    {
        if organisms.len() == 0 {
            return None;
        }
        if random_ratio(rng, 1, 10) {
            self.current_index = random_below(rng, organisms.len());
        }
        self.select_from(organisms)
    }

    /// Pick the first live organism at or after the cursor, wrapping around;
    /// the cursor then moves just past it, and its energy is set to the time slice.
    pub fn select_from(&mut self, organisms: &mut Vec<Organism>) -> (r: Option<usize>)
        ensures
            final(self).time_slice == old(self).time_slice,
            final(organisms)@.len() == old(organisms)@.len(),
            r is None <==> !any_alive(old(organisms)@),
            r is None ==> final(organisms)@ == old(organisms)@,
            r matches Some(i) ==> {
                let len = old(organisms)@.len() as int;
                let start = old(self).current_index as int % len;
                &&& i < len
                &&& old(organisms)@[i as int].alive
                &&& forall|d: int| 0 <= d < (i - start) % len ==>
                    !(#[trigger] old(organisms)@[cell_at(start, d, len)]).alive
                &&& final(self).current_index == (i + 1) % len
                &&& final(organisms)@[i as int]@ == (OrganismView {
                    energy: old(self).time_slice,
                    ..old(organisms)@[i as int]@
                })
                &&& forall|j: int| 0 <= j < len && j != i ==>
                    #[trigger] final(organisms)@[j] == old(organisms)@[j]
            },
    {
        let len = organisms.len();
        if len == 0 {
            return None;
        }
        let start = self.current_index % len;
        let mut d: usize = 0;
        while d < len
            invariant
                len == organisms@.len(),
                len > 0,
                *organisms == *old(organisms),
                *self == *old(self),
                start == old(self).current_index as int % len as int,
                d <= len,
                forall|e: int| 0 <= e < d ==> !(#[trigger] organisms@[cell_at(start as int, e, len as int)]).alive,
            decreases len - d,
        {
            let idx = add_mod(start, d, len);
            if organisms[idx].alive {
                proof {
                    lemma_small_mod(d as nat, len as nat);
                    lemma_mod_bound(start as int + d as int, len as int);
                    crate::memory::lemma_ring_offset(start as int, d as int, len as int);
                }
                self.current_index = add_mod(idx, 1 % len, len);
                proof {
                    if len > 1 {
                        lemma_small_mod(1, len as nat);
                    }
                    vstd::arithmetic::div_mod::lemma_add_mod_noop(idx as int, 1, len as int);
                    lemma_small_mod(idx as nat, len as nat);
                }
                let ts = self.time_slice;
                organisms[idx].reset_energy(ts);
                return Some(idx);
            }
            d += 1;
        }
        proof {
            assert forall|j: int| 0 <= j < len implies !(#[trigger] organisms@[j]).alive by {
                crate::memory::lemma_ring_offset_inverse(start as int, j, len as int);
                let e = (j - start) % (len as int);
                assert(cell_at(start as int, e, len as int) == j);
            }
        }
        None
    }

    /// Remove dead organisms, keeping the order of the living; returns how many were removed.
    pub fn reap_dead(organisms: &mut Vec<Organism>) -> (r: usize)
        ensures
            final(organisms)@ == alive_only(old(organisms)@),
            r == old(organisms)@.len() - final(organisms)@.len(),
    {
        let initial_count = organisms.len();
        let ghost orig = organisms@;
        let mut i: usize = 0;
        let mut j: usize = 0;
        while j < initial_count
            invariant
                initial_count == orig.len(),
                orig == old(organisms)@,
                j <= initial_count,
                i <= j,
                alive_only(orig.take(j as int)).len() == i,
                organisms@ == alive_only(orig.take(j as int)) + orig.skip(j as int),
            decreases initial_count - j,
        {
            assert(orig.take(j as int + 1).drop_last() =~= orig.take(j as int));
            assert(orig.take(j as int + 1).last() == orig[j as int]);
            assert(organisms@[i as int] == orig[j as int]);
            if organisms[i].alive {
                i += 1;
                j += 1;
                assert(organisms@ =~= alive_only(orig.take(j as int)) + orig.skip(j as int));
            } else {
                organisms.remove(i);
                j += 1;
                assert(organisms@ =~= alive_only(orig.take(j as int)) + orig.skip(j as int));
            }
        }
        assert(orig.take(j as int) =~= orig);
        assert(organisms@ =~= alive_only(orig));
        proof {
            lemma_alive_only_len(orig);
        }
        initial_count - organisms.len()
    }
}

/// Keeping the living never lengthens a population.
pub proof fn lemma_alive_only_len(s: Seq<Organism>)
    ensures
        alive_only(s).len() <= s.len(),
    decreases s.len(),
{
    if s.len() > 0 {
        lemma_alive_only_len(s.drop_last());
    }
}

/// Every organism that survives reaping is alive, and reaping a population
/// with no live organism leaves none.
pub proof fn lemma_alive_only_alive(s: Seq<Organism>)
    ensures
        forall|j: int| 0 <= j < alive_only(s).len() ==> (#[trigger] alive_only(s)[j]).alive,
        !any_alive(s) ==> alive_only(s).len() == 0,
    decreases s.len(),
{
    if s.len() > 0 {
        let p = s.drop_last();
        lemma_alive_only_alive(p);
        assert(s.last() == s[s.len() - 1]);
        if !any_alive(s) {
            assert(!any_alive(p)) by {
                if any_alive(p) {
                    let j = choose|j: int| 0 <= j < p.len() && #[trigger] p[j].alive;
                    assert(s[j] == p[j]);
                }
            }
        }
        if s.last().alive {
            let a = alive_only(s);
            assert forall|j: int| 0 <= j < a.len() implies (#[trigger] a[j]).alive by {
                if j < alive_only(p).len() {
                    assert(a[j] == alive_only(p)[j]);
                }
            }
        }
    }
}

impl Default for Scheduler {
    fn default() -> (r: Scheduler)
        ensures
            r.current_index == 0,
            r.time_slice == DEFAULT_TIME_SLICE,
    {
        Scheduler::new(DEFAULT_TIME_SLICE)
    }
}

} // verus!
