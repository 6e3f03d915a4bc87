use vstd::prelude::*;
use rand::rngs::StdRng;
use crate::cpu::{cpu_step, lemma_cpu_step_wf, ExecutionResult, CPU};
use crate::instruction::{Instruction, OPCODE_COUNT};
use crate::memory::{cell_at, fit_exists, in_span, with_range, Memory, PROBABILITY_SCALE};
use crate::organism::{bump, Organism, OrganismView, INITIAL_ENERGY};
use crate::random::{new_rng, random_below, random_ratio};
use crate::scheduler::{alive_only, any_alive, Scheduler};
use crate::accounting::{
    allocation_sound, cover_count, covers, lemma_birth_keeps_sound, lemma_cover_count_alive_only,
    lemma_cover_count_member, lemma_cover_count_none, lemma_cover_count_update, lemma_sound_update,
    lemma_span_reaches, lemma_spans_meet,
};
use crate::stats::{bump64, histogram_add, Statistics};

verus! {

/// The largest soup the simulator accepts: addresses within a home region stay below `usize::MAX`.
pub const MAX_MEMORY_SIZE: usize = usize::MAX / 2;

/// Template markers at each end of the ancestor.
pub const ANCESTOR_MARKERS: usize = 4;

/// `IncA` instructions of the ancestor: the size of the block it requests.
pub const ANCESTOR_INCREMENTS: usize = 80;

/// Length of the ancestor's genome.
pub const ANCESTOR_SIZE: usize = 92;

/// Instructions between two reapings of dead organisms.
pub const REAP_INTERVAL: u64 = 1000;

/// Instructions between two statistics samples.
pub const SAMPLE_INTERVAL: u64 = 100;

/// The ancestor's genome: four `Nop1`, eighty `IncA`, then `MallocA`,
/// `PushA`, `PopC`, `Divide`, and four `Nop0`.
pub open spec fn ancestor_genome() -> Seq<Instruction> {
    Seq::new(ANCESTOR_SIZE as nat, |i: int|
        if i < 4 {
            Instruction::Nop1
        } else if i < 84 {
            Instruction::IncA
        } else if i == 84 {
            Instruction::MallocA
        } else if i == 85 {
            Instruction::PushA
        } else if i == 86 {
            Instruction::PopC
        } else if i == 87 {
            Instruction::Divide
        } else {
            Instruction::Nop0
        })
}

/// Settings of a simulation.
#[derive(Debug, Clone)]
pub struct SimulationConfig {
    /// Cells in the soup.
    pub memory_size: usize,
    /// Probability, in parts per million, that a copied cell mutates.
    pub mutation_rate: u32,
    /// Most organisms the population may hold; reproduction fails beyond it.
    pub max_population: usize,
    /// Instructions per organism per turn.
    pub time_slice: usize,
}

impl Default for SimulationConfig {
    fn default() -> (r: SimulationConfig)
        ensures
            r.memory_size == 65536,
            r.mutation_rate == 1000,
            r.max_population == 200,
            r.time_slice == 25,
    {
        SimulationConfig { memory_size: 65536, mutation_rate: 1000, max_population: 200, time_slice: 25 }
    }
}

/// An organism lies in a soup of `n` cells: well formed, starting inside the
/// soup, and no larger than it.
pub open spec fn organism_ok(o: Organism, n: int) -> bool {
    &&& o@.wf()
    &&& o.address < n
    &&& o.size <= n
}

/// The simulation: soup, population, processor, scheduler and statistics.
pub struct Simulator {
    /// The soup.
    pub memory: Memory,
    /// The population, in order of insertion.
    pub organisms: Vec<Organism>,
    /// The processor.
    pub cpu: CPU,
    /// The scheduler.
    pub scheduler: Scheduler,
    /// Counters and history.
    pub stats: Statistics,
    /// The settings.
    pub config: SimulationConfig,
    /// Source of allocation placements, mutations and scheduling jumps.
    pub rng: StdRng,
    /// The identifier the next organism receives.
    pub next_organism_id: usize,
    /// Whether the host is running steps continuously.
    pub running: bool,
}

impl Simulator {
    /// The invariant kept by every step: a soup of the configured size, every
    /// organism (live or not) inside it with its pointer in its home region and
    /// a stack of at most ten entries, a bounded history, and a population in
    /// agreement with the allocation bitmap (no cell covered by two live
    /// organisms, every covered cell allocated).
    pub open spec fn wf(&self) -> bool {
        &&& self.memory.wf()
        &&& self.memory.spec_size() == self.config.memory_size
        &&& self.config.memory_size <= MAX_MEMORY_SIZE
        &&& self.stats.wf()
        &&& self.scheduler.time_slice == self.config.time_slice
        &&& forall|j: int| 0 <= j < self.organisms@.len() ==>
            organism_ok(#[trigger] self.organisms@[j], self.config.memory_size as int)
        &&& self.sound()
    }

    /// A simulator with an empty soup of the configured size and no organisms.
    pub fn new(config: SimulationConfig) -> (r: Simulator)
        requires
            config.memory_size <= MAX_MEMORY_SIZE,
        ensures
            r.wf(),
            r.sound(),
            r.config == config,
            r.organisms@.len() == 0,
            r.memory.bits() == Seq::new(config.memory_size as nat, |i: int| false),
            r.stats.total_instructions == 0,
            r.stats.current_population == 0,
            r.scheduler.time_slice == config.time_slice,
            r.cpu.max_search == crate::cpu::DEFAULT_MAX_SEARCH,
    {
        let memory = Memory::new(config.memory_size);
        let stats = Statistics::new(config.memory_size);
        let scheduler = Scheduler::new(config.time_slice);
        let ghost empty = Seq::<Organism>::empty();
        assert forall|c: int| 0 <= c < memory.bits().len() implies
            #[trigger] cover_count(empty, c, memory.bits().len() as int) == 0 by {}
        Simulator {
            memory,
            organisms: Vec::new(),
            cpu: CPU::new(),
            scheduler,
            stats,
            config,
            rng: new_rng(),
            next_organism_id: 0,
            running: false,
        }
    }

    /// Place the ancestor in a freshly allocated block and add it to the
    /// population; nothing happens when no block of its size is free.
    pub fn initialize_with_ancestor(&mut self)
        requires
            old(self).wf(),
        ensures
            final(self).wf(),
            old(self).sound() ==> final(self).sound(),
            old(self).stats.counters_le(&final(self).stats),
            final(self).config == old(self).config,
            !fit_exists(old(self).memory.bits(), ANCESTOR_SIZE as int) ==> {
                &&& final(self).organisms@ == old(self).organisms@
                &&& final(self).memory.bits() == old(self).memory.bits()
            },
            ANCESTOR_SIZE <= old(self).config.memory_size && fit_exists(old(self).memory.bits(), ANCESTOR_SIZE as int) ==> {
                let o = final(self).organisms@.last();
                &&& final(self).organisms@.len() == old(self).organisms@.len() + 1
                &&& final(self).organisms@.drop_last() == old(self).organisms@
                &&& o.address + ANCESTOR_SIZE <= old(self).config.memory_size
                &&& o@ == (OrganismView {
                    id: old(self).next_organism_id,
                    ip: o.address,
                    address: o.address,
                    size: ANCESTOR_SIZE,
                    ax: 0,
                    bx: 0,
                    cx: 0,
                    dx: 0,
                    stack: Seq::empty(),
                    genome_length: ANCESTOR_SIZE,
                    generation: 0,
                    parent_id: None,
                    cycles: 0,
                    errors: 0,
                    alive: true,
                    energy: crate::organism::INITIAL_ENERGY,
                })
                &&& final(self).memory.cells().subrange(o.address as int, o.address + ANCESTOR_SIZE) == ancestor_genome()
                &&& final(self).memory.bits() == with_range(old(self).memory.bits(), o.address as int, ANCESTOR_SIZE as int, true)
                &&& final(self).stats.current_population == crate::organism::bump(old(self).stats.current_population)
            },
    {
        let ancestor = create_ancestor();
        let size = ancestor.len();
        match self.memory.allocate(size, &mut self.rng) {
            Some(addr) => {
                let ghost cells0 = self.memory.cells();
                let mut i: usize = 0;
                while i < size
                    invariant
                        self.memory.wf(),
                        self.memory.spec_size() == self.config.memory_size,
                        self.config == old(self).config,
                        self.organisms == old(self).organisms,
                        self.scheduler == old(self).scheduler,
                        self.stats == old(self).stats,
                        self.next_organism_id == old(self).next_organism_id,
                        size == ANCESTOR_SIZE,
                        ancestor@ == ancestor_genome(),
                        addr + size <= self.config.memory_size,
                        self.memory.bits() == with_range(old(self).memory.bits(), addr as int, size as int, true),
                        i <= size,
                        self.memory.cells().len() == cells0.len(),
                        forall|j: int| 0 <= j < i ==> #[trigger] self.memory.cells()[addr + j] == ancestor@[j],
                    decreases size - i,
                {
                    proof {
                        vstd::arithmetic::div_mod::lemma_small_mod((addr + i) as nat, self.config.memory_size as nat);
                    }
                    self.memory.write(addr + i, ancestor[i]);
                    i += 1;
                }
                assert(self.memory.cells().subrange(addr as int, addr + ANCESTOR_SIZE) =~= ancestor_genome()) by {
                    assert forall|j: int| 0 <= j < ANCESTOR_SIZE implies
                        self.memory.cells().subrange(addr as int, addr + ANCESTOR_SIZE)[j] == ancestor_genome()[j] by {
                        assert(self.memory.cells()[addr + j] == ancestor@[j]);
                    }
                }
                let organism = Organism::new(self.next_organism_id, addr, size, 0, None);
                self.next_organism_id = self.next_organism_id.saturating_add(1);
                proof {
                    if old(self).sound() {
                        let m = self.memory.bits().len() as int;
                        let bits = self.memory.bits();
                        assert(allocation_sound(self.organisms@, bits)) by {
                            assert forall|c: int| 0 <= c < m implies {
                                &&& #[trigger] cover_count(self.organisms@, c, m) <= 1
                                &&& cover_count(self.organisms@, c, m) > 0 ==> bits[c]
                            } by {
                                assert(cover_count(old(self).organisms@, c, m) <= 1);
                            }
                        }
                        assert forall|c: int| 0 <= c < m && #[trigger] covers(organism, c, m)
                            implies bits[c] && cover_count(self.organisms@, c, m) == 0 by {
                            crate::memory::lemma_span_no_wrap(c, addr as int, size as int, m);
                            assert(!old(self).memory.bits()[c]);
                        }
                        lemma_birth_keeps_sound(self.organisms@, bits, organism);
                    }
                }
                self.organisms.push(organism);
                self.stats.record_birth(size, 0);
                assert(self.organisms@.drop_last() =~= old(self).organisms@);
            },
            None => {},
        }
    }

    /// The population and the allocation bitmap agree (see `allocation_sound`).
    pub open spec fn sound(&self) -> bool {
        allocation_sound(self.organisms@, self.memory.bits())
    }

    /// Whether the `len` cells from `start` (modulo the soup size) are all
    /// allocated and covered by no live organism: a block set aside by a
    /// `MallocA` and not yet given to a child.
    pub open spec fn region_reserved(&self, start: int, len: int) -> bool {
        let n = self.memory.spec_size() as int;
        forall|c: int| 0 <= c < n && #[trigger] in_span(c, start, len, n)
            ==> self.memory.bits()[c] && cover_count(self.organisms@, c, n) == 0
    }

    /// Whether a divide by `p` succeeds: the population is below its cap,
    /// `cx` is positive and at most a tenth of the soup, and the child's
    /// region (`cx` cells at `bx` modulo the soup size) is reserved.
    pub open spec fn divide_accepted(&self, p: Organism) -> bool {
        let n = self.config.memory_size as int;
        &&& self.organisms@.len() < self.config.max_population
        &&& 0 < p.cx <= self.config.memory_size / 10
        &&& self.region_reserved(p.bx as int % n, p.cx as int)
    }

    /// Whether the `len` cells from `start` are reserved (see `region_reserved`).
    pub fn is_region_reserved(&self, start: usize, len: usize) -> (r: bool)
        requires
            self.wf(),
            start < self.config.memory_size,
            0 < len <= self.config.memory_size,
        ensures
            r == self.region_reserved(start as int, len as int),
    {
        let n = self.memory.size();
        let mut k: usize = 0;
        while k < len
            invariant
                self.wf(),
                n == self.config.memory_size,
                start < n,
                0 < len <= n,
                k <= len,
                forall|i: int| 0 <= i < k ==> self.memory.bits()[#[trigger] cell_at(start as int, i, n as int)],
            decreases len - k,
        {
            proof {
                vstd::arithmetic::div_mod::lemma_small_mod(k as nat, n as nat);
                vstd::arithmetic::div_mod::lemma_add_mod_noop(start as int, k as int, n as int);
                vstd::arithmetic::div_mod::lemma_small_mod(start as nat, n as nat);
            }
            let c = crate::memory::add_mod(start, k % n, n);
            if !self.memory.is_allocated(c) {
                proof {
                    assert(c as int == cell_at(start as int, k as int, n as int));
                    assert(in_span(c as int, start as int, len as int, n as int));
                }
                return false;
            }
            k += 1;
        }
        let mut j: usize = 0;
        while j < self.organisms.len()
            invariant
                self.wf(),
                n == self.config.memory_size,
                start < n,
                0 < len <= n,
                j <= self.organisms@.len(),
                forall|i: int| 0 <= i < len ==> self.memory.bits()[#[trigger] cell_at(start as int, i, n as int)],
                forall|i: int| 0 <= i < j ==> !((#[trigger] self.organisms@[i]).alive && (
                    (start - self.organisms@[i].address) % (n as int) < self.organisms@[i].size
                    || (self.organisms@[i].address - start) % (n as int) < len)),
            decreases self.organisms@.len() - j,
        {
            assert(organism_ok(self.organisms@[j as int], n as int));
            let a = self.organisms[j].address;
            let sz = self.organisms[j].size;
            if self.organisms[j].alive && (crate::memory::sub_mod(start, a, n) < sz || crate::memory::sub_mod(a, start, n) < len) {
                proof {
                    let m = n as int;
                    if (start - a) % m < sz {
                        lemma_span_reaches(a as int, sz as int, start as int, m);
                        vstd::arithmetic::div_mod::lemma_small_mod(start as nat, n as nat);
                        assert(cell_at(start as int, 0, m) == start);
                        assert(in_span(start as int, start as int, len as int, m));
                        assert(covers(self.organisms@[j as int], start as int, m));
                        lemma_cover_count_member(self.organisms@, j as int, start as int, m);
                    } else {
                        lemma_span_reaches(start as int, len as int, a as int, m);
                        vstd::arithmetic::div_mod::lemma_small_mod(a as nat, n as nat);
                        assert(cell_at(a as int, 0, m) == a);
                        assert(covers(self.organisms@[j as int], a as int, m));
                        lemma_cover_count_member(self.organisms@, j as int, a as int, m);
                    }
                }
                return false;
            }
            j += 1;
        }
        proof {
            let m = n as int;
            assert forall|c: int| 0 <= c < m && #[trigger] in_span(c, start as int, len as int, m)
                implies self.memory.bits()[c] && cover_count(self.organisms@, c, m) == 0 by {
                let w = choose|w: int| 0 <= w < len && #[trigger] cell_at(start as int, w, m) == c;
                assert(self.memory.bits()[cell_at(start as int, w, m)]);
                assert forall|i: int| 0 <= i < self.organisms@.len() implies !covers(#[trigger] self.organisms@[i], c, m) by {
                    let o = self.organisms@[i];
                    assert(organism_ok(o, m));
                    if covers(o, c, m) {
                        lemma_spans_meet(o.address as int, o.size as int, start as int, len as int, m, c);
                    }
                }
                lemma_cover_count_none(self.organisms@, c, m);
            }
        }
        true
    }

    /// Give the next scheduled organism one time slice, then reap dead
    /// organisms when the instruction count is a multiple of a thousand and
    /// sample the statistics when it is a multiple of a hundred. The population
    /// and the allocation bitmap stay in agreement, and while some organism
    /// lives, at least one instruction runs.
    pub fn step(&mut self)
        requires
            old(self).wf(),
        ensures
            final(self).wf(),
            old(self).stats.counters_le(&final(self).stats),
            final(self).config == old(self).config,
            old(self).sound() ==> final(self).sound(),
            final(self).stats.total_instructions <= old(self).stats.total_instructions + old(self).config.time_slice,
            any_alive(old(self).organisms@) && old(self).config.time_slice > 0
                && old(self).stats.total_instructions < u64::MAX
                ==> final(self).stats.total_instructions > old(self).stats.total_instructions,
            !any_alive(old(self).organisms@) ==> {
                &&& final(self).memory == old(self).memory
                &&& !any_alive(final(self).organisms@)
                &&& final(self).stats.total_instructions == old(self).stats.total_instructions
                &&& final(self).stats.total_organisms_created == old(self).stats.total_organisms_created
                &&& final(self).stats.total_organisms_died == old(self).stats.total_organisms_died
                &&& final(self).stats.successful_replications == old(self).stats.successful_replications
                &&& final(self).stats.failed_replications == old(self).stats.failed_replications
            },
            final(self).stats.total_instructions % REAP_INTERVAL == 0 ==>
                forall|j: int| 0 <= j < final(self).organisms@.len() ==> (#[trigger] final(self).organisms@[j]).alive,
            final(self).stats.total_instructions % SAMPLE_INTERVAL == 0 ==> {
                &&& final(self).stats.memory_used
                    == final(self).config.memory_size - crate::memory::count_free(final(self).memory.bits())
                &&& final(self).stats.max_history_size > 0 ==>
                    final(self).stats.population_history@.last() == alive_only(final(self).organisms@).len()
            },
            final(self).stats.total_instructions % SAMPLE_INTERVAL != 0 ==>
                final(self).stats.population_history == old(self).stats.population_history,
            old(self).organisms@.len() <= old(self).config.max_population
                ==> final(self).organisms@.len() <= old(self).config.max_population,
    {
        let ghost orgs0 = self.organisms@;
        match self.scheduler.select_next(&mut self.organisms, &mut self.rng) {
            Some(idx) => {
                proof {
                    if old(self).sound() {
                        assert(self.organisms@ =~= orgs0.update(idx as int, self.organisms@[idx as int]));
                        lemma_sound_update(orgs0, self.memory.bits(), idx as int, self.organisms@[idx as int]);
                    }
                }
                assert(organism_ok(self.organisms@[idx as int], self.config.memory_size as int));
                self.run_slice(idx);
            },
            None => {},
        }
        if self.stats.total_instructions % REAP_INTERVAL == 0 {
            let ghost before = self.organisms@;
            Scheduler::reap_dead(&mut self.organisms);
            proof {
                crate::scheduler::lemma_alive_only_len(before);
                crate::scheduler::lemma_alive_only_alive(before);
                lemma_alive_only_ok(before, self.config.memory_size as int);
                assert forall|c: int| 0 <= c < self.memory.bits().len() implies
                    #[trigger] cover_count(self.organisms@, c, self.memory.bits().len() as int)
                        == cover_count(before, c, self.memory.bits().len() as int) by {
                    lemma_cover_count_alive_only(before, c, self.memory.bits().len() as int);
                }
            }
        }
        if self.stats.total_instructions % SAMPLE_INTERVAL == 0 {
            let ghost h0 = self.stats.population_history@;
            self.update_stats();
            proof {
                let h = self.stats.population_history@;
                let pushed = h0.push(alive_only(self.organisms@).len() as usize);
                crate::scheduler::lemma_alive_only_len(self.organisms@);
                assert(self.stats.memory_used
                    == self.config.memory_size - crate::memory::count_free(self.memory.bits()));
                assert(self.organisms.len() == self.organisms@.len());
                assert(alive_only(self.organisms@).len() <= self.organisms@.len());
                assert(pushed[pushed.len() - 1] == alive_only(self.organisms@).len());
                if self.stats.max_history_size > 0 {
                    if pushed.len() > self.stats.max_history_size {
                        assert(h == pushed.drop_first());
                        assert(h[h.len() - 1] == pushed[pushed.len() - 1]);
                    } else {
                        assert(h == pushed);
                    }
                    assert(h.last() == h[h.len() - 1]);
                }
            }
        }
    }

    /// Run the organism at `idx` for up to one time slice: while it is alive
    /// and has energy, execute its next instruction (`cpu_step`) and resolve
    /// the effect. `Dead` frees its region and ends the slice; `Malloc`
    /// allocates a block, stores its start in `bx` (or counts an error) and
    /// steps past the `MallocA`; `Divide` reproduces, steps past the `Divide`
    /// and ends the slice.
    pub fn run_slice(&mut self, idx: usize)
        requires
            old(self).wf(),
            idx < old(self).organisms@.len(),
        ensures
            final(self).wf(),
            old(self).stats.counters_le(&final(self).stats),
            final(self).config == old(self).config,
            old(self).sound() ==> final(self).sound(),
            final(self).stats.total_instructions <= old(self).stats.total_instructions + old(self).config.time_slice,
            old(self).organisms@[idx as int].alive && old(self).organisms@[idx as int].energy > 0
                && old(self).config.time_slice > 0 && old(self).stats.total_instructions < u64::MAX
                ==> final(self).stats.total_instructions > old(self).stats.total_instructions,
            final(self).stats.population_history == old(self).stats.population_history,
            final(self).organisms@.len() >= old(self).organisms@.len(),
            old(self).organisms@.len() <= old(self).config.max_population
                ==> final(self).organisms@.len() <= old(self).config.max_population,
    {
        let n = self.memory.size();
        let ghost sound0 = old(self).sound();
        let mut t: usize = 0;
        while t < self.config.time_slice
            invariant_except_break
                t == 0 ==> self.organisms == old(self).organisms && self.stats.total_instructions == old(self).stats.total_instructions,
            invariant
                old(self).wf(),
                self.wf(),
                n == self.config.memory_size,
                self.config == old(self).config,
                idx < self.organisms@.len(),
                old(self).stats.counters_le(&self.stats),
                sound0 == old(self).sound(),
                sound0 ==> self.sound(),
                t <= self.config.time_slice,
                self.stats.total_instructions <= old(self).stats.total_instructions + t,
                t > 0 && old(self).stats.total_instructions < u64::MAX
                    ==> self.stats.total_instructions > old(self).stats.total_instructions,
                self.stats.population_history == old(self).stats.population_history,
                self.organisms@.len() >= old(self).organisms@.len(),
                old(self).organisms@.len() <= old(self).config.max_population
                    ==> self.organisms@.len() <= old(self).config.max_population,
            ensures
                old(self).organisms@[idx as int].alive && old(self).organisms@[idx as int].energy > 0
                    && old(self).config.time_slice > 0 && old(self).stats.total_instructions < u64::MAX
                    ==> self.stats.total_instructions > old(self).stats.total_instructions,
            decreases self.config.time_slice - t,
        {
            assert(organism_ok(self.organisms@[idx as int], n as int));
            if !self.organisms[idx].alive {
                break;
            }
            let ghost orgs_a = self.organisms@;
            if !self.organisms[idx].consume_energy() {
                proof {
                    if sound0 {
                        assert(self.organisms@ =~= orgs_a.update(idx as int, self.organisms@[idx as int]));
                        lemma_sound_update(orgs_a, self.memory.bits(), idx as int, self.organisms@[idx as int]);
                    }
                }
                break;
            }
            proof {
                if sound0 {
                    assert(self.organisms@ =~= orgs_a.update(idx as int, self.organisms@[idx as int]));
                    lemma_sound_update(orgs_a, self.memory.bits(), idx as int, self.organisms@[idx as int]);
                }
            }
            let stop = self.run_instruction(idx);
            t += 1;
            if stop {
                break;
            }
        }
    }

    /// Execute the next instruction of the live organism at `idx` and resolve
    /// its effect; returns whether the time slice ends (`Dead` or `Divide`).
    /// The organism moves as `cpu_step` says. `Dead` frees its region. `Malloc`
    /// allocates a block and stores its start in `bx`, or counts an error when
    /// no block is free, then steps past the `MallocA`. `Divide` reproduces
    /// (see `handle_divide`) and steps past the `Divide`.
    pub fn run_instruction(&mut self, idx: usize) -> (stop: bool)
        requires
            old(self).wf(),
            idx < old(self).organisms@.len(),
            old(self).organisms@[idx as int].alive,
        ensures
            final(self).wf(),
            old(self).sound() ==> final(self).sound(),
            old(self).stats.counters_le(&final(self).stats),
            final(self).config == old(self).config,
            final(self).scheduler == old(self).scheduler,
            final(self).stats.total_instructions == bump64(old(self).stats.total_instructions),
            final(self).stats.population_history == old(self).stats.population_history,
            final(self).organisms@.len() >= old(self).organisms@.len(),
            old(self).organisms@.len() <= old(self).config.max_population
                ==> final(self).organisms@.len() <= old(self).config.max_population,
            ({
                let o = old(self).organisms@[idx as int];
                let out = cpu_step(o@, old(self).memory.cells(), old(self).cpu.max_search as int);
                let v = out.0;
                let r = out.2;
                let f = final(self).organisms@[idx as int];
                let others_kept = final(self).organisms@.len() == old(self).organisms@.len()
                    && forall|j: int| 0 <= j < old(self).organisms@.len() && j != idx
                        ==> #[trigger] final(self).organisms@[j] == old(self).organisms@[j];
                &&& stop == (r == ExecutionResult::Dead || r == ExecutionResult::Divide)
                &&& r == ExecutionResult::Continue ==> {
                    &&& others_kept
                    &&& f@ == v
                    &&& final(self).memory.cells() == out.1
                    &&& final(self).memory.bits() == old(self).memory.bits()
                    &&& final(self).stats == (Statistics {
                        total_instructions: bump64(old(self).stats.total_instructions),
                        ..old(self).stats
                    })
                }
                &&& r == ExecutionResult::Dead ==> {
                    &&& others_kept
                    &&& f@ == v
                    &&& !f.alive
                    &&& final(self).memory.cells() == old(self).memory.cells()
                    &&& final(self).memory.bits()
                        == crate::memory::with_span(old(self).memory.bits(), o.address as int, o.size as int, false)
                    &&& final(self).stats.total_organisms_died == bump64(old(self).stats.total_organisms_died)
                }
                &&& r matches ExecutionResult::Malloc(size) ==> {
                    &&& others_kept
                    &&& final(self).memory.cells() == old(self).memory.cells()
                    &&& final(self).stats == (Statistics {
                        total_instructions: bump64(old(self).stats.total_instructions),
                        ..old(self).stats
                    })
                    &&& (final(self).memory.bits() == old(self).memory.bits() && f@ == v.faulted().advanced())
                        || (f.bx + size <= old(self).config.memory_size
                            && final(self).memory.bits() == with_range(old(self).memory.bits(), f.bx as int, size as int, true)
                            && f@ == (OrganismView { bx: f.bx, ..v }).advanced())
                }
                &&& r == ExecutionResult::Divide ==> {
                    &&& f@ == o@.advanced()
                    &&& final(self).memory.bits() == old(self).memory.bits()
                    &&& old(self).divide_accepted(o) ==> {
                        &&& final(self).organisms@.len() == old(self).organisms@.len() + 1
                        &&& final(self).stats.successful_replications == bump64(old(self).stats.successful_replications)
                    }
                    &&& !old(self).divide_accepted(o) ==> {
                        &&& final(self).organisms@.len() == old(self).organisms@.len()
                        &&& final(self).memory.cells() == old(self).memory.cells()
                        &&& final(self).stats.failed_replications == bump64(old(self).stats.failed_replications)
                    }
                }
            }),
    {
        let n = self.memory.size();
        let ghost sound0 = old(self).sound();
        assert(organism_ok(self.organisms@[idx as int], n as int));
        proof {
            lemma_cpu_step_wf(self.organisms@[idx as int]@, self.memory.cells(), self.cpu.max_search as int);
        }
        let ghost orgs_b = self.organisms@;
        let ghost bits_b = self.memory.bits();
        let result = self.cpu.execute_instruction(&mut self.organisms[idx], &mut self.memory, &mut self.rng);
        let ghost fresh_sound = sound0;
        proof {
            if fresh_sound {
                assert(self.organisms@ =~= orgs_b.update(idx as int, self.organisms@[idx as int]));
                lemma_sound_update(orgs_b, bits_b, idx as int, self.organisms@[idx as int]);
            }
        }
        assert(organism_ok(self.organisms@[idx as int], n as int));
        self.stats.record_instruction();
        match result {
            ExecutionResult::Continue => {},
            ExecutionResult::Dead => {
                let size = self.organisms[idx].size;
                let generation = self.organisms[idx].generation;
                let address = self.organisms[idx].address;
                self.stats.record_death(size, generation);
                self.memory.free(address, size);
                proof {
                    if fresh_sound {
                        let m = n as int;
                        assert forall|c: int| 0 <= c < m implies {
                            &&& #[trigger] cover_count(self.organisms@, c, m) <= 1
                            &&& cover_count(self.organisms@, c, m) > 0 ==> self.memory.bits()[c]
                        } by {
                            lemma_cover_count_update(orgs_b, idx as int, self.organisms@[idx as int], c, m);
                            if in_span(c, address as int, size as int, m) {
                                assert(covers(orgs_b[idx as int], c, m));
                                lemma_cover_count_member(orgs_b, idx as int, c, m);
                            }
                        }
                    }
                }
                return true;
            },
            ExecutionResult::Malloc(size) => {
                match self.memory.allocate(size, &mut self.rng) {
                    Some(addr) => {
                        let ghost orgs_c = self.organisms@;
                        self.organisms[idx].bx = addr;
                        proof {
                            if fresh_sound {
                                assert(allocation_sound(orgs_c, self.memory.bits()));
                                assert(self.organisms@ =~= orgs_c.update(idx as int, self.organisms@[idx as int]));
                                lemma_sound_update(orgs_c, self.memory.bits(), idx as int, self.organisms@[idx as int]);
                            }
                        }
                    },
                    None => {
                        let ghost orgs_c = self.organisms@;
                        let e = self.organisms[idx].errors;
                        self.organisms[idx].errors = e.saturating_add(1);
                        proof {
                            if fresh_sound {
                                assert(self.organisms@ =~= orgs_c.update(idx as int, self.organisms@[idx as int]));
                                lemma_sound_update(orgs_c, self.memory.bits(), idx as int, self.organisms@[idx as int]);
                            }
                        }
                    },
                }
                assert(organism_ok(self.organisms@[idx as int], n as int));
                proof {
                    crate::organism::lemma_advanced_wf(self.organisms@[idx as int]@);
                }
                let ghost orgs_d = self.organisms@;
                self.organisms[idx].increment_ip();
                proof {
                    if fresh_sound {
                        assert(self.organisms@ =~= orgs_d.update(idx as int, self.organisms@[idx as int]));
                        lemma_sound_update(orgs_d, self.memory.bits(), idx as int, self.organisms@[idx as int]);
                    }
                }
                assert(organism_ok(self.organisms@[idx as int], n as int));
            },
            ExecutionResult::Divide => {
                proof {
                    let m = n as int;
                    let o = old(self).organisms@[idx as int];
                    assert(self.organisms@ =~= orgs_b.update(idx as int, self.organisms@[idx as int]));
                    assert forall|c: int| #[trigger] cover_count(self.organisms@, c, m) == cover_count(orgs_b, c, m) by {
                        lemma_cover_count_update(orgs_b, idx as int, self.organisms@[idx as int], c, m);
                    }
                    let p = self.organisms@[idx as int];
                    assert(self.region_reserved(p.bx as int % m, p.cx as int)
                        == old(self).region_reserved(o.bx as int % m, o.cx as int));
                    assert(self.divide_accepted(p) == old(self).divide_accepted(o));
                }
                self.handle_divide(idx);
                assert(organism_ok(self.organisms@[idx as int], n as int));
                proof {
                    crate::organism::lemma_advanced_wf(self.organisms@[idx as int]@);
                }
                let ghost orgs_d = self.organisms@;
                self.organisms[idx].increment_ip();
                proof {
                    if sound0 {
                        assert(self.organisms@ =~= orgs_d.update(idx as int, self.organisms@[idx as int]));
                        lemma_sound_update(orgs_d, self.memory.bits(), idx as int, self.organisms@[idx as int]);
                    }
                }
                assert(organism_ok(self.organisms@[idx as int], n as int));
                return true;
            },
        }
        false
    }

    /// Reproduction. The child lies at `bx` (modulo the soup size) with `cx`
    /// cells. It fails, and is counted as failed, when the population is at its
    /// cap, when `cx` is zero or above a tenth of the soup, or when the child's
    /// region is not a block reserved by an earlier `MallocA` (allocated and
    /// covered by no live organism). Otherwise the parent's first
    /// `min(size, cx)` cells are copied there, each mutating with the configured
    /// probability, and the child joins the population. The bitmap is not
    /// marked again: the `MallocA` request is the only source of allocation.
    pub fn handle_divide(&mut self, parent_idx: usize)
        requires
            old(self).wf(),
            parent_idx < old(self).organisms@.len(),
        ensures
            final(self).wf(),
            old(self).sound() ==> final(self).sound(),
            old(self).stats.counters_le(&final(self).stats),
            final(self).config == old(self).config,
            final(self).scheduler == old(self).scheduler,
            final(self).memory.bits() == old(self).memory.bits(),
            final(self).stats.total_instructions == old(self).stats.total_instructions,
            final(self).stats.population_history == old(self).stats.population_history,
            final(self).organisms@.len() >= old(self).organisms@.len(),
            forall|j: int| 0 <= j < old(self).organisms@.len() ==>
                #[trigger] final(self).organisms@[j] == old(self).organisms@[j],
            old(self).organisms@.len() <= old(self).config.max_population
                ==> final(self).organisms@.len() <= old(self).config.max_population,
            ({
                let p = old(self).organisms@[parent_idx as int];
                let n = old(self).config.memory_size as int;
                let count = if p.size < p.cx { p.size as int } else { p.cx as int };
                let child = final(self).organisms@.last();
                &&& !old(self).divide_accepted(p) ==> {
                    &&& final(self).organisms@ == old(self).organisms@
                    &&& final(self).memory == old(self).memory
                    &&& final(self).next_organism_id == old(self).next_organism_id
                    &&& final(self).stats == (Statistics {
                        failed_replications: bump64(old(self).stats.failed_replications),
                        ..old(self).stats
                    })
                }
                &&& old(self).divide_accepted(p) ==> {
                    &&& final(self).organisms@.len() == old(self).organisms@.len() + 1
                    &&& child@ == (OrganismView {
                        id: old(self).next_organism_id,
                        ip: (p.bx as int % n) as usize,
                        address: (p.bx as int % n) as usize,
                        size: p.cx,
                        ax: 0,
                        bx: 0,
                        cx: 0,
                        dx: 0,
                        stack: Seq::empty(),
                        genome_length: p.cx,
                        generation: bump(p.generation),
                        parent_id: Some(p.id),
                        cycles: 0,
                        errors: 0,
                        alive: true,
                        energy: INITIAL_ENERGY,
                    })
                    &&& final(self).next_organism_id == bump(old(self).next_organism_id)
                    &&& final(self).stats.total_organisms_created == bump64(old(self).stats.total_organisms_created)
                    &&& final(self).stats.current_population == bump(old(self).stats.current_population)
                    &&& final(self).stats.successful_replications == bump64(old(self).stats.successful_replications)
                    &&& final(self).stats.failed_replications == old(self).stats.failed_replications
                    &&& final(self).stats.total_organisms_died == old(self).stats.total_organisms_died
                    &&& final(self).stats.size_distribution@ == histogram_add(old(self).stats.size_distribution@, p.cx)
                    &&& final(self).stats.generation_distribution@
                        == histogram_add(old(self).stats.generation_distribution@, bump(p.generation))
                    &&& forall|c: int| 0 <= c < n && !in_span(c, p.bx as int % n, p.cx as int, n)
                        ==> #[trigger] final(self).memory.cells()[c] == old(self).memory.cells()[c]
                    &&& old(self).config.mutation_rate == 0 ==> {
                        &&& final(self).stats.total_mutations == old(self).stats.total_mutations
                        &&& old(self).sound() && p.alive ==> forall|i: int| 0 <= i < count ==>
                            final(self).memory.cells()[#[trigger] cell_at(p.bx as int % n, i, n)]
                                == old(self).memory.cells()[cell_at(p.address as int, i, n)]
                    }
                }
            }),
    {
        let n = self.memory.size();
        let bx = self.organisms[parent_idx].bx;
        let cx = self.organisms[parent_idx].cx;
        let parent_addr = self.organisms[parent_idx].address;
        let parent_size = self.organisms[parent_idx].size;
        let parent_id = self.organisms[parent_idx].id;
        let parent_generation = self.organisms[parent_idx].generation;
        assert(organism_ok(self.organisms@[parent_idx as int], n as int));
        if self.organisms.len() >= self.config.max_population {
            self.stats.record_replication(false);
            return;
        }
        if cx == 0 || cx > self.config.memory_size / 10 {
            self.stats.record_replication(false);
            return;
        }
        let child_addr = bx % n;
        if !self.is_region_reserved(child_addr, cx) {
            self.stats.record_replication(false);
            return;
        }
        let count = if parent_size < cx { parent_size } else { cx };
        let rate = if self.config.mutation_rate > PROBABILITY_SCALE {
            PROBABILITY_SCALE
        } else {
            self.config.mutation_rate
        };
        let draws = draw_mutations(&mut self.rng, count, rate);
        let ghost cells0 = self.memory.cells();
        self.memory.copy_genome(parent_addr, child_addr, &draws);
        proof {
            let m = n as int;
            crate::memory::lemma_genome_copy_frame(cells0, parent_addr as int, child_addr as int, draws@);
            assert forall|c: int| 0 <= c < m && !in_span(c, child_addr as int, cx as int, m)
                implies #[trigger] self.memory.cells()[c] == cells0[c] by {
                if in_span(c, child_addr as int, count as int, m) {
                    crate::memory::lemma_span_grow(c, child_addr as int, count as int, cx as int, m);
                }
            }
            vstd::arithmetic::div_mod::lemma_small_mod(child_addr as nat, n as nat);
            if old(self).config.mutation_rate == 0 && old(self).sound() && old(self).organisms@[parent_idx as int].alive {
                assert forall|c: int| #[trigger] in_span(c, parent_addr as int, count as int, m)
                    implies !in_span(c, child_addr as int, count as int, m) by {
                    let w = choose|w: int| 0 <= w < count && #[trigger] cell_at(parent_addr as int, w, m) == c;
                    vstd::arithmetic::div_mod::lemma_mod_bound(parent_addr + w, m);
                    crate::memory::lemma_span_grow(c, parent_addr as int, count as int, parent_size as int, m);
                    assert(covers(self.organisms@[parent_idx as int], c, m));
                    lemma_cover_count_member(self.organisms@, parent_idx as int, c, m);
                    if in_span(c, child_addr as int, count as int, m) {
                        crate::memory::lemma_span_grow(c, child_addr as int, count as int, cx as int, m);
                    }
                }
                crate::memory::lemma_genome_copy_exact(cells0, parent_addr as int, child_addr as int, draws@);
            }
        }
        let ghost stats0 = self.stats;
        let ghost memory1 = self.memory;
        let mut i: usize = 0;
        while i < draws.len()
            invariant
                i <= draws@.len(),
                self.memory == memory1,
                self.organisms == old(self).organisms,
                self.config == old(self).config,
                self.scheduler == old(self).scheduler,
                self.next_organism_id == old(self).next_organism_id,
                stats0.counters_le(&self.stats),
                self.stats.total_instructions == stats0.total_instructions,
                self.stats.total_organisms_created == stats0.total_organisms_created,
                self.stats.total_organisms_died == stats0.total_organisms_died,
                self.stats.current_population == stats0.current_population,
                self.stats.failed_replications == stats0.failed_replications,
                self.stats.successful_replications == stats0.successful_replications,
                self.stats.size_distribution == stats0.size_distribution,
                self.stats.generation_distribution == stats0.generation_distribution,
                self.stats.population_history == stats0.population_history,
                self.stats.max_history_size == stats0.max_history_size,
                rate == 0 ==> forall|k: int| 0 <= k < draws@.len() ==> (#[trigger] draws@[k]) is None,
                rate == 0 ==> self.stats.total_mutations == stats0.total_mutations,
            decreases draws@.len() - i,
        {
            if draws[i].is_some() {
                self.stats.record_mutation();
            }
            i += 1;
        }
        let generation = parent_generation.saturating_add(1);
        let child = Organism::new(self.next_organism_id, child_addr, cx, generation, Some(parent_id));
        self.next_organism_id = self.next_organism_id.saturating_add(1);
        let ghost orgs0 = self.organisms@;
        self.organisms.push(child);
        proof {
            if old(self).sound() {
                assert(old(self).region_reserved(child_addr as int, cx as int));
                assert forall|c: int| 0 <= c < self.memory.bits().len() && #[trigger] covers(child, c, self.memory.bits().len() as int)
                    implies self.memory.bits()[c] && cover_count(orgs0, c, self.memory.bits().len() as int) == 0 by {}
                lemma_birth_keeps_sound(orgs0, self.memory.bits(), child);
            }
        }
        self.stats.record_birth(cx, generation);
        self.stats.record_replication(true);
    }

    /// Sample the allocated cells and the live population into the statistics.
    fn update_stats(&mut self)
        requires
            old(self).wf(),
        ensures
            final(self).wf(),
            old(self).stats.counters_le(&final(self).stats),
            final(self).config == old(self).config,
            final(self).organisms == old(self).organisms,
            final(self).memory == old(self).memory,
            final(self).stats.max_history_size == old(self).stats.max_history_size,
            final(self).stats.total_instructions == old(self).stats.total_instructions,
            final(self).stats.total_organisms_created == old(self).stats.total_organisms_created,
            final(self).stats.total_organisms_died == old(self).stats.total_organisms_died,
            final(self).stats.successful_replications == old(self).stats.successful_replications,
            final(self).stats.failed_replications == old(self).stats.failed_replications,
            final(self).stats.memory_used == old(self).memory.spec_size() - crate::memory::count_free(old(self).memory.bits()),
            final(self).stats.population_history@ == crate::stats::history_after(
                old(self).stats.population_history@,
                alive_only(old(self).organisms@).len() as usize,
                old(self).stats.max_history_size as int,
            ),
    {
        let alive_count = crate::scheduler::live_count(&self.organisms);
        let memory_used = self.memory.size() - self.memory.count_free_cells();
        self.stats.update_memory_usage(memory_used);
        self.stats.update_history(alive_count);
    }

    /// Run `steps` steps.
    pub fn run_steps(&mut self, steps: usize)
        requires
            old(self).wf(),
        ensures
            final(self).wf(),
            old(self).stats.counters_le(&final(self).stats),
            final(self).config == old(self).config,
            old(self).sound() ==> final(self).sound(),
            steps > 0 && any_alive(old(self).organisms@) && old(self).config.time_slice > 0
                && old(self).stats.total_instructions < u64::MAX
                ==> final(self).stats.total_instructions > old(self).stats.total_instructions,
            old(self).organisms@.len() <= old(self).config.max_population
                ==> final(self).organisms@.len() <= old(self).config.max_population,
    {
        let mut k: usize = 0;
        while k < steps
            invariant
                self.wf(),
                old(self).stats.counters_le(&self.stats),
                self.config == old(self).config,
                old(self).sound() ==> self.sound(),
                k == 0 ==> self.organisms == old(self).organisms
                    && self.stats.total_instructions == old(self).stats.total_instructions,
                k > 0 && any_alive(old(self).organisms@) && old(self).config.time_slice > 0
                    && old(self).stats.total_instructions < u64::MAX
                    ==> self.stats.total_instructions > old(self).stats.total_instructions,
                old(self).organisms@.len() <= old(self).config.max_population
                    ==> self.organisms@.len() <= old(self).config.max_population,
            decreases steps - k,
        {
            self.step();
            k += 1;
        }
    }

    /// Start over: an empty soup, no organisms, fresh statistics.
    pub fn reset(&mut self)
        requires
            old(self).wf(),
        ensures
            final(self).wf(),
            final(self).sound(),
            final(self).config == old(self).config,
            final(self).organisms@.len() == 0,
            final(self).memory.bits() == Seq::new(old(self).config.memory_size as nat, |i: int| false),
            final(self).memory.cells() == Seq::new(old(self).config.memory_size as nat, |i: int| Instruction::Nop0),
            final(self).next_organism_id == 0,
            final(self).scheduler == old(self).scheduler,
            final(self).stats.total_instructions == 0,
            final(self).stats.total_organisms_created == 0,
            final(self).stats.total_organisms_died == 0,
            final(self).stats.current_population == 0,
            final(self).stats.total_mutations == 0,
            final(self).stats.failed_replications == 0,
            final(self).stats.successful_replications == 0,
            final(self).stats.size_distribution@ == Map::<usize, usize>::empty(),
            final(self).stats.generation_distribution@ == Map::<usize, usize>::empty(),
            final(self).stats.memory_used == 0,
            final(self).stats.memory_total == old(self).config.memory_size,
            final(self).stats.population_history@ == Seq::<usize>::empty(),
            final(self).stats.max_history_size == crate::stats::DEFAULT_MAX_HISTORY,
            !final(self).running,
    {
        self.memory = Memory::new(self.config.memory_size);
        self.organisms.clear();
        assert forall|c: int| 0 <= c < self.memory.bits().len() implies
            #[trigger] cover_count(self.organisms@, c, self.memory.bits().len() as int) == 0 by {}
        self.stats = Statistics::new(self.config.memory_size);
        self.next_organism_id = 0;
        self.running = false;
    }
}

/// Draw the mutations of a genome copy of `count` cells: each cell mutates,
/// with probability `rate` in parts per million, to a uniformly drawn opcode.
fn draw_mutations(rng: &mut StdRng, count: usize, rate: u32) -> (r: Vec<Option<Instruction>>)
    requires
        rate <= PROBABILITY_SCALE,
    ensures
        r@.len() == count,
        rate == 0 ==> forall|k: int| 0 <= k < count ==> (#[trigger] r@[k]) is None,
{
    let mut draws: Vec<Option<Instruction>> = Vec::new();
    let mut i: usize = 0;
    while i < count
        invariant
            i <= count,
            draws@.len() == i,
            rate <= PROBABILITY_SCALE,
            rate == 0 ==> forall|k: int| 0 <= k < i ==> (#[trigger] draws@[k]) is None,
        decreases count - i,
    {
        if random_ratio(rng, rate, PROBABILITY_SCALE) {
            let b = random_below(rng, OPCODE_COUNT as usize);
            draws.push(Some(Instruction::from_u8(b as u8)));
        } else {
            draws.push(None);
        }
        i += 1;
    }
    draws
}

/// Keeping the living keeps every organism inside the soup.
pub proof fn lemma_alive_only_ok(s: Seq<Organism>, n: int)
    requires
        forall|j: int| 0 <= j < s.len() ==> organism_ok(#[trigger] s[j], n),
    ensures
        forall|j: int| 0 <= j < alive_only(s).len() ==> organism_ok(#[trigger] alive_only(s)[j], n),
    decreases s.len(),
{
    if s.len() > 0 {
        let p = s.drop_last();
        assert forall|j: int| 0 <= j < p.len() implies organism_ok(#[trigger] p[j], n) by {
            assert(p[j] == s[j]);
        }
        lemma_alive_only_ok(p, n);
        assert(organism_ok(s[s.len() - 1], n));
        assert(s.last() == s[s.len() - 1]);
        let a = alive_only(s);
        assert forall|j: int| 0 <= j < a.len() implies organism_ok(#[trigger] a[j], n) by {
            if s.last().alive {
                assert(a == alive_only(p).push(s.last()));
                if j < alive_only(p).len() {
                    assert(a[j] == alive_only(p)[j]);
                }
            } else {
                assert(a == alive_only(p));
            }
        }
    }
}

/// The ancestor: a self-replicator that requests eighty cells, copies that
/// size into `cx` and divides. Its children are smaller than itself.
pub fn create_ancestor() -> (r: Vec<Instruction>)
    ensures
        r@ == ancestor_genome(),
{
    let mut instructions: Vec<Instruction> = Vec::new();
    let mut i: usize = 0;
    while i < ANCESTOR_MARKERS
        invariant
            i <= ANCESTOR_MARKERS,
            instructions@ == ancestor_genome().take(i as int),
        decreases ANCESTOR_MARKERS - i,
    {
        instructions.push(Instruction::Nop1);
        i += 1;
        assert(instructions@ =~= ancestor_genome().take(i as int));
    }
    let mut i: usize = 0;
    while i < ANCESTOR_INCREMENTS
        invariant
            i <= ANCESTOR_INCREMENTS,
            instructions@ == ancestor_genome().take(ANCESTOR_MARKERS + i),
        decreases ANCESTOR_INCREMENTS - i,
    {
        instructions.push(Instruction::IncA);
        i += 1;
        assert(instructions@ =~= ancestor_genome().take(ANCESTOR_MARKERS + i));
    }
    instructions.push(Instruction::MallocA);
    instructions.push(Instruction::PushA);
    instructions.push(Instruction::PopC);
    instructions.push(Instruction::Divide);
    assert(instructions@ =~= ancestor_genome().take(88));
    let mut i: usize = 0;
    while i < ANCESTOR_MARKERS
        invariant
            i <= ANCESTOR_MARKERS,
            instructions@ == ancestor_genome().take(88 + i),
        decreases ANCESTOR_MARKERS - i,
    {
        instructions.push(Instruction::Nop0);
        i += 1;
        assert(instructions@ =~= ancestor_genome().take(88 + i));
    }
    assert(instructions@ =~= ancestor_genome());
    instructions
}

} // verus!
