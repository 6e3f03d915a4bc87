use vstd::prelude::*;
use vstd::arithmetic::div_mod::{lemma_add_mod_noop, lemma_mod_bound, lemma_small_mod};
use crate::instruction::Instruction;
use crate::memory::{cell_at, template_run};

verus! {

/// The deepest an organism's stack may grow.
pub const MAX_STACK_DEPTH: usize = 10;

/// The energy a newly created organism starts with.
pub const INITIAL_ENERGY: usize = 100;

/// The state of an organism as a mathematical value.
pub struct OrganismView {
    pub id: usize,
    pub ip: usize,
    pub address: usize,
    pub size: usize,
    pub ax: usize,
    pub bx: usize,
    pub cx: usize,
    pub dx: usize,
    pub stack: Seq<usize>,
    pub genome_length: usize,
    pub generation: usize,
    pub parent_id: Option<usize>,
    pub cycles: usize,
    pub errors: usize,
    pub alive: bool,
    pub energy: usize,
}

/// A counter increased by one, stopping at the largest value.
pub open spec fn bump(x: usize) -> usize {
    if x < usize::MAX { (x + 1) as usize } else { x }
}

impl OrganismView {
    /// The home region can be addressed without overflow.
    pub open spec fn fits(self) -> bool {
        0 < self.size && self.address + self.size <= usize::MAX
    }

    /// The structural invariant: a non-empty home region, the instruction
    /// pointer inside it, and a bounded stack.
    pub open spec fn wf(self) -> bool {
        &&& self.fits()
        &&& self.address <= self.ip < self.address + self.size
        &&& self.stack.len() <= MAX_STACK_DEPTH
    }

    /// Whether `a` lies in the home region (no wrap).
    pub open spec fn in_region(self, a: int) -> bool {
        self.address <= a < self.address + self.size
    }

    /// The instruction pointer after one step inside the home region.
    pub open spec fn next_ip(self) -> int {
        let offset = if self.ip >= self.address { self.ip - self.address } else { 0 };
        self.address + (offset + 1) % (self.size as int)
    }

    /// The state after the instruction pointer advances by one.
    pub open spec fn advanced(self) -> OrganismView {
        OrganismView { ip: self.next_ip() as usize, cycles: bump(self.cycles), ..self }
    }

    /// The state after the instruction pointer advances `k` times.
    pub open spec fn advanced_by(self, k: nat) -> OrganismView
        decreases k,
    {
        if k == 0 { self } else { self.advanced_by((k - 1) as nat).advanced() }
    }

    /// Where a jump to `a` lands: `a` itself inside the home region, else its
    /// reflection `address + a mod size`.
    pub open spec fn jump_target(self, a: int) -> int {
        if self.in_region(a) { a } else { self.address + a % (self.size as int) }
    }

    /// The state after a jump to `a`.
    pub open spec fn jumped(self, a: int) -> OrganismView {
        OrganismView { ip: self.jump_target(a) as usize, ..self }
    }

    /// The state with one more error counted.
    pub open spec fn faulted(self) -> OrganismView {
        OrganismView { errors: bump(self.errors), ..self }
    }

    /// The state after pushing `v`: a full stack is left as it is and counts an error.
    pub open spec fn pushed(self, v: usize) -> OrganismView {
        if self.stack.len() >= MAX_STACK_DEPTH {
            self.faulted()
        } else {
            OrganismView { stack: self.stack.push(v), ..self }
        }
    }

    /// The state after a pop: an empty stack counts an error.
    pub open spec fn popped(self) -> OrganismView {
        if self.stack.len() == 0 {
            self.faulted()
        } else {
            OrganismView { stack: self.stack.drop_last(), ..self }
        }
    }

    /// The value a pop yields, zero on an empty stack.
    pub open spec fn pop_value(self) -> usize {
        if self.stack.len() == 0 { 0 } else { self.stack.last() }
    }
}

/// A living program of the soup: its home region, registers, stack and bookkeeping.
#[derive(Debug, Clone)]
pub struct Organism {
    /// Unique identifier.
    pub id: usize,
    /// Current instruction pointer.
    pub ip: usize,
    /// Start of the home region.
    pub address: usize,
    /// Length of the home region.
    pub size: usize,
    /// General purpose register, used as the allocation size.
    pub ax: usize,
    /// General purpose register, holds the child's address.
    pub bx: usize,
    /// General purpose register, counter and child's size.
    pub cx: usize,
    /// General purpose register, data.
    pub dx: usize,
    /// Return addresses and saved values.
    pub stack: Vec<usize>,
    /// Genome length at creation.
    pub genome_length: usize,
    /// Zero for the seed, the parent's plus one otherwise.
    pub generation: usize,
    /// The parent's identifier, if any.
    pub parent_id: Option<usize>,
    /// Instructions stepped over so far.
    pub cycles: usize,
    /// Faults counted so far.
    pub errors: usize,
    /// Whether the organism is alive.
    pub alive: bool,
    /// What remains of the current time slice.
    pub energy: usize,
}

impl View for Organism {
    type V = OrganismView;

    open spec fn view(&self) -> OrganismView {
        OrganismView {
            id: self.id,
            ip: self.ip,
            address: self.address,
            size: self.size,
            ax: self.ax,
            bx: self.bx,
            cx: self.cx,
            dx: self.dx,
            stack: self.stack@,
            genome_length: self.genome_length,
            generation: self.generation,
            parent_id: self.parent_id,
            cycles: self.cycles,
            errors: self.errors,
            alive: self.alive,
            energy: self.energy,
        }
    }
}

impl Organism {
    /// Create a live organism whose instruction pointer is at the start of its region.
    pub fn new(id: usize, address: usize, size: usize, generation: usize, parent_id: Option<usize>) -> (r: Organism)
        ensures
            r@ == (OrganismView {
                id,
                ip: address,
                address,
                size,
                ax: 0,
                bx: 0,
                cx: 0,
                dx: 0,
                stack: Seq::empty(),
                genome_length: size,
                generation,
                parent_id,
                cycles: 0,
                errors: 0,
                alive: true,
                energy: INITIAL_ENERGY,
            }),
    {
        Organism {
            id,
            ip: address,
            address,
            size,
            ax: 0,
            bx: 0,
            cx: 0,
            dx: 0,
            stack: Vec::new(),
            genome_length: size,
            generation,
            parent_id,
            cycles: 0,
            errors: 0,
            alive: true,
            energy: INITIAL_ENERGY,
        }
    }

    /// Advance the instruction pointer by one, wrapping inside the home region.
    pub fn increment_ip(&mut self)
        requires
            old(self)@.fits(),
        ensures
            final(self)@ == old(self)@.advanced(),
    {
        let offset = self.ip.saturating_sub(self.address);
        let size = self.size;
        proof {
            lemma_mod_bound(offset as int, size as int);
            lemma_add_mod_noop(offset as int, 1, size as int);
            if size > 1 {
                lemma_small_mod(1, size as nat);
            }
        }
        let step = (offset % size + 1) % size;
        self.ip = self.address + step;
        self.cycles = self.cycles.saturating_add(1);
    }

    /// Jump to `addr`: kept inside the home region, reflected into it otherwise.
    pub fn set_ip(&mut self, addr: usize)
        requires
            old(self)@.fits(),
        ensures
            final(self)@ == old(self)@.jumped(addr as int),
    {
        if self.is_address_valid(addr) {
            self.ip = addr;
        } else {
            proof {
                lemma_mod_bound(addr as int, self.size as int);
            }
            self.ip = self.address + addr % self.size;
        }
    }

    /// Push a value; a full stack is left unchanged and counts an error.
    pub fn push(&mut self, value: usize) -> (r: Result<(), String>)
        ensures
            final(self)@ == old(self)@.pushed(value),
            r is Ok <==> old(self)@.stack.len() < MAX_STACK_DEPTH,
    {
        if self.stack.len() >= MAX_STACK_DEPTH {
            self.errors = self.errors.saturating_add(1);
            return Err("Stack overflow".to_string());
        }
        self.stack.push(value);
        Ok(())
    }

    /// Pop a value; an empty stack counts an error.
    pub fn pop(&mut self) -> (r: Result<usize, String>)
        ensures
            final(self)@ == old(self)@.popped(),
            old(self)@.stack.len() == 0 <==> r is Err,
            r is Ok ==> r == Ok::<usize, String>(old(self)@.stack.last()),
    {
        match self.stack.pop() {
            Some(v) => Ok(v),
            None => {
                self.errors = self.errors.saturating_add(1);
                Err("Stack underflow".to_string())
            },
        }
    }

    /// Kill the organism.
    pub fn kill(&mut self)
        ensures
            final(self)@ == (OrganismView { alive: false, ..old(self)@ }),
    {
        self.alive = false;
    }

    /// Grant a new time slice.
    pub fn reset_energy(&mut self, amount: usize)
        ensures
            final(self)@ == (OrganismView { energy: amount, ..old(self)@ }),
    {
        self.energy = amount;
    }

    /// Spend one unit of energy, if any is left.
    pub fn consume_energy(&mut self) -> (r: bool)
        ensures
            r == (old(self).energy > 0),
            final(self)@ == (OrganismView {
                energy: if r { (old(self).energy - 1) as usize } else { old(self).energy },
                ..old(self)@
            }),
    {
        if self.energy > 0 {
            self.energy -= 1;
            true
        } else {
            false
        }
    }

    /// Whether `addr` lies in the home region (no wrap).
    pub fn is_address_valid(&self, addr: usize) -> (r: bool)
        ensures
            r == self@.in_region(addr as int),
    {
        addr >= self.address && addr - self.address < self.size
    }

    /// The template at the instruction pointer: the run of template markers
    /// there, at most `max_length` long, read modulo the length of `memory`.
    pub fn collect_template(&self, memory: &[Instruction], max_length: usize) -> (r: Vec<Instruction>)
        requires
            memory@.len() > 0 || max_length == 0,
        ensures
            r@ == template_run(memory@, self.ip as int, max_length as int),
    {
        if max_length == 0 {
            return Vec::new();
        }
        let n = memory.len();
        let mut template: Vec<Instruction> = Vec::new();
        let mut i: usize = 0;
        while i < max_length
            invariant
                n == memory@.len(),
                n > 0,
                i <= max_length,
                template@ == template_run(memory@, self.ip as int, i as int),
                template@.len() == i,
            decreases max_length - i,
        {
            proof {
                lemma_add_mod_noop(self.ip as int, i as int, n as int);
                lemma_mod_bound(self.ip as int, n as int);
                lemma_mod_bound(i as int, n as int);
                lemma_small_mod((self.ip as int % n as int + i as int % n as int) as nat, (2 * n) as nat);
            }
            let a = ((self.ip % n) as u128 + (i % n) as u128) % (n as u128);
            let inst = memory[a as usize];
            if inst.is_template() {
                template.push(inst);
                i += 1;
            } else {
                proof {
                    lemma_template_run_stops(memory@, self.ip as int, i as int, max_length as int);
                }
                return template;
            }
        }
        template
    }
}

/// Advancing keeps the pointer inside the home region.
pub proof fn lemma_advanced_wf(v: OrganismView)
    requires
        v.fits(),
        v.stack.len() <= MAX_STACK_DEPTH,
    ensures
        v.advanced().wf(),
        v.advanced().address == v.address,
        v.advanced().size == v.size,
        v.advanced().stack == v.stack,
{
    let offset = if v.ip >= v.address { v.ip - v.address } else { 0 };
    lemma_mod_bound(offset + 1, v.size as int);
}

/// Advancing any number of times keeps a well-formed organism well formed,
/// with the same region, stack, registers and error count.
pub proof fn lemma_advanced_by_wf(v: OrganismView, k: nat)
    requires
        v.wf(),
    ensures
        v.advanced_by(k).wf(),
        v.advanced_by(k).address == v.address,
        v.advanced_by(k).size == v.size,
        v.advanced_by(k).stack == v.stack,
        v.advanced_by(k).errors == v.errors,
        v.advanced_by(k).alive == v.alive,
    decreases k,
{
    if k > 0 {
        lemma_advanced_by_wf(v, (k - 1) as nat);
        lemma_advanced_wf(v.advanced_by((k - 1) as nat));
    }
}

/// A jump always lands inside the home region.
pub proof fn lemma_jumped_wf(v: OrganismView, a: int)
    requires
        v.fits(),
        v.stack.len() <= MAX_STACK_DEPTH,
    ensures
        v.jumped(a).wf(),
        v.jumped(a).address == v.address,
        v.jumped(a).size == v.size,
        v.jumped(a).stack == v.stack,
{
    lemma_mod_bound(a, v.size as int);
}

/// Once a marker run stops short, reading further adds nothing.
pub proof fn lemma_template_run_stops(cells: Seq<Instruction>, pos: int, i: int, k: int)
    requires
        0 <= i < k,
        template_run(cells, pos, i).len() == i,
        !cells[cell_at(pos, i, cells.len() as int)].spec_is_template(),
    ensures
        template_run(cells, pos, k) == template_run(cells, pos, i),
    decreases k - i,
{
    if k > i + 1 {
        lemma_template_run_stops(cells, pos, i, k - 1);
        lemma_template_run_short(cells, pos, k - 1);
    }
}

/// A template read over `k` cells has at most `k` markers.
pub proof fn lemma_template_run_short(cells: Seq<Instruction>, pos: int, k: int)
    ensures
        template_run(cells, pos, k).len() <= if k < 0 { 0 } else { k },
    decreases k,
{
    if k > 0 {
        lemma_template_run_short(cells, pos, k - 1);
    }
}

} // verus!
