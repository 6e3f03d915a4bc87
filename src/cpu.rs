use vstd::prelude::*;
use vstd::arithmetic::div_mod::{lemma_add_mod_noop, lemma_mod_bound, lemma_small_mod, lemma_sub_mod_noop};
use rand::rngs::StdRng;
use crate::instruction::{Instruction, OPCODE_COUNT};
use crate::memory::{add_mod, cell_at, sub_mod, template_run, template_search, Memory};
use crate::organism::{Organism, OrganismView, MAX_STACK_DEPTH};

verus! {

/// The longest template an instruction reads.
pub const MAX_TEMPLATE_LENGTH: usize = 10;

/// How far template search looks by default.
pub const DEFAULT_MAX_SEARCH: usize = 200;

/// What one executed instruction asks of the host.
#[derive(Debug, Clone, Copy, PartialEq, Eq, Structural)]
pub enum ExecutionResult {
    /// Keep executing.
    Continue,
    /// The organism is dead.
    Dead,
    /// Allocate a block of this many cells.
    Malloc(usize),
    /// Create an offspring.
    Divide,
}

/// The outcome of a jump instruction after its marker, whose template has
/// `len` cells: land past the match, or count an error and continue past the
/// template.
pub open spec fn jump_outcome(w: OrganismView, len: nat, found: Option<int>) -> OrganismView {
    match found {
        Some(a) => w.jumped(a),
        None => w.faulted().advanced_by(len),
    }
}

/// The outcome of `Call` after its marker, whose template has `len` cells:
/// the pointer moves past the template, that address is pushed and the match
/// jumped to. A miss or a full stack counts an error and does not jump.
pub open spec fn call_outcome(w: OrganismView, len: nat, found: Option<int>) -> OrganismView {
    match found {
        Some(a) => {
            let q = w.advanced_by(len);
            if q.stack.len() < MAX_STACK_DEPTH {
                q.pushed(q.ip).jumped(a)
            } else {
                q.pushed(q.ip)
            }
        },
        None => w.faulted().advanced_by(len),
    }
}

/// The outcome of an address instruction after its marker; the pointer stays.
pub open spec fn address_outcome(w: OrganismView, found: Option<int>) -> OrganismView {
    match found {
        Some(a) => OrganismView { ax: a as usize, ..w },
        None => w.faulted(),
    }
}

/// The cell that `MovDC` and `MovCD` address: `address + cx mod size`.
pub open spec fn data_cell(v: OrganismView) -> int {
    v.address + v.cx as int % (v.size as int)
}

/// The semantics of one instruction: the organism, the soup cells and the
/// effect after executing the instruction at the organism's pointer.
pub open spec fn cpu_step(v: OrganismView, cells: Seq<Instruction>, max_search: int)
    -> (OrganismView, Seq<Instruction>, ExecutionResult)
{
    let n = cells.len() as int;
    let op = cells[v.ip as int % n];
    let w = v.advanced();
    let t = template_run(cells, w.ip as int, MAX_TEMPLATE_LENGTH as int);
    if !v.alive {
        (v, cells, ExecutionResult::Dead)
    } else {
        match op {
            Instruction::Nop0 | Instruction::Nop1 => (w, cells, ExecutionResult::Continue),
            Instruction::IfCZ => (if v.cx != 0 { w.advanced() } else { w }, cells, ExecutionResult::Continue),
            Instruction::JmpB => (jump_outcome(w, t.len(), template_search(cells, w.ip as int, t, false, max_search)), cells, ExecutionResult::Continue),
            Instruction::JmpF => (jump_outcome(w, t.len(), template_search(cells, w.ip as int, t, true, max_search)), cells, ExecutionResult::Continue),
            Instruction::Call => (call_outcome(w, t.len(), template_search(cells, w.ip as int, t, true, max_search)), cells, ExecutionResult::Continue),
            Instruction::Ret => (if v.stack.len() > 0 { v.popped().jumped(v.stack.last() as int) } else { v.popped().advanced() }, cells, ExecutionResult::Continue),
            Instruction::MovDC => (OrganismView { dx: cells[data_cell(v) % n].code() as usize, ..v }.advanced(), cells, ExecutionResult::Continue),
            Instruction::MovCD => if v.in_region(data_cell(v)) {
                (w, cells.update(data_cell(v) % n, Instruction::decode((v.dx as int % (OPCODE_COUNT as int)) as u8)), ExecutionResult::Continue)
            } else {
                (v.faulted().advanced(), cells, ExecutionResult::Continue)
            },
            Instruction::Adr => (OrganismView { ax: v.ip, ..v }.advanced(), cells, ExecutionResult::Continue),
            Instruction::AdrB => (address_outcome(w, template_search(cells, w.ip as int, t, false, max_search)), cells, ExecutionResult::Continue),
            Instruction::AdrF => (address_outcome(w, template_search(cells, w.ip as int, t, true, max_search)), cells, ExecutionResult::Continue),
            Instruction::IncA => (OrganismView { ax: ((v.ax + 1) % n) as usize, ..v }.advanced(), cells, ExecutionResult::Continue),
            Instruction::IncB => (OrganismView { bx: ((v.bx + 1) % n) as usize, ..v }.advanced(), cells, ExecutionResult::Continue),
            Instruction::IncC => (OrganismView { cx: ((v.cx + 1) % n) as usize, ..v }.advanced(), cells, ExecutionResult::Continue),
            Instruction::DecC => (OrganismView { cx: ((v.cx - 1) % n) as usize, ..v }.advanced(), cells, ExecutionResult::Continue),
            Instruction::MallocA => (v, cells, ExecutionResult::Malloc(v.ax)),
            Instruction::Divide => (v, cells, ExecutionResult::Divide),
            Instruction::PushA => (v.pushed(v.ax).advanced(), cells, ExecutionResult::Continue),
            Instruction::PushB => (v.pushed(v.bx).advanced(), cells, ExecutionResult::Continue),
            Instruction::PushC => (v.pushed(v.cx).advanced(), cells, ExecutionResult::Continue),
            Instruction::PushD => (v.pushed(v.dx).advanced(), cells, ExecutionResult::Continue),
            Instruction::PopA => (OrganismView { ax: v.pop_value(), ..v.popped() }.advanced(), cells, ExecutionResult::Continue),
            Instruction::PopB => (OrganismView { bx: v.pop_value(), ..v.popped() }.advanced(), cells, ExecutionResult::Continue),
            Instruction::PopC => (OrganismView { cx: v.pop_value(), ..v.popped() }.advanced(), cells, ExecutionResult::Continue),
            Instruction::PopD => (OrganismView { dx: v.pop_value(), ..v.popped() }.advanced(), cells, ExecutionResult::Continue),
            Instruction::Halt => (OrganismView { alive: false, ..v }, cells, ExecutionResult::Dead),
        }
    }
}

/// The virtual processor that executes organisms one instruction at a time.
pub struct CPU {
    /// Maximum search distance for template matching.
    pub max_search: usize,
}

impl CPU {
    /// A processor with the default search distance.
    pub fn new() -> (r: CPU)
        ensures
            r.max_search == DEFAULT_MAX_SEARCH,
    {
        CPU { max_search: DEFAULT_MAX_SEARCH }
    }

    /// Execute the instruction at the organism's pointer. The generator is
    /// not drawn from: instruction semantics are deterministic.
    pub fn execute_instruction(&mut self, organism: &mut Organism, memory: &mut Memory, _rng: &mut StdRng) -> (r: ExecutionResult)
        requires
            old(memory).wf(),
            old(memory).spec_size() > 0,
            old(organism)@.fits(),
        ensures
            *final(self) == *old(self),
            final(memory).wf(),
            final(memory).spec_size() == old(memory).spec_size(),
            final(memory).bits() == old(memory).bits(),
            (final(organism)@, final(memory).cells(), r)
                == cpu_step(old(organism)@, old(memory).cells(), old(self).max_search as int),
    {
        if !organism.alive {
            return ExecutionResult::Dead;
        }
        let n = memory.size();
        let inst = memory.read(organism.ip);
        match inst {
            Instruction::Nop0 | Instruction::Nop1 => {
                organism.increment_ip();
            },
            Instruction::IfCZ => {
                if organism.cx != 0 {
                    organism.increment_ip();
                }
                organism.increment_ip();
            },
            Instruction::JmpB | Instruction::JmpF => {
                organism.increment_ip();
                let template = self.read_template(organism, memory);
                let found = if inst == Instruction::JmpB {
                    memory.find_template_backward(organism.ip, template.as_slice(), self.max_search)
                } else {
                    memory.find_template_forward(organism.ip, template.as_slice(), self.max_search)
                };
                match found {
                    Some(addr) => organism.set_ip(addr),
                    None => {
                        organism.errors = organism.errors.saturating_add(1);
                        skip(organism, template.len());
                    },
                }
            },
            Instruction::Call => {
                organism.increment_ip();
                let template = self.read_template(organism, memory);
                match memory.find_template_forward(organism.ip, template.as_slice(), self.max_search) {
                    Some(addr) => {
                        skip(organism, template.len());
                        let ret = organism.ip;
                        if organism.push(ret).is_ok() {
                            organism.set_ip(addr);
                        }
                    },
                    None => {
                        organism.errors = organism.errors.saturating_add(1);
                        skip(organism, template.len());
                    },
                }
            },
            Instruction::Ret => {
                match organism.pop() {
                    Ok(addr) => organism.set_ip(addr),
                    Err(_) => organism.increment_ip(),
                }
            },
            Instruction::MovDC => {
                let addr = organism.address + organism.cx % organism.size;
                organism.dx = memory.read(addr).to_u8() as usize;
                organism.increment_ip();
            },
            Instruction::MovCD => {
                let addr = organism.address + organism.cx % organism.size;
                let value = Instruction::from_u8((organism.dx % (OPCODE_COUNT as usize)) as u8);
                if organism.is_address_valid(addr) {
                    memory.write(addr, value);
                } else {
                    organism.errors = organism.errors.saturating_add(1);
                }
                organism.increment_ip();
            },
            Instruction::Adr => {
                organism.ax = organism.ip;
                organism.increment_ip();
            },
            Instruction::AdrB | Instruction::AdrF => {
                organism.increment_ip();
                let template = self.read_template(organism, memory);
                let found = if inst == Instruction::AdrB {
                    memory.find_template_backward(organism.ip, template.as_slice(), self.max_search)
                } else {
                    memory.find_template_forward(organism.ip, template.as_slice(), self.max_search)
                };
                match found {
                    Some(addr) => organism.ax = addr,
                    None => organism.errors = organism.errors.saturating_add(1),
                }
            },
            Instruction::IncA => {
                organism.ax = increment_mod(organism.ax, n);
                organism.increment_ip();
            },
            Instruction::IncB => {
                organism.bx = increment_mod(organism.bx, n);
                organism.increment_ip();
            },
            Instruction::IncC => {
                organism.cx = increment_mod(organism.cx, n);
                organism.increment_ip();
            },
            Instruction::DecC => {
                organism.cx = decrement_mod(organism.cx, n);
                organism.increment_ip();
            },
            Instruction::MallocA => {
                return ExecutionResult::Malloc(organism.ax);
            },
            Instruction::Divide => {
                return ExecutionResult::Divide;
            },
            Instruction::PushA => {
                let v = organism.ax;
                let _ = organism.push(v);
                organism.increment_ip();
            },
            Instruction::PushB => {
                let v = organism.bx;
                let _ = organism.push(v);
                organism.increment_ip();
            },
            Instruction::PushC => {
                let v = organism.cx;
                let _ = organism.push(v);
                organism.increment_ip();
            },
            Instruction::PushD => {
                let v = organism.dx;
                let _ = organism.push(v);
                organism.increment_ip();
            },
            Instruction::PopA => {
                organism.ax = pop_or_zero(organism);
                organism.increment_ip();
            },
            Instruction::PopB => {
                organism.bx = pop_or_zero(organism);
                organism.increment_ip();
            },
            Instruction::PopC => {
                organism.cx = pop_or_zero(organism);
                organism.increment_ip();
            },
            Instruction::PopD => {
                organism.dx = pop_or_zero(organism);
                organism.increment_ip();
            },
            Instruction::Halt => {
                organism.kill();
                return ExecutionResult::Dead;
            },
        }
        ExecutionResult::Continue
    }

    /// The template at the organism's pointer, at most ten markers long.
    fn read_template(&self, organism: &Organism, memory: &Memory) -> (r: Vec<Instruction>)
        requires
            memory.wf(),
            memory.spec_size() > 0,
        ensures
            r@ == template_run(memory.cells(), organism.ip as int, MAX_TEMPLATE_LENGTH as int),
    {
        let n = memory.size();
        let ghost cells = memory.cells();
        let mut template: Vec<Instruction> = Vec::new();
        let mut pos = memory.normalize_addr(organism.ip);
        let mut i: usize = 0;
        while i < MAX_TEMPLATE_LENGTH
            invariant
                memory.wf(),
                n == memory.spec_size(),
                n > 0,
                cells == memory.cells(),
                i <= MAX_TEMPLATE_LENGTH,
                pos == cell_at(organism.ip as int, i as int, n as int),
                template@ == template_run(cells, organism.ip as int, i as int),
                template@.len() == i,
            decreases MAX_TEMPLATE_LENGTH - i,
        {
            proof {
                lemma_mod_bound(organism.ip as int + i as int, n as int);
                lemma_small_mod(pos as nat, n as nat);
            }
            let inst = memory.read(pos);
            if inst.is_template() {
                template.push(inst);
                proof {
                    lemma_add_mod_noop(organism.ip as int + i as int, 1, n as int);
                    if n > 1 {
                        lemma_small_mod(1, n as nat);
                    }
                }
                pos = add_mod(pos, 1 % n, n);
                i += 1;
            } else {
                proof {
                    crate::organism::lemma_template_run_stops(cells, organism.ip as int, i as int, MAX_TEMPLATE_LENGTH as int);
                }
                return template;
            }
        }
        template
    }
}

impl Default for CPU {
    fn default() -> (r: CPU)
        ensures
            r.max_search == DEFAULT_MAX_SEARCH,
    {
        CPU::new()
    }
}

/// Advance the instruction pointer `k` times.
fn skip(organism: &mut Organism, k: usize)
    requires
        old(organism)@.fits(),
    ensures
        final(organism)@ == old(organism)@.advanced_by(k as nat),
        final(organism)@.fits(),
{
    let mut i: usize = 0;
    while i < k
        invariant
            i <= k,
            organism@ == old(organism)@.advanced_by(i as nat),
            organism@.fits(),
        decreases k - i,
    {
        organism.increment_ip();
        i += 1;
    }
}

/// `MovCD` writes only inside the home region: a well-formed organism whose
/// region does not run past the end of the soup leaves every other cell as it
/// was, and counts no error.
pub proof fn lemma_movcd_confined(v: OrganismView, cells: Seq<Instruction>, max_search: int)
    requires
        v.wf(),
        v.alive,
        v.address + v.size <= cells.len(),
        cells[v.ip as int % cells.len() as int] == Instruction::MovCD,
    ensures
        cpu_step(v, cells, max_search).2 == ExecutionResult::Continue,
        cpu_step(v, cells, max_search).0.errors == v.errors,
        forall|a: int| 0 <= a < cells.len() && !v.in_region(a) ==> #[trigger] cpu_step(v, cells, max_search).1[a] == cells[a],
{
    let n = cells.len() as int;
    vstd::arithmetic::div_mod::lemma_mod_bound(v.cx as int, v.size as int);
    lemma_small_mod(data_cell(v) as nat, n as nat);
}

/// `(x + 1) mod n`.
fn increment_mod(x: usize, n: usize) -> (r: usize)
    requires
        n > 0,
    ensures
        r == (x + 1) % (n as int),
{
    proof {
        lemma_add_mod_noop(x as int, 1, n as int);
        lemma_mod_bound(x as int, n as int);
        if n > 1 {
            lemma_small_mod(1, n as nat);
        }
    }
    add_mod(x % n, 1 % n, n)
}

/// `(x - 1) mod n`.
fn decrement_mod(x: usize, n: usize) -> (r: usize)
    requires
        n > 0,
    ensures
        r == (x - 1) % (n as int),
{
    proof {
        lemma_sub_mod_noop(x as int, 1, n as int);
        lemma_mod_bound(x as int, n as int);
        if n > 1 {
            lemma_small_mod(1, n as nat);
        }
    }
    sub_mod(x % n, 1 % n, n)
}

/// Pop a value, zero on an empty stack (which counts an error).
fn pop_or_zero(organism: &mut Organism) -> (r: usize)
    ensures
        final(organism)@ == old(organism)@.popped(),
        r == old(organism)@.pop_value(),
{
    match organism.pop() {
        Ok(v) => v,
        Err(_) => 0,
    }
}

/// One instruction keeps an organism well formed, in the same home region.
pub proof fn lemma_cpu_step_wf(v: OrganismView, cells: Seq<Instruction>, max_search: int)
    requires
        v.wf(),
        cells.len() > 0,
    ensures
        cpu_step(v, cells, max_search).0.wf(),
        cpu_step(v, cells, max_search).0.address == v.address,
        cpu_step(v, cells, max_search).0.size == v.size,
        cpu_step(v, cells, max_search).1.len() == cells.len(),
        cpu_step(v, cells, max_search).0.alive ==> v.alive,
        cpu_step(v, cells, max_search).2 == ExecutionResult::Dead ==> !cpu_step(v, cells, max_search).0.alive,
{
    let n = cells.len() as int;
    let w = v.advanced();
    crate::organism::lemma_advanced_wf(v);
    crate::organism::lemma_advanced_wf(w);
    crate::organism::lemma_advanced_wf(w.faulted());
    crate::organism::lemma_advanced_wf(v.faulted());
    crate::organism::lemma_advanced_wf(v.popped());
    crate::organism::lemma_advanced_wf(v.pushed(v.ax));
    crate::organism::lemma_advanced_wf(v.pushed(v.bx));
    crate::organism::lemma_advanced_wf(v.pushed(v.cx));
    crate::organism::lemma_advanced_wf(v.pushed(v.dx));
    crate::organism::lemma_advanced_wf(OrganismView { ax: v.pop_value(), ..v.popped() });
    crate::organism::lemma_advanced_wf(OrganismView { bx: v.pop_value(), ..v.popped() });
    crate::organism::lemma_advanced_wf(OrganismView { cx: v.pop_value(), ..v.popped() });
    crate::organism::lemma_advanced_wf(OrganismView { dx: v.pop_value(), ..v.popped() });
    crate::organism::lemma_advanced_wf(OrganismView { dx: cells[data_cell(v) % n].code() as usize, ..v });
    crate::organism::lemma_advanced_wf(OrganismView { ax: v.ip, ..v });
    crate::organism::lemma_advanced_wf(OrganismView { ax: ((v.ax + 1) % n) as usize, ..v });
    crate::organism::lemma_advanced_wf(OrganismView { bx: ((v.bx + 1) % n) as usize, ..v });
    crate::organism::lemma_advanced_wf(OrganismView { cx: ((v.cx + 1) % n) as usize, ..v });
    crate::organism::lemma_advanced_wf(OrganismView { cx: ((v.cx - 1) % n) as usize, ..v });
    let t = template_run(cells, w.ip as int, MAX_TEMPLATE_LENGTH as int);
    let q = w.advanced_by(t.len());
    crate::organism::lemma_advanced_by_wf(w, t.len());
    crate::organism::lemma_advanced_by_wf(w.faulted(), t.len());
    assert forall|a: int| #[trigger] w.jumped(a).wf() && q.pushed(q.ip).jumped(a).wf() && v.popped().jumped(a).wf() by {
        crate::organism::lemma_jumped_wf(w, a);
        crate::organism::lemma_jumped_wf(q.pushed(q.ip), a);
        crate::organism::lemma_jumped_wf(v.popped(), a);
    }
}

} // verus!
