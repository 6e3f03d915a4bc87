use vstd::prelude::*;
use vstd::arithmetic::div_mod::{
    lemma_add_mod_noop, lemma_mod_equivalence, lemma_small_mod, lemma_sub_mod_noop,
};
use rand::rngs::StdRng;
use crate::instruction::{Instruction, template_complement, OPCODE_COUNT};
use crate::random::{random_below, random_ratio};

verus! {

/// Probabilities are given in parts per million.
pub const PROBABILITY_SCALE: u32 = 1_000_000;

/// Number of random placements tried before the linear scan.
pub const RANDOM_PLACEMENT_TRIES: usize = 100;

/// The cell reached `k` steps after `start` on a ring of `n` cells.
pub open spec fn cell_at(start: int, k: int, n: int) -> int {
    (start + k) % n
}

/// The cell reached `k` steps before `start` on a ring of `n` cells.
pub open spec fn cell_before(start: int, k: int, n: int) -> int {
    (start - k) % n
}

/// Whether cell `c` lies in the span of `len` cells starting at `start`, on a ring of `n` cells.
pub open spec fn in_span(c: int, start: int, len: int, n: int) -> bool {
    exists|k: int| 0 <= k < len && #[trigger] cell_at(start, k, n) == c
}

/// Whether the cells `[start, start + len)` are all unallocated (no wrap).
pub open spec fn range_free(bits: Seq<bool>, start: int, len: int) -> bool {
    forall|i: int| start <= i < start + len ==> !(#[trigger] bits[i])
}

/// Whether some block of `len` cells without wrap is unallocated.
pub open spec fn fit_exists(bits: Seq<bool>, len: int) -> bool {
    exists|s: int| 0 <= s && s + len <= bits.len() && #[trigger] range_free(bits, s, len)
}

/// The bitmap with the cells `[start, start + len)` (no wrap) set to `flag`.
pub open spec fn with_range(bits: Seq<bool>, start: int, len: int, flag: bool) -> Seq<bool> {
    Seq::new(bits.len(), |c: int| if start <= c < start + len { flag } else { bits[c] })
}

/// The bitmap with the ring span of `len` cells from `start` set to `flag`.
pub open spec fn with_span(bits: Seq<bool>, start: int, len: int, flag: bool) -> Seq<bool> {
    Seq::new(bits.len(), |c: int| if in_span(c, start, len, bits.len() as int) { flag } else { bits[c] })
}

/// Whether the complement `comp` lies in the ring at `addr`.
pub open spec fn matches_at(cells: Seq<Instruction>, addr: int, comp: Seq<Instruction>) -> bool {
    forall|i: int| 0 <= i < comp.len() ==> cells[#[trigger] cell_at(addr, i, cells.len() as int)] == comp[i]
}

/// The candidate cell at distance `offset` from `start` in the given direction.
pub open spec fn candidate(start: int, offset: int, n: int, forward: bool) -> int {
    if forward { cell_at(start, offset, n) } else { cell_before(start, offset, n) }
}

/// The result of scanning distances `offset..=max_search` for `comp`: the cell
/// just past the first match, or none.
pub open spec fn search_from(
    cells: Seq<Instruction>,
    start: int,
    comp: Seq<Instruction>,
    forward: bool,
    offset: int,
    max_search: int,
) -> Option<int>
    decreases max_search + 1 - offset,
{
    if offset > max_search {
        None
    } else {
        let a = candidate(start, offset, cells.len() as int, forward);
        if matches_at(cells, a, comp) {
            Some(cell_at(a, comp.len() as int, cells.len() as int))
        } else {
            search_from(cells, start, comp, forward, offset + 1, max_search)
        }
    }
}

/// Template search as the soup performs it: the complement of `template` is
/// looked for at distances `1..=max_search`; an empty complement finds nothing.
pub open spec fn template_search(
    cells: Seq<Instruction>,
    start: int,
    template: Seq<Instruction>,
    forward: bool,
    max_search: int,
) -> Option<int> {
    let comp = template_complement(template);
    if comp.len() == 0 {
        None
    } else {
        search_from(cells, start, comp, forward, 1, max_search)
    }
}

/// The template read from `pos`: the run of template markers there, at most `k` long.
pub open spec fn template_run(cells: Seq<Instruction>, pos: int, k: int) -> Seq<Instruction>
    decreases k,
{
    if k <= 0 {
        Seq::empty()
    } else {
        let prev = template_run(cells, pos, k - 1);
        let inst = cells[cell_at(pos, k - 1, cells.len() as int)];
        if prev.len() == k - 1 && inst.spec_is_template() {
            prev.push(inst)
        } else {
            prev
        }
    }
}

/// An optional address, as a mathematical integer.
pub open spec fn opt_int(r: Option<usize>) -> Option<int> {
    match r {
        Some(a) => Some(a as int),
        None => None,
    }
}

/// The number of unallocated cells of a bitmap.
pub open spec fn count_free(bits: Seq<bool>) -> nat
    decreases bits.len(),
{
    if bits.len() == 0 {
        0
    } else {
        count_free(bits.drop_last()) + if bits.last() { 0nat } else { 1nat }
    }
}

/// The soup after copying `k` cells from `src` to `dst`, one by one, with
/// every value taken from the soup as it was before the copy.
pub open spec fn copied(cells: Seq<Instruction>, src: int, dst: int, k: int) -> Seq<Instruction>
    decreases k,
{
    if k <= 0 {
        cells
    } else {
        let n = cells.len() as int;
        copied(cells, src, dst, k - 1).update(cell_at(dst, k - 1, n), cells[cell_at(src, k - 1, n)])
    }
}

/// `(a + b) % n` without overflow.
pub(crate) fn add_mod(a: usize, b: usize, n: usize) -> (r: usize)
    requires
        0 < n,
        a < n,
        b < n,
    ensures
        r == (a + b) % n as int,
{
    if a >= n - b {
        proof {
            lemma_small_mod((a + b - n) as nat, n as nat);
            vstd::arithmetic::div_mod::lemma_mod_sub_multiples_vanish(a + b, n as int);
        }
        a - (n - b)
    } else {
        proof {
            lemma_small_mod((a + b) as nat, n as nat);
        }
        a + b
    }
}

/// `(a - b) mod n` without overflow.
pub(crate) fn sub_mod(a: usize, b: usize, n: usize) -> (r: usize)
    requires
        0 < n,
        a < n,
        b < n,
    ensures
        r == (a - b) % n as int,
{
    if a >= b {
        proof {
            lemma_small_mod((a - b) as nat, n as nat);
        }
        a - b
    } else {
        proof {
            lemma_small_mod((a + n - b) as nat, n as nat);
            vstd::arithmetic::div_mod::lemma_mod_sub_multiples_vanish(a + n - b, n as int);
        }
        a + (n - b)
    }
}

/// Cells `k` and `j` steps after one start are distinct when `0 <= j < k < j + n`.
pub proof fn lemma_ring_distinct(start: int, j: int, k: int, n: int)
    requires
        0 < n,
        0 <= j < k < j + n,
    ensures
        cell_at(start, j, n) != cell_at(start, k, n),
{
    lemma_mod_equivalence(start + k, start + j, n);
    lemma_small_mod((k - j) as nat, n as nat);
}

/// Stepping `d` cells from `start` with `0 <= d < n` is `d` steps away, going back.
pub proof fn lemma_ring_offset(start: int, d: int, n: int)
    requires
        0 < n,
        0 <= start < n,
        0 <= d < n,
    ensures
        (cell_at(start, d, n) - start) % n == d,
{
    lemma_sub_mod_noop(start + d, start, n);
    lemma_small_mod(start as nat, n as nat);
    lemma_small_mod(d as nat, n as nat);
    vstd::arithmetic::div_mod::lemma_mod_bound(start + d, n);
    vstd::arithmetic::div_mod::lemma_mod_bound(d, n);
    lemma_sub_mod_noop(start + d, start, n);
    assert((start + d - start) % n == d);
    vstd::arithmetic::div_mod::lemma_sub_mod_noop_right(start + d, start, n);
    assert(((start + d) % n - start) % n == ((start + d) % n - start % n) % n);
}

/// Every cell `j` of the ring is reached from `start` after `(j - start) mod n` steps.
pub proof fn lemma_ring_offset_inverse(start: int, j: int, n: int)
    requires
        0 < n,
        0 <= j < n,
    ensures
        0 <= (j - start) % n < n,
        cell_at(start, (j - start) % n, n) == j,
{
    vstd::arithmetic::div_mod::lemma_mod_bound(j - start, n);
    lemma_add_mod_noop(start, j - start, n);
    lemma_small_mod(j as nat, n as nat);
    lemma_add_mod_noop(start, (j - start) % n, n);
    lemma_small_mod(((j - start) % n) as nat, n as nat);
}

/// The soup after a genome copy from `src` to `dst`, cell by cell: cell `k`
/// of the destination receives `draws[k]` when it is a mutation, else what
/// the source cell holds at that moment.
pub open spec fn genome_copy(
    cells: Seq<Instruction>,
    src: int,
    dst: int,
    draws: Seq<Option<Instruction>>,
) -> Seq<Instruction>
    decreases draws.len(),
{
    if draws.len() == 0 {
        cells
    } else {
        let k = draws.len() - 1;
        let n = cells.len() as int;
        let prev = genome_copy(cells, src, dst, draws.drop_last());
        prev.update(cell_at(dst, k, n), match draws[k] {
            Some(op) => op,
            None => prev[cell_at(src, k, n)],
        })
    }
}

/// A span is contained in any longer span from the same start.
pub proof fn lemma_span_grow(c: int, start: int, len: int, longer: int, n: int)
    requires
        in_span(c, start, len, n),
        len <= longer,
    ensures
        in_span(c, start, longer, n),
{
    let k = choose|k: int| 0 <= k < len && #[trigger] cell_at(start, k, n) == c;
    assert(cell_at(start, k, n) == c);
}

/// A genome copy keeps the soup's length and leaves every cell outside the
/// destination span as it was.
pub proof fn lemma_genome_copy_frame(cells: Seq<Instruction>, src: int, dst: int, draws: Seq<Option<Instruction>>)
    requires
        cells.len() > 0,
    ensures
        genome_copy(cells, src, dst, draws).len() == cells.len(),
        forall|c: int| 0 <= c < cells.len() && !in_span(c, dst, draws.len() as int, cells.len() as int)
            ==> #[trigger] genome_copy(cells, src, dst, draws)[c] == cells[c],
    decreases draws.len(),
{
    let n = cells.len() as int;
    if draws.len() > 0 {
        let k = draws.len() - 1;
        lemma_genome_copy_frame(cells, src, dst, draws.drop_last());
        vstd::arithmetic::div_mod::lemma_mod_bound(dst + k, n);
        assert forall|c: int| 0 <= c < n && !in_span(c, dst, draws.len() as int, n)
            implies #[trigger] genome_copy(cells, src, dst, draws)[c] == cells[c] by {
            assert(cell_at(dst, k, n) != c);
            if in_span(c, dst, k, n) {
                lemma_span_grow(c, dst, k, k + 1, n);
            }
        }
    }
}

/// Without mutations, and with source and destination spans apart, a genome
/// copy of at most the soup's size puts the source cells at the destination.
pub proof fn lemma_genome_copy_exact(cells: Seq<Instruction>, src: int, dst: int, draws: Seq<Option<Instruction>>)
    requires
        0 < cells.len(),
        draws.len() <= cells.len(),
        forall|i: int| 0 <= i < draws.len() ==> (#[trigger] draws[i]) is None,
        forall|c: int| #[trigger] in_span(c, src, draws.len() as int, cells.len() as int)
            ==> !in_span(c, dst, draws.len() as int, cells.len() as int),
    ensures
        forall|i: int| 0 <= i < draws.len() ==>
            genome_copy(cells, src, dst, draws)[#[trigger] cell_at(dst, i, cells.len() as int)]
                == cells[cell_at(src, i, cells.len() as int)],
    decreases draws.len(),
{
    let n = cells.len() as int;
    if draws.len() > 0 {
        let k = draws.len() - 1;
        let d = draws.drop_last();
        assert forall|i: int| 0 <= i < d.len() implies (#[trigger] d[i]) is None by {
            assert(d[i] == draws[i]);
        }
        assert forall|c: int| #[trigger] in_span(c, src, d.len() as int, n) implies !in_span(c, dst, d.len() as int, n) by {
            lemma_span_grow(c, src, k, k + 1, n);
            if in_span(c, dst, k, n) {
                lemma_span_grow(c, dst, k, k + 1, n);
            }
        }
        lemma_genome_copy_exact(cells, src, dst, d);
        lemma_genome_copy_frame(cells, src, dst, d);
        let prev = genome_copy(cells, src, dst, d);
        let sc = cell_at(src, k, n);
        vstd::arithmetic::div_mod::lemma_mod_bound(src + k, n);
        assert(in_span(sc, src, k + 1, n));
        assert(!in_span(sc, dst, k + 1, n));
        assert(!in_span(sc, dst, k, n)) by {
            if in_span(sc, dst, k, n) {
                lemma_span_grow(sc, dst, k, k + 1, n);
            }
        }
        assert(prev[sc] == cells[sc]);
        assert forall|i: int| 0 <= i < draws.len() implies
            genome_copy(cells, src, dst, draws)[#[trigger] cell_at(dst, i, n)] == cells[cell_at(src, i, n)] by {
            if i < k {
                lemma_ring_distinct(dst, i, k, n);
            }
        }
    }
}

/// The soup: a ring of opcodes with an allocation bitmap.
pub struct Memory {
    data: Vec<Instruction>,
    size: usize,
    allocated: Vec<bool>,
}

impl Memory {
    /// The opcodes of the soup.
    pub closed spec fn cells(&self) -> Seq<Instruction> {
        self.data@
    }

    /// The allocation bitmap.
    pub closed spec fn bits(&self) -> Seq<bool> {
        self.allocated@
    }

    /// The number of cells.
    pub closed spec fn spec_size(&self) -> nat {
        self.size as nat
    }

    /// Cells and bitmap both have one entry per cell.
    pub open spec fn wf(&self) -> bool {
        &&& self.cells().len() == self.spec_size()
        &&& self.bits().len() == self.spec_size()
    }

    /// Create a soup of `size` cells, all `Nop0` and unallocated.
    pub fn new(size: usize) -> (r: Memory)
        ensures
            r.wf(),
            r.spec_size() == size,
            r.cells() == Seq::new(size as nat, |i: int| Instruction::Nop0),
            r.bits() == Seq::new(size as nat, |i: int| false),
    {
        let mut data: Vec<Instruction> = Vec::new();
        let mut allocated: Vec<bool> = Vec::new();
        let mut i: usize = 0;
        while i < size
            invariant
                i <= size,
                data@ == Seq::new(i as nat, |j: int| Instruction::Nop0),
                allocated@ == Seq::new(i as nat, |j: int| false),
            decreases size - i,
        {
            data.push(Instruction::Nop0);
            allocated.push(false);
            i += 1;
            assert(data@ =~= Seq::new(i as nat, |j: int| Instruction::Nop0));
            assert(allocated@ =~= Seq::new(i as nat, |j: int| false));
        }
        Memory { data, size, allocated }
    }

    /// The number of cells.
    pub fn size(&self) -> (r: usize)
        ensures
            r == self.spec_size(),
    {
        self.size
    }

    /// Read the instruction at an address, modulo the soup size.
    pub fn read(&self, addr: usize) -> (r: Instruction)
        requires
            self.wf(),
            self.spec_size() > 0,
        ensures
            r == self.cells()[addr as int % self.spec_size() as int],
    {
        self.data[addr % self.size]
    }

    /// Write an instruction at an address, modulo the soup size.
    pub fn write(&mut self, addr: usize, inst: Instruction)
        requires
            old(self).wf(),
            old(self).spec_size() > 0,
        ensures
            final(self).wf(),
            final(self).spec_size() == old(self).spec_size(),
            final(self).cells() == old(self).cells().update(addr as int % old(self).spec_size() as int, inst),
            final(self).bits() == old(self).bits(),
    {
        let i = addr % self.size;
        self.data.set(i, inst);
    }

    /// Whether the cell at `addr` is allocated.
    pub fn is_allocated(&self, addr: usize) -> (r: bool)
        requires
            self.wf(),
            addr < self.spec_size(),
        ensures
            r == self.bits()[addr as int],
    {
        self.allocated[addr]
    }

    /// Reduce an address modulo the soup size.
    pub fn normalize_addr(&self, addr: usize) -> (r: usize)
        requires
            self.spec_size() > 0,
        ensures
            r == addr as int % self.spec_size() as int,
    {
        addr % self.size
    }

    /// Whether `comp` lies at `addr` (already reduced).
    fn matches_here(&self, addr: usize, comp: &Vec<Instruction>) -> (r: bool)
        requires
            self.wf(),
            self.spec_size() > 0,
            addr < self.spec_size(),
        ensures
            r == matches_at(self.cells(), addr as int, comp@),
    {
        let n = self.size;
        let mut i: usize = 0;
        while i < comp.len()
            invariant
                self.wf(),
                n == self.spec_size(),
                n > 0,
                addr < n,
                i <= comp.len(),
                forall|j: int| 0 <= j < i ==> self.cells()[#[trigger] cell_at(addr as int, j, n as int)] == comp@[j],
            decreases comp.len() - i,
        {
            proof {
                lemma_add_mod_noop(addr as int, i as int, n as int);
                lemma_small_mod(addr as nat, n as nat);
            }
            let a = add_mod(addr, i % n, n);
            if self.data[a] != comp[i] {
                assert(self.cells()[cell_at(addr as int, i as int, n as int)] != comp@[i as int]);
                return false;
            }
            i += 1;
        }
        true
    }

    /// Shared scan of both search directions.
    fn find_template(&self, start: usize, template: &[Instruction], max_search: usize, forward: bool) -> (r: Option<usize>)
        requires
            self.wf(),
            self.spec_size() > 0,
        ensures
            opt_int(r) == template_search(self.cells(), start as int, template@, forward, max_search as int),
    {
        let n = self.size;
        let mut comp: Vec<Instruction> = Vec::new();
        let mut i: usize = 0;
        while i < template.len()
            invariant
                i <= template@.len(),
                comp@ == template_complement(template@.take(i as int)),
            decreases template@.len() - i,
        {
            assert(template@.take(i as int + 1).drop_last() =~= template@.take(i as int));
            match template[i].complement() {
                Some(c) => comp.push(c),
                None => {},
            }
            i += 1;
        }
        assert(template@.take(template@.len() as int) =~= template@);
        if comp.len() == 0 {
            return None;
        }
        let ghost cells = self.cells();
        let mut offset: usize = 1;
        while offset <= max_search
            invariant
                self.wf(),
                cells == self.cells(),
                n == self.spec_size(),
                n > 0,
                1 <= offset,
                comp@ == template_complement(template@),
                comp@.len() > 0,
                search_from(cells, start as int, comp@, forward, 1, max_search as int)
                    == search_from(cells, start as int, comp@, forward, offset as int, max_search as int),
            decreases max_search + 1 - offset,
        {
            proof {
                lemma_add_mod_noop(start as int, offset as int, n as int);
                lemma_sub_mod_noop(start as int, offset as int, n as int);
                vstd::arithmetic::div_mod::lemma_mod_bound(start as int, n as int);
                vstd::arithmetic::div_mod::lemma_mod_bound(offset as int, n as int);
            }
            let a = if forward {
                add_mod(start % n, offset % n, n)
            } else {
                sub_mod(start % n, offset % n, n)
            };
            assert(a == candidate(start as int, offset as int, n as int, forward));
            if self.matches_here(a, &comp) {
                proof {
                    lemma_add_mod_noop(a as int, comp@.len() as int, n as int);
                    lemma_small_mod(a as nat, n as nat);
                }
                let past = add_mod(a, comp.len() % n, n);
                return Some(past);
            }
            if offset == max_search {
                assert(search_from(cells, start as int, comp@, forward, offset as int + 1, max_search as int) is None);
                return None;
            }
            offset += 1;
        }
        None
    }

    /// Find the nearest complement of `template` forward of `start`, within
    /// `max_search` cells; returns the address just past the match.
    pub fn find_template_forward(&self, start: usize, template: &[Instruction], max_search: usize) -> (r: Option<usize>)
        requires
            self.wf(),
            self.spec_size() > 0,
        ensures
            opt_int(r) == template_search(self.cells(), start as int, template@, true, max_search as int),
    {
        self.find_template(start, template, max_search, true)
    }

    /// Find the nearest complement of `template` backward of `start`, within
    /// `max_search` cells; returns the address just past the match.
    pub fn find_template_backward(&self, start: usize, template: &[Instruction], max_search: usize) -> (r: Option<usize>)
        requires
            self.wf(),
            self.spec_size() > 0,
        ensures
            opt_int(r) == template_search(self.cells(), start as int, template@, false, max_search as int),
    {
        self.find_template(start, template, max_search, false)
    }

    /// Whether the cells `[start, start + size)` are all unallocated.
    fn is_range_free(&self, start: usize, size: usize) -> (r: bool)
        requires
            self.wf(),
            start + size <= self.spec_size(),
        ensures
            r == range_free(self.bits(), start as int, size as int),
    {
        let mut i: usize = 0;
        while i < size
            invariant
                self.wf(),
                start + size <= self.spec_size(),
                i <= size,
                forall|j: int| start <= j < start + i ==> !(#[trigger] self.bits()[j]),
            decreases size - i,
        {
            if self.allocated[start + i] {
                return false;
            }
            i += 1;
        }
        true
    }

    /// Allocate a block of `size` cells that does not wrap around the soup:
    /// up to a hundred random placements are tried, then a linear scan from
    /// cell zero. Returns the start of the block.
    pub fn allocate(&mut self, size: usize, rng: &mut StdRng) -> (r: Option<usize>)
        requires
            old(self).wf(),
        ensures
            final(self).wf(),
            final(self).spec_size() == old(self).spec_size(),
            final(self).cells() == old(self).cells(),
            match r {
                Some(s) => {
                    &&& 0 < size <= old(self).spec_size()
                    &&& s + size <= old(self).spec_size()
                    &&& range_free(old(self).bits(), s as int, size as int)
                    &&& final(self).bits() == with_range(old(self).bits(), s as int, size as int, true)
                },
                None => {
                    &&& final(self).bits() == old(self).bits()
                    &&& (size == 0 || size > old(self).spec_size()
                        || !fit_exists(old(self).bits(), size as int))
                },
            },
    {
        let n = self.size;
        if size == 0 || size > n {
            return None;
        }
        let mut t: usize = 0;
        while t < RANDOM_PLACEMENT_TRIES
            invariant
                self.wf(),
                *self == *old(self),
                0 < size <= n,
                n == self.spec_size(),
            decreases RANDOM_PLACEMENT_TRIES - t,
        {
            let start = random_below(rng, n - size + 1);
            if self.is_range_free(start, size) {
                self.mark_block(start, size);
                return Some(start);
            }
            t += 1;
        }
        let mut start: usize = 0;
        while start <= n - size
            invariant
                self.wf(),
                *self == *old(self),
                0 < size <= n,
                n == self.spec_size(),
                forall|s: int| 0 <= s < start ==> !range_free(self.bits(), s, size as int),
            decreases n - size + 1 - start,
        {
            if self.is_range_free(start, size) {
                self.mark_block(start, size);
                return Some(start);
            }
            start += 1;
        }
        proof {
            if fit_exists(self.bits(), size as int) {
                let s = choose|s: int| 0 <= s && s + size <= self.bits().len() && #[trigger] range_free(self.bits(), s, size as int);
                assert(!range_free(self.bits(), s, size as int));
            }
        }
        None
    }

    /// Mark a block that does not wrap as allocated.
    fn mark_block(&mut self, start: usize, size: usize)
        requires
            old(self).wf(),
            0 < size,
            start + size <= old(self).spec_size(),
        ensures
            final(self).wf(),
            final(self).spec_size() == old(self).spec_size(),
            final(self).cells() == old(self).cells(),
            final(self).bits() == with_range(old(self).bits(), start as int, size as int, true),
    {
        self.mark_allocated(start, size, true);
        proof {
            lemma_span_is_range(self.bits(), old(self).bits(), start as int, size as int);
        }
    }

    /// Set the allocation flag of the `size` cells from `start`, modulo the soup size.
    pub fn mark_allocated(&mut self, start: usize, size: usize, allocated: bool)
        requires
            old(self).wf(),
            old(self).spec_size() > 0,
        ensures
            final(self).wf(),
            final(self).spec_size() == old(self).spec_size(),
            final(self).cells() == old(self).cells(),
            final(self).bits() == with_span(old(self).bits(), start as int, size as int, allocated),
    {
        let n = self.size;
        let ghost before = self.bits();
        let mut i: usize = 0;
        while i < size
            invariant
                self.wf(),
                n == self.spec_size(),
                n > 0,
                before.len() == n,
                self.cells() == old(self).cells(),
                before == old(self).bits(),
                i <= size,
                self.bits() == with_span(before, start as int, i as int, allocated),
            decreases size - i,
        {
            proof {
                lemma_add_mod_noop(start as int, i as int, n as int);
                vstd::arithmetic::div_mod::lemma_mod_bound(start as int, n as int);
                vstd::arithmetic::div_mod::lemma_mod_bound(i as int, n as int);
            }
            let a = add_mod(start % n, i % n, n);
            assert(a == cell_at(start as int, i as int, n as int));
            self.allocated.set(a, allocated);
            i += 1;
            assert forall|c: int| 0 <= c < n implies
                in_span(c, start as int, i as int, n as int) == (in_span(c, start as int, i - 1, n as int) || c == a) by {
                if c == a {
                    assert(cell_at(start as int, i - 1, n as int) == c);
                }
                if in_span(c, start as int, i as int, n as int) && c != a {
                    let k = choose|k: int| 0 <= k < i && #[trigger] cell_at(start as int, k, n as int) == c;
                    assert(k < i - 1);
                }
            }
            assert(self.bits() =~= with_span(before, start as int, i as int, allocated));
        }
    }

    /// Return the `size` cells from `start`, modulo the soup size, to the free pool.
    pub fn free(&mut self, start: usize, size: usize)
        requires
            old(self).wf(),
            old(self).spec_size() > 0,
        ensures
            final(self).wf(),
            final(self).spec_size() == old(self).spec_size(),
            final(self).cells() == old(self).cells(),
            final(self).bits() == with_span(old(self).bits(), start as int, size as int, false),
    {
        self.mark_allocated(start, size, false);
    }

    /// Copy `size` cells from `src` to `dst`, both modulo the soup size; the
    /// source is read in full before anything is written.
    pub fn copy_block(&mut self, src: usize, dst: usize, size: usize)
        requires
            old(self).wf(),
            old(self).spec_size() > 0,
        ensures
            final(self).wf(),
            final(self).spec_size() == old(self).spec_size(),
            final(self).bits() == old(self).bits(),
            final(self).cells() == copied(old(self).cells(), src as int, dst as int, size as int),
    {
        let n = self.size;
        let ghost before = self.cells();
        let mut buffer: Vec<Instruction> = Vec::new();
        let mut i: usize = 0;
        while i < size
            invariant
                self.wf(),
                *self == *old(self),
                before == self.cells(),
                n == self.spec_size(),
                n > 0,
                i <= size,
                buffer@.len() == i,
                forall|j: int| 0 <= j < i ==> buffer@[j] == before[#[trigger] cell_at(src as int, j, n as int)],
            decreases size - i,
        {
            proof {
                lemma_add_mod_noop(src as int, i as int, n as int);
                vstd::arithmetic::div_mod::lemma_mod_bound(src as int, n as int);
                vstd::arithmetic::div_mod::lemma_mod_bound(i as int, n as int);
            }
            let a = add_mod(src % n, i % n, n);
            buffer.push(self.data[a]);
            i += 1;
        }
        let mut i: usize = 0;
        while i < size
            invariant
                self.wf(),
                n == self.spec_size(),
                n > 0,
                before.len() == n,
                self.bits() == old(self).bits(),
                i <= size,
                buffer@.len() == size,
                forall|j: int| 0 <= j < size ==> buffer@[j] == before[#[trigger] cell_at(src as int, j, n as int)],
                self.cells() == copied(before, src as int, dst as int, i as int),
            decreases size - i,
        {
            proof {
                lemma_add_mod_noop(dst as int, i as int, n as int);
                vstd::arithmetic::div_mod::lemma_mod_bound(dst as int, n as int);
                vstd::arithmetic::div_mod::lemma_mod_bound(i as int, n as int);
                lemma_copied_len(before, src as int, dst as int, i as int);
            }
            let a = add_mod(dst % n, i % n, n);
            self.data.set(a, buffer[i]);
            i += 1;
        }
    }

    /// Copy `draws.len()` cells from `src` to `dst`, both modulo the soup
    /// size, one cell at a time; where `draws` holds an opcode, that opcode is
    /// written instead of the copied one.
    pub fn copy_genome(&mut self, src: usize, dst: usize, draws: &Vec<Option<Instruction>>)
        requires
            old(self).wf(),
            old(self).spec_size() > 0,
        ensures
            final(self).wf(),
            final(self).spec_size() == old(self).spec_size(),
            final(self).bits() == old(self).bits(),
            final(self).cells() == genome_copy(old(self).cells(), src as int, dst as int, draws@),
    {
        let n = self.size;
        let ghost before = self.cells();
        let mut i: usize = 0;
        while i < draws.len()
            invariant
                self.wf(),
                n == self.spec_size(),
                n > 0,
                before.len() == n,
                self.bits() == old(self).bits(),
                before == old(self).cells(),
                i <= draws@.len(),
                self.cells() == genome_copy(before, src as int, dst as int, draws@.take(i as int)),
            decreases draws@.len() - i,
        {
            proof {
                lemma_add_mod_noop(src as int, i as int, n as int);
                lemma_add_mod_noop(dst as int, i as int, n as int);
                vstd::arithmetic::div_mod::lemma_mod_bound(src as int, n as int);
                vstd::arithmetic::div_mod::lemma_mod_bound(dst as int, n as int);
                vstd::arithmetic::div_mod::lemma_mod_bound(i as int, n as int);
                assert(draws@.take(i as int + 1).drop_last() =~= draws@.take(i as int));
                lemma_genome_copy_frame(before, src as int, dst as int, draws@.take(i as int));
            }
            let from = add_mod(src % n, i % n, n);
            let to = add_mod(dst % n, i % n, n);
            let inst = match draws[i] {
                Some(op) => op,
                None => self.data[from],
            };
            self.data.set(to, inst);
            i += 1;
        }
        assert(draws@.take(i as int) =~= draws@);
    }

    /// With probability `mutation_rate` (in parts per million), overwrite the
    /// cell at `addr` with a uniformly drawn opcode.
    pub fn maybe_mutate(&mut self, addr: usize, mutation_rate: u32, rng: &mut StdRng)
        requires
            old(self).wf(),
            old(self).spec_size() > 0,
            mutation_rate <= PROBABILITY_SCALE,
        ensures
            final(self).wf(),
            final(self).spec_size() == old(self).spec_size(),
            final(self).bits() == old(self).bits(),
            mutation_rate == 0 ==> final(self).cells() == old(self).cells(),
            forall|c: int| 0 <= c < old(self).spec_size() && c != addr as int % old(self).spec_size() as int
                ==> #[trigger] final(self).cells()[c] == old(self).cells()[c],
    {
        if random_ratio(rng, mutation_rate, PROBABILITY_SCALE) {
            let b = random_below(rng, OPCODE_COUNT as usize);
            let inst = Instruction::from_u8(b as u8);
            self.write(addr, inst);
        }
    }

    /// The `len` cells from `start`, modulo the soup size.
    pub fn get_slice(&self, start: usize, len: usize) -> (r: Vec<Instruction>)
        requires
            self.wf(),
            self.spec_size() > 0,
        ensures
            r@ == Seq::new(len as nat, |i: int| self.cells()[cell_at(start as int, i, self.spec_size() as int)]),
    {
        let n = self.size;
        let mut out: Vec<Instruction> = Vec::new();
        let mut i: usize = 0;
        while i < len
            invariant
                self.wf(),
                n == self.spec_size(),
                n > 0,
                i <= len,
                out@ == Seq::new(i as nat, |j: int| self.cells()[cell_at(start as int, j, n as int)]),
            decreases len - i,
        {
            proof {
                lemma_add_mod_noop(start as int, i as int, n as int);
                vstd::arithmetic::div_mod::lemma_mod_bound(start as int, n as int);
                vstd::arithmetic::div_mod::lemma_mod_bound(i as int, n as int);
            }
            let a = add_mod(start % n, i % n, n);
            out.push(self.data[a]);
            i += 1;
            assert(out@ =~= Seq::new(i as nat, |j: int| self.cells()[cell_at(start as int, j, n as int)]));
        }
        out
    }

    /// The number of unallocated cells.
    pub fn count_free_cells(&self) -> (r: usize)
        requires
            self.wf(),
        ensures
            r == count_free(self.bits()),
            r <= self.spec_size(),
    {
        let mut count: usize = 0;
        let mut i: usize = 0;
        while i < self.allocated.len()
            invariant
                self.wf(),
                i <= self.bits().len(),
                count == count_free(self.bits().take(i as int)),
                count <= i,
            decreases self.bits().len() - i,
        {
            assert(self.bits().take(i as int + 1).drop_last() =~= self.bits().take(i as int));
            if !self.allocated[i] {
                count += 1;
            }
            i += 1;
        }
        assert(self.bits().take(i as int) =~= self.bits());
        count
    }
}

/// Copying keeps the length of the soup.
pub proof fn lemma_copied_len(cells: Seq<Instruction>, src: int, dst: int, k: int)
    requires
        cells.len() > 0,
    ensures
        copied(cells, src, dst, k).len() == cells.len(),
    decreases k,
{
    if k > 0 {
        lemma_copied_len(cells, src, dst, k - 1);
    }
}

/// A span that does not wrap holds exactly the cells of the plain range.
pub proof fn lemma_span_no_wrap(c: int, start: int, len: int, n: int)
    requires
        0 <= start,
        0 <= len,
        start + len <= n,
        0 <= c < n,
    ensures
        in_span(c, start, len, n) == (start <= c < start + len),
{
    if start <= c < start + len {
        lemma_small_mod(c as nat, n as nat);
        assert(cell_at(start, c - start, n) == c);
    }
    if in_span(c, start, len, n) {
        let k = choose|k: int| 0 <= k < len && #[trigger] cell_at(start, k, n) == c;
        lemma_small_mod((start + k) as nat, n as nat);
    }
}

/// For a span that does not wrap, the ring span is the plain range.
pub proof fn lemma_span_is_range(after: Seq<bool>, before: Seq<bool>, start: int, size: int)
    requires
        0 <= start,
        0 <= size,
        start + size <= before.len(),
        after == with_span(before, start, size, true),
    ensures
        after == with_range(before, start, size, true),
{
    let n = before.len() as int;
    assert forall|c: int| 0 <= c < n implies in_span(c, start, size, n) == (start <= c < start + size) by {
        lemma_span_no_wrap(c, start, size, n);
    }
    assert(after =~= with_range(before, start, size, true));
}

/// Reading back a copy of at most the soup's size: the `k` cells from `dst`
/// hold what the `k` cells from `src` held, and every other cell is unchanged.
pub proof fn lemma_copy_block_reads(cells: Seq<Instruction>, src: int, dst: int, k: int)
    requires
        0 < cells.len(),
        0 <= k <= cells.len(),
    ensures
        copied(cells, src, dst, k).len() == cells.len(),
        forall|j: int| 0 <= j < k ==>
            copied(cells, src, dst, k)[#[trigger] cell_at(dst, j, cells.len() as int)]
                == cells[cell_at(src, j, cells.len() as int)],
        forall|c: int| 0 <= c < cells.len() && !in_span(c, dst, k, cells.len() as int) ==>
            #[trigger] copied(cells, src, dst, k)[c] == cells[c],
    decreases k,
{
    let n = cells.len() as int;
    lemma_copied_len(cells, src, dst, k);
    if k > 0 {
        lemma_copy_block_reads(cells, src, dst, k - 1);
        let p = cell_at(dst, k - 1, n);
        assert forall|j: int| 0 <= j < k implies
            copied(cells, src, dst, k)[#[trigger] cell_at(dst, j, n)] == cells[cell_at(src, j, n)] by {
            if j < k - 1 {
                lemma_ring_distinct(dst, j, k - 1, n);
            }
            vstd::arithmetic::div_mod::lemma_mod_bound(dst + j, n);
            vstd::arithmetic::div_mod::lemma_mod_bound(src + j, n);
        }
        assert forall|c: int| 0 <= c < n && !in_span(c, dst, k, n) implies
            #[trigger] copied(cells, src, dst, k)[c] == cells[c] by {
            assert(cell_at(dst, k - 1, n) != c);
            if in_span(c, dst, k - 1, n) {
                let w = choose|w: int| 0 <= w < k - 1 && #[trigger] cell_at(dst, w, n) == c;
                assert(cell_at(dst, w, n) == c);
            }
        }
    }
}

} // verus!
