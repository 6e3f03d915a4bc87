use vstd::prelude::*;
use vstd::arithmetic::div_mod::{lemma_mod_equivalence, lemma_small_mod};
use crate::memory::{cell_at, count_free, in_span, with_span};
use crate::organism::Organism;
use crate::scheduler::alive_only;
use crate::simulator::{organism_ok, Simulator};

verus! {

/// Whether `o` is alive and its home region covers cell `c` of a ring of `n` cells.
pub open spec fn covers(o: Organism, c: int, n: int) -> bool {
    o.alive && in_span(c, o.address as int, o.size as int, n)
}

/// How many live organisms of `s` cover cell `c`.
pub open spec fn cover_count(s: Seq<Organism>, c: int, n: int) -> nat
    decreases s.len(),
{
    if s.len() == 0 {
        0
    } else {
        cover_count(s.drop_last(), c, n) + if covers(s.last(), c, n) { 1nat } else { 0nat }
    }
}

/// The allocation bitmap accounts for the population: no cell is covered by
/// two live organisms, and every cell a live organism covers is allocated.
pub open spec fn allocation_sound(s: Seq<Organism>, bits: Seq<bool>) -> bool {
    forall|c: int| 0 <= c < bits.len() ==> {
        &&& #[trigger] cover_count(s, c, bits.len() as int) <= 1
        &&& cover_count(s, c, bits.len() as int) > 0 ==> bits[c]
    }
}

/// Replacing one organism changes each cell's cover count by the difference
/// of the two organisms' covers.
pub proof fn lemma_cover_count_update(s: Seq<Organism>, i: int, x: Organism, c: int, n: int)
    requires
        0 <= i < s.len(),
    ensures
        cover_count(s.update(i, x), c, n) + (if covers(s[i], c, n) { 1int } else { 0int })
            == cover_count(s, c, n) + (if covers(x, c, n) { 1int } else { 0int }),
    decreases s.len(),
{
    let u = s.update(i, x);
    if i < s.len() - 1 {
        assert(u.drop_last() =~= s.drop_last().update(i, x));
        lemma_cover_count_update(s.drop_last(), i, x, c, n);
    } else {
        assert(u.drop_last() =~= s.drop_last());
    }
}

/// Keeping only the living keeps every cell's cover count.
pub proof fn lemma_cover_count_alive_only(s: Seq<Organism>, c: int, n: int)
    ensures
        cover_count(alive_only(s), c, n) == cover_count(s, c, n),
    decreases s.len(),
{
    if s.len() > 0 {
        lemma_cover_count_alive_only(s.drop_last(), c, n);
        if s.last().alive {
            assert(alive_only(s).drop_last() =~= alive_only(s.drop_last()));
        }
    }
}

/// A live organism of the population counts toward every cell it covers.
pub proof fn lemma_cover_count_member(s: Seq<Organism>, i: int, c: int, n: int)
    requires
        0 <= i < s.len(),
        covers(s[i], c, n),
    ensures
        cover_count(s, c, n) >= 1,
    decreases s.len(),
{
    if i < s.len() - 1 {
        lemma_cover_count_member(s.drop_last(), i, c, n);
    }
}

/// Replacing an organism by one with the same region that is alive only if
/// the first was keeps the allocation sound.
pub proof fn lemma_sound_update(s: Seq<Organism>, bits: Seq<bool>, i: int, x: Organism)
    requires
        0 <= i < s.len(),
        allocation_sound(s, bits),
        x.address == s[i].address,
        x.size == s[i].size,
        x.alive ==> s[i].alive,
    ensures
        allocation_sound(s.update(i, x), bits),
{
    let n = bits.len() as int;
    assert forall|c: int| 0 <= c < n implies {
        &&& #[trigger] cover_count(s.update(i, x), c, n) <= 1
        &&& cover_count(s.update(i, x), c, n) > 0 ==> bits[c]
    } by {
        lemma_cover_count_update(s, i, x, c, n);
        assert(cover_count(s, c, n) <= 1);
    }
}

/// A birth keeps the allocation sound when the child is placed on allocated
/// cells that no live organism covers: the child overlaps no one.
pub proof fn lemma_birth_keeps_sound(s: Seq<Organism>, bits: Seq<bool>, child: Organism)
    requires
        allocation_sound(s, bits),
        forall|c: int| 0 <= c < bits.len() && #[trigger] covers(child, c, bits.len() as int)
            ==> bits[c] && cover_count(s, c, bits.len() as int) == 0,
    ensures
        allocation_sound(s.push(child), bits),
{
    let n = bits.len() as int;
    assert forall|c: int| 0 <= c < n implies {
        &&& #[trigger] cover_count(s.push(child), c, n) <= 1
        &&& cover_count(s.push(child), c, n) > 0 ==> bits[c]
    } by {
        assert(s.push(child).drop_last() =~= s);
        assert(cover_count(s, c, n) <= 1);
    }
}

/// The total size of the live organisms of `s`.
pub open spec fn live_size_total(s: Seq<Organism>) -> nat
    decreases s.len(),
{
    if s.len() == 0 {
        0
    } else {
        live_size_total(s.drop_last()) + if s.last().alive { s.last().size as nat } else { 0nat }
    }
}

/// The number of allocated cells of a bitmap.
pub open spec fn count_used(bits: Seq<bool>) -> nat
    decreases bits.len(),
{
    if bits.len() == 0 {
        0
    } else {
        count_used(bits.drop_last()) + if bits.last() { 1nat } else { 0nat }
    }
}

/// The cells covered by some live organism of `s`, as a bitmap of `n` cells.
pub open spec fn covered(s: Seq<Organism>, n: int) -> Seq<bool> {
    Seq::new(n as nat, |c: int| cover_count(s, c, n) > 0)
}

/// Every cell is either free or used.
pub proof fn lemma_free_plus_used(bits: Seq<bool>)
    ensures
        count_free(bits) + count_used(bits) == bits.len(),
    decreases bits.len(),
{
    if bits.len() > 0 {
        lemma_free_plus_used(bits.drop_last());
    }
}

/// Setting one cell changes the used count by the difference.
pub proof fn lemma_count_used_update(bits: Seq<bool>, i: int, v: bool)
    requires
        0 <= i < bits.len(),
    ensures
        count_used(bits.update(i, v)) + (if bits[i] { 1int } else { 0int })
            == count_used(bits) + (if v { 1int } else { 0int }),
    decreases bits.len(),
{
    let u = bits.update(i, v);
    if i < bits.len() - 1 {
        assert(u.drop_last() =~= bits.drop_last().update(i, v));
        lemma_count_used_update(bits.drop_last(), i, v);
    } else {
        assert(u.drop_last() =~= bits.drop_last());
    }
}

/// A bitmap that is allocated wherever another is has at least as many used cells.
pub proof fn lemma_count_used_mono(a: Seq<bool>, b: Seq<bool>)
    requires
        a.len() == b.len(),
        forall|c: int| 0 <= c < a.len() && #[trigger] a[c] ==> b[c],
    ensures
        count_used(a) <= count_used(b),
    decreases a.len(),
{
    if a.len() > 0 {
        lemma_count_used_mono(a.drop_last(), b.drop_last());
        assert(a.last() == a[a.len() - 1]);
    }
}

/// Setting a span of `k <= n` cells, all free before, adds `k` used cells.
pub proof fn lemma_count_used_span(bits: Seq<bool>, start: int, k: int)
    requires
        0 <= k <= bits.len(),
        forall|c: int| 0 <= c < bits.len() && #[trigger] in_span(c, start, k, bits.len() as int) ==> !bits[c],
    ensures
        count_used(with_span(bits, start, k, true)) == count_used(bits) + k,
    decreases k,
{
    let n = bits.len() as int;
    if k == 0 {
        assert(with_span(bits, start, 0, true) =~= bits);
    } else {
        let prev = with_span(bits, start, k - 1, true);
        let p = cell_at(start, k - 1, n);
        assert forall|c: int| 0 <= c < n && #[trigger] in_span(c, start, k - 1, n) implies !bits[c] by {
            let w = choose|w: int| 0 <= w < k - 1 && #[trigger] cell_at(start, w, n) == c;
            assert(cell_at(start, w, n) == c);
            assert(in_span(c, start, k, n));
        }
        lemma_count_used_span(bits, start, k - 1);
        vstd::arithmetic::div_mod::lemma_mod_bound(start + k - 1, n);
        assert(in_span(p, start, k, n));
        assert(!in_span(p, start, k - 1, n)) by {
            if in_span(p, start, k - 1, n) {
                let w = choose|w: int| 0 <= w < k - 1 && #[trigger] cell_at(start, w, n) == p;
                crate::memory::lemma_ring_distinct(start, w, k - 1, n);
            }
        }
        assert forall|c: int| 0 <= c < n implies
            in_span(c, start, k, n) == (in_span(c, start, k - 1, n) || c == p) by {
            if in_span(c, start, k, n) && c != p {
                let w = choose|w: int| 0 <= w < k && #[trigger] cell_at(start, w, n) == c;
                assert(w < k - 1);
            }
        }
        assert(with_span(bits, start, k, true) =~= prev.update(p, true));
        lemma_count_used_update(prev, p, true);
    }
}

/// With no cell covered twice, the covered cells number the total live size.
pub proof fn lemma_covered_count(s: Seq<Organism>, n: int)
    requires
        0 < n,
        forall|c: int| 0 <= c < n ==> #[trigger] cover_count(s, c, n) <= 1,
        forall|j: int| 0 <= j < s.len() ==> (#[trigger] s[j]).size <= n,
    ensures
        count_used(covered(s, n)) == live_size_total(s),
    decreases s.len(),
{
    if s.len() == 0 {
        assert forall|c: int| 0 <= c < n implies !(#[trigger] covered(s, n)[c]) by {}
        lemma_count_used_mono(covered(s, n), Seq::new(n as nat, |c: int| false));
        lemma_count_used_zero(n as nat);
    } else {
        let p = s.drop_last();
        let o = s.last();
        assert(o == s[s.len() - 1]);
        assert forall|c: int| 0 <= c < n implies #[trigger] cover_count(p, c, n) <= 1 by {
            assert(cover_count(s, c, n) <= 1);
        }
        assert forall|j: int| 0 <= j < p.len() implies (#[trigger] p[j]).size <= n by {
            assert(p[j] == s[j]);
        }
        lemma_covered_count(p, n);
        if o.alive {
            assert forall|c: int| 0 <= c < n && #[trigger] in_span(c, o.address as int, o.size as int, n)
                implies !covered(p, n)[c] by {
                assert(cover_count(s, c, n) <= 1);
            }
            lemma_count_used_span(covered(p, n), o.address as int, o.size as int);
            assert(covered(s, n) =~= with_span(covered(p, n), o.address as int, o.size as int, true));
        } else {
            assert(covered(s, n) =~= covered(p, n));
        }
    }
}

/// An all-free bitmap has no used cell.
pub proof fn lemma_count_used_zero(n: nat)
    ensures
        count_used(Seq::new(n, |c: int| false)) == 0,
    decreases n,
{
    if n > 0 {
        assert(Seq::new(n, |c: int| false).drop_last() =~= Seq::new((n - 1) as nat, |c: int| false));
        lemma_count_used_zero((n - 1) as nat);
    }
}

/// Accounting: when the population and the bitmap agree, the allocated cells
/// are at least the total size of the live organisms.
pub proof fn lemma_used_cells_cover_live(s: Seq<Organism>, bits: Seq<bool>)
    requires
        0 < bits.len(),
        allocation_sound(s, bits),
        forall|j: int| 0 <= j < s.len() ==> (#[trigger] s[j]).size <= bits.len(),
    ensures
        bits.len() - count_free(bits) >= live_size_total(s),
{
    let n = bits.len() as int;
    assert forall|c: int| 0 <= c < n implies #[trigger] cover_count(s, c, n) <= 1 by {}
    lemma_covered_count(s, n);
    assert forall|c: int| 0 <= c < n && #[trigger] covered(s, n)[c] implies bits[c] by {}
    lemma_count_used_mono(covered(s, n), bits);
    lemma_free_plus_used(bits);
}

/// Accounting for a well-formed simulator (population and bitmap agree): the used
/// and free cells add up to the soup, and the used cells are at least the
/// total size of the live organisms.
pub proof fn lemma_simulator_accounting(sim: &Simulator)
    requires
        sim.wf(),
    ensures
        count_free(sim.memory.bits()) <= sim.config.memory_size,
        (sim.config.memory_size - count_free(sim.memory.bits()))
            + count_free(sim.memory.bits()) == sim.config.memory_size,
        sim.config.memory_size - count_free(sim.memory.bits())
            >= live_size_total(sim.organisms@),
{
    let bits = sim.memory.bits();
    lemma_free_plus_used(bits);
    if bits.len() > 0 {
        assert forall|j: int| 0 <= j < sim.organisms@.len() implies (#[trigger] sim.organisms@[j]).size <= bits.len() by {
            assert(organism_ok(sim.organisms@[j], sim.config.memory_size as int));
        }
        lemma_used_cells_cover_live(sim.organisms@, bits);
    } else {
        if sim.organisms@.len() > 0 {
            assert(organism_ok(sim.organisms@[0], sim.config.memory_size as int));
        }
        assert(sim.organisms@.len() == 0);
    }
}

/// Two ring spans that share a cell start within each other's reach: the
/// second starts within the first, or the first within the second.
pub proof fn lemma_spans_meet(a: int, s: int, b: int, t: int, n: int, c: int)
    requires
        0 <= a < n,
        0 <= b < n,
        0 < s <= n,
        0 < t <= n,
        in_span(c, a, s, n),
        in_span(c, b, t, n),
    ensures
        (b - a) % n < s || (a - b) % n < t,
{
    let k = choose|k: int| 0 <= k < s && #[trigger] cell_at(a, k, n) == c;
    let j = choose|j: int| 0 <= j < t && #[trigger] cell_at(b, j, n) == c;
    assert(cell_at(a, k, n) == c && cell_at(b, j, n) == c);
    lemma_mod_equivalence(b + j, a + k, n);
    lemma_mod_equivalence(a + k, b + j, n);
    if k >= j {
        lemma_mod_equivalence(b - a, k - j, n);
        lemma_small_mod((k - j) as nat, n as nat);
    } else {
        lemma_mod_equivalence(a - b, j - k, n);
        lemma_small_mod((j - k) as nat, n as nat);
    }
}

/// The start of the second span lies in the first when it is within reach.
pub proof fn lemma_span_reaches(a: int, s: int, b: int, n: int)
    requires
        0 <= a < n,
        0 <= b < n,
        (b - a) % n < s,
    ensures
        in_span(b, a, s, n),
{
    crate::memory::lemma_ring_offset_inverse(a, b, n);
    assert(cell_at(a, (b - a) % n, n) == b);
}

/// A cell that no organism of `s` covers has cover count zero.
pub proof fn lemma_cover_count_none(s: Seq<Organism>, c: int, n: int)
    requires
        forall|j: int| 0 <= j < s.len() ==> !covers(#[trigger] s[j], c, n),
    ensures
        cover_count(s, c, n) == 0,
    decreases s.len(),
{
    if s.len() > 0 {
        let p = s.drop_last();
        assert forall|j: int| 0 <= j < p.len() implies !covers(#[trigger] p[j], c, n) by {
            assert(p[j] == s[j]);
        }
        lemma_cover_count_none(p, c, n);
        assert(s.last() == s[s.len() - 1]);
    }
}

/// Two distinct live organisms covering one cell count twice toward it.
pub proof fn lemma_cover_count_two(s: Seq<Organism>, i: int, j: int, c: int, n: int)
    requires
        0 <= i < j < s.len(),
        covers(s[i], c, n),
        covers(s[j], c, n),
    ensures
        cover_count(s, c, n) >= 2,
    decreases s.len(),
{
    if j < s.len() - 1 {
        lemma_cover_count_two(s.drop_last(), i, j, c, n);
    } else {
        lemma_cover_count_member(s.drop_last(), i, c, n);
        assert(s.last() == s[j]);
    }
}

/// No overlap: in a well-formed simulator the home regions of two distinct
/// live organisms share no cell of the soup.
pub proof fn lemma_live_regions_disjoint(sim: &Simulator, i: int, j: int, c: int)
    requires
        sim.wf(),
        0 <= i < sim.organisms@.len(),
        0 <= j < sim.organisms@.len(),
        i != j,
        sim.organisms@[i].alive,
        sim.organisms@[j].alive,
        0 <= c < sim.config.memory_size,
        in_span(c, sim.organisms@[i].address as int, sim.organisms@[i].size as int, sim.config.memory_size as int),
    ensures
        !in_span(c, sim.organisms@[j].address as int, sim.organisms@[j].size as int, sim.config.memory_size as int),
{
    let n = sim.config.memory_size as int;
    if in_span(c, sim.organisms@[j].address as int, sim.organisms@[j].size as int, n) {
        assert(cover_count(sim.organisms@, c, n) <= 1);
        if i < j {
            lemma_cover_count_two(sim.organisms@, i, j, c, n);
        } else {
            lemma_cover_count_two(sim.organisms@, j, i, c, n);
        }
    }
}

} // verus!
