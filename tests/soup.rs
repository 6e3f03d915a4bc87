use tierra::instruction::Instruction;
use tierra::memory::Memory;
use rand::rngs::StdRng;
use rand::SeedableRng;

#[test]
fn read_and_write_wrap_around() {
    let mut m = Memory::new(16);
    m.write(18, Instruction::Halt);
    assert_eq!(m.read(2), Instruction::Halt);
    assert_eq!(m.read(34), Instruction::Halt);
    assert_eq!(m.normalize_addr(35), 3);
    assert_eq!(m.size(), 16);
}

#[test]
fn template_search_scenario() {
    let mut m = Memory::new(1000);
    let cursor = 100;
    m.write(cursor + 37, Instruction::Nop1);
    let template = [Instruction::Nop0];
    assert_eq!(m.find_template_forward(cursor, &template, 200), Some(cursor + 38));
    assert_eq!(m.find_template_backward(cursor, &template, 200), None);
    assert_eq!(m.find_template_forward(cursor, &template, 5), None);
    assert_eq!(m.find_template_backward(cursor, &template, 5), None);
}

#[test]
fn template_search_backward_wraps() {
    let mut m = Memory::new(64);
    m.write(60, Instruction::Nop0);
    m.write(61, Instruction::Nop1);
    let template = [Instruction::Nop1, Instruction::Nop0];
    assert_eq!(m.find_template_backward(2, &template, 10), Some(62));
    assert_eq!(m.find_template_forward(50, &template, 10), Some(62));
}

#[test]
fn template_search_needs_markers() {
    let m = Memory::new(64);
    assert_eq!(m.find_template_forward(0, &[], 200), None);
    assert_eq!(m.find_template_forward(0, &[Instruction::IncA], 200), None);
}

#[test]
fn copy_block_reads_back() {
    let mut m = Memory::new(32);
    for i in 0..8 {
        m.write(28 + i, Instruction::from_u8(i as u8 + 2));
    }
    let before = m.get_slice(28, 8);
    m.copy_block(28, 10, 8);
    assert_eq!(m.get_slice(10, 8), before);
    assert_eq!(m.read(9), Instruction::Nop0);
    assert_eq!(m.read(18), Instruction::Nop0);
}

#[test]
fn copy_block_overlapping() {
    let mut m = Memory::new(16);
    for i in 0..6 {
        m.write(i, Instruction::from_u8(i as u8 + 10));
    }
    let before = m.get_slice(0, 6);
    m.copy_block(0, 2, 6);
    assert_eq!(m.get_slice(2, 6), before);
}

#[test]
fn allocation_marks_and_frees() {
    let mut rng = StdRng::seed_from_u64(7);
    let mut m = Memory::new(100);
    assert_eq!(m.allocate(0, &mut rng), None);
    assert_eq!(m.allocate(101, &mut rng), None);
    let a = m.allocate(60, &mut rng).expect("a block of 60 fits");
    assert!(a + 60 <= 100);
    assert_eq!(m.count_free_cells(), 40);
    assert_eq!(m.allocate(50, &mut rng), None);
    m.free(a, 60);
    assert_eq!(m.count_free_cells(), 100);
    assert_eq!(m.allocate(100, &mut rng), Some(0));
    assert_eq!(m.count_free_cells(), 0);
}

#[test]
fn mark_allocated_wraps() {
    let mut m = Memory::new(10);
    m.mark_allocated(8, 4, true);
    assert_eq!(m.count_free_cells(), 6);
    m.mark_allocated(9, 1, false);
    assert_eq!(m.count_free_cells(), 7);
}

#[test]
fn mutation_rate_bounds() {
    let mut rng = StdRng::seed_from_u64(7);
    let mut m = Memory::new(8);
    for _ in 0..50 {
        m.maybe_mutate(3, 0, &mut rng);
    }
    assert!(m.get_slice(0, 8).iter().all(|&i| i == Instruction::Nop0));
    let mut changed = false;
    for _ in 0..50 {
        m.maybe_mutate(3, 1_000_000, &mut rng);
        changed = changed || m.read(3) != Instruction::Nop0;
    }
    assert!(changed);
    for i in [0usize, 1, 2, 4, 5, 6, 7] {
        assert_eq!(m.read(i), Instruction::Nop0);
    }
}
