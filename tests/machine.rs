use tierra::cpu::{ExecutionResult, CPU};
use tierra::instruction::Instruction;
use tierra::memory::Memory;
use tierra::organism::Organism;
use rand::rngs::StdRng;
use rand::SeedableRng;
use tierra::scheduler::Scheduler;
use tierra::stats::Statistics;

#[test]
fn opcode_round_trip() {
    for b in 0u8..27 {
        assert_eq!(Instruction::from_u8(b).to_u8(), b);
        let x = Instruction::from_u8(b);
        assert_eq!(Instruction::from_u8(x.to_u8()), x);
    }
    assert_eq!(Instruction::from_u8(27), Instruction::Nop0);
    assert_eq!(Instruction::from_u8(255), Instruction::Nop0);
    assert_eq!(Instruction::Halt.to_u8(), 26);
    assert_eq!(Instruction::default(), Instruction::Nop0);
}

#[test]
fn complement_is_involutive() {
    assert_eq!(Instruction::Nop0.complement(), Some(Instruction::Nop1));
    assert_eq!(Instruction::Nop1.complement(), Some(Instruction::Nop0));
    assert_eq!(Instruction::IncA.complement(), None);
    for t in [Instruction::Nop0, Instruction::Nop1] {
        assert!(t.is_template());
        assert_eq!(t.complement().unwrap().complement(), Some(t));
    }
    assert!(!Instruction::Divide.is_template());
}

#[test]
fn stack_limits() {
    let mut o = Organism::new(1, 0, 10, 0, None);
    for i in 0..10 {
        assert!(o.push(i).is_ok());
    }
    assert!(o.push(99).is_err());
    assert_eq!(o.errors, 1);
    assert_eq!(o.stack.len(), 10);
    assert_eq!(o.pop(), Ok(9));
    let mut e = Organism::new(2, 0, 10, 0, None);
    assert!(e.pop().is_err());
    assert_eq!(e.errors, 1);
}

#[test]
fn instruction_pointer_wraps_in_region() {
    let mut o = Organism::new(1, 100, 4, 0, None);
    assert_eq!(o.ip, 100);
    for _ in 0..4 {
        o.increment_ip();
    }
    assert_eq!(o.ip, 100);
    assert_eq!(o.cycles, 4);
    o.set_ip(102);
    assert_eq!(o.ip, 102);
    o.set_ip(7);
    assert_eq!(o.ip, 103);
    assert!(o.is_address_valid(100));
    assert!(!o.is_address_valid(104));
    assert!(!o.is_address_valid(99));
}

#[test]
fn energy_and_life() {
    let mut o = Organism::new(1, 0, 4, 0, None);
    assert_eq!(o.energy, 100);
    o.reset_energy(1);
    assert!(o.consume_energy());
    assert!(!o.consume_energy());
    o.kill();
    assert!(!o.alive);
}

#[test]
fn collect_template_reads_markers() {
    let mem = [Instruction::Nop1, Instruction::Nop0, Instruction::IncA, Instruction::Nop1];
    let mut o = Organism::new(1, 0, 4, 0, None);
    o.ip = 3;
    assert_eq!(o.collect_template(&mem, 10), vec![Instruction::Nop1, Instruction::Nop1, Instruction::Nop0]);
    assert_eq!(o.collect_template(&mem, 2), vec![Instruction::Nop1, Instruction::Nop1]);
}

fn soup_with(program: &[Instruction], size: usize) -> Memory {
    let mut m = Memory::new(size);
    for (i, &p) in program.iter().enumerate() {
        m.write(i, p);
    }
    m
}

#[test]
fn write_confinement() {
    let mut m = soup_with(&[Instruction::MovCD], 64);
    m.write(40, Instruction::Halt);
    let mut o = Organism::new(1, 0, 8, 0, None);
    o.cx = 40;
    o.dx = 12;
    let mut cpu = CPU::new();
    let mut rng = StdRng::seed_from_u64(7);
    let r = cpu.execute_instruction(&mut o, &mut m, &mut rng);
    assert_eq!(r, ExecutionResult::Continue);
    assert_eq!(m.read(40), Instruction::Halt);
    for c in 8..64 {
        if c != 40 {
            assert_eq!(m.read(c), Instruction::Nop0);
        }
    }
    assert_eq!(m.read(0), Instruction::IncA);
    assert_eq!(o.ip, 1);
}

#[test]
fn data_moves_and_arithmetic() {
    let mut m = soup_with(&[Instruction::MovDC, Instruction::IncA, Instruction::DecC, Instruction::Adr], 32);
    let mut o = Organism::new(1, 0, 4, 0, None);
    o.cx = 5;
    let mut cpu = CPU::new();
    let mut rng = StdRng::seed_from_u64(7);
    cpu.execute_instruction(&mut o, &mut m, &mut rng);
    assert_eq!(o.dx, Instruction::IncA.to_u8() as usize);
    o.ax = 31;
    cpu.execute_instruction(&mut o, &mut m, &mut rng);
    assert_eq!(o.ax, 0);
    o.cx = 0;
    cpu.execute_instruction(&mut o, &mut m, &mut rng);
    assert_eq!(o.cx, 31);
    cpu.execute_instruction(&mut o, &mut m, &mut rng);
    assert_eq!(o.ax, 3);
    assert_eq!(o.ip, 0);
}

#[test]
fn effects_do_not_advance() {
    let mut m = soup_with(&[Instruction::MallocA, Instruction::Divide, Instruction::Halt], 32);
    let mut o = Organism::new(1, 0, 3, 0, None);
    o.ax = 7;
    let mut cpu = CPU::new();
    let mut rng = StdRng::seed_from_u64(7);
    assert_eq!(cpu.execute_instruction(&mut o, &mut m, &mut rng), ExecutionResult::Malloc(7));
    assert_eq!(o.ip, 0);
    o.ip = 1;
    assert_eq!(cpu.execute_instruction(&mut o, &mut m, &mut rng), ExecutionResult::Divide);
    assert_eq!(o.ip, 1);
    o.ip = 2;
    assert_eq!(cpu.execute_instruction(&mut o, &mut m, &mut rng), ExecutionResult::Dead);
    assert!(!o.alive);
    assert_eq!(cpu.execute_instruction(&mut o, &mut m, &mut rng), ExecutionResult::Dead);
}

#[test]
fn jumps_follow_templates() {
    let prog = [
        Instruction::JmpF, Instruction::Nop0, Instruction::Nop0, Instruction::IncA,
        Instruction::IncA, Instruction::Nop1, Instruction::Nop1, Instruction::IncB,
    ];
    let mut m = soup_with(&prog, 64);
    let mut o = Organism::new(1, 0, 8, 0, None);
    let mut cpu = CPU::new();
    let mut rng = StdRng::seed_from_u64(7);
    cpu.execute_instruction(&mut o, &mut m, &mut rng);
    assert_eq!(o.ip, 7);
    assert_eq!(o.errors, 0);
}

#[test]
fn failed_jump_counts_an_error() {
    let mut m = soup_with(&[Instruction::JmpF, Instruction::Nop0, Instruction::Halt], 64);
    let mut o = Organism::new(1, 0, 3, 0, None);
    let mut cpu = CPU::new();
    let mut rng = StdRng::seed_from_u64(7);
    cpu.execute_instruction(&mut o, &mut m, &mut rng);
    assert_eq!(o.errors, 1);
    assert_eq!(o.ip, 2);
}

#[test]
fn call_and_return() {
    let prog = [
        Instruction::Call, Instruction::Nop1, Instruction::IncA, Instruction::Nop0,
        Instruction::Ret,
    ];
    let mut m = soup_with(&prog, 64);
    let mut o = Organism::new(1, 0, 5, 0, None);
    let mut cpu = CPU::new();
    let mut rng = StdRng::seed_from_u64(7);
    cpu.execute_instruction(&mut o, &mut m, &mut rng);
    assert_eq!(o.ip, 4);
    assert_eq!(o.stack, vec![2]);
    cpu.execute_instruction(&mut o, &mut m, &mut rng);
    assert_eq!(o.ip, 2);
    assert!(o.stack.is_empty());
    o.ip = 4;
    cpu.execute_instruction(&mut o, &mut m, &mut rng);
    assert_eq!(o.errors, 1);
    assert_eq!(o.ip, 0);
}

#[test]
fn address_search_keeps_pointer() {
    let prog = [Instruction::AdrF, Instruction::Nop1, Instruction::IncA, Instruction::Nop0, Instruction::IncB];
    let mut m = soup_with(&prog, 64);
    let mut o = Organism::new(1, 0, 5, 0, None);
    let mut cpu = CPU::new();
    let mut rng = StdRng::seed_from_u64(7);
    cpu.execute_instruction(&mut o, &mut m, &mut rng);
    assert_eq!(o.ax, 4);
    assert_eq!(o.ip, 1);
}

#[test]
fn stack_opcodes() {
    let mut m = soup_with(&[Instruction::PushA, Instruction::PopC, Instruction::PopD, Instruction::IfCZ], 64);
    let mut o = Organism::new(1, 0, 6, 0, None);
    o.ax = 9;
    let mut cpu = CPU::new();
    let mut rng = StdRng::seed_from_u64(7);
    cpu.execute_instruction(&mut o, &mut m, &mut rng);
    cpu.execute_instruction(&mut o, &mut m, &mut rng);
    assert_eq!(o.cx, 9);
    o.dx = 4;
    cpu.execute_instruction(&mut o, &mut m, &mut rng);
    assert_eq!(o.dx, 0);
    assert_eq!(o.errors, 1);
    cpu.execute_instruction(&mut o, &mut m, &mut rng);
    assert_eq!(o.ip, 5);
}

#[test]
fn scheduler_round_robin_and_reaping() {
    let mut s = Scheduler::new(25);
    let mut orgs = vec![
        Organism::new(0, 0, 4, 0, None),
        Organism::new(1, 4, 4, 0, None),
        Organism::new(2, 8, 4, 0, None),
    ];
    orgs[1].alive = false;
    assert_eq!(s.select_from(&mut orgs), Some(0));
    assert_eq!(orgs[0].energy, 25);
    assert_eq!(s.select_from(&mut orgs), Some(2));
    assert_eq!(s.select_from(&mut orgs), Some(0));
    let reaped = Scheduler::reap_dead(&mut orgs);
    assert_eq!(reaped, 1);
    assert_eq!(orgs.iter().map(|o| o.id).collect::<Vec<_>>(), vec![0, 2]);
    for o in orgs.iter_mut() {
        o.alive = false;
    }
    let mut rng = StdRng::seed_from_u64(7);
    assert_eq!(s.select_next(&mut orgs, &mut rng), None);
    assert_eq!(Scheduler::default().time_slice, 25);
}

#[test]
fn statistics_histograms_and_history() {
    let mut st = Statistics::new(100);
    assert_eq!(st.most_common_size(), None);
    assert_eq!(st.highest_generation(), 0);
    st.record_birth(80, 1);
    st.record_birth(80, 3);
    st.record_birth(92, 0);
    assert_eq!(st.most_common_size(), Some(80));
    assert_eq!(st.highest_generation(), 3);
    st.record_death(80, 3);
    assert_eq!(st.highest_generation(), 1);
    assert_eq!(st.current_population, 2);
    assert_eq!(st.size_distribution.get(&80), Some(&1));
    st.record_death(92, 0);
    assert_eq!(st.size_distribution.get(&92), None);
    st.record_replication(true);
    st.record_replication(false);
    st.record_mutation();
    st.record_instruction();
    assert_eq!((st.successful_replications, st.failed_replications, st.total_mutations, st.total_instructions), (1, 1, 1, 1));
    st.update_memory_usage(42);
    assert_eq!(st.memory_used, 42);
    for p in 0..1005 {
        st.update_history(p);
    }
    assert_eq!(st.population_history.len(), 1000);
    assert_eq!(st.population_history[0], 5);
    assert_eq!(Statistics::default().memory_total, 65536);
}

#[test]
fn processor_defaults() {
    assert_eq!(CPU::new().max_search, 200);
    assert_eq!(CPU::default().max_search, 200);
}

#[test]
fn missed_jump_continues_past_template() {
    let prog = [Instruction::JmpB, Instruction::Nop0, Instruction::Nop1, Instruction::IncA, Instruction::IncB];
    let mut m = soup_with(&prog, 64);
    for c in 5..64 {
        m.write(c, Instruction::IncB);
    }
    let mut o = Organism::new(1, 0, 5, 0, None);
    let mut cpu = CPU::new();
    let mut rng = StdRng::seed_from_u64(3);
    assert_eq!(cpu.execute_instruction(&mut o, &mut m, &mut rng), ExecutionResult::Continue);
    assert_eq!(o.errors, 1);
    assert_eq!(o.ip, 3);
}

#[test]
fn call_miss_continues_past_template() {
    let prog = [Instruction::Call, Instruction::Nop1, Instruction::Nop1, Instruction::IncA];
    let mut m = soup_with(&prog, 64);
    for c in 4..64 {
        m.write(c, Instruction::IncB);
    }
    let mut o = Organism::new(1, 0, 4, 0, None);
    let mut cpu = CPU::new();
    let mut rng = StdRng::seed_from_u64(4);
    cpu.execute_instruction(&mut o, &mut m, &mut rng);
    assert_eq!(o.errors, 1);
    assert_eq!(o.ip, 3);
    assert!(o.stack.is_empty());
}
