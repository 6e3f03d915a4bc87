use tierra::instruction::Instruction;
use tierra::simulator::{create_ancestor, SimulationConfig, Simulator};

#[test]
fn test_simulation_reaches_population_of_two() {
    let config = SimulationConfig {
        memory_size: 65536,
        mutation_rate: 0,
        max_population: 200,
        time_slice: 25,
    };

    let mut sim = Simulator::new(config);
    sim.initialize_with_ancestor();

    println!("Starting test...");
    println!("Ancestor size: {}", sim.organisms[0].size);
    println!("Ancestor address: {}", sim.organisms[0].address);

    let max_steps = 100000;
    let mut steps = 0;

    while steps < max_steps {
        sim.step();
        steps += 1;

        let alive_count = sim.organisms.iter().filter(|o| o.alive).count();

        if alive_count >= 2 {
            println!("Reached population of {} after {} steps", alive_count, steps);
            println!("  Total instructions: {}", sim.stats.total_instructions);
            println!("  Successful replications: {}", sim.stats.successful_replications);
            println!("  Failed replications: {}", sim.stats.failed_replications);
            assert!(sim.stats.successful_replications >= 1);
            return;
        }

        if steps % 100 == 0 {
            println!("Step {}: population = {}, instructions = {}",
                steps, alive_count, sim.stats.total_instructions);
            if !sim.organisms.is_empty() {
                let org = &sim.organisms[0];
                println!("  Organism 0: IP={}, errors={}, cycles={}, energy={}",
                    org.ip, org.errors, org.cycles, org.energy);
                println!("  Registers: AX={}, BX={}, CX={}, DX={}",
                    org.ax, org.bx, org.cx, org.dx);
            }
        }
    }

    panic!("Simulation did not reach population of 2 after {} steps. Current population: {}",
        max_steps, sim.organisms.iter().filter(|o| o.alive).count());
}

#[test]
fn test_memory_allocation_matches_copy_size() {
    let config = SimulationConfig {
        memory_size: 65536,
        mutation_rate: 0,
        max_population: 200,
        time_slice: 25,
    };

    let memory_size = config.memory_size;
    let mut sim = Simulator::new(config);
    sim.initialize_with_ancestor();

    for _ in 0..1000 {
        sim.step();

        if sim.organisms.len() >= 2 {
            let offspring = &sim.organisms[1];

            assert!(offspring.size > 0, "Offspring size should be positive");
            assert!(offspring.size <= memory_size / 10,
                "Offspring size {} exceeds maximum allowed", offspring.size);

            for i in 0..offspring.size {
                let addr = offspring.address + i;
                assert!(addr < memory_size,
                    "Offspring memory at {} exceeds memory size", addr);
            }

            println!("Memory safety check passed:");
            println!("  Parent size: {}", sim.organisms[0].size);
            println!("  Offspring size: {}", offspring.size);
            println!("  Offspring address: {}", offspring.address);
            return;
        }
    }

    panic!("No division occurred within 1000 steps");
}

#[test]
fn test_ancestor_allocation_matches_genome_size() {
    let ancestor = create_ancestor();
    let ancestor_size = ancestor.len();

    println!("Ancestor genome size: {}", ancestor_size);

    let inc_a_count = ancestor.iter()
        .filter(|&&inst| inst == Instruction::IncA)
        .count();

    println!("Number of IncA instructions: {}", inc_a_count);
    println!("Expected AX after execution: {}", inc_a_count);

    let base_size = 12;
    assert!(inc_a_count >= base_size,
        "AX value {} is too small to create viable offspring", inc_a_count);

    let size_diff = ancestor_size.abs_diff(inc_a_count);
    let max_diff = ancestor_size / 5;
    assert!(size_diff <= max_diff,
        "Ancestor size {} and allocation {} differ by more than 20%: diff = {}",
        ancestor_size, inc_a_count, size_diff);

    println!("Ancestor allocation is reasonable");
    println!("  Genome size: {}", ancestor_size);
    println!("  Allocated size: {}", inc_a_count);
    println!("  Difference: {} bytes ({:.1}%)",
        size_diff, (size_diff as f64 / ancestor_size as f64) * 100.0);
}

#[test]
fn test_no_memory_corruption_over_multiple_generations() {
    let config = SimulationConfig {
        memory_size: 65536,
        mutation_rate: 0,
        max_population: 20,
        time_slice: 25,
    };

    let memory_size = config.memory_size;
    let max_population = config.max_population;
    let mut sim = Simulator::new(config);
    sim.initialize_with_ancestor();

    let ancestor_size = sim.organisms[0].size;
    let max_steps = 50000;

    for step in 0..max_steps {
        sim.step();

        for org in &sim.organisms {
            if !org.alive {
                continue;
            }

            assert!(org.address < memory_size,
                "Organism address {} out of bounds", org.address);
            assert!(org.size > 0,
                "Organism has zero size");
            assert!(org.address + org.size <= memory_size,
                "Organism memory range [{}, {}) exceeds memory size",
                org.address, org.address + org.size);

            assert!(org.ip >= org.address,
                "IP {} is before organism start {}", org.ip, org.address);
            assert!(org.ip < org.address + org.size,
                "IP {} is beyond organism end {}", org.ip, org.address + org.size);
        }

        let alive_count = sim.organisms.iter().filter(|o| o.alive).count();
        assert!(sim.organisms.len() <= max_population);

        if alive_count >= max_population {
            println!("Reached {} organisms without memory corruption", alive_count);
            println!("  Steps: {}", step);
            println!("  Total instructions: {}", sim.stats.total_instructions);
            println!("  Successful replications: {}", sim.stats.successful_replications);

            let sizes: Vec<usize> = sim.organisms.iter()
                .filter(|o| o.alive)
                .map(|o| o.size)
                .collect();
            println!("  Organism sizes: {:?}", sizes);

            for &size in &sizes {
                assert!(size > 0, "Found organism with zero size");
                assert!(size >= 12,
                    "Organism size {} is too small (< 12 bytes)", size);
                assert!(size <= ancestor_size * 10,
                    "Organism size {} is suspiciously large (> {})",
                    size, ancestor_size * 10);
            }

            return;
        }
    }

    panic!("Did not reach population limit after {} steps. Population: {}",
        max_steps, sim.organisms.iter().filter(|o| o.alive).count());
}

#[test]
fn test_memory_allocation_tracking_integrity() {
    let config = SimulationConfig {
        memory_size: 4096,
        mutation_rate: 0,
        max_population: 5,
        time_slice: 25,
    };

    let memory_size = config.memory_size;
    let mut sim = Simulator::new(config);
    sim.initialize_with_ancestor();

    for _ in 0..2000 {
        sim.step();

        if sim.organisms.len() >= 3 {
            break;
        }
    }

    let alive_organisms: Vec<_> = sim.organisms.iter()
        .filter(|o| o.alive)
        .collect();

    let total_organism_size: usize = alive_organisms.iter()
        .map(|o| o.size)
        .sum();

    let free_cells = sim.memory.count_free_cells();
    let used_cells = memory_size - free_cells;

    println!("Memory usage:");
    println!("  Alive organisms: {}", alive_organisms.len());
    println!("  Total organism size: {}", total_organism_size);
    println!("  Used cells (tracked): {}", used_cells);
    println!("  Free cells: {}", free_cells);
    println!("  Total memory: {}", memory_size);
    println!("  Organism details:");
    for (i, org) in alive_organisms.iter().enumerate() {
        println!("    [{}] addr={}, size={}", i, org.address, org.size);
    }

    for i in 0..alive_organisms.len() {
        for j in (i + 1)..alive_organisms.len() {
            let org1 = alive_organisms[i];
            let org2 = alive_organisms[j];
            let org1_end = org1.address + org1.size;
            let org2_end = org2.address + org2.size;

            if org1.address < org2_end && org2.address < org1_end {
                panic!("Organisms {} and {} overlap!\n  Org {}: [{}, {})\n  Org {}: [{}, {})",
                    i, j,
                    i, org1.address, org1_end,
                    j, org2.address, org2_end);
            }
        }
    }

    assert_eq!(used_cells + free_cells, memory_size,
        "Memory accounting error: used + free != total");

    assert!(used_cells >= total_organism_size * 4 / 5,
        "Used cells ({}) is suspiciously less than total organism size ({})",
        used_cells, total_organism_size);

    assert!(used_cells < memory_size * 4 / 5,
        "Using too much memory: {} / {} bytes", used_cells, memory_size);

    println!("Memory tracking integrity check passed");
}

#[test]
fn seeding_places_one_ancestor() {
    let mut sim = Simulator::new(SimulationConfig::default());
    sim.initialize_with_ancestor();
    let alive: Vec<_> = sim.organisms.iter().filter(|o| o.alive).collect();
    assert_eq!(alive.len(), 1);
    assert_eq!(sim.stats.current_population, 1);
    assert_eq!(alive[0].ip, alive[0].address);
    assert_eq!(alive[0].size, 92);
    assert_eq!(alive[0].generation, 0);
    assert_eq!(alive[0].parent_id, None);
    let used = sim.memory.size() - sim.memory.count_free_cells();
    assert_eq!(used, 92);
    let genome = sim.memory.get_slice(alive[0].address, 92);
    assert_eq!(genome, create_ancestor());
}

#[test]
fn default_config_values() {
    let c = SimulationConfig::default();
    assert_eq!(c.memory_size, 65536);
    assert_eq!(c.mutation_rate, 1000);
    assert_eq!(c.max_population, 200);
    assert_eq!(c.time_slice, 25);
}

#[test]
fn ancestor_layout() {
    let a = create_ancestor();
    assert_eq!(a.len(), 92);
    assert!(a[..4].iter().all(|&i| i == Instruction::Nop1));
    assert!(a[4..84].iter().all(|&i| i == Instruction::IncA));
    assert_eq!(a[84], Instruction::MallocA);
    assert_eq!(a[85], Instruction::PushA);
    assert_eq!(a[86], Instruction::PopC);
    assert_eq!(a[87], Instruction::Divide);
    assert!(a[88..].iter().all(|&i| i == Instruction::Nop0));
}

#[test]
fn seeding_fails_in_a_tiny_soup() {
    let config = SimulationConfig { memory_size: 50, mutation_rate: 0, max_population: 5, time_slice: 25 };
    let mut sim = Simulator::new(config);
    sim.initialize_with_ancestor();
    assert!(sim.organisms.is_empty());
    sim.run_steps(10);
    assert_eq!(sim.stats.total_instructions, 0);
}

#[test]
fn counters_never_decrease_and_history_is_bounded() {
    let config = SimulationConfig { memory_size: 8192, mutation_rate: 500_000, max_population: 10, time_slice: 25 };
    let mut sim = Simulator::new(config);
    sim.initialize_with_ancestor();
    let mut last = (0u64, 0u64, 0u64, 0u64);
    for _ in 0..3000 {
        sim.step();
        let now = (
            sim.stats.total_instructions,
            sim.stats.total_organisms_created,
            sim.stats.total_organisms_died,
            sim.stats.total_mutations,
        );
        assert!(now.0 >= last.0 && now.1 >= last.1 && now.2 >= last.2 && now.3 >= last.3);
        last = now;
        assert!(sim.stats.population_history.len() <= sim.stats.max_history_size);
        for o in &sim.organisms {
            assert!(o.stack.len() <= 10);
            assert!(o.address < 8192 && o.size <= 8192);
            assert!(o.address <= o.ip && o.ip < o.address + o.size);
        }
    }
}

#[test]
fn reset_clears_the_simulation() {
    let mut sim = Simulator::new(SimulationConfig::default());
    sim.initialize_with_ancestor();
    sim.run_steps(20);
    sim.reset();
    assert!(sim.organisms.is_empty());
    assert_eq!(sim.stats.total_instructions, 0);
    assert_eq!(sim.memory.count_free_cells(), 65536);
    assert!(!sim.running);
}

#[test]
fn allocation_accounting_after_two_thousand_steps() {
    let config = SimulationConfig { memory_size: 4096, mutation_rate: 0, max_population: 5, time_slice: 25 };
    let mut sim = Simulator::new(config);
    sim.initialize_with_ancestor();
    sim.run_steps(2000);
    let free_cells = sim.memory.count_free_cells();
    let used_cells = 4096 - free_cells;
    let live_total: usize = sim.organisms.iter().filter(|o| o.alive).map(|o| o.size).sum();
    assert_eq!(used_cells + free_cells, 4096);
    assert!(used_cells >= live_total * 4 / 5);
    assert!(sim.organisms.len() <= 5);
}

#[test]
fn divide_needs_a_reserved_region() {
    let config = SimulationConfig { memory_size: 1000, mutation_rate: 0, max_population: 10, time_slice: 25 };
    let mut sim = Simulator::new(config);
    let mut parent = tierra::organism::Organism::new(0, 0, 10, 3, None);
    parent.bx = 1100;
    parent.cx = 20;
    sim.organisms.push(parent);
    sim.memory.mark_allocated(0, 10, true);
    for i in 0..10 {
        sim.memory.write(i, Instruction::from_u8(i as u8 + 5));
    }
    sim.handle_divide(0);
    assert_eq!(sim.organisms.len(), 1);
    assert_eq!(sim.stats.failed_replications, 1);

    sim.memory.mark_allocated(100, 20, true);
    sim.handle_divide(0);
    assert_eq!(sim.organisms.len(), 2);
    assert_eq!(sim.stats.successful_replications, 1);
    let child = &sim.organisms[1];
    assert_eq!((child.address, child.size, child.ip), (100, 20, 100));
    assert_eq!(child.generation, 4);
    assert_eq!(child.parent_id, Some(0));
    assert_eq!(sim.memory.get_slice(100, 10), sim.memory.get_slice(0, 10));
    assert_eq!(sim.memory.read(110), Instruction::Nop0);

    sim.handle_divide(0);
    assert_eq!(sim.organisms.len(), 2);
    assert_eq!(sim.stats.failed_replications, 2);
}

#[test]
fn divide_rejects_oversized_child() {
    let config = SimulationConfig { memory_size: 1000, mutation_rate: 0, max_population: 10, time_slice: 25 };
    let mut sim = Simulator::new(config);
    let mut parent = tierra::organism::Organism::new(0, 0, 10, 0, None);
    parent.bx = 100;
    parent.cx = 101;
    sim.organisms.push(parent);
    sim.memory.mark_allocated(100, 101, true);
    sim.handle_divide(0);
    assert_eq!(sim.organisms.len(), 1);
    assert_eq!(sim.stats.failed_replications, 1);
}
