pub mod instruction;
pub mod random;
pub mod memory;
pub mod organism;
pub mod cpu;
pub mod stats;
pub mod scheduler;
pub mod simulator;
pub mod accounting;
