//! Core of a small SV39 RISC-V kernel: address algebra, per-process address
//! spaces, the process control block lifecycle and the system-call entry point.
pub mod config;
pub mod address;
pub mod frame;
pub mod page_table;
pub mod elf;
pub mod memory_set;
pub mod task;
pub mod syscall;
pub mod manager;
