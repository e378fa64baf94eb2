//! What the kernel records of a process.

use vstd::prelude::*;

verus! {

/// Where a process stands with the scheduler.
#[derive(Clone, Copy, PartialEq, Eq, Debug)]
pub enum ProcessState {
    Running,
    Ready,
    Blocked,
}

/// The registers saved when a process leaves the processor: where it resumes, its stack
/// pointer and its flags.
#[derive(Clone, Copy, PartialEq, Eq, Debug)]
pub struct CpuContext {
    pub rip: u64,
    pub rsp: u64,
    pub rflags: u64,
}

/// A process: its id, the physical address of its top-level page table (the value its CR3
/// takes), the virtual address of its kernel stack, its saved registers and its state.
pub struct Process {
    pid: u64,
    page_table: u64,
    kernel_stack: u64,
    context: CpuContext,
    state: ProcessState,
}

} // verus!
