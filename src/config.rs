//! Machine and layout constants.
use vstd::prelude::*;

verus! {

/// Width of the offset inside a page.
pub const PAGE_SIZE_BITS: u64 = 12;

/// Size of one page in bytes.
pub const PAGE_SIZE: u64 = 4096;

/// Number of page-table entries in one page.
pub const PTES_PER_PAGE: usize = 512;

/// Size of a user stack in bytes.
pub const USER_STACK_SIZE: u64 = 8192;

/// Size of a kernel stack in bytes.
pub const KERNEL_STACK_SIZE: u64 = 8192;

/// The trampoline page: the highest page of every address space.
pub const TRAMPOLINE: u64 = 0xffff_ffff_ffff_f000;

/// The trap-context page, just below the trampoline.
pub const TRAP_CONTEXT: u64 = 0xffff_ffff_ffff_e000;

/// Virtual page number of the trampoline (the address keeps 39 bits).
pub const TRAMPOLINE_VPN: u64 = 0x7ff_ffff;

/// Virtual page number of the trap-context page.
pub const TRAP_CONTEXT_VPN: u64 = 0x7ff_fffe;

} // verus!
