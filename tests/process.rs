use sv39_kernel::address::VirtPageNum;
use sv39_kernel::config::{TRAMPOLINE, TRAP_CONTEXT_VPN, TRAMPOLINE_VPN};
use sv39_kernel::elf::parse_elf;
use sv39_kernel::frame::FrameArena;
use sv39_kernel::manager::{ProcessTable, WaitOutcome};
use sv39_kernel::memory_set::MemorySet;
use sv39_kernel::syscall::{finish_syscall, supported, syscall, SyscallContext};
use sv39_kernel::task::{File, KernelEnv, KernelStack, PidHandle, TaskControlBlock, TaskStatus};

fn put(d: &mut Vec<u8>, off: usize, v: u64, n: usize) {
    for i in 0..n {
        d[off + i] = ((v >> (8 * i)) & 0xff) as u8;
    }
}

/// A small executable: one loadable, readable and executable segment of
/// four bytes at 0x1000, entered at 0x1000.
fn image(entry: u64, code: &[u8]) -> Vec<u8> {
    let mut d = vec![0u8; 120 + code.len()];
    d[0] = 0x7f;
    d[1] = b'E';
    d[2] = b'L';
    d[3] = b'F';
    d[4] = 2;
    d[5] = 1;
    put(&mut d, 24, entry, 8);
    put(&mut d, 32, 64, 8);
    put(&mut d, 54, 56, 2);
    put(&mut d, 56, 1, 2);
    put(&mut d, 64, 1, 4);
    put(&mut d, 68, 5, 4);
    put(&mut d, 72, 120, 8);
    put(&mut d, 80, 0x1000, 8);
    put(&mut d, 96, code.len() as u64, 8);
    put(&mut d, 104, code.len() as u64, 8);
    d[120..].copy_from_slice(code);
    d
}

fn env() -> KernelEnv {
    KernelEnv { kernel_token: 0x8000_0000_0008_0200, trap_handler: 0x8020_1000, trap_return: 0x8020_2000 }
}

#[test]
fn parse_reads_entry_and_segments() {
    let d = image(0x1004, &[1, 2, 3, 4]);
    let img = parse_elf(&d).unwrap();
    assert_eq!(img.entry, 0x1004);
    assert_eq!(img.segments.len(), 1);
    assert_eq!(img.segments[0].vaddr, 0x1000);
    assert_eq!(img.segments[0].filesz, 4);
    assert_eq!(img.segments[0].offset, 120);
    assert_eq!(img.segments[0].flags, 5);
}

#[test]
fn parse_rejects_bad_images() {
    let mut d = image(0x1000, &[1, 2, 3, 4]);
    d[1] = b'X';
    assert!(parse_elf(&d).is_none());
    assert!(parse_elf(&[0x7f, b'E', b'L', b'F']).is_none());
    let mut no_load = image(0x1000, &[1, 2, 3, 4]);
    put(&mut no_load, 64, 2, 4);
    assert!(parse_elf(&no_load).is_none());
    let mut past_end = image(0x1000, &[1, 2, 3, 4]);
    put(&mut past_end, 96, 100, 8);
    assert!(parse_elf(&past_end).is_none());
}

#[test]
fn from_elf_maps_segments_stack_and_trampoline() {
    let mut mem = FrameArena::new();
    let d = image(0x1000, &[0x13, 0x05, 0x00, 0x00]);
    let (ms, sp, entry) = MemorySet::from_elf(&d, &mut mem).unwrap();
    assert_eq!(entry, 0x1000);
    assert_eq!(sp, 0x5000);
    assert!(ms.translate(VirtPageNum(1)).is_some());
    assert!(ms.translate(VirtPageNum(2)).is_none());
    assert!(ms.translate(VirtPageNum(3)).is_some());
    assert!(ms.translate(VirtPageNum(4)).is_some());
    assert!(ms.translate(VirtPageNum(TRAP_CONTEXT_VPN)).is_some());
    let tr = ms.translate(VirtPageNum(TRAMPOLINE_VPN)).unwrap();
    assert_eq!(tr.ppn().0, 0);
    assert_eq!(ms.read_byte_at(&mem, 0x1000), Some(0x13));
    assert_eq!(ms.read_byte_at(&mem, 0x1001), Some(0x05));
    assert_eq!(ms.read_byte_at(&mem, 0x1005), Some(0));
    assert_eq!(ms.read_byte_at(&mem, 0x2000), None);
    assert_eq!(ms.token() >> 60, 8);
}

#[test]
fn new_task_starts_at_entry() {
    let mut mem = FrameArena::new();
    let d = image(0x1000, &[1, 2, 3, 4]);
    let t = TaskControlBlock::new(&d, PidHandle(1), &mut mem, env()).unwrap();
    assert_eq!(t.getpid(), 1);
    let inner = t.inner_access();
    assert_eq!(inner.task_status, TaskStatus::Ready);
    assert!(!inner.is_zombie());
    assert_eq!(inner.parent, None);
    assert!(inner.children.is_empty());
    assert_eq!(inner.fd_table, vec![Some(File::Stdin), Some(File::Stdout), Some(File::Stdout)]);
    assert_eq!(inner.base_size, 0x5000);
    let cx = inner.get_trap_cx();
    assert_eq!(cx.sepc, 0x1000);
    assert_eq!(cx.x[2], 0x5000);
    assert_eq!(cx.kernel_sp, TRAMPOLINE - 12288);
    assert_eq!(cx.kernel_satp, env().kernel_token);
    assert_eq!(cx.trap_handler, env().trap_handler);
    assert_eq!(inner.task_cx.ra, env().trap_return);
    assert_eq!(inner.get_user_token() >> 60, 8);
}

#[test]
fn new_task_is_owed_on_a_sound_image() {
    let mut mem = FrameArena::new();
    let d = image(0x1000, &[1, 2, 3, 4]);
    assert!(parse_elf(&d).is_some());
    let t = TaskControlBlock::new(&d, PidHandle(9), &mut mem, env()).unwrap();
    let inner = t.inner_access();
    assert_eq!(inner.task_cx.sp, TRAMPOLINE - 9 * 12288);
    assert_eq!(inner.task_cx.s, [0u64; 12]);
    assert_eq!(inner.trap_cx.sstatus, 0);
    for i in 0..32 {
        if i != 2 {
            assert_eq!(inner.trap_cx.x[i], 0);
        }
    }
    let tr = inner.memory_set.translate(VirtPageNum(TRAMPOLINE_VPN)).unwrap();
    assert!(!tr.writable());
    let code = inner.memory_set.translate(VirtPageNum(1)).unwrap();
    assert!(code.readable() && code.executable() && !code.writable());
    let stack = inner.memory_set.translate(VirtPageNum(3)).unwrap();
    assert!(stack.readable() && stack.writable());
}

#[test]
fn kernel_stacks_sit_below_the_trampoline() {
    assert_eq!(KernelStack::new(&PidHandle(0)).get_top(), TRAMPOLINE);
    assert_eq!(KernelStack::new(&PidHandle(2)).get_top(), TRAMPOLINE - 2 * 12288);
}

#[test]
fn alloc_fd_takes_lowest_free_slot() {
    let mut mem = FrameArena::new();
    let d = image(0x1000, &[1, 2, 3, 4]);
    let mut t = TaskControlBlock::new(&d, PidHandle(1), &mut mem, env()).unwrap();
    let inner = t.inner_exclusive_access();
    assert_eq!(inner.alloc_fd(), 3);
    assert_eq!(inner.fd_table.len(), 4);
    inner.fd_table[1] = None;
    assert_eq!(inner.alloc_fd(), 1);
    assert_eq!(inner.fd_table.len(), 4);
}

#[test]
fn fork_copies_memory_instead_of_sharing_it() {
    let mut mem = FrameArena::new();
    let d = image(0x1000, &[0x13, 0, 0, 0]);
    let mut parent = TaskControlBlock::new(&d, PidHandle(1), &mut mem, env()).unwrap();
    let child = parent.fork(PidHandle(2), &mut mem, env()).unwrap();
    assert_eq!(child.getpid(), 2);
    assert_eq!(parent.inner_access().children, vec![2]);
    let c = child.inner_access();
    assert_eq!(c.parent, Some(1));
    assert_eq!(c.fd_table, parent.inner_access().fd_table);
    assert_eq!(c.trap_cx.sepc, 0x1000);
    assert_eq!(c.trap_cx.kernel_sp, TRAMPOLINE - 2 * 12288);
    assert_eq!(parent.inner_access().trap_cx.kernel_sp, TRAMPOLINE - 12288);
    assert!(c.memory_set.write_byte_at(&mut mem, 0x1000, 0x99));
    assert_eq!(c.memory_set.read_byte_at(&mem, 0x1000), Some(0x99));
    assert_eq!(parent.inner_access().memory_set.read_byte_at(&mem, 0x1000), Some(0x13));
    assert!(parent.inner_access().memory_set.write_byte_at(&mut mem, 0x1001, 0x42));
    assert_eq!(c.memory_set.read_byte_at(&mem, 0x1001), Some(0));
    let pt = parent.inner_access().memory_set.translate(VirtPageNum(TRAMPOLINE_VPN)).unwrap();
    let ct = c.memory_set.translate(VirtPageNum(TRAMPOLINE_VPN)).unwrap();
    assert_eq!(pt, ct);
    let pp = parent.inner_access().memory_set.translate(VirtPageNum(1)).unwrap();
    let cp = c.memory_set.translate(VirtPageNum(1)).unwrap();
    assert_ne!(pp.ppn(), cp.ppn());
    assert_eq!(pp.flags(), cp.flags());
}

#[test]
fn exec_keeps_identity_and_descriptors() {
    let mut mem = FrameArena::new();
    let d = image(0x1000, &[1, 2, 3, 4]);
    let mut t = TaskControlBlock::new(&d, PidHandle(3), &mut mem, env()).unwrap();
    let _child = t.fork(PidHandle(4), &mut mem, env()).unwrap();
    t.inner_exclusive_access().fd_table.push(None);
    let fds = t.inner_access().fd_table.clone();
    let other = image(0x1002, &[5, 6, 7, 8]);
    assert!(t.exec(&other, &mut mem, env()));
    assert_eq!(t.getpid(), 3);
    assert_eq!(t.inner_access().fd_table, fds);
    assert_eq!(t.inner_access().children, vec![4]);
    assert_eq!(t.inner_access().trap_cx.sepc, 0x1002);
    assert_eq!(t.inner_access().trap_cx.x[2], 0x5000);
    assert_eq!(t.inner_access().memory_set.read_byte_at(&mem, 0x1000), Some(5));
    assert_eq!(t.inner_access().base_size, 0x5000);
    assert_eq!(t.inner_access().exit_code, 0);
}

#[test]
fn spawn_leaves_the_parent_alone() {
    let mut mem = FrameArena::new();
    let d = image(0x1000, &[1, 2, 3, 4]);
    let mut parent = TaskControlBlock::new(&d, PidHandle(1), &mut mem, env()).unwrap();
    let token = parent.inner_access().get_user_token();
    let other = image(0x1000, &[9, 9, 9, 9]);
    let child = parent.spawn(&other, PidHandle(5), &mut mem, env()).unwrap();
    assert_eq!(parent.inner_access().children, vec![5]);
    assert_eq!(parent.inner_access().fd_table.len(), 3);
    assert_eq!(parent.inner_access().task_status, TaskStatus::Ready);
    assert_eq!(parent.inner_access().get_user_token(), token);
    assert_eq!(parent.inner_access().memory_set.read_byte_at(&mem, 0x1000), Some(1));
    let c = child.inner_access();
    assert!(c.fd_table.is_empty());
    assert_eq!(c.parent, Some(1));
    assert_eq!(c.memory_set.read_byte_at(&mem, 0x1000), Some(9));
    assert_eq!(c.trap_cx.kernel_sp, TRAMPOLINE - 5 * 12288);
    assert_eq!(c.task_cx.sp, TRAMPOLINE - 5 * 12288);
    assert_eq!(c.trap_cx.sepc, 0x1000);
}

#[test]
fn write_syscall_appends_user_bytes_to_console() {
    let mut mem = FrameArena::new();
    let d = image(0x1000, b"hi!\n");
    let mut t = TaskControlBlock::new(&d, PidHandle(1), &mut mem, env()).unwrap();
    let mut ctx = SyscallContext::new(0);
    let r = syscall(&mut ctx, &mut t, &mut mem, 64, [1, 0x1000, 4], 3);
    assert_eq!(r, 4);
    assert_eq!(ctx.console, b"hi!\n".to_vec());
    let r = syscall(&mut ctx, &mut t, &mut mem, 64, [2, 0x1001, 2], 4);
    assert_eq!(r, 2);
    assert_eq!(ctx.console, b"hi!\ni!".to_vec());
}

#[test]
fn write_syscall_refuses_bad_descriptor_or_buffer() {
    let mut mem = FrameArena::new();
    let d = image(0x1000, b"abcd");
    let mut t = TaskControlBlock::new(&d, PidHandle(1), &mut mem, env()).unwrap();
    let mut ctx = SyscallContext::new(0);
    assert_eq!(syscall(&mut ctx, &mut t, &mut mem, 64, [0, 0x1000, 4], 1), -1);
    assert_eq!(syscall(&mut ctx, &mut t, &mut mem, 64, [7, 0x1000, 4], 2), -1);
    assert_eq!(syscall(&mut ctx, &mut t, &mut mem, 64, [1, 0x1ffe, 4], 3), -1);
    assert!(ctx.console.is_empty());
}

#[test]
fn unknown_syscall_is_unsupported() {
    assert!(!supported(9999));
    for id in [64, 93, 94, 124, 169, 410] {
        assert!(supported(id));
    }
}

#[test]
fn exit_yield_time_and_info() {
    let mut mem = FrameArena::new();
    let d = image(0x1000, b"abcd");
    let mut t = TaskControlBlock::new(&d, PidHandle(7), &mut mem, env()).unwrap();
    let mut ctx = SyscallContext::new(0);
    assert_eq!(syscall(&mut ctx, &mut t, &mut mem, 169, [0, 0, 0], 42), 42);
    assert_eq!(syscall(&mut ctx, &mut t, &mut mem, 94, [0, 0, 0], 43), 0);
    assert_eq!(syscall(&mut ctx, &mut t, &mut mem, 410, [7, 0x3000, 0], 44), 0);
    let ms = &t.inner_access().memory_set;
    assert_eq!(ms.read_byte_at(&mem, 0x3000), Some(44));
    assert_eq!(ms.read_byte_at(&mem, 0x3001), Some(0));
    assert_eq!(ms.read_byte_at(&mem, 0x3008), Some(0));
    assert_eq!(ms.read_byte_at(&mem, 0x3010), Some(0));
    assert_eq!(syscall(&mut ctx, &mut t, &mut mem, 410, [8, 0x3000, 0], 45), -1);
    assert_eq!(syscall(&mut ctx, &mut t, &mut mem, 410, [7, 0x2000, 0], 45), -1);
    t.inner_exclusive_access().task_status = TaskStatus::Running;
    assert_eq!(syscall(&mut ctx, &mut t, &mut mem, 124, [0, 0, 0], 46), 0);
    assert_eq!(t.inner_access().task_status, TaskStatus::Ready);
    assert_eq!(syscall(&mut ctx, &mut t, &mut mem, 93, [3, 0, 0], 47), 0);
    assert!(t.inner_access().is_zombie());
    assert_eq!(t.inner_access().exit_code, 3);
    assert_eq!(syscall(&mut ctx, &mut t, &mut mem, 124, [0, 0, 0], 48), 0);
    assert!(t.inner_access().is_zombie());
    assert_eq!(syscall(&mut ctx, &mut t, &mut mem, 93, [9, 0, 0], 49), 0);
    assert_eq!(t.inner_access().exit_code, 3);
}

#[test]
fn time_counters_add_up_to_elapsed_time() {
    let mut mem = FrameArena::new();
    let d = image(0x1000, b"abcd");
    let mut t = TaskControlBlock::new(&d, PidHandle(1), &mut mem, env()).unwrap();
    let mut ctx = SyscallContext::new(100);
    syscall(&mut ctx, &mut t, &mut mem, 169, [0, 0, 0], 110);
    assert_eq!(t.inner_access().runtime_in_user, 10);
    assert_eq!(ctx.last_entering_time, 110);
    finish_syscall(&mut ctx, &mut t, 110, 115);
    assert_eq!(t.inner_access().runtime_in_kernel, 5);
    assert_eq!(ctx.last_entering_time, 115);
    syscall(&mut ctx, &mut t, &mut mem, 169, [0, 0, 0], 130);
    finish_syscall(&mut ctx, &mut t, 130, 131);
    assert_eq!(syscall(&mut ctx, &mut t, &mut mem, 410, [1, 0x3ffc, 0], 131), 0);
    let ms = &t.inner_access().memory_set;
    assert_eq!(ms.read_byte_at(&mem, 0x3ffc), Some(25));
    assert_eq!(ms.read_byte_at(&mem, 0x3fff), Some(0));
    assert_eq!(ms.read_byte_at(&mem, 0x4004), Some(6));
    assert_eq!(ms.read_byte_at(&mem, 0x400b), Some(0));
    finish_syscall(&mut ctx, &mut t, 131, 131);
    let report = t.show_timer_before_exit();
    assert_eq!(report.pid, 1);
    assert_eq!(report.user_ms, 25);
    assert_eq!(report.kernel_ms, 6);
    assert!(report.user_ms + report.kernel_ms <= 131 - 100);
}

#[test]
fn frames_are_handed_out_fresh() {
    let mut mem = FrameArena::new();
    assert_eq!(mem.frame_count(), 1);
    let p = mem.alloc_frame().unwrap();
    assert_eq!(p.0, 1);
    assert!(mem.is_used(p));
    mem.write_byte(p, 7, 0xab);
    assert_eq!(mem.read_byte(p, 7), 0xab);
    let q = mem.alloc_frame().unwrap();
    mem.copy_page(p, q);
    assert_eq!(mem.read_byte(q, 7), 0xab);
    mem.dealloc_frame(p);
    assert!(!mem.is_used(p));
}

#[test]
fn waitpid_reaps_exited_children_once() {
    let mut mem = FrameArena::new();
    let d = image(0x1000, b"abcd");
    let mut table = ProcessTable::new();
    let p0 = table.alloc_pid().unwrap();
    assert_eq!(p0, PidHandle(0));
    let mut parent = TaskControlBlock::new(&d, p0, &mut mem, env()).unwrap();
    let mut a = parent.fork(PidHandle(1), &mut mem, env()).unwrap();
    let b = parent.fork(PidHandle(2), &mut mem, env()).unwrap();
    table.insert(parent);
    assert_eq!(table.alloc_pid(), Some(PidHandle(1)));
    let mut ctx = SyscallContext::new(0);
    assert_eq!(syscall(&mut ctx, &mut a, &mut mem, 93, [7, 0, 0], 1), 0);
    let a_frame = a.inner_access().memory_set.translate(VirtPageNum(1)).unwrap().ppn();
    table.insert(a);
    table.insert(b);
    assert_eq!(table.alloc_pid(), Some(PidHandle(3)));
    assert_eq!(table.waitpid(0, 5, &mut mem), WaitOutcome::NoSuchChild);
    assert_eq!(table.waitpid(0, 2, &mut mem), WaitOutcome::StillRunning);
    assert!(mem.is_used(a_frame));
    assert_eq!(table.waitpid(0, -1, &mut mem), WaitOutcome::Reaped { pid: 1, exit_code: 7 });
    assert!(!mem.is_used(a_frame));
    assert_eq!(table.alloc_pid(), Some(PidHandle(1)));
    assert_eq!(table.waitpid(0, 1, &mut mem), WaitOutcome::NoSuchChild);
    assert_eq!(table.waitpid(0, -1, &mut mem), WaitOutcome::StillRunning);
    let parent = table.take(0).unwrap();
    assert_eq!(parent.inner_access().children, vec![2]);
    assert!(table.take(0).is_none());
}
