//! The system-call entry point: dispatch by number, and accounting of the
//! time a task spends in user and in kernel mode.
//!
//! Time between the previous return to user mode and a trap counts as user
//! time; time from the trap until the handler is done counts as kernel time.
//! Both are charged to the task that was running when the trap came in.
use vstd::prelude::*;
use crate::frame::FrameArena;
use crate::address::VirtPageNum;
use crate::config::{PAGE_SIZE, TRAMPOLINE_VPN};
use crate::memory_set::{byte_at, MemorySet};
use crate::task::{File, TaskControlBlock, TaskStatus};

verus! {

/// Write bytes to a descriptor.
pub const SYSCALL_WRITE: usize = 64;

/// End the calling process.
pub const SYSCALL_EXIT: usize = 93;

/// Trace point: succeeds without effect.
pub const SYSCALL_TRACE: usize = 94;

/// Give up the processor.
pub const SYSCALL_YIELD: usize = 124;

/// The current time in milliseconds.
pub const SYSCALL_GET_TIME: usize = 169;

/// Write the time counters of the calling process to user memory.
pub const SYSCALL_TASKINFO: usize = 410;

/// The system-call numbers that have a handler.
pub open spec fn is_supported(id: usize) -> bool {
    id == SYSCALL_WRITE || id == SYSCALL_EXIT || id == SYSCALL_TRACE || id == SYSCALL_YIELD || id
        == SYSCALL_GET_TIME || id == SYSCALL_TASKINFO
}

/// State of the dispatcher shared by all tasks.
pub struct SyscallContext {
    /// When the running task last returned to user mode, in milliseconds.
    pub last_entering_time: usize,
    /// Everything written to standard output so far.
    pub console: Vec<u8>,
}

/// User time after a trap at `start` that follows a return to user mode at `last`.
pub open spec fn user_time_after(user: usize, last: usize, start: usize) -> int {
    user + (start - last)
}

/// Kernel time after a handler that ran from `start` to `now`.
pub open spec fn kernel_time_after(kernel: usize, start: usize, now: usize) -> int {
    kernel + (now - start)
}

/// The `len` bytes at user address `buf` are all mapped in `ms`.
pub open spec fn user_buffer_mapped(ms: &MemorySet, mem: &FrameArena, buf: usize, len: usize) -> bool {
    &&& buf + len <= u64::MAX
    &&& forall|i: int| 0 <= i < len ==> (#[trigger] byte_at(ms, mem, (buf + i) as u64)).is_some()
}

/// The `len` bytes at user address `buf` in `ms`.
pub open spec fn user_buffer(ms: &MemorySet, mem: &FrameArena, buf: usize, len: usize) -> Seq<u8> {
    Seq::new(len as nat, |i: int| byte_at(ms, mem, (buf + i) as u64).unwrap())
}

/// Whether descriptor `fd` of a table names standard output.
pub open spec fn writes_to_console(fds: Seq<Option<File>>, fd: usize) -> bool {
    fd < fds.len() && fds[fd as int] == Some(File::Stdout)
}

impl SyscallContext {
    /// A dispatcher whose clock starts at `boot_time`, with nothing written yet.
    pub fn new(boot_time: usize) -> (r: Self)
        ensures
            r.last_entering_time == boot_time,
            r.console@.len() == 0,
    {
        SyscallContext { last_entering_time: boot_time, console: Vec::new() }
    }
}

/// Copies the `len` bytes at user address `buf` of `ms`; `None` when one of
/// them is not mapped.
fn read_user_buffer(ms: &MemorySet, mem: &FrameArena, buf: usize, len: usize) -> (r: Option<Vec<u8>>)
    requires
        ms.wf(mem),
    ensures
        r.is_some() <==> user_buffer_mapped(ms, mem, buf, len),
        r.is_some() ==> r.unwrap()@ == user_buffer(ms, mem, buf, len),
{
    let b = buf as u64;
    let n = len as u64;
    if b > u64::MAX - n {
        return None;
    }
    let mut out: Vec<u8> = Vec::new();
    let mut i: usize = 0;
    while i < len
        invariant
            ms.wf(mem),
            buf + len <= u64::MAX,
            b == buf,
            i <= len,
            out@.len() == i,
            forall|j: int| 0 <= j < i ==> (#[trigger] byte_at(ms, mem, (buf + j) as u64)).is_some(),
            forall|j: int| 0 <= j < i ==> out@[j] == byte_at(ms, mem, (buf + j) as u64).unwrap(),
        decreases len - i,
    {
        match ms.read_byte_at(mem, b + i as u64) {
            None => {
                return None;
            },
            Some(x) => {
                out.push(x);
            },
        }
        i = i + 1;
    }
    proof {
        assert(out@ =~= user_buffer(ms, mem, buf, len));
    }
    Some(out)
}

/// Writes the `len` bytes at user address `buf` to descriptor `fd`.
/// Returns `len`, or -1 (nothing written) when `fd` is not standard output
/// or the buffer is not mapped.
pub fn sys_write(
    ctx: &mut SyscallContext,
    task: &TaskControlBlock,
    mem: &FrameArena,
    fd: usize,
    buf: usize,
    len: usize,
) -> (r: isize)
    requires
        task.state().memory_set.wf(mem),
    ensures
        final(ctx).last_entering_time == old(ctx).last_entering_time,
        ({
            let ok = writes_to_console(task.state().fd_table@, fd) && user_buffer_mapped(
                &task.state().memory_set,
                mem,
                buf,
                len,
            ) && len <= isize::MAX;
            &&& ok ==> r == len as isize && final(ctx).console@ == old(ctx).console@ + user_buffer(
                &task.state().memory_set,
                mem,
                buf,
                len,
            )
            &&& !ok ==> r == -1 && final(ctx).console@ == old(ctx).console@
        }),
{
    let inner = task.inner_access();
    if fd >= inner.fd_table.len() {
        return -1;
    }
    match inner.fd_table[fd] {
        Some(File::Stdout) => {},
        _ => {
            return -1;
        },
    }
    if len > isize::MAX as usize {
        return -1;
    }
    let bytes = match read_user_buffer(&inner.memory_set, mem, buf, len) {
        None => {
            return -1;
        },
        Some(v) => v,
    };
    let ghost c0 = ctx.console@;
    let mut i: usize = 0;
    while i < bytes.len()
        invariant
            i <= bytes@.len(),
            ctx.console@ == c0 + bytes@.subrange(0, i as int),
            ctx.last_entering_time == old(ctx).last_entering_time,
        decreases bytes@.len() - i,
    {
        ctx.console.push(bytes[i]);
        i = i + 1;
        proof {
            assert(ctx.console@ =~= c0 + bytes@.subrange(0, i as int));
        }
    }
    proof {
        assert(bytes@.subrange(0, bytes@.len() as int) =~= bytes@);
    }
    len as isize
}

/// User address `va` lies in a page of `ms` that user code may write,
/// other than the trampoline.
pub open spec fn user_writable(ms: &MemorySet, va: u64) -> bool {
    let k = (va / PAGE_SIZE) as u64;
    &&& ms@.contains_key(k)
    &&& k != TRAMPOLINE_VPN
    &&& (ms@[k].spec_flags() / 4) % 2 == 1
    &&& (ms@[k].spec_flags() / 16) % 2 == 1
}

/// The 16 bytes at user address `out` can take a task-info record.
pub open spec fn info_target_ok(ms: &MemorySet, out: usize) -> bool {
    &&& out + 16 <= u64::MAX
    &&& forall|j: int| 0 <= j < 16 ==> #[trigger] user_writable(ms, (out + j) as u64)
}

/// Byte `j` of a task-info record: user time, then kernel time, each a
/// little-endian 64-bit word.
pub open spec fn info_byte(user: usize, kernel: usize, j: int) -> u8 {
    let w: u64 = if j < 8 {
        user as u64
    } else {
        kernel as u64
    };
    ((w >> (8 * (j % 8)) as u64) & 0xff) as u8
}

/// Whether user address `va` can take a byte written on behalf of the task.
fn writable_at(ms: &MemorySet, va: u64) -> (r: bool)
    requires
        ms.table_wf(),
    ensures
        r == user_writable(ms, va),
{
    let k = va / PAGE_SIZE;
    if k == TRAMPOLINE_VPN {
        return false;
    }
    match ms.translate(VirtPageNum(k)) {
        None => false,
        Some(pte) => pte.writable() && pte.user_accessible(),
    }
}

/// Writes the user and kernel time of `task` as two little-endian 64-bit
/// words at user address `out`. Returns 0; -1, with nothing written, when
/// `pid` is not the task's or one of the 16 bytes is not in a user page
/// that may be written.
pub fn sys_task_info(task: &TaskControlBlock, mem: &mut FrameArena, pid: usize, out: usize) -> (r: isize)
    requires
        task.state().memory_set.wf(old(mem)),
    ensures
        task.state().memory_set.wf(final(mem)),
        final(mem).len() == old(mem).len(),
        !(pid == task.spec_pid().0 && info_target_ok(&task.state().memory_set, out)) ==> r == -1
            && *final(mem) == *old(mem),
        pid == task.spec_pid().0 && info_target_ok(&task.state().memory_set, out) ==> r == 0
            && forall|j: int|
            0 <= j < 16 ==> #[trigger] byte_at(&task.state().memory_set, final(mem), (out + j) as u64)
                == Some(
                info_byte(task.state().runtime_in_user, task.state().runtime_in_kernel, j),
            ),
{
    if pid != task.getpid() {
        return -1;
    }
    let inner = task.inner_access();
    let o = out as u64;
    if o > u64::MAX - 16 {
        return -1;
    }
    let mut j: u64 = 0;
    while j < 16
        invariant
            inner.memory_set.table_wf(),
            *inner == task.state(),
            task.state().memory_set.wf(mem),
            *mem == *old(mem),
            o == out,
            out + 16 <= u64::MAX,
            j <= 16,
            forall|i: int| 0 <= i < j ==> #[trigger] user_writable(&inner.memory_set, (out + i) as u64),
        decreases 16 - j,
    {
        if !writable_at(&inner.memory_set, o + j) {
            proof {
                assert(!user_writable(&task.state().memory_set, (out + j) as u64));
            }
            return -1;
        }
        j = j + 1;
    }
    let words: [u64; 2] = [inner.runtime_in_user as u64, inner.runtime_in_kernel as u64];
    let ghost ms = inner.memory_set;
    j = 0;
    while j < 16
        invariant
            ms == inner.memory_set,
            *inner == task.state(),
            ms.wf(mem),
            mem.len() == old(mem).len(),
            o == out,
            out + 16 <= u64::MAX,
            j <= 16,
            words[0] == inner.runtime_in_user as u64,
            words[1] == inner.runtime_in_kernel as u64,
            forall|i: int| 0 <= i < 16 ==> #[trigger] user_writable(&ms, (out + i) as u64),
            forall|i: int|
                0 <= i < j ==> #[trigger] byte_at(&ms, mem, (out + i) as u64) == Some(
                    info_byte(inner.runtime_in_user, inner.runtime_in_kernel, i),
                ),
        decreases 16 - j,
    {
        let w = words[(j / 8) as usize];
        let b = ((w >> (8 * (j % 8))) & 0xff) as u8;
        let ghost m1 = *mem;
        let va = o + j;
        proof {
            assert(user_writable(&ms, (out + j) as u64));
        }
        inner.memory_set.write_byte_at(mem, va, b);
        proof {
            let kj = (va / PAGE_SIZE) as u64;
            assert(b == info_byte(inner.runtime_in_user, inner.runtime_in_kernel, j as int));
            assert(ms@.contains_key(kj));
            m1.lemma_page_len(ms@[kj].spec_ppn() as int);
            assert(byte_at(&ms, mem, va) == Some(b));
            assert forall|i: int|
                0 <= i < j + 1 implies #[trigger] byte_at(&ms, mem, (out + i) as u64) == Some(
                info_byte(inner.runtime_in_user, inner.runtime_in_kernel, i),
            ) by {
                if i < j {
                    let vi = (out + i) as u64;
                    let ki = (vi / PAGE_SIZE) as u64;
                    assert(user_writable(&ms, vi));
                    assert(byte_at(&ms, &m1, vi) == Some(
                        info_byte(inner.runtime_in_user, inner.runtime_in_kernel, i),
                    ));
                    let pi = ms@[ki].spec_ppn() as int;
                    m1.lemma_page_len(pi);
                    if ki == kj {
                        vstd::arithmetic::div_mod::lemma_fundamental_div_mod(vi as int, 4096);
                        vstd::arithmetic::div_mod::lemma_fundamental_div_mod(va as int, 4096);
                        assert(vi % PAGE_SIZE != va % PAGE_SIZE);
                        assert(mem.page(pi)[(vi % PAGE_SIZE) as int] == m1.page(pi)[(vi % PAGE_SIZE) as int]);
                    } else {
                        assert(ms@[ki].spec_ppn() != ms@[kj].spec_ppn());
                        assert(mem.page(pi) == m1.page(pi));
                    }
                }
            }
        }
        j = j + 1;
    }
    0
}

/// Whether `id` names a system call that has a handler.
pub fn supported(id: usize) -> (r: bool)
    ensures
        r == is_supported(id),
{
    id == SYSCALL_WRITE || id == SYSCALL_EXIT || id == SYSCALL_TRACE || id == SYSCALL_YIELD || id
        == SYSCALL_GET_TIME || id == SYSCALL_TASKINFO
}

/// Handles system call `syscall_id` with `args` for `task`, trapped at
/// `time_at_start`. The time since the task last returned to user mode is
/// added to its user time first. An unknown number is a fatal kernel error,
/// so callers test it with `supported` first.
pub fn syscall(
    ctx: &mut SyscallContext,
    task: &mut TaskControlBlock,
    mem: &mut FrameArena,
    syscall_id: usize,
    args: [usize; 3],
    time_at_start: usize,
) -> (r: isize)
    requires
        is_supported(syscall_id),
        old(task).state().memory_set.wf(old(mem)),
        old(ctx).last_entering_time <= time_at_start,
        old(task).state().runtime_in_user + old(task).state().runtime_in_kernel
            <= old(ctx).last_entering_time,
    ensures
        final(task).state().memory_set.wf(final(mem)),
        final(mem).len() == old(mem).len(),
        syscall_id != SYSCALL_TASKINFO ==> *final(mem) == *old(mem),
        final(ctx).last_entering_time == time_at_start,
        final(task).state().runtime_in_user == user_time_after(
            old(task).state().runtime_in_user,
            old(ctx).last_entering_time,
            time_at_start,
        ),
        final(task).state().runtime_in_kernel == old(task).state().runtime_in_kernel,
        final(task).state().runtime_in_user + final(task).state().runtime_in_kernel
            <= time_at_start,
        final(task).spec_pid() == old(task).spec_pid(),
        final(task).spec_kernel_stack() == old(task).spec_kernel_stack(),
        final(task).state().memory_set == old(task).state().memory_set,
        final(task).state().fd_table@ == old(task).state().fd_table@,
        final(task).state().children@ == old(task).state().children@,
        final(task).state().parent == old(task).state().parent,
        final(task).state().base_size == old(task).state().base_size,
        final(task).state().trap_cx_ppn == old(task).state().trap_cx_ppn,
        final(task).state().trap_cx == old(task).state().trap_cx,
        final(task).state().task_cx == old(task).state().task_cx,
        syscall_id != SYSCALL_WRITE ==> final(ctx).console@ == old(ctx).console@,
        syscall_id == SYSCALL_WRITE ==> ({
            let ok = writes_to_console(old(task).state().fd_table@, args[0]) && user_buffer_mapped(
                &old(task).state().memory_set,
                old(mem),
                args[1],
                args[2],
            ) && args[2] <= isize::MAX;
            &&& ok ==> r == args[2] as isize && final(ctx).console@ == old(ctx).console@
                + user_buffer(&old(task).state().memory_set, old(mem), args[1], args[2])
            &&& !ok ==> r == -1 && final(ctx).console@ == old(ctx).console@
        }),
        old(task).state().task_status == TaskStatus::Zombie ==> final(task).state().task_status
            == TaskStatus::Zombie && final(task).state().exit_code == old(task).state().exit_code,
        syscall_id == SYSCALL_EXIT ==> r == 0 && final(task).state().task_status
            == TaskStatus::Zombie,
        syscall_id == SYSCALL_EXIT && old(task).state().task_status != TaskStatus::Zombie
            ==> final(task).state().exit_code == args[0] as i32,
        syscall_id == SYSCALL_YIELD ==> r == 0,
        syscall_id == SYSCALL_YIELD && old(task).state().task_status != TaskStatus::Zombie
            ==> final(task).state().task_status == TaskStatus::Ready,
        syscall_id != SYSCALL_EXIT ==> final(task).state().exit_code == old(task).state().exit_code,
        syscall_id != SYSCALL_EXIT && syscall_id != SYSCALL_YIELD ==> final(task).state().task_status
            == old(task).state().task_status,
        syscall_id == SYSCALL_GET_TIME ==> r == (if time_at_start <= isize::MAX {
            time_at_start as isize
        } else {
            -1isize
        }),
        syscall_id == SYSCALL_TRACE ==> r == 0,
        syscall_id == SYSCALL_TASKINFO ==> ({
            let ok = args[0] == old(task).spec_pid().0 && info_target_ok(
                &old(task).state().memory_set,
                args[1],
            );
            &&& !ok ==> r == -1 && *final(mem) == *old(mem)
            &&& ok ==> r == 0 && forall|j: int|
                0 <= j < 16 ==> #[trigger] byte_at(
                    &old(task).state().memory_set,
                    final(mem),
                    (args[1] + j) as u64,
                ) == Some(
                    info_byte(
                        final(task).state().runtime_in_user,
                        final(task).state().runtime_in_kernel,
                        j,
                    ),
                )
        }),
{
    let elapsed = time_at_start - ctx.last_entering_time;
    let inner = task.inner_exclusive_access();
    inner.increase_user_timer(elapsed);
    ctx.last_entering_time = time_at_start;
    if syscall_id == SYSCALL_WRITE {
        sys_write(ctx, task, &*mem, args[0], args[1], args[2])
    } else if syscall_id == SYSCALL_EXIT {
        let inner = task.inner_exclusive_access();
        if inner.task_status != TaskStatus::Zombie {
            inner.task_status = TaskStatus::Zombie;
            inner.exit_code = exit_code_of(args[0]);
        }
        0
    } else if syscall_id == SYSCALL_TRACE {
        0
    } else if syscall_id == SYSCALL_YIELD {
        let inner = task.inner_exclusive_access();
        if inner.task_status != TaskStatus::Zombie {
            inner.task_status = TaskStatus::Ready;
        }
        0
    } else if syscall_id == SYSCALL_GET_TIME {
        if time_at_start <= isize::MAX as usize {
            time_at_start as isize
        } else {
            -1
        }
    } else {
        sys_task_info(&*task, mem, args[0], args[1])
    }
}

/// The exit code carried by a system-call argument: its low 32 bits.
fn exit_code_of(a: usize) -> (r: i32)
    ensures
        r == a as i32,
{
    #[verifier::truncate]
    (a as i32)
}

/// Ends the accounting of a system call that began at `time_at_start`:
/// the time until `time_now` is added to the task's kernel time, and user
/// time is counted again from `time_now`.
pub fn finish_syscall(
    ctx: &mut SyscallContext,
    task: &mut TaskControlBlock,
    time_at_start: usize,
    time_now: usize,
)
    requires
        time_at_start <= time_now,
        old(task).state().runtime_in_user + old(task).state().runtime_in_kernel <= time_at_start,
    ensures
        final(ctx).last_entering_time == time_now,
        final(ctx).console@ == old(ctx).console@,
        final(task).state().runtime_in_kernel == kernel_time_after(
            old(task).state().runtime_in_kernel,
            time_at_start,
            time_now,
        ),
        final(task).state().runtime_in_user == old(task).state().runtime_in_user,
        final(task).state().runtime_in_user + final(task).state().runtime_in_kernel <= time_now,
        final(task).spec_pid() == old(task).spec_pid(),
        final(task).state().memory_set == old(task).state().memory_set,
        final(task).state().fd_table@ == old(task).state().fd_table@,
        final(task).state().task_status == old(task).state().task_status,
{
    let inner = task.inner_exclusive_access();
    inner.increase_kernel_timer(time_now - time_at_start);
    ctx.last_entering_time = time_now;
}

/// Over one trap, the counters of the task never go down, and together they
/// grow by exactly the time since it last returned to user mode; so their
/// sum never exceeds the time elapsed on the clock.
pub proof fn lemma_time_accounting(user: usize, kernel: usize, last: usize, start: usize, now: usize)
    requires
        user + kernel <= last,
        last <= start <= now,
    ensures
        user_time_after(user, last, start) >= user,
        kernel_time_after(kernel, start, now) >= kernel,
        user_time_after(user, last, start) + kernel_time_after(kernel, start, now) - (user + kernel)
            == now - last,
        user_time_after(user, last, start) + kernel_time_after(kernel, start, now) <= now,
{
}

} // verus!
