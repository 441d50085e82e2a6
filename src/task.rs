//! Process control blocks and their lifecycle: creation, exec, fork and spawn.
use vstd::prelude::*;
use crate::address::{PhysPageNum, PPN_SPAN};
use crate::config::{KERNEL_STACK_SIZE, PAGE_SIZE, TRAMPOLINE, TRAMPOLINE_VPN, TRAP_CONTEXT_VPN};
use crate::elf::{field, image_ok};
use crate::frame::FrameArena;
use crate::memory_set::{forked_from, loadable, loaded_from, trampoline_entry, user_stack_top, MemorySet};
use crate::address::VirtPageNum;

verus! {

/// Largest process identifier; keeps every kernel stack inside the address space.
pub const MAX_PID: usize = 0x10_0000;

/// Addresses that the kernel environment supplies to every new task.
#[derive(Copy, Clone, Debug, PartialEq, Eq, Structural)]
pub struct KernelEnv {
    /// `satp` value of the kernel's own address space.
    pub kernel_token: u64,
    /// Address of the trap handler.
    pub trap_handler: u64,
    /// Address of the code that returns from a trap to user mode.
    pub trap_return: u64,
}

/// A leased process identifier.
#[derive(Copy, Clone, Debug, PartialEq, Eq, Structural)]
pub struct PidHandle(pub usize);

/// Top of the kernel stack of process `pid`: stacks sit below the
/// trampoline, each under a guard page.
pub open spec fn kernel_stack_top(pid: usize) -> u64 {
    (TRAMPOLINE - pid * (KERNEL_STACK_SIZE + PAGE_SIZE)) as u64
}

/// The kernel stack of one process.
#[derive(Copy, Clone, Debug, PartialEq, Eq, Structural)]
pub struct KernelStack {
    pid: usize,
}

impl KernelStack {
    /// The kernel stack that belongs to `pid`.
    pub fn new(pid: &PidHandle) -> (r: Self)
        ensures
            r.owner() == pid.0,
    {
        KernelStack { pid: pid.0 }
    }

    /// The process the stack belongs to.
    pub closed spec fn owner(&self) -> usize {
        self.pid
    }

    /// Address just above the stack.
    pub fn get_top(&self) -> (r: u64)
        requires
            self.owner() <= MAX_PID,
        ensures
            r == kernel_stack_top(self.owner()),
    {
        let p = self.pid as u64;
        proof {
            assert(p * 12288 <= 0x10_0000 * 12288) by (nonlinear_arith)
                requires p <= 0x10_0000;
        }
        TRAMPOLINE - p * (KERNEL_STACK_SIZE + PAGE_SIZE)
    }
}

/// Saved user registers, restored on return to user mode.
#[derive(Copy, Clone, Debug)]
pub struct TrapContext {
    pub x: [u64; 32],
    pub sstatus: u64,
    pub sepc: u64,
    pub kernel_satp: u64,
    pub kernel_sp: u64,
    pub trap_handler: u64,
}

impl TrapContext {
    /// The context that starts a program at `entry` with stack pointer `sp`,
    /// in user mode, all other registers zero.
    pub fn app_init_context(entry: u64, sp: u64, kernel_satp: u64, kernel_sp: u64, trap_handler: u64) -> (r: Self)
        ensures
            r.sepc == entry,
            r.x[2] == sp,
            forall|i: int| 0 <= i < 32 && i != 2 ==> r.x[i] == 0,
            r.sstatus == 0,
            r.kernel_satp == kernel_satp,
            r.kernel_sp == kernel_sp,
            r.trap_handler == trap_handler,
    {
        let mut x: [u64; 32] = [0u64; 32];
        x[2] = sp;
        TrapContext { x, sstatus: 0, sepc: entry, kernel_satp, kernel_sp, trap_handler }
    }
}

/// Callee-saved registers for a switch between kernel threads.
#[derive(Copy, Clone, Debug)]
pub struct TaskContext {
    pub ra: u64,
    pub sp: u64,
    pub s: [u64; 12],
}

impl TaskContext {
    /// A context that, once switched to, runs `trap_return` on kernel stack `kstack_ptr`.
    pub fn goto_trap_return(trap_return: u64, kstack_ptr: u64) -> (r: Self)
        ensures
            r.ra == trap_return,
            r.sp == kstack_ptr,
            forall|i: int| 0 <= i < 12 ==> r.s[i] == 0,
    {
        TaskContext { ra: trap_return, sp: kstack_ptr, s: [0u64; 12] }
    }
}

/// Scheduling state of a task.
#[derive(Copy, Clone, Debug, PartialEq, Eq, Structural)]
pub enum TaskStatus {
    Ready,
    Running,
    Zombie,
}

/// A file that a descriptor refers to. Descriptors share the file they name.
#[derive(Copy, Clone, Debug, PartialEq, Eq, Structural)]
pub enum File {
    /// Standard input.
    Stdin,
    /// Standard output (also used for standard error).
    Stdout,
}

/// The descriptor table of a new process: stdin, stdout, stderr.
pub open spec fn standard_fds() -> Seq<Option<File>> {
    seq![Some(File::Stdin), Some(File::Stdout), Some(File::Stdout)]
}

/// The mutable state of a process.
pub struct TaskControlBlockInner {
    pub trap_cx_ppn: PhysPageNum,
    /// Initial user stack pointer; user data lies below it.
    pub base_size: u64,
    pub task_cx: TaskContext,
    pub task_status: TaskStatus,
    pub memory_set: MemorySet,
    /// Process identifier of the parent, if any.
    pub parent: Option<usize>,
    /// Process identifiers of the children.
    pub children: Vec<usize>,
    pub exit_code: i32,
    pub runtime_in_user: usize,
    pub runtime_in_kernel: usize,
    pub fd_table: Vec<Option<File>>,
    /// The trap context kept in the trap-context page.
    pub trap_cx: TrapContext,
}

impl TaskControlBlockInner {
    /// The saved user registers.
    pub fn get_trap_cx(&self) -> (r: &TrapContext)
        ensures
            *r == self.trap_cx,
    {
        &self.trap_cx
    }

    /// The `satp` value of the task's address space.
    pub fn get_user_token(&self) -> (r: u64)
        requires
            self.memory_set.table_wf(),
        ensures
            r == crate::page_table::SATP_SV39 + self.memory_set.root().0,
    {
        self.memory_set.token()
    }

    /// The scheduling state.
    pub fn get_status(&self) -> (r: TaskStatus)
        ensures
            r == self.task_status,
    {
        self.task_status
    }

    /// Whether the task has exited and waits to be reaped.
    pub fn is_zombie(&self) -> (r: bool)
        ensures
            r == (self.task_status == TaskStatus::Zombie),
    {
        self.get_status() == TaskStatus::Zombie
    }

    /// The lowest free descriptor; the table grows by one empty slot when
    /// none is free.
    pub fn alloc_fd(&mut self) -> (r: usize)
        requires
            old(self).fd_table@.len() < usize::MAX,
        ensures
            r < final(self).fd_table@.len(),
            final(self).fd_table@[r as int].is_none(),
            forall|j: int| 0 <= j < r ==> (#[trigger] old(self).fd_table@[j]).is_some(),
            r < old(self).fd_table@.len() ==> final(self).fd_table@ == old(self).fd_table@,
            r == old(self).fd_table@.len() ==> final(self).fd_table@ == old(self).fd_table@.push(None),
            r <= old(self).fd_table@.len(),
            final(self).children == old(self).children,
            final(self).task_status == old(self).task_status,
            final(self).runtime_in_user == old(self).runtime_in_user,
            final(self).runtime_in_kernel == old(self).runtime_in_kernel,
            final(self).memory_set == old(self).memory_set,
            final(self).parent == old(self).parent,
            final(self).exit_code == old(self).exit_code,
            final(self).base_size == old(self).base_size,
            final(self).trap_cx_ppn == old(self).trap_cx_ppn,
            final(self).task_cx == old(self).task_cx,
            final(self).trap_cx == old(self).trap_cx,
    {
        let mut fd: usize = 0;
        while fd < self.fd_table.len()
            invariant
                fd <= self.fd_table@.len(),
                forall|j: int| 0 <= j < fd ==> (#[trigger] self.fd_table@[j]).is_some(),
            decreases self.fd_table@.len() - fd,
        {
            if self.fd_table[fd].is_none() {
                return fd;
            }
            fd = fd + 1;
        }
        self.fd_table.push(None);
        self.fd_table.len() - 1
    }

    /// Adds `ms` milliseconds of user time.
    pub fn increase_user_timer(&mut self, ms: usize)
        requires
            old(self).runtime_in_user + ms <= usize::MAX,
        ensures
            final(self).runtime_in_user == old(self).runtime_in_user + ms,
            final(self).runtime_in_kernel == old(self).runtime_in_kernel,
            final(self).task_status == old(self).task_status,
            final(self).fd_table == old(self).fd_table,
            final(self).children == old(self).children,
            final(self).memory_set == old(self).memory_set,
            final(self).parent == old(self).parent,
            final(self).exit_code == old(self).exit_code,
            final(self).trap_cx_ppn == old(self).trap_cx_ppn,
            final(self).base_size == old(self).base_size,
            final(self).task_cx == old(self).task_cx,
            final(self).trap_cx == old(self).trap_cx,
    {
        self.runtime_in_user = self.runtime_in_user + ms;
    }

    /// Adds `ms` milliseconds of kernel time.
    pub fn increase_kernel_timer(&mut self, ms: usize)
        requires
            old(self).runtime_in_kernel + ms <= usize::MAX,
        ensures
            final(self).runtime_in_kernel == old(self).runtime_in_kernel + ms,
            final(self).runtime_in_user == old(self).runtime_in_user,
            final(self).task_status == old(self).task_status,
            final(self).fd_table == old(self).fd_table,
            final(self).children == old(self).children,
            final(self).memory_set == old(self).memory_set,
            final(self).parent == old(self).parent,
            final(self).exit_code == old(self).exit_code,
            final(self).trap_cx_ppn == old(self).trap_cx_ppn,
            final(self).base_size == old(self).base_size,
            final(self).task_cx == old(self).task_cx,
            final(self).trap_cx == old(self).trap_cx,
    {
        self.runtime_in_kernel = self.runtime_in_kernel + ms;
    }
}

/// A process: identity, kernel stack and the state that changes as it runs.
pub struct TaskControlBlock {
    pub pid: PidHandle,
    pub kernel_stack: KernelStack,
    inner: TaskControlBlockInner,
}

/// Whether `c` starts the program whose image is `d` in a fresh task `pid`:
/// the trap context enters the image with the initial stack pointer on
/// the task's kernel stack.
pub open spec fn starts_image(c: TrapContext, d: Seq<u8>, pid: usize, env: KernelEnv) -> bool {
    &&& c.sepc == field(d, 24, 8)
    &&& c.x[2] == user_stack_top(d)
    &&& c.kernel_sp == kernel_stack_top(pid)
    &&& c.kernel_satp == env.kernel_token
    &&& c.trap_handler == env.trap_handler
    &&& c.sstatus == 0
    &&& forall|i: int| 0 <= i < 32 && i != 2 ==> c.x[i] == 0
}

/// Whether `c`, once switched to, runs the return-from-trap code on the
/// kernel stack of process `pid`, all callee-saved registers zero.
pub open spec fn returns_to_user(c: TaskContext, pid: usize, env: KernelEnv) -> bool {
    &&& c.ra == env.trap_return
    &&& c.sp == kernel_stack_top(pid)
    &&& forall|i: int| 0 <= i < 12 ==> c.s[i] == 0
}

impl TaskControlBlock {
    /// The mutable state of the process.
    pub closed spec fn state(&self) -> TaskControlBlockInner {
        self.inner
    }

    /// The process identifier.
    pub closed spec fn spec_pid(&self) -> PidHandle {
        self.pid
    }

    /// The kernel stack.
    pub closed spec fn spec_kernel_stack(&self) -> KernelStack {
        self.kernel_stack
    }

    /// The task's address space is sound in `mem`, maps its trap-context
    /// page where `trap_cx_ppn` says and the shared trampoline read-only,
    /// and its kernel stack is its own.
    pub open spec fn wf(&self, mem: &FrameArena) -> bool {
        &&& self.state().memory_set.wf(mem)
        &&& self.state().memory_set@.contains_key(TRAP_CONTEXT_VPN)
        &&& self.state().trap_cx_ppn.0 == self.state().memory_set@[TRAP_CONTEXT_VPN].spec_ppn()
        &&& self.state().memory_set@.contains_key(TRAMPOLINE_VPN)
        &&& self.state().memory_set@[TRAMPOLINE_VPN] == trampoline_entry()
        &&& self.spec_pid().0 <= MAX_PID
        &&& self.spec_kernel_stack().owner() == self.spec_pid().0
    }

    /// Exclusive access to the mutable state; one holder at a time.
    pub fn inner_exclusive_access(&mut self) -> (r: &mut TaskControlBlockInner)
        ensures
            *r == old(self).state(),
            final(self).state() == *final(r),
            final(self).spec_pid() == old(self).spec_pid(),
            final(self).spec_kernel_stack() == old(self).spec_kernel_stack(),
    {
        &mut self.inner
    }

    /// Read access to the mutable state.
    pub fn inner_access(&self) -> (r: &TaskControlBlockInner)
        ensures
            *r == self.state(),
    {
        &self.inner
    }

    /// A new process `pid` running the program in `elf_data`: status
    /// ready, no parent, no children, descriptors stdin, stdout and
    /// stderr. The image must be sound (a malformed one is a fatal error,
    /// tested with `parse_elf` first). `None` when its segments overlap or
    /// frames run out.
    pub fn new(elf_data: &[u8], pid: PidHandle, mem: &mut FrameArena, env: KernelEnv) -> (r: Option<Self>)
        requires
            old(mem).wf(),
            old(mem).len() > 0,
            pid.0 <= MAX_PID,
            image_ok(elf_data@),
        ensures
            final(mem).wf(),
            final(mem).extends(old(mem)),
            loadable(elf_data@, old(mem).len()) ==> r.is_some(),
            r.is_some() ==> {
                let t = r.unwrap();
                &&& t.wf(final(mem))
                &&& loaded_from(&t.state().memory_set, elf_data@, old(mem), final(mem))
                &&& returns_to_user(t.state().task_cx, pid.0, env)
                &&& t.spec_pid() == pid
                &&& t.state().task_status == TaskStatus::Ready
                &&& t.state().parent.is_none()
                &&& t.state().children@.len() == 0
                &&& t.state().fd_table@ == standard_fds()
                &&& t.state().exit_code == 0
                &&& t.state().runtime_in_user == 0
                &&& t.state().runtime_in_kernel == 0
                &&& t.state().base_size == user_stack_top(elf_data@)
                &&& starts_image(t.state().trap_cx, elf_data@, pid.0, env)
            },
    {
        let (memory_set, user_sp, entry_point) = match MemorySet::from_elf(elf_data, mem) {
            None => return None,
            Some(x) => x,
        };
        let trap_cx_ppn = match memory_set.translate(VirtPageNum(TRAP_CONTEXT_VPN)) {
            None => return None,
            Some(pte) => pte.ppn(),
        };
        let kernel_stack = KernelStack::new(&pid);
        let kernel_stack_top = kernel_stack.get_top();
        let mut fd_table: Vec<Option<File>> = Vec::new();
        fd_table.push(Some(File::Stdin));
        fd_table.push(Some(File::Stdout));
        fd_table.push(Some(File::Stdout));
        proof {
            assert(fd_table@ =~= standard_fds());
        }
        let trap_cx = TrapContext::app_init_context(
            entry_point,
            user_sp,
            env.kernel_token,
            kernel_stack_top,
            env.trap_handler,
        );
        Some(TaskControlBlock {
            pid,
            kernel_stack,
            inner: TaskControlBlockInner {
                trap_cx_ppn,
                base_size: user_sp,
                task_cx: TaskContext::goto_trap_return(env.trap_return, kernel_stack_top),
                task_status: TaskStatus::Ready,
                memory_set,
                parent: None,
                children: Vec::new(),
                exit_code: 0,
                runtime_in_user: 0,
                runtime_in_kernel: 0,
                fd_table,
                trap_cx,
            },
        })
    }

    /// Replaces the program of this process by the one in `elf_data`: a
    /// fresh address space, trap context and base size, the frames of the
    /// old space given back; identity, parent, children, descriptors, status
    /// and exit code stay. The image must be sound. `false` (and the task
    /// unchanged) when its segments overlap or frames run out.
    pub fn exec(&mut self, elf_data: &[u8], mem: &mut FrameArena, env: KernelEnv) -> (r: bool)
        requires
            old(self).wf(old(mem)),
            image_ok(elf_data@),
        ensures
            final(mem).wf(),
            final(mem).extends(old(mem)),
            final(self).wf(final(mem)),
            loadable(elf_data@, old(mem).len()) ==> r,
            !r ==> final(self).state() == old(self).state(),
            final(self).spec_pid() == old(self).spec_pid(),
            final(self).spec_kernel_stack() == old(self).spec_kernel_stack(),
            final(self).state().fd_table@ == old(self).state().fd_table@,
            final(self).state().children@ == old(self).state().children@,
            final(self).state().parent == old(self).state().parent,
            final(self).state().task_status == old(self).state().task_status,
            final(self).state().runtime_in_user == old(self).state().runtime_in_user,
            final(self).state().runtime_in_kernel == old(self).state().runtime_in_kernel,
            final(self).state().exit_code == old(self).state().exit_code,
            final(self).state().task_cx == old(self).state().task_cx,
            r ==> starts_image(final(self).state().trap_cx, elf_data@, old(self).spec_pid().0, env),
            r ==> final(self).state().base_size == user_stack_top(elf_data@),
            r ==> loaded_from(&final(self).state().memory_set, elf_data@, old(mem), final(mem)),
            r ==> forall|i: int|
                0 <= i < old(self).state().memory_set.owned().len() ==> !final(mem).used(
                    #[trigger] old(self).state().memory_set.owned()[i].0 as int,
                ),
    {
        let (memory_set, user_sp, entry_point) = match MemorySet::from_elf(elf_data, mem) {
            None => return false,
            Some(x) => x,
        };
        let trap_cx_ppn = match memory_set.translate(VirtPageNum(TRAP_CONTEXT_VPN)) {
            None => return false,
            Some(pte) => pte.ppn(),
        };
        let kernel_stack_top = self.kernel_stack.get_top();
        let ghost m_loaded = *mem;
        self.inner.memory_set.recycle_data_pages(mem);
        proof {
            crate::memory_set::lemma_loaded_same_pages(&memory_set, elf_data@, old(mem), &m_loaded, mem);
        }
        let inner = self.inner_exclusive_access();
        inner.memory_set = memory_set;
        inner.trap_cx_ppn = trap_cx_ppn;
        inner.base_size = user_sp;
        inner.trap_cx = TrapContext::app_init_context(
            entry_point,
            user_sp,
            env.kernel_token,
            kernel_stack_top,
            env.trap_handler,
        );
        true
    }

    /// A child that copies this process: a copy of its address space,
    /// descriptors that name the same files, the same base size and the
    /// same trap context, except that traps enter on the child's own kernel
    /// stack. The child is ready and is recorded among this process's
    /// children. `None` (and this process unchanged) when frames run out.
    pub fn fork(&mut self, child_pid: PidHandle, mem: &mut FrameArena, env: KernelEnv) -> (r: Option<TaskControlBlock>)
        requires
            old(self).wf(old(mem)),
            child_pid.0 <= MAX_PID,
        ensures
            final(mem).wf(),
            final(mem).extends(old(mem)),
            final(self).wf(final(mem)),
            final(self).spec_pid() == old(self).spec_pid(),
            final(self).spec_kernel_stack() == old(self).spec_kernel_stack(),
            final(self).state().memory_set == old(self).state().memory_set,
            final(self).state().fd_table@ == old(self).state().fd_table@,
            final(self).state().task_status == old(self).state().task_status,
            final(self).state().trap_cx == old(self).state().trap_cx,
            final(self).state().runtime_in_user == old(self).state().runtime_in_user,
            final(self).state().runtime_in_kernel == old(self).state().runtime_in_kernel,
            final(self).state().base_size == old(self).state().base_size,
            final(self).state().exit_code == old(self).state().exit_code,
            final(self).state().parent == old(self).state().parent,
            final(self).state().trap_cx_ppn == old(self).state().trap_cx_ppn,
            final(self).state().task_cx == old(self).state().task_cx,
            old(mem).len() + 1 + old(self).state().memory_set.page_count() <= PPN_SPAN ==> r.is_some(),
            r.is_none() ==> final(self).state() == old(self).state(),
            r.is_some() ==> {
                let c = r.unwrap();
                let p = old(self).state();
                &&& final(self).state().children@ == p.children@.push(child_pid.0)
                &&& c.wf(final(mem))
                &&& c.spec_pid() == child_pid
                &&& forked_from(&c.state().memory_set, &p.memory_set, old(mem), final(mem))
                &&& c.state().fd_table@ == p.fd_table@
                &&& c.state().base_size == p.base_size
                &&& c.state().task_status == TaskStatus::Ready
                &&& c.state().parent == Some(old(self).spec_pid().0)
                &&& c.state().children@.len() == 0
                &&& c.state().exit_code == 0
                &&& c.state().runtime_in_user == 0
                &&& c.state().runtime_in_kernel == 0
                &&& c.state().trap_cx.x == p.trap_cx.x
                &&& c.state().trap_cx.sepc == p.trap_cx.sepc
                &&& c.state().trap_cx.sstatus == p.trap_cx.sstatus
                &&& c.state().trap_cx.kernel_satp == p.trap_cx.kernel_satp
                &&& c.state().trap_cx.trap_handler == p.trap_cx.trap_handler
                &&& c.state().trap_cx.kernel_sp == kernel_stack_top(child_pid.0)
                &&& returns_to_user(c.state().task_cx, child_pid.0, env)
            },
    {
        let memory_set = match MemorySet::from_existed_user(&self.inner.memory_set, mem) {
            None => return None,
            Some(m) => m,
        };
        let trap_cx_ppn = match memory_set.translate(VirtPageNum(TRAP_CONTEXT_VPN)) {
            None => return None,
            Some(pte) => pte.ppn(),
        };
        let kernel_stack = KernelStack::new(&child_pid);
        let kernel_stack_top = kernel_stack.get_top();
        let mut new_fd_table: Vec<Option<File>> = Vec::new();
        let mut i: usize = 0;
        while i < self.inner.fd_table.len()
            invariant
                i <= self.inner.fd_table@.len(),
                new_fd_table@ == self.inner.fd_table@.subrange(0, i as int),
            decreases self.inner.fd_table@.len() - i,
        {
            new_fd_table.push(self.inner.fd_table[i]);
            i = i + 1;
            proof {
                assert(new_fd_table@ =~= self.inner.fd_table@.subrange(0, i as int));
            }
        }
        proof {
            assert(new_fd_table@ =~= self.inner.fd_table@);
        }
        let mut trap_cx = self.inner.trap_cx;
        trap_cx.kernel_sp = kernel_stack_top;
        let child = TaskControlBlock {
            pid: child_pid,
            kernel_stack,
            inner: TaskControlBlockInner {
                trap_cx_ppn,
                base_size: self.inner.base_size,
                task_cx: TaskContext::goto_trap_return(env.trap_return, kernel_stack_top),
                task_status: TaskStatus::Ready,
                memory_set,
                parent: Some(self.pid.0),
                children: Vec::new(),
                exit_code: 0,
                runtime_in_user: 0,
                runtime_in_kernel: 0,
                fd_table: new_fd_table,
                trap_cx,
            },
        };
        self.inner.children.push(child_pid.0);
        Some(child)
    }

    /// A child that runs the program in `elf_data` from a fresh address
    /// space, with no descriptors; this process only gains it as a child,
    /// its own space, descriptors and status stay as they are. The image
    /// must be sound. `None` (and this process unchanged) when its segments
    /// overlap or frames run out.
    pub fn spawn(&mut self, elf_data: &[u8], child_pid: PidHandle, mem: &mut FrameArena, env: KernelEnv) -> (r: Option<TaskControlBlock>)
        requires
            old(self).wf(old(mem)),
            child_pid.0 <= MAX_PID,
            image_ok(elf_data@),
        ensures
            final(mem).wf(),
            final(mem).extends(old(mem)),
            final(self).wf(final(mem)),
            final(self).spec_pid() == old(self).spec_pid(),
            final(self).spec_kernel_stack() == old(self).spec_kernel_stack(),
            final(self).state().memory_set == old(self).state().memory_set,
            final(self).state().fd_table@ == old(self).state().fd_table@,
            final(self).state().task_status == old(self).state().task_status,
            final(self).state().trap_cx == old(self).state().trap_cx,
            final(self).state().runtime_in_user == old(self).state().runtime_in_user,
            final(self).state().runtime_in_kernel == old(self).state().runtime_in_kernel,
            final(self).state().base_size == old(self).state().base_size,
            final(self).state().exit_code == old(self).state().exit_code,
            final(self).state().parent == old(self).state().parent,
            final(self).state().trap_cx_ppn == old(self).state().trap_cx_ppn,
            final(self).state().task_cx == old(self).state().task_cx,
            loadable(elf_data@, old(mem).len()) ==> r.is_some(),
            r.is_none() ==> final(self).state() == old(self).state(),
            r.is_some() ==> {
                let c = r.unwrap();
                &&& final(self).state().children@ == old(self).state().children@.push(child_pid.0)
                &&& c.wf(final(mem))
                &&& loaded_from(&c.state().memory_set, elf_data@, old(mem), final(mem))
                &&& returns_to_user(c.state().task_cx, child_pid.0, env)
                &&& c.spec_pid() == child_pid
                &&& c.state().fd_table@.len() == 0
                &&& c.state().base_size == user_stack_top(elf_data@)
                &&& c.state().task_status == TaskStatus::Ready
                &&& c.state().parent == Some(old(self).spec_pid().0)
                &&& c.state().children@.len() == 0
                &&& c.state().exit_code == 0
                &&& c.state().runtime_in_user == 0
                &&& c.state().runtime_in_kernel == 0
                &&& starts_image(c.state().trap_cx, elf_data@, child_pid.0, env)
            },
    {
        let (memory_set, user_sp, entry_point) = match MemorySet::from_elf(elf_data, mem) {
            None => return None,
            Some(x) => x,
        };
        let trap_cx_ppn = match memory_set.translate(VirtPageNum(TRAP_CONTEXT_VPN)) {
            None => return None,
            Some(pte) => pte.ppn(),
        };
        let kernel_stack = KernelStack::new(&child_pid);
        let kernel_stack_top = kernel_stack.get_top();
        let trap_cx = TrapContext::app_init_context(
            entry_point,
            user_sp,
            env.kernel_token,
            kernel_stack_top,
            env.trap_handler,
        );
        let child = TaskControlBlock {
            pid: child_pid,
            kernel_stack,
            inner: TaskControlBlockInner {
                trap_cx_ppn,
                base_size: user_sp,
                task_status: TaskStatus::Ready,
                memory_set,
                parent: Some(self.pid.0),
                children: Vec::new(),
                exit_code: 0,
                runtime_in_kernel: 0,
                runtime_in_user: 0,
                fd_table: Vec::new(),
                task_cx: TaskContext::goto_trap_return(env.trap_return, kernel_stack_top),
                trap_cx,
            },
        };
        self.inner.children.push(child_pid.0);
        Some(child)
    }

    /// The time counters of this process, for the report made when it exits.
    pub fn show_timer_before_exit(&self) -> (r: TimerReport)
        ensures
            r.pid == self.spec_pid().0,
            r.user_ms == self.state().runtime_in_user,
            r.kernel_ms == self.state().runtime_in_kernel,
    {
        let utimer = self.inner.runtime_in_user;
        let ktimer = self.inner.runtime_in_kernel;
        TimerReport { pid: self.pid.0, user_ms: utimer, kernel_ms: ktimer }
    }

    /// The process identifier.
    pub fn getpid(&self) -> (r: usize)
        ensures
            r == self.spec_pid().0,
    {
        self.pid.0
    }
}

/// Time counters of a task, as reported when it exits.
#[derive(Copy, Clone, Debug, PartialEq, Eq, Structural)]
pub struct TimerReport {
    pub pid: usize,
    pub user_ms: usize,
    pub kernel_ms: usize,
}

} // verus!
