//! The process table: every live process at the slot of its identifier,
//! and the reaping of exited children by their parent.
use vstd::prelude::*;
use crate::frame::FrameArena;
use crate::task::{PidHandle, TaskControlBlock, TaskStatus, MAX_PID};

verus! {

/// What a parent learns when it waits for a child.
#[derive(Copy, Clone, Debug, PartialEq, Eq, Structural)]
pub enum WaitOutcome {
    /// No child matches the request.
    NoSuchChild,
    /// Matching children exist, but none has exited yet.
    StillRunning,
    /// Child `pid` had exited with `exit_code`; it is gone now.
    Reaped { pid: usize, exit_code: i32 },
}

/// Whether child `c` answers a wait for `pid` (-1 means any child).
pub open spec fn wanted(pid: isize, c: usize) -> bool {
    pid == -1 || (pid >= 0 && pid as int == c as int)
}

/// Live processes, each at the slot of its own identifier.
pub struct ProcessTable {
    tasks: Vec<Option<TaskControlBlock>>,
}

impl ProcessTable {
    /// The slots of the table.
    pub closed spec fn slots(&self) -> Seq<Option<TaskControlBlock>> {
        self.tasks@
    }

    /// Child `c` of `parent` has exited and waits to be reaped.
    pub open spec fn reapable(&self, parent: usize, c: usize) -> bool {
        &&& c != parent
        &&& c < self.slots().len()
        &&& self.slots()[c as int].is_some()
        &&& self.slots()[c as int].unwrap().state().task_status == TaskStatus::Zombie
    }

    /// Every process sits at the slot of its own identifier.
    pub open spec fn wf(&self) -> bool {
        &&& self.slots().len() <= MAX_PID + 1
        &&& forall|i: int|
            0 <= i < self.slots().len() && (#[trigger] self.slots()[i]).is_some() ==> self.slots()[
                i
            ].unwrap().spec_pid().0 == i
    }

    /// An empty table.
    pub fn new() -> (r: Self)
        ensures
            r.wf(),
            r.slots().len() == 0,
    {
        ProcessTable { tasks: Vec::new() }
    }

    /// The lowest free identifier, or `None` when all are taken.
    pub fn alloc_pid(&self) -> (r: Option<PidHandle>)
        ensures
            r.is_some() ==> {
                let p = r.unwrap().0;
                &&& p <= MAX_PID
                &&& p <= self.slots().len()
                &&& p < self.slots().len() ==> self.slots()[p as int].is_none()
                &&& forall|j: int| 0 <= j < p && j < self.slots().len() ==> (
                #[trigger] self.slots()[j]).is_some()
            },
            r.is_none() ==> forall|j: int| 0 <= j <= MAX_PID ==> j < self.slots().len() && (
            #[trigger] self.slots()[j]).is_some(),
    {
        let mut i: usize = 0;
        while i < self.tasks.len()
            invariant
                i <= self.tasks@.len(),
                forall|j: int| 0 <= j < i ==> (#[trigger] self.tasks@[j]).is_some(),
            decreases self.tasks@.len() - i,
        {
            if self.tasks[i].is_none() {
                if i <= MAX_PID {
                    return Some(PidHandle(i));
                } else {
                    return None;
                }
            }
            i = i + 1;
        }
        if i <= MAX_PID {
            Some(PidHandle(i))
        } else {
            None
        }
    }

    /// Puts `t` at the slot of its identifier, which must be free (or the
    /// next one past the end).
    pub fn insert(&mut self, t: TaskControlBlock)
        requires
            old(self).wf(),
            t.spec_pid().0 <= MAX_PID,
            t.spec_pid().0 <= old(self).slots().len(),
            t.spec_pid().0 < old(self).slots().len() ==> old(self).slots()[t.spec_pid().0 as int].is_none(),
        ensures
            final(self).wf(),
            t.spec_pid().0 < old(self).slots().len() ==> final(self).slots() == old(self).slots().update(
                t.spec_pid().0 as int,
                Some(t),
            ),
            t.spec_pid().0 == old(self).slots().len() ==> final(self).slots() == old(self).slots().push(
                Some(t),
            ),
    {
        let p = t.getpid();
        if p < self.tasks.len() {
            self.tasks.set(p, Some(t));
        } else {
            self.tasks.push(Some(t));
        }
        proof {
            assert forall|i: int|
                0 <= i < self.slots().len() && (#[trigger] self.slots()[i]).is_some() implies self.slots()[
                i
            ].unwrap().spec_pid().0 == i by {
                if i != p {
                    assert(self.slots()[i] == old(self).slots()[i]);
                }
            }
        }
    }

    /// Parent `parent` waits for child `pid` (-1: any child). The first
    /// exited child in the parent's list that answers is reaped: it leaves
    /// the parent's children and the table, and the frames of its address
    /// space are given back. Nothing changes when no child has exited.
    pub fn waitpid(&mut self, parent: usize, pid: isize, mem: &mut FrameArena) -> (r: WaitOutcome)
        requires
            old(self).wf(),
            old(mem).wf(),
            parent < old(self).slots().len(),
            old(self).slots()[parent as int].is_some(),
        ensures
            final(self).wf(),
            final(mem).wf(),
            final(mem).len() == old(mem).len(),
            forall|i: int| 0 <= i < old(mem).len() ==> #[trigger] final(mem).page(i) == old(mem).page(i),
            ({
                let kids = old(self).slots()[parent as int].unwrap().state().children@;
                &&& (r == WaitOutcome::NoSuchChild) <==> !exists|j: int|
                    0 <= j < kids.len() && wanted(pid, #[trigger] kids[j])
                &&& (r == WaitOutcome::NoSuchChild || r == WaitOutcome::StillRunning)
                    ==> final(self).slots() == old(self).slots() && *final(mem) == *old(mem)
                &&& r == WaitOutcome::StillRunning ==> forall|j: int|
                    0 <= j < kids.len() && wanted(pid, #[trigger] kids[j]) ==> !old(self).reapable(
                        parent,
                        kids[j],
                    )
                &&& match r {
                    WaitOutcome::Reaped { pid: c, exit_code } => {
                        let ch = old(self).slots()[c as int].unwrap();
                        let p0 = old(self).slots()[parent as int].unwrap();
                        let p1 = final(self).slots()[parent as int].unwrap();
                        &&& exists|j: int|
                            #![trigger kids[j]]
                            0 <= j < kids.len() && kids[j] == c && (forall|k: int|
                                0 <= k < j && wanted(pid, #[trigger] kids[k])
                                    ==> !old(self).reapable(parent, kids[k])) && p1.state().children@ == kids.remove(j)
                        &&& wanted(pid, c)
                        &&& old(self).reapable(parent, c)
                        &&& exit_code == ch.state().exit_code
                        &&& final(self).slots().len() == old(self).slots().len()
                        &&& final(self).slots()[c as int].is_none()
                        &&& final(self).slots()[parent as int].is_some()
                        &&& p1.spec_pid() == p0.spec_pid()
                        &&& p1.state().memory_set == p0.state().memory_set
                        &&& p1.state().task_status == p0.state().task_status
                        &&& p1.state().fd_table == p0.state().fd_table
                        &&& forall|i: int|
                            0 <= i < old(self).slots().len() && i != c && i != parent
                                ==> #[trigger] final(self).slots()[i] == old(self).slots()[i]
                        &&& forall|i: int|
                            0 <= i < ch.state().memory_set.owned().len()
                                && ch.state().memory_set.owned()[i].0 < old(mem).len()
                                ==> !final(mem).used(#[trigger] ch.state().memory_set.owned()[i].0 as int)
                    },
                    _ => true,
                }
            }),
    {
        let ghost kids = self.slots()[parent as int].unwrap().state().children@;
        let mut found = false;
        let mut done = false;
        let mut hit: usize = 0;
        match &self.tasks[parent] {
            None => {
                return WaitOutcome::NoSuchChild;
            },
            Some(pt) => {
                let children = &pt.inner_access().children;
                let mut j: usize = 0;
                while j < children.len() && !done
                    invariant
                        children@ == kids,
                        j <= kids.len(),
                        found == exists|k: int| 0 <= k < j && wanted(pid, #[trigger] kids[k]),
                        !done ==> forall|k: int|
                            0 <= k < j && wanted(pid, #[trigger] kids[k]) ==> !self.reapable(parent, kids[k]),
                        done ==> hit < j && hit < kids.len() && wanted(pid, kids[hit as int]) && self.reapable(
                            parent,
                            kids[hit as int],
                        ) && found && forall|k: int|
                            0 <= k < hit && wanted(pid, #[trigger] kids[k]) ==> !self.reapable(parent, kids[k]),
                    decreases kids.len() - j,
                {
                    let c = children[j];
                    if pid == -1 || (pid >= 0 && pid as usize == c) {
                        found = true;
                        if c != parent && c < self.tasks.len() {
                            match &self.tasks[c] {
                                None => {},
                                Some(ct) => {
                                    if ct.inner_access().is_zombie() {
                                        done = true;
                                        hit = j;
                                    }
                                },
                            }
                        }
                    }
                    j = j + 1;
                }
                if !done {
                    if found {
                        return WaitOutcome::StillRunning;
                    } else {
                        return WaitOutcome::NoSuchChild;
                    }
                }
            },
        }
        let ghost s0 = *self;
        let c = match &self.tasks[parent] {
            None => {
                return WaitOutcome::NoSuchChild;
            },
            Some(pt) => pt.inner_access().children[hit],
        };
        let mut pt = match self.tasks[parent].take() {
            None => {
                return WaitOutcome::NoSuchChild;
            },
            Some(t) => t,
        };
        let inner = pt.inner_exclusive_access();
        inner.children.remove(hit);
        self.tasks.set(parent, Some(pt));
        let ghost s1 = *self;
        let child = self.tasks[c].take();
        let exit_code = match child {
            None => 0,
            Some(ct) => {
                ct.inner_access().memory_set.recycle_data_pages(mem);
                ct.inner_access().exit_code
            },
        };
        proof {
            assert forall|i: int|
                0 <= i < self.slots().len() && (#[trigger] self.slots()[i]).is_some() implies self.slots()[
                i
            ].unwrap().spec_pid().0 == i by {
                assert(i != c);
                if i != parent {
                    assert(self.slots()[i] == s0.slots()[i]);
                }
            }
            assert(s0.slots()[c as int].is_some());
            assert(kids.remove(hit as int) =~= self.slots()[parent as int].unwrap().state().children@);
            assert forall|i: int|
                0 <= i < s0.slots().len() && i != c && i != parent implies #[trigger] self.slots()[i]
                == s0.slots()[i] by {
            }
        }
        WaitOutcome::Reaped { pid: c, exit_code }
    }

    /// Takes process `pid` out of the table.
    pub fn take(&mut self, pid: usize) -> (r: Option<TaskControlBlock>)
        requires
            old(self).wf(),
        ensures
            final(self).wf(),
            pid < old(self).slots().len() ==> r == old(self).slots()[pid as int] && final(self).slots()
                == old(self).slots().update(pid as int, None),
            pid >= old(self).slots().len() ==> r.is_none() && final(self).slots() == old(self).slots(),
            r.is_some() ==> r.unwrap().spec_pid().0 == pid,
    {
        if pid >= self.tasks.len() {
            return None;
        }
        let r = self.tasks[pid].take();
        proof {
            assert(self.slots() =~= old(self).slots().update(pid as int, None));
            assert forall|i: int|
                0 <= i < self.slots().len() && (#[trigger] self.slots()[i]).is_some() implies self.slots()[
                i
            ].unwrap().spec_pid().0 == i by {
                assert(self.slots()[i] == old(self).slots()[i]);
            }
            if r.is_some() {
                assert(old(self).slots()[pid as int].is_some());
            }
        }
        r
    }
}

} // verus!
