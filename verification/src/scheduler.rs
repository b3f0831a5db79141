//! Admission control over the file worklist. The scheduler decides; the
//! caller starts the workers it admits and reports the ones that end.
//!
//! Each file has a slot that goes from idle to running to completed. A
//! file is admitted only while fewer than the cap are running.

use vstd::prelude::*;

verus! {

/// Where one file's task stands.
#[derive(Clone, Copy, Debug, PartialEq, Eq, Structural)]
pub enum TaskState {
    Idle,
    Running,
    Completed,
}

/// What the caller is to do next.
#[derive(Clone, Copy, Debug, PartialEq, Eq, Structural)]
pub enum Action {
    /// Start the worker for the file with this index.
    Start(usize),
    /// Every slot is taken, or every file is admitted and some still run:
    /// wait for a worker to end.
    Wait,
    /// Every file has been admitted and has completed.
    Finished,
}

/// The number of running tasks among `slots`.
pub open spec fn running_in(slots: Seq<TaskState>) -> nat
    decreases slots.len(),
{
    if slots.len() == 0 {
        0
    } else {
        running_in(slots.drop_last()) + if slots.last() == TaskState::Running {
            1nat
        } else {
            0nat
        }
    }
}

/// One if `state` is running, else zero.
pub open spec fn weight(state: TaskState) -> nat {
    if state == TaskState::Running {
        1
    } else {
        0
    }
}

/// Changing one slot changes the count of running tasks by that slot alone.
pub proof fn lemma_running_update(slots: Seq<TaskState>, i: int, state: TaskState)
    requires
        0 <= i < slots.len(),
    ensures
        running_in(slots.update(i, state)) + weight(slots[i]) == running_in(slots) + weight(state),
    decreases slots.len(),
{
    let changed = slots.update(i, state);
    if i == slots.len() - 1 {
        assert(changed.drop_last() =~= slots.drop_last());
    } else {
        assert(changed.drop_last() =~= slots.drop_last().update(i, state));
        lemma_running_update(slots.drop_last(), i, state);
    }
}

/// No more tasks run than there are slots; none runs exactly when no slot
/// is in the running state.
pub proof fn lemma_running_bounds(slots: Seq<TaskState>)
    ensures
        running_in(slots) <= slots.len(),
        running_in(slots) == 0 <==> forall|i: int|
            0 <= i < slots.len() ==> slots[i] != TaskState::Running,
    decreases slots.len(),
{
    if slots.len() > 0 {
        let front = slots.drop_last();
        lemma_running_bounds(front);
        if running_in(slots) == 0 {
            assert forall|i: int| 0 <= i < slots.len() implies slots[i]
                != TaskState::Running by {
                if i < front.len() {
                    assert(front[i] == slots[i]);
                }
            }
        } else if slots.last() != TaskState::Running {
            let i = choose|i: int| 0 <= i < front.len() && front[i] == TaskState::Running;
            assert(slots[i] == TaskState::Running);
        }
    }
}

/// The scheduler's state: the cap, one slot per file, how many files have
/// been admitted, and how many tasks run.
pub struct Scheduler {
    cap: usize,
    slots: Vec<TaskState>,
    next: usize,
    running: usize,
}

impl Scheduler {
    /// The most tasks that may run at once.
    pub closed spec fn cap(&self) -> nat {
        self.cap as nat
    }

    /// The state of each file's task, by the file's index.
    pub closed spec fn slots(&self) -> Seq<TaskState> {
        self.slots@
    }

    /// The number of files admitted so far. Files are admitted in order,
    /// so this is also the index of the next one.
    pub closed spec fn admitted(&self) -> nat {
        self.next as nat
    }

    /// The number of tasks that run.
    pub open spec fn running(&self) -> nat {
        running_in(self.slots())
    }

    /// The invariant: at most `cap` tasks run; exactly the admitted files
    /// have left the idle state; the counter agrees with the slots.
    pub closed spec fn wf(&self) -> bool {
        &&& self.next <= self.slots.len()
        &&& self.running == running_in(self.slots@)
        &&& self.running <= self.cap
        &&& forall|i: int| self.next <= i < self.slots.len() ==> self.slots@[i] == TaskState::Idle
        &&& forall|i: int| 0 <= i < self.next ==> self.slots@[i] != TaskState::Idle
    }

    /// The decision for the current state.
    pub open spec fn decision(&self) -> Action {
        if self.admitted() < self.slots().len() && self.running() < self.cap() {
            Action::Start(self.admitted() as usize)
        } else if self.admitted() == self.slots().len() && self.running() == 0 {
            Action::Finished
        } else {
            Action::Wait
        }
    }

    /// In every state that the scheduler can reach, the running tasks are
    /// at most the cap, and exactly the files below the admission mark
    /// have left the idle state.
    pub proof fn lemma_cap_respected(&self)
        requires
            self.wf(),
        ensures
            self.running() <= self.cap(),
            self.admitted() <= self.slots().len(),
            forall|i: int|
                0 <= i < self.slots().len() ==> (self.slots()[i] == TaskState::Idle <==> i
                    >= self.admitted()),
    {
    }

    /// With a cap of at least one, the scheduler waits only while some
    /// task runs: a worker's end is then sure to come and free a slot.
    pub proof fn lemma_wait_means_running(&self)
        requires
            self.wf(),
            self.cap() > 0,
            self.decision() == Action::Wait,
        ensures
            self.running() > 0,
    {
    }

    /// A scheduler for `total` files, none admitted yet.
    pub fn new(cap: usize, total: usize) -> (s: Scheduler)
        ensures
            s.wf(),
            s.cap() == cap,
            s.admitted() == 0,
            s.running() == 0,
            s.slots() == Seq::new(total as nat, |i: int| TaskState::Idle),
    {
        let mut slots: Vec<TaskState> = Vec::new();
        let mut i: usize = 0;
        while i < total
            invariant
                i <= total,
                slots@ == Seq::new(i as nat, |k: int| TaskState::Idle),
            decreases total - i,
        {
            slots.push(TaskState::Idle);
            i += 1;
            assert(slots@ =~= Seq::new(i as nat, |k: int| TaskState::Idle));
        }
        proof {
            lemma_running_bounds(slots@);
        }
        Scheduler { cap, slots, next: 0, running: 0 }
    }

    /// The number of tasks that run.
    pub fn running_count(&self) -> (n: usize)
        requires
            self.wf(),
        ensures
            n == self.running(),
            n <= self.cap(),
    {
        self.running
    }

    /// The number of files.
    pub fn total(&self) -> (n: usize)
        ensures
            n == self.slots().len(),
    {
        self.slots.len()
    }

    /// The state of the task for file `task`.
    pub fn state(&self, task: usize) -> (s: TaskState)
        requires
            task < self.slots().len(),
        ensures
            s == self.slots()[task as int],
    {
        self.slots[task]
    }

    /// What to do next: start the next file while one is left and a slot
    /// is free; finish when all are admitted and none runs; else wait.
    pub fn next_action(&self) -> (a: Action)
        requires
            self.wf(),
        ensures
            a == self.decision(),
    {
        if self.next < self.slots.len() && self.running < self.cap {
            Action::Start(self.next)
        } else if self.next == self.slots.len() && self.running == 0 {
            Action::Finished
        } else {
            Action::Wait
        }
    }

    /// Admits the next file if one is left and fewer than `cap` tasks run:
    /// its slot becomes running and its index is returned. Otherwise
    /// nothing changes.
    pub fn start_next(&mut self) -> (r: Option<usize>)
        requires
            old(self).wf(),
        ensures
            final(self).wf(),
            final(self).cap() == old(self).cap(),
            r.is_some() == (old(self).admitted() < old(self).slots().len() && old(self).running()
                < old(self).cap()),
            match r {
                Some(task) => {
                    &&& task == old(self).admitted()
                    &&& old(self).slots()[task as int] == TaskState::Idle
                    &&& final(self).slots() == old(self).slots().update(
                        task as int,
                        TaskState::Running,
                    )
                    &&& final(self).admitted() == old(self).admitted() + 1
                    &&& final(self).running() == old(self).running() + 1
                },
                None => {
                    &&& final(self).slots() == old(self).slots()
                    &&& final(self).admitted() == old(self).admitted()
                },
            },
    {
        if self.next < self.slots.len() && self.running < self.cap {
            let task = self.next;
            proof {
                lemma_running_update(self.slots@, task as int, TaskState::Running);
            }
            self.slots[task] = TaskState::Running;
            self.next = task + 1;
            self.running = self.running + 1;
            Some(task)
        } else {
            None
        }
    }

    /// Records that the worker for file `task` has ended. Only a running
    /// task can complete, and so only once: for any other index nothing
    /// changes and the result is `false`.
    pub fn complete(&mut self, task: usize) -> (done: bool)
        requires
            old(self).wf(),
        ensures
            final(self).wf(),
            final(self).cap() == old(self).cap(),
            final(self).admitted() == old(self).admitted(),
            done == (task < old(self).slots().len() && old(self).slots()[task as int]
                == TaskState::Running),
            done ==> final(self).slots() == old(self).slots().update(
                task as int,
                TaskState::Completed,
            ) && final(self).running() + 1 == old(self).running(),
            !done ==> final(self).slots() == old(self).slots(),
    {
        if task < self.slots.len() {
            match self.slots[task] {
                TaskState::Running => {
                    proof {
                        lemma_running_update(self.slots@, task as int, TaskState::Completed);
                    }
                    self.slots[task] = TaskState::Completed;
                    self.running = self.running - 1;
                    true
                },
                _ => false,
            }
        } else {
            false
        }
    }

    /// Tells whether the run is over: every file admitted, every task
    /// completed.
    pub fn is_done(&self) -> (b: bool)
        requires
            self.wf(),
        ensures
            b == (forall|i: int|
                0 <= i < self.slots().len() ==> self.slots()[i] == TaskState::Completed),
            b == (self.decision() == Action::Finished),
    {
        proof {
            lemma_running_bounds(self.slots@);
            if self.next < self.slots.len() {
                assert(self.slots@[self.next as int] == TaskState::Idle);
            }
        }
        self.next == self.slots.len() && self.running == 0
    }
}

} // verus!
