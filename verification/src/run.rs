//! One run over a worklist: the scheduler's decisions together with the
//! run-wide collection and the progress counter, so that a completed
//! worker's values are merged, and its file's bytes credited, once.

use crate::progress::advanced;
use crate::progress::total_of;
use crate::progress::ProgressTracker;
use crate::results::ResultAggregator;
use crate::results::ResultSet;
use crate::scheduler::running_in;
use crate::scheduler::Action;
use crate::scheduler::Scheduler;
use crate::scheduler::TaskState;
use crate::worker::InputFile;
use vstd::prelude::*;

verus! {

/// What a task in `state` adds to the bytes completed: the file's size
/// once it has completed, nothing before.
pub open spec fn credit(state: TaskState, size: u64) -> nat {
    if state == TaskState::Completed {
        size as nat
    } else {
        0
    }
}

/// The sum of the sizes of the files whose task has completed.
pub open spec fn completed_bytes(sizes: Seq<u64>, slots: Seq<TaskState>) -> nat
    decreases slots.len(),
{
    if slots.len() == 0 || sizes.len() != slots.len() {
        0
    } else {
        completed_bytes(sizes.drop_last(), slots.drop_last()) + credit(slots.last(), sizes.last())
    }
}

/// `n`, held at the largest `u64`.
pub open spec fn capped(n: nat) -> u64 {
    if n > u64::MAX {
        u64::MAX
    } else {
        n as u64
    }
}

/// The values of the files whose task has completed: the union of the
/// sets that their workers handed in.
pub open spec fn completed_values(
    slots: Seq<TaskState>,
    outputs: Map<int, Set<Seq<char>>>,
) -> Set<Seq<char>> {
    Set::new(
        |v: Seq<char>|
            exists|i: int|
                0 <= i < slots.len() && slots[i] == TaskState::Completed && outputs.dom().contains(
                    i,
                ) && #[trigger] outputs[i].contains(v),
    )
}

/// Changing one slot changes the bytes completed by that file alone.
pub proof fn lemma_completed_bytes_update(
    sizes: Seq<u64>,
    slots: Seq<TaskState>,
    i: int,
    state: TaskState,
)
    requires
        sizes.len() == slots.len(),
        0 <= i < slots.len(),
    ensures
        completed_bytes(sizes, slots.update(i, state)) + credit(slots[i], sizes[i])
            == completed_bytes(sizes, slots) + credit(state, sizes[i]),
    decreases slots.len(),
{
    let changed = slots.update(i, state);
    if i == slots.len() - 1 {
        assert(changed.drop_last() =~= slots.drop_last());
    } else {
        assert(changed.drop_last() =~= slots.drop_last().update(i, state));
        lemma_completed_bytes_update(sizes.drop_last(), slots.drop_last(), i, state);
    }
}

/// The state of one run.
pub struct Run {
    scheduler: Scheduler,
    sizes: Vec<u64>,
    aggregator: ResultAggregator,
    progress: ProgressTracker,
    outputs: Ghost<Map<int, Set<Seq<char>>>>,
}

impl Run {
    /// The state of each file's task.
    pub closed spec fn slots(&self) -> Seq<TaskState> {
        self.scheduler.slots()
    }

    /// The cap on running tasks.
    pub closed spec fn cap(&self) -> nat {
        self.scheduler.cap()
    }

    /// The size of each file.
    pub closed spec fn sizes(&self) -> Seq<u64> {
        self.sizes@
    }

    /// The set that each completed worker handed in, by its file's index.
    pub closed spec fn outputs(&self) -> Map<int, Set<Seq<char>>> {
        self.outputs@
    }

    /// The values collected so far.
    pub closed spec fn global(&self) -> Set<Seq<char>> {
        self.aggregator@
    }

    /// The bytes credited so far.
    pub closed spec fn credited(&self) -> u64 {
        self.progress.reading()
    }

    /// The number of files admitted so far, which is the index of the
    /// next one.
    pub closed spec fn admitted(&self) -> nat {
        self.scheduler.admitted()
    }

    /// The number of tasks that run.
    pub open spec fn running(&self) -> nat {
        running_in(self.slots())
    }

    /// The decision for the current state: start the next file while one
    /// is left and a slot is free; finish when all are admitted and none
    /// runs; else wait.
    pub open spec fn decision(&self) -> Action {
        if self.admitted() < self.slots().len() && self.running() < self.cap() {
            Action::Start(self.admitted() as usize)
        } else if self.admitted() == self.slots().len() && self.running() == 0 {
            Action::Finished
        } else {
            Action::Wait
        }
    }

    /// The invariant of a run.
    pub closed spec fn wf(&self) -> bool {
        &&& self.scheduler.wf()
        &&& self.sizes@.len() == self.scheduler.slots().len()
        &&& self.aggregator@ == completed_values(self.scheduler.slots(), self.outputs@)
        &&& self.progress.reading() == capped(
            completed_bytes(self.sizes@, self.scheduler.slots()),
        )
    }

    /// In every state of a run: at most `cap` tasks run; the collection is
    /// the union of the sets handed in by the completed workers, whatever
    /// the order of their completion; and the bytes credited are the sum
    /// of the sizes of the completed files, held at the largest `u64`.
    pub proof fn lemma_invariant(&self)
        requires
            self.wf(),
        ensures
            self.running() <= self.cap(),
            self.admitted() <= self.slots().len(),
            forall|i: int|
                0 <= i < self.slots().len() ==> (self.slots()[i] == TaskState::Idle <==> i
                    >= self.admitted()),
            self.sizes().len() == self.slots().len(),
            self.global() == completed_values(self.slots(), self.outputs()),
            self.credited() == capped(completed_bytes(self.sizes(), self.slots())),
    {
        self.scheduler.lemma_cap_respected();
    }

    /// Once every task has completed, the collection is the union of the
    /// sets of all files, and the bytes credited are the sum of all sizes,
    /// held at the largest `u64`.
    pub proof fn lemma_finished(&self)
        requires
            self.wf(),
            forall|i: int| 0 <= i < self.slots().len() ==> self.slots()[i] == TaskState::Completed,
        ensures
            self.credited() == capped(total_of(self.sizes())),
            self.global() == Set::new(
                |v: Seq<char>|
                    exists|i: int|
                        0 <= i < self.slots().len() && self.outputs().dom().contains(i)
                            && #[trigger] self.outputs()[i].contains(v),
            ),
    {
        lemma_all_completed(self.sizes(), self.slots());
        let all = Set::new(
            |v: Seq<char>|
                exists|i: int|
                    0 <= i < self.slots().len() && self.outputs().dom().contains(i)
                        && #[trigger] self.outputs()[i].contains(v),
        );
        assert(completed_values(self.slots(), self.outputs()) =~= all);
    }

    /// A run over `files` with at most `cap` workers at once.
    pub fn new(cap: usize, files: &Vec<InputFile>) -> (run: Run)
        ensures
            run.wf(),
            run.cap() == cap,
            run.admitted() == 0,
            run.running() == 0,
            run.slots() == Seq::new(files@.len(), |i: int| TaskState::Idle),
            run.sizes() == crate::worklist::sizes_of(files@),
            run.global() == Set::<Seq<char>>::empty(),
            run.outputs() == Map::<int, Set<Seq<char>>>::empty(),
            run.credited() == 0,
    {
        let mut sizes: Vec<u64> = Vec::new();
        let mut i: usize = 0;
        while i < files.len()
            invariant
                i <= files.len(),
                sizes@ == Seq::new(i as nat, |k: int| files@[k].size),
            decreases files.len() - i,
        {
            sizes.push(files[i].size);
            i += 1;
            assert(sizes@ =~= Seq::new(i as nat, |k: int| files@[k].size));
        }
        let scheduler = Scheduler::new(cap, files.len());
        let run = Run {
            scheduler,
            sizes,
            aggregator: ResultAggregator::new(),
            progress: ProgressTracker::new(),
            outputs: Ghost(Map::empty()),
        };
        proof {
            lemma_idle_run(run.sizes@, run.scheduler.slots());
            assert(completed_values(run.scheduler.slots(), run.outputs@)
                =~= Set::<Seq<char>>::empty());
        }
        run
    }

    /// What to do next.
    pub fn next_action(&self) -> (a: Action)
        requires
            self.wf(),
        ensures
            a == self.decision(),
    {
        self.scheduler.next_action()
    }

    /// Admits the next file if one is left and a slot is free, and gives
    /// its index. The collection and the progress do not change.
    pub fn start_next(&mut self) -> (r: Option<usize>)
        requires
            old(self).wf(),
        ensures
            final(self).wf(),
            final(self).cap() == old(self).cap(),
            final(self).sizes() == old(self).sizes(),
            final(self).global() == old(self).global(),
            final(self).credited() == old(self).credited(),
            final(self).outputs() == old(self).outputs(),
            r.is_some() == (old(self).decision() is Start),
            match r {
                Some(task) => {
                    &&& old(self).decision() == Action::Start(task)
                    &&& task == old(self).admitted()
                    &&& final(self).admitted() == old(self).admitted() + 1
                    &&& final(self).running() == old(self).running() + 1
                    &&& task < old(self).slots().len()
                    &&& old(self).slots()[task as int] == TaskState::Idle
                    &&& final(self).slots() == old(self).slots().update(
                        task as int,
                        TaskState::Running,
                    )
                },
                None => {
                    &&& final(self).slots() == old(self).slots()
                    &&& final(self).admitted() == old(self).admitted()
                },
            },
    {
        let r = self.scheduler.start_next();
        proof {
            if let Some(task) = r {
                lemma_completed_bytes_update(
                    self.sizes@,
                    old(self).scheduler.slots(),
                    task as int,
                    TaskState::Running,
                );
                assert(completed_values(self.scheduler.slots(), self.outputs@)
                    =~= completed_values(old(self).scheduler.slots(), self.outputs@));
            }
        }
        r
    }

    /// Takes in the result of the worker for file `task`. Where that task
    /// runs, it becomes completed, its values join the collection and its
    /// file's size is credited. For any other index, a task that has
    /// completed before among them, nothing changes and the values are
    /// dropped: no worker is counted twice.
    pub fn complete(&mut self, task: usize, values: ResultSet) -> (done: bool)
        requires
            old(self).wf(),
        ensures
            final(self).wf(),
            final(self).cap() == old(self).cap(),
            final(self).sizes() == old(self).sizes(),
            final(self).admitted() == old(self).admitted(),
            done == (task < old(self).slots().len() && old(self).slots()[task as int]
                == TaskState::Running),
            done ==> {
                &&& final(self).slots() == old(self).slots().update(
                    task as int,
                    TaskState::Completed,
                )
                &&& final(self).running() + 1 == old(self).running()
                &&& final(self).global() == old(self).global().union(values@)
                &&& final(self).credited() == advanced(
                    old(self).credited(),
                    old(self).sizes()[task as int],
                )
                &&& final(self).outputs() == old(self).outputs().insert(task as int, values@)
            },
            !done ==> {
                &&& final(self).slots() == old(self).slots()
                &&& final(self).global() == old(self).global()
                &&& final(self).credited() == old(self).credited()
                &&& final(self).outputs() == old(self).outputs()
            },
            final(self).credited() >= old(self).credited(),
            old(self).global().subset_of(final(self).global()),
            values@ == Set::<Seq<char>>::empty() ==> final(self).global() == old(self).global(),
    {
        let done = self.scheduler.complete(task);
        if done {
            let ghost found = values@;
            self.aggregator.merge(values);
            self.progress.advance(self.sizes[task]);
            proof {
                let before = old(self).scheduler.slots();
                let after = self.scheduler.slots();
                let old_out = old(self).outputs@;
                let new_out = old_out.insert(task as int, found);
                self.outputs@ = new_out;
                lemma_completed_bytes_update(
                    self.sizes@,
                    before,
                    task as int,
                    TaskState::Completed,
                );
                let lhs = completed_values(after, new_out);
                let rhs = completed_values(before, old_out).union(found);
                assert forall|v: Seq<char>| lhs.contains(v) implies rhs.contains(v) by {
                    let i = choose|i: int|
                        0 <= i < after.len() && after[i] == TaskState::Completed
                            && new_out.dom().contains(i) && #[trigger] new_out[i].contains(v);
                    if i != task {
                        assert(before[i] == TaskState::Completed);
                        assert(old_out[i].contains(v));
                    }
                }
                assert forall|v: Seq<char>| rhs.contains(v) implies lhs.contains(v) by {
                    if completed_values(before, old_out).contains(v) {
                        let i = choose|i: int|
                            0 <= i < before.len() && before[i] == TaskState::Completed
                                && old_out.dom().contains(i) && #[trigger] old_out[i].contains(v);
                        assert(after[i] == TaskState::Completed);
                        assert(new_out[i].contains(v));
                    } else {
                        assert(after[task as int] == TaskState::Completed);
                        assert(new_out[task as int].contains(v));
                    }
                }
                assert(lhs =~= rhs);
            }
        }
        done
    }

    /// Tells whether the run is over: every file admitted, every task
    /// completed.
    pub fn is_done(&self) -> (b: bool)
        requires
            self.wf(),
        ensures
            b == (forall|i: int|
                0 <= i < self.slots().len() ==> self.slots()[i] == TaskState::Completed),
            b == (self.decision() == Action::Finished),
    {
        self.scheduler.is_done()
    }

    /// The number of tasks that run.
    pub fn running_count(&self) -> (n: usize)
        requires
            self.wf(),
        ensures
            n == self.running(),
            n <= self.cap(),
    {
        self.scheduler.running_count()
    }

    /// The bytes credited so far, for whoever shows the progress.
    pub fn progress(&self) -> (v: u64)
        ensures
            v == self.credited(),
    {
        self.progress.value()
    }

    /// Ends the run: hands the collection over.
    pub fn into_result(self) -> (r: ResultSet)
        ensures
            r@ == self.global(),
    {
        self.aggregator.into_result()
    }
}

/// Once every task has completed, the bytes completed are all the bytes.
pub proof fn lemma_all_completed(sizes: Seq<u64>, slots: Seq<TaskState>)
    requires
        sizes.len() == slots.len(),
        forall|i: int| 0 <= i < slots.len() ==> slots[i] == TaskState::Completed,
    ensures
        completed_bytes(sizes, slots) == total_of(sizes),
    decreases slots.len(),
{
    if slots.len() > 0 {
        lemma_all_completed(sizes.drop_last(), slots.drop_last());
    }
}

/// While no task has completed, no bytes are completed.
pub proof fn lemma_idle_run(sizes: Seq<u64>, slots: Seq<TaskState>)
    requires
        sizes.len() == slots.len(),
        forall|i: int| 0 <= i < slots.len() ==> slots[i] != TaskState::Completed,
    ensures
        completed_bytes(sizes, slots) == 0,
    decreases slots.len(),
{
    if slots.len() > 0 {
        lemma_idle_run(sizes.drop_last(), slots.drop_last());
    }
}

} // verus!
