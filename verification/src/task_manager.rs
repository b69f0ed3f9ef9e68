//! The supervisor's rules: the life of a supervised task, and when the
//! whole process is to shut down.
//!
//! A task is started, runs, and ends in success or in failure. A task that
//! succeeded is done. A task that failed is started again as long as it has
//! restarts left; once it has none, it is exhausted, and the supervisor asks
//! for shutdown. Running the tasks is the caller's part: it reports how each
//! run ended, and does what the answer says.

use crate::text::{decimal, push_decimal};
use vstd::prelude::*;
use vstd::string::*;

verus! {

/// Where a task stands in its life.
#[derive(Debug, Clone, Copy, PartialEq, Eq)]
pub enum TaskPhase {
    /// Registered, never started.
    Idle,
    Running,
    /// Ended in success: done for good.
    Succeeded,
    /// Ended in failure; whether it runs again is not yet decided.
    Failed,
    /// Failed with no restart left: done for good.
    Exhausted,
}

/// What the caller is to do with a task.
#[derive(Debug, Clone, Copy, PartialEq, Eq)]
pub enum TaskAction {
    /// Run the task's entry procedure (again).
    Run,
    /// Nothing: the task is not to run.
    Rest,
    /// Nothing for the task; signal shutdown to the whole process.
    Shutdown,
}

/// One supervised task: its name, how often it may be restarted, how often
/// it was, and where it stands.
#[derive(Debug)]
pub struct BotTask {
    name: String,
    restarts: u8,
    max_restarts: u8,
    phase: TaskPhase,
}

/// A `BotTask` as plain values.
pub ghost struct TaskView {
    pub name: Seq<char>,
    pub restarts: nat,
    pub max_restarts: nat,
    pub phase: TaskPhase,
}

impl TaskView {
    /// A task is never restarted more often than it may be.
    pub open spec fn wf(self) -> bool {
        self.restarts <= self.max_restarts <= u8::MAX
    }

    /// The task after it was told to start: an idle task runs, any other
    /// stays as it is.
    pub open spec fn started(self) -> Self {
        if self.phase == TaskPhase::Idle {
            TaskView { phase: TaskPhase::Running, ..self }
        } else {
            self
        }
    }

    /// The task after a run of it ended: a running task has succeeded or
    /// failed, any other stays as it is.
    pub open spec fn finished(self, succeeded: bool) -> Self {
        if self.phase != TaskPhase::Running {
            self
        } else if succeeded {
            TaskView { phase: TaskPhase::Succeeded, ..self }
        } else {
            TaskView { phase: TaskPhase::Failed, ..self }
        }
    }

    /// The task after the supervisor has decided on its failure: with a
    /// restart left it counts the restart and runs again, without one it is
    /// exhausted. A task that has not failed stays as it is.
    pub open spec fn recovered(self) -> Self {
        if self.phase != TaskPhase::Failed {
            self
        } else if self.restarts < self.max_restarts {
            TaskView { phase: TaskPhase::Running, restarts: self.restarts + 1, ..self }
        } else {
            TaskView { phase: TaskPhase::Exhausted, ..self }
        }
    }

    /// What the caller is to do with a task in this phase, once the
    /// supervisor has decided.
    pub open spec fn action(self) -> TaskAction {
        match self.phase {
            TaskPhase::Running => TaskAction::Run,
            TaskPhase::Exhausted => TaskAction::Shutdown,
            _ => TaskAction::Rest,
        }
    }

    /// The task after a run of it ended and the supervisor has decided.
    pub open spec fn exited(self, succeeded: bool) -> Self {
        self.finished(succeeded).recovered()
    }

    /// What the caller is to do once a run has ended and the supervisor has
    /// decided: run the task again, shut down, or nothing.
    pub open spec fn exit_action(self, succeeded: bool) -> TaskAction {
        if self.finished(succeeded).phase == TaskPhase::Failed {
            self.exited(succeeded).action()
        } else {
            TaskAction::Rest
        }
    }

    /// The task after `n` runs in a row that failed.
    pub open spec fn after_failures(self, n: nat) -> Self
        decreases n,
    {
        if n == 0 {
            self
        } else {
            self.after_failures((n - 1) as nat).exited(false)
        }
    }
}

impl View for BotTask {
    type V = TaskView;

    closed spec fn view(&self) -> TaskView {
        TaskView {
            name: self.name@,
            restarts: self.restarts as nat,
            max_restarts: self.max_restarts as nat,
            phase: self.phase,
        }
    }
}

/// The line that describes a task.
pub open spec fn task_line(task: TaskView) -> Seq<char> {
    task.name + " task, max restarts "@ + decimal(task.max_restarts) + ", actual restarts "@
        + decimal(task.restarts)
}

impl BotTask {
    /// An idle task that may be restarted `max_restarts` times.
    pub fn new(name: String, max_restarts: u8) -> (task: Self)
        ensures
            task@.wf(),
            task@ == (TaskView {
                name: name@,
                restarts: 0,
                max_restarts: max_restarts as nat,
                phase: TaskPhase::Idle,
            }),
    {
        BotTask { name, restarts: 0, max_restarts, phase: TaskPhase::Idle }
    }

    /// Starts the task, if it is idle, and says whether it is to run.
    pub fn start(&mut self) -> (action: TaskAction)
        ensures
            final(self)@ == old(self)@.started(),
            action == if old(self)@.phase == TaskPhase::Idle {
                TaskAction::Run
            } else {
                TaskAction::Rest
            },
    {
        match self.phase {
            TaskPhase::Idle => {
                self.phase = TaskPhase::Running;
                TaskAction::Run
            },
            _ => TaskAction::Rest,
        }
    }

    /// Records how a run of the task ended.
    pub fn finish(&mut self, succeeded: bool)
        ensures
            final(self)@ == old(self)@.finished(succeeded),
    {
        match self.phase {
            TaskPhase::Running => {
                if succeeded {
                    self.phase = TaskPhase::Succeeded;
                } else {
                    self.phase = TaskPhase::Failed;
                }
            },
            _ => {},
        }
    }

    /// Decides on a failure: the task runs again if it has a restart left,
    /// which is counted first, and is exhausted if not.
    pub fn recover(&mut self) -> (action: TaskAction)
        requires
            old(self)@.wf(),
        ensures
            final(self)@.wf(),
            final(self)@ == old(self)@.recovered(),
            action == if old(self)@.phase == TaskPhase::Failed {
                final(self)@.action()
            } else {
                TaskAction::Rest
            },
    {
        match self.phase {
            TaskPhase::Failed => {
                if self.restarts < self.max_restarts {
                    self.restarts = self.restarts + 1;
                    self.phase = TaskPhase::Running;
                    TaskAction::Run
                } else {
                    self.phase = TaskPhase::Exhausted;
                    TaskAction::Shutdown
                }
            },
            _ => TaskAction::Rest,
        }
    }

    /// Records how a run of the task ended, decides, and says what to do:
    /// run it again, let it rest, or shut down.
    pub fn on_exit(&mut self, succeeded: bool) -> (action: TaskAction)
        requires
            old(self)@.wf(),
        ensures
            final(self)@.wf(),
            final(self)@ == old(self)@.exited(succeeded),
            action == old(self)@.exit_action(succeeded),
    {
        self.finish(succeeded);
        self.recover()
    }

    pub fn name(&self) -> (name: &String)
        ensures
            name@ == self@.name,
    {
        &self.name
    }

    /// How often the task was restarted.
    pub fn restarts(&self) -> (n: u8)
        ensures
            n == self@.restarts,
    {
        self.restarts
    }

    /// How often the task may be restarted.
    pub fn max_restarts(&self) -> (n: u8)
        ensures
            n == self@.max_restarts,
    {
        self.max_restarts
    }

    pub fn phase(&self) -> (phase: TaskPhase)
        ensures
            phase == self@.phase,
    {
        self.phase
    }

    /// The line that describes the task: its name, how often it may be
    /// restarted, and how often it was.
    pub fn to_string(&self) -> (line: String)
        ensures
            line@ == task_line(self@),
    {
        let mut line = self.name.clone();
        line.append(" task, max restarts ");
        push_decimal(&mut line, self.max_restarts as u64);
        line.append(", actual restarts ");
        push_decimal(&mut line, self.restarts as u64);
        line
    }
}

/// The restart law: a running task that may be restarted `c` times, and was
/// not yet, and whose every run fails, is running again after each of the
/// first `c` failures, with as many restarts counted as it has failed; the
/// failure after that exhausts it, with exactly `c` restarts counted. With
/// `c` zero the first failure exhausts it.
pub proof fn lemma_restart_law(task: TaskView, failures: nat)
    requires
        task.phase == TaskPhase::Running,
        task.restarts == 0,
        failures <= task.max_restarts + 1,
    ensures
        failures <= task.max_restarts ==> task.after_failures(failures) == (TaskView {
            restarts: failures,
            ..task
        }),
        failures == task.max_restarts + 1 ==> task.after_failures(failures) == (TaskView {
            restarts: task.max_restarts,
            phase: TaskPhase::Exhausted,
            ..task
        }),
    decreases failures,
{
    if failures > 0 {
        lemma_restart_law(task, (failures - 1) as nat);
    }
}

/// Success is final: a task that succeeded stays so, whatever is reported of
/// it afterwards, and is never run again.
pub proof fn lemma_success_is_final(task: TaskView, succeeded: bool)
    requires
        task.phase == TaskPhase::Succeeded || task.phase == TaskPhase::Exhausted,
    ensures
        task.exited(succeeded) == task,
        task.started() == task,
        task.action() != TaskAction::Run,
{
}

/// The supervisor: the tasks in the order in which they were added, and
/// whether shutdown was asked for.
#[derive(Debug)]
pub struct TaskManager {
    tasks: Vec<BotTask>,
    shutdown: bool,
}

/// A `TaskManager` as plain values.
pub ghost struct ManagerView {
    pub tasks: Seq<TaskView>,
    pub shutdown: bool,
}

impl ManagerView {
    /// Whether some task is exhausted.
    pub open spec fn some_exhausted(self) -> bool {
        exists|i: int| 0 <= i < self.tasks.len() && (#[trigger] self.tasks[i]).phase
            == TaskPhase::Exhausted
    }

    /// Every task is well formed, and shutdown is asked for exactly when
    /// some task is exhausted.
    pub open spec fn wf(self) -> bool {
        &&& forall|i: int| 0 <= i < self.tasks.len() ==> (#[trigger] self.tasks[i]).wf()
        &&& self.shutdown == self.some_exhausted()
    }
}

impl View for TaskManager {
    type V = ManagerView;

    closed spec fn view(&self) -> ManagerView {
        ManagerView {
            tasks: Seq::new(self.tasks@.len(), |i: int| self.tasks@[i]@),
            shutdown: self.shutdown,
        }
    }
}

impl TaskManager {
    /// A supervisor without tasks.
    pub fn new() -> (manager: Self)
        ensures
            manager@.wf(),
            manager@.tasks == Seq::<TaskView>::empty(),
            !manager@.shutdown,
    {
        let manager = TaskManager { tasks: Vec::new(), shutdown: false };
        assert(manager@.tasks =~= Seq::<TaskView>::empty());
        manager
    }

    /// Adds `task` behind the tasks that are there.
    pub fn add_task(&mut self, task: BotTask)
        requires
            old(self)@.wf(),
            task@.wf(),
        ensures
            final(self)@.wf(),
            final(self)@.tasks == old(self)@.tasks.push(task@),
    {
        match task.phase {
            TaskPhase::Exhausted => {
                self.shutdown = true;
            },
            _ => {},
        }
        self.tasks.push(task);
        proof {
            let before = old(self)@;
            let after = self@;
            assert(after.tasks =~= before.tasks.push(task@));
            if before.some_exhausted() {
                let i = choose|i: int|
                    0 <= i < before.tasks.len() && (#[trigger] before.tasks[i]).phase
                        == TaskPhase::Exhausted;
                assert(after.tasks[i].phase == TaskPhase::Exhausted);
            }
            if task@.phase == TaskPhase::Exhausted {
                assert(after.tasks[before.tasks.len() as int].phase == TaskPhase::Exhausted);
            }
            if after.some_exhausted() {
                let i = choose|i: int|
                    0 <= i < after.tasks.len() && (#[trigger] after.tasks[i]).phase
                        == TaskPhase::Exhausted;
                if i < before.tasks.len() {
                    assert(before.tasks[i].phase == TaskPhase::Exhausted);
                }
            }
        }
    }

    /// Starts every idle task, and returns the numbers of the tasks that are
    /// to be launched: those that were idle, in order.
    pub fn run(&mut self) -> (launched: Vec<usize>)
        requires
            old(self)@.wf(),
        ensures
            final(self)@.wf(),
            final(self)@.shutdown == old(self)@.shutdown,
            final(self)@.tasks.len() == old(self)@.tasks.len(),
            forall|i: int|
                0 <= i < old(self)@.tasks.len() ==> #[trigger] final(self)@.tasks[i] == old(self)@.tasks[
                    i
                ].started(),
            launched@ == Seq::new(old(self)@.tasks.len(), |i: int| i as usize).filter(
                |i: usize| old(self)@.tasks[i as int].phase == TaskPhase::Idle,
            ),
    {
        let ghost before = self@;
        let ghost all = Seq::new(before.tasks.len(), |i: int| i as usize);
        let ghost idle = |i: usize| before.tasks[i as int].phase == TaskPhase::Idle;
        let n = self.tasks.len();
        let mut launched: Vec<usize> = Vec::new();
        let mut k: usize = 0;
        assert(all.take(0).filter(idle) =~= Seq::<usize>::empty()) by {
            reveal(Seq::filter);
        }
        while k < n
            invariant
                k <= n == self.tasks.len() == before.tasks.len(),
                self.shutdown == before.shutdown,
                before == old(self)@,
                before.wf(),
                all == Seq::new(before.tasks.len(), |i: int| i as usize),
                idle == |i: usize| before.tasks[i as int].phase == TaskPhase::Idle,
                forall|i: int| 0 <= i < k ==> (#[trigger] self.tasks@[i])@ == before.tasks[i].started(),
                forall|i: int| k <= i < n ==> (#[trigger] self.tasks@[i])@ == before.tasks[i],
                launched@ == all.take(k as int).filter(idle),
            decreases n - k,
        {
            proof {
                reveal(Seq::filter);
                assert(all.take(k + 1).drop_last() =~= all.take(k as int));
                assert(all.take(k + 1).last() == k);
            }
            match self.tasks[k].start() {
                TaskAction::Run => {
                    launched.push(k);
                },
                _ => {},
            }
            k += 1;
        }
        proof {
            assert(all.take(n as int) =~= all);
            let after = self@;
            assert forall|i: int| 0 <= i < after.tasks.len() implies (#[trigger] after.tasks[i]).wf() by {
                assert(before.tasks[i].wf());
            }
            if before.some_exhausted() {
                let i = choose|i: int|
                    0 <= i < before.tasks.len() && (#[trigger] before.tasks[i]).phase
                        == TaskPhase::Exhausted;
                assert(after.tasks[i].phase == TaskPhase::Exhausted);
            }
            if after.some_exhausted() {
                let i = choose|i: int|
                    0 <= i < after.tasks.len() && (#[trigger] after.tasks[i]).phase
                        == TaskPhase::Exhausted;
                assert(before.tasks[i].phase == TaskPhase::Exhausted);
            }
        }
        launched
    }

    /// Records how a run of the task `index` ended, and says what to do:
    /// run it again, let it rest, or shut down. Shutdown is asked for from then
    /// on. Where there is no task `index`, nothing changes and nothing is to
    /// be done.
    pub fn task_exited(&mut self, index: usize, succeeded: bool) -> (action: TaskAction)
        requires
            old(self)@.wf(),
        ensures
            final(self)@.wf(),
            index >= old(self)@.tasks.len() ==> action == TaskAction::Rest && final(self)@ == old(self)@,
            index < old(self)@.tasks.len() ==> final(self)@.tasks == old(self)@.tasks.update(
                index as int,
                old(self)@.tasks[index as int].exited(succeeded),
            ) && action == old(self)@.tasks[index as int].exit_action(succeeded),
    {
        if index >= self.tasks.len() {
            return TaskAction::Rest;
        }
        let ghost before = self@;
        assert(before.tasks[index as int].wf());
        let action = self.tasks[index].on_exit(succeeded);
        match self.tasks[index].phase {
            TaskPhase::Exhausted => {
                self.shutdown = true;
            },
            _ => {},
        }
        proof {
            let after = self@;
            assert(after.tasks =~= before.tasks.update(
                index as int,
                before.tasks[index as int].exited(succeeded),
            ));
            assert forall|i: int| 0 <= i < after.tasks.len() implies (#[trigger] after.tasks[i]).wf() by {
                assert(before.tasks[i].wf());
            }
            if before.some_exhausted() {
                let i = choose|i: int|
                    0 <= i < before.tasks.len() && (#[trigger] before.tasks[i]).phase
                        == TaskPhase::Exhausted;
                assert(after.tasks[i].phase == TaskPhase::Exhausted);
            }
            if after.tasks[index as int].phase == TaskPhase::Exhausted {
                assert(after.some_exhausted());
            }
            if after.some_exhausted() && !(after.tasks[index as int].phase == TaskPhase::Exhausted) {
                let i = choose|i: int|
                    0 <= i < after.tasks.len() && (#[trigger] after.tasks[i]).phase
                        == TaskPhase::Exhausted;
                assert(before.tasks[i].phase == TaskPhase::Exhausted);
            }
        }
        action
    }

    /// Whether shutdown is asked for: whether some task is exhausted.
    pub fn shutdown_requested(&self) -> (b: bool)
        requires
            self@.wf(),
        ensures
            b == self@.some_exhausted(),
    {
        self.shutdown
    }

    /// The number of tasks.
    pub fn len(&self) -> (n: usize)
        ensures
            n == self@.tasks.len(),
    {
        self.tasks.len()
    }

    /// The task `index`.
    pub fn task(&self, index: usize) -> (task: &BotTask)
        requires
            index < self@.tasks.len(),
        ensures
            task@ == self@.tasks[index as int],
    {
        &self.tasks[index]
    }

    /// The status report: the line of each task, each followed by a line
    /// feed, in the order of the tasks.
    pub fn statics(&self) -> (report: String)
        ensures
            report@ == status_report(self@.tasks),
    {
        let mut report = String::new();
        let mut k: usize = 0;
        assert(self@.tasks.take(0) =~= Seq::<TaskView>::empty());
        while k < self.tasks.len()
            invariant
                k <= self.tasks.len(),
                report@ == status_report(self@.tasks.take(k as int)),
            decreases self.tasks.len() - k,
        {
            let line = self.tasks[k].to_string();
            proof {
                assert(self@.tasks.take(k + 1).drop_last() =~= self@.tasks.take(k as int));
                assert(self@.tasks.take(k + 1).last() == self@.tasks[k as int]);
            }
            report.append(line.as_str());
            report.push('\n');
            k += 1;
        }
        assert(self@.tasks.take(self.tasks.len() as int) =~= self@.tasks);
        report
    }
}

/// The status report of the tasks.
pub open spec fn status_report(tasks: Seq<TaskView>) -> Seq<char>
    decreases tasks.len(),
{
    if tasks.len() == 0 {
        seq![]
    } else {
        status_report(tasks.drop_last()) + task_line(tasks.last()).push('\n')
    }
}

} // verus!
