use vstd::prelude::*;

use crate::logging::LogLevel;

verus! {

/// The long-running tasks of the bridge.
#[derive(Clone, Copy, Debug, PartialEq, Eq)]
pub enum TaskKind {
    /// The plain listener of the API.
    HttpListener,
    /// The TLS listener of the API.
    HttpsListener,
    /// The task that persists the store.
    StateWriter,
    /// The client of the broker with this number among the configured ones.
    BrokerClient(usize),
}

/// The tasks of a bridge with the given number of brokers: the two
/// listeners, the state writer, and one client for each broker.
pub open spec fn task_plan(brokers: nat) -> Seq<TaskKind> {
    seq![TaskKind::HttpListener, TaskKind::HttpsListener, TaskKind::StateWriter] + Seq::new(
        brokers,
        |i: int| TaskKind::BrokerClient(i as usize),
    )
}

/// Lists the tasks to start, in the order in which they are started.
pub fn build_tasks(brokers: usize) -> (tasks: Vec<TaskKind>)
    ensures
        tasks@ == task_plan(brokers as nat),
{
    let mut tasks: Vec<TaskKind> = Vec::new();
    tasks.push(TaskKind::HttpListener);
    tasks.push(TaskKind::HttpsListener);
    tasks.push(TaskKind::StateWriter);
    let mut i: usize = 0;
    while i < brokers
        invariant
            i <= brokers,
            tasks@ =~= task_plan(i as nat),
        decreases brokers - i,
    {
        tasks.push(TaskKind::BrokerClient(i));
        i += 1;
    }
    tasks
}

/// How a task ended.
#[derive(Clone, Copy, Debug, PartialEq, Eq)]
pub enum Completion {
    /// The task returned normally.
    Success,
    /// The task returned a failure of the application.
    TaskError,
    /// The task could not be scheduled or was torn down by the runtime.
    SpawnFailure,
}

/// Where a task stands.
#[derive(Clone, Copy, Debug, PartialEq, Eq)]
pub enum TaskStatus {
    Running,
    Finished(Completion),
}

/// Where the supervisor stands.
#[derive(Clone, Copy, Debug, PartialEq, Eq)]
pub enum Phase {
    /// Tasks are running and their completions are awaited.
    Running,
    /// Every task was asked to stop and some have not completed yet.
    Draining,
    /// Every task has completed.
    Stopped,
}

/// What the supervisor reports when a task completes.
#[derive(Clone, Copy, Debug, PartialEq, Eq)]
pub struct Report {
    pub level: LogLevel,
    pub task: usize,
    pub kind: TaskKind,
    pub completion: Completion,
}

/// The level at which a completion is reported: a normal return as
/// information, every failure as an error.
pub open spec fn level_of(completion: Completion) -> LogLevel {
    match completion {
        Completion::Success => LogLevel::Info,
        Completion::TaskError => LogLevel::Error,
        Completion::SpawnFailure => LogLevel::Error,
    }
}

/// The supervisor's state: the fixed set of tasks, and where each stands.
pub struct SupervisorView {
    pub tasks: Seq<TaskKind>,
    pub status: Seq<TaskStatus>,
    pub stopping: bool,
}

impl SupervisorView {
    pub open spec fn wf(self) -> bool {
        self.tasks.len() == self.status.len()
    }

    /// The state in which all of the given tasks run.
    pub open spec fn started(tasks: Seq<TaskKind>) -> SupervisorView {
        SupervisorView {
            tasks,
            status: Seq::new(tasks.len(), |i: int| TaskStatus::Running),
            stopping: false,
        }
    }

    /// The task is known and has not completed.
    pub open spec fn is_running(self, task: int) -> bool {
        0 <= task < self.status.len() && self.status[task] == TaskStatus::Running
    }

    /// Every task has completed.
    pub open spec fn all_finished(self) -> bool {
        forall|i: int| 0 <= i < self.status.len() ==> !#[trigger] self.is_running(i)
    }

    /// The number of tasks that have not completed.
    pub open spec fn pending(self) -> nat {
        self.status.filter(|t: TaskStatus| t == TaskStatus::Running).len()
    }

    pub open spec fn phase(self) -> Phase {
        if self.all_finished() {
            Phase::Stopped
        } else if self.stopping {
            Phase::Draining
        } else {
            Phase::Running
        }
    }

    /// The state after a running task completed. Only that task's status
    /// changes: no task is restarted, and none is stopped with it.
    pub open spec fn completed(self, task: int, completion: Completion) -> SupervisorView {
        SupervisorView {
            tasks: self.tasks,
            status: self.status.update(task, TaskStatus::Finished(completion)),
            stopping: self.stopping,
        }
    }
}

/// The supervisor of the bridge's tasks. It records completions and reports
/// them; it restarts nothing, and it is done only when every task is.
pub struct Supervisor {
    tasks: Vec<TaskKind>,
    status: Vec<TaskStatus>,
    stopping: bool,
}

impl View for Supervisor {
    type V = SupervisorView;

    closed spec fn view(&self) -> SupervisorView {
        SupervisorView { tasks: self.tasks@, status: self.status@, stopping: self.stopping }
    }
}

impl Supervisor {
    pub open spec fn wf(&self) -> bool {
        self@.wf()
    }

    /// The supervisor of the given tasks, all of them running.
    pub fn new(tasks: Vec<TaskKind>) -> (s: Self)
        ensures
            s.wf(),
            s@ == SupervisorView::started(tasks@),
    {
        let mut status: Vec<TaskStatus> = Vec::new();
        let mut i: usize = 0;
        while i < tasks.len()
            invariant
                i <= tasks.len(),
                status@ =~= Seq::new(i as nat, |k: int| TaskStatus::Running),
            decreases tasks.len() - i,
        {
            status.push(TaskStatus::Running);
            i += 1;
        }
        Supervisor { tasks, status, stopping: false }
    }

    /// The number of tasks that have not completed.
    pub fn pending(&self) -> (n: usize)
        requires
            self.wf(),
        ensures
            n == self@.pending(),
            n == 0 <==> self@.all_finished(),
    {
        let ghost running = |t: TaskStatus| t == TaskStatus::Running;
        let mut n: usize = 0;
        let mut i: usize = 0;
        proof {
            assert(self@.status.take(0) =~= Seq::<TaskStatus>::empty());
            reveal(Seq::filter);
        }
        while i < self.status.len()
            invariant
                i <= self.status.len(),
                running == |t: TaskStatus| t == TaskStatus::Running,
                n == self@.status.take(i as int).filter(running).len(),
                n <= i,
                n == 0 <==> forall|k: int| 0 <= k < i ==> !#[trigger] self@.is_running(k),
            decreases self.status.len() - i,
        {
            proof {
                let next = self@.status.take(i + 1);
                assert(next.drop_last() =~= self@.status.take(i as int));
                assert(next.last() == self@.status[i as int]);
                reveal(Seq::filter);
                assert(next.filter(running) == if running(next.last()) {
                    next.drop_last().filter(running).push(next.last())
                } else {
                    next.drop_last().filter(running)
                });
            }
            match self.status[i] {
                TaskStatus::Running => {
                    assert(self@.is_running(i as int));
                    n += 1;
                },
                TaskStatus::Finished(_) => {},
            }
            i += 1;
        }
        assert(self@.status.take(i as int) =~= self@.status);
        n
    }

    /// Where the supervisor stands.
    pub fn phase(&self) -> (p: Phase)
        requires
            self.wf(),
        ensures
            p == self@.phase(),
    {
        if self.pending() == 0 {
            Phase::Stopped
        } else if self.stopping {
            Phase::Draining
        } else {
            Phase::Running
        }
    }

    /// Notes that every task was asked to stop.
    pub fn request_stop(&mut self)
        requires
            old(self).wf(),
        ensures
            final(self).wf(),
            final(self)@ == (SupervisorView { stopping: true, ..old(self)@ }),
    {
        self.stopping = true;
    }

    /// Takes the completion of a task. For a task that was running, its
    /// completion is recorded and the report to log is returned; every other
    /// task stays as it was. For a task that is unknown or has completed
    /// before, nothing changes and nothing is reported.
    pub fn on_completion(&mut self, task: usize, completion: Completion) -> (r: Option<Report>)
        requires
            old(self).wf(),
        ensures
            final(self).wf(),
            match r {
                Some(report) => {
                    &&& old(self)@.is_running(task as int)
                    &&& final(self)@ == old(self)@.completed(task as int, completion)
                    &&& report == Report {
                        level: level_of(completion),
                        task,
                        kind: old(self)@.tasks[task as int],
                        completion,
                    }
                },
                None => !old(self)@.is_running(task as int) && final(self)@ == old(self)@,
            },
    {
        if task >= self.status.len() {
            return None;
        }
        match self.status[task] {
            TaskStatus::Finished(_) => None,
            TaskStatus::Running => {
                self.status.set(task, TaskStatus::Finished(completion));
                let level = match completion {
                    Completion::Success => LogLevel::Info,
                    Completion::TaskError => LogLevel::Error,
                    Completion::SpawnFailure => LogLevel::Error,
                };
                Some(Report { level, task, kind: self.tasks[task], completion })
            },
        }
    }
}

/// A completion, a failure too, touches no other task: each of the others
/// stands where it stood, so whatever was running still runs. The
/// supervisor is stopped afterwards exactly when no other task was running.
pub proof fn lemma_completion_is_isolated(s: SupervisorView, task: int, completion: Completion)
    requires
        s.wf(),
        s.is_running(task),
    ensures
        s.completed(task, completion).wf(),
        s.completed(task, completion).tasks == s.tasks,
        forall|other: int|
            0 <= other < s.status.len() && other != task ==> s.completed(
                task,
                completion,
            ).status[other] == #[trigger] s.status[other],
        !s.completed(task, completion).is_running(task),
        s.completed(task, completion).phase() == Phase::Stopped <==> forall|other: int|
            0 <= other < s.status.len() && other != task ==> !#[trigger] s.is_running(other),
{
    let n = s.completed(task, completion);
    if forall|other: int| 0 <= other < s.status.len() && other != task ==> !#[trigger] s.is_running(other) {
        assert forall|i: int| 0 <= i < n.status.len() implies !#[trigger] n.is_running(i) by {
            if i != task {
                assert(!s.is_running(i));
            }
        }
    }
    if n.all_finished() {
        assert forall|other: int| 0 <= other < s.status.len() && other != task implies !#[trigger] s.is_running(other) by {
            assert(!n.is_running(other));
        }
    }
}

/// A supervisor that was started with at least one task is not stopped, and
/// a task that has completed never runs again.
pub proof fn lemma_started_is_running(tasks: Seq<TaskKind>)
    requires
        tasks.len() > 0,
    ensures
        SupervisorView::started(tasks).wf(),
        SupervisorView::started(tasks).phase() == Phase::Running,
{
    let s = SupervisorView::started(tasks);
    assert(s.is_running(0));
}

} // verus!
