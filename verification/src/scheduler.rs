//! The scheduler's authoritative task map: sequential ids, deduplication of
//! submissions, state transitions fed by workers, and the all-finished check
//! that `join` re-evaluates on every notification.
//!
//! This core is purely transitional: the thread pool, the channels and the
//! blocking wait live in the unverified shell around the library, which calls
//! `schedule` to accept work, `update` for every state a worker publishes,
//! and `tasks_are_finished` to decide when a join may return.

use vstd::prelude::*;
use crate::error::{RustructError, RustructErrorView};
use crate::text::str_eq;

verus! {

/// The unique id of a task, assigned sequentially from one.
pub type TaskId = u32;

/// JSON text handed to a plugin as its argument.
pub type PluginArgument = String;

/// JSON text a plugin returns as its result.
pub type PluginResult = String;

/// What a finished task produced: the plugin's result, or the error it ended
/// with.
pub type TaskResult = Result<PluginResult, RustructError>;

/// A task: one scheduled run of a plugin against an argument.
#[derive(Debug)]
pub struct Task {
    /// The unique id of the task.
    pub id: TaskId,
    /// The name of the plugin.
    pub plugin_name: String,
    /// Argument to the plugin.
    pub argument: PluginArgument,
}

/// The spec-level shape of a task.
pub struct TaskView {
    /// The unique id of the task.
    pub id: TaskId,
    /// The name of the plugin.
    pub plugin_name: Seq<char>,
    /// Argument to the plugin.
    pub argument: Seq<char>,
}

impl View for Task {
    type V = TaskView;

    open spec fn view(&self) -> TaskView {
        TaskView { id: self.id, plugin_name: self.plugin_name@, argument: self.argument@ }
    }
}

impl Clone for Task {
    /// A clone reads back as the same task.
    fn clone(&self) -> (r: Self)
        ensures
            r@ == self@,
    {
        Task {
            id: self.id,
            plugin_name: self.plugin_name.clone(),
            argument: self.argument.clone(),
        }
    }
}

/// The lifecycle stage of a task: Waiting, then Launched, then Finished, and
/// no other transition.
#[derive(Debug)]
pub enum TaskState {
    /// The task is queued and waits for a worker.
    Waiting(Task),
    /// A worker is running the task.
    Launched(Task),
    /// The task ran to completion, with its result or error.
    Finished(Task, TaskResult),
}

/// The spec-level shape of a task state.
pub enum TaskStateView {
    Waiting(TaskView),
    Launched(TaskView),
    Finished(TaskView, Result<Seq<char>, RustructErrorView>),
}

impl View for TaskState {
    type V = TaskStateView;

    open spec fn view(&self) -> TaskStateView {
        match self {
            TaskState::Waiting(t) => TaskStateView::Waiting(t@),
            TaskState::Launched(t) => TaskStateView::Launched(t@),
            TaskState::Finished(t, r) => TaskStateView::Finished(
                t@,
                match r {
                    Ok(out) => Ok(out@),
                    Err(e) => Err(e@),
                },
            ),
        }
    }
}

impl Clone for TaskState {
    /// A clone reads back as the same state.
    fn clone(&self) -> (r: Self)
        ensures
            r@ == self@,
    {
        match self {
            TaskState::Waiting(t) => TaskState::Waiting(t.clone()),
            TaskState::Launched(t) => TaskState::Launched(t.clone()),
            TaskState::Finished(t, res) => {
                let res_clone = match res {
                    Ok(out) => Ok(out.clone()),
                    Err(e) => Err(e.clone()),
                };
                TaskState::Finished(t.clone(), res_clone)
            },
        }
    }
}

/// The task a state speaks of.
pub open spec fn spec_state_task(s: TaskStateView) -> TaskView {
    match s {
        TaskStateView::Waiting(t) => t,
        TaskStateView::Launched(t) => t,
        TaskStateView::Finished(t, _) => t,
    }
}

/// The rank of a stage: Waiting before Launched before Finished.
pub open spec fn spec_stage(s: TaskStateView) -> int {
    match s {
        TaskStateView::Waiting(_) => 0,
        TaskStateView::Launched(_) => 1,
        TaskStateView::Finished(_, _) => 2,
    }
}

/// Whether some tracked task, in any state, carries this plugin name and
/// argument.
pub open spec fn spec_tracked_matching(
    v: Seq<TaskStateView>,
    name: Seq<char>,
    arg: Seq<char>,
) -> bool {
    exists|i: int|
        0 <= i < v.len() && #[trigger] spec_state_task(v[i]).plugin_name == name
            && spec_state_task(v[i]).argument == arg
}

/// Whether a submission is accepted: always under `relaunch`, otherwise only
/// when no tracked task matches.
pub open spec fn spec_accepts(
    v: Seq<TaskStateView>,
    name: Seq<char>,
    arg: Seq<char>,
    relaunch: bool,
) -> bool {
    relaunch || !spec_tracked_matching(v, name, arg)
}

/// The authoritative task map. The entry for task id `i + 1` sits at index
/// `i`; ids are assigned sequentially at submission and never reused.
pub struct TaskScheduler {
    tasks: Vec<TaskState>,
}

impl View for TaskScheduler {
    type V = Seq<TaskStateView>;

    closed spec fn view(&self) -> Seq<TaskStateView> {
        self.tasks@.map_values(|s: TaskState| s@)
    }
}

impl TaskScheduler {
    /// Each entry's task id is its index plus one.
    pub open spec fn wf(&self) -> bool {
        forall|i: int| 0 <= i < self@.len() ==> spec_state_task(#[trigger] self@[i]).id == i + 1
    }

    /// An empty map; the worker pool around it is the shell's concern.
    pub fn new() -> (r: TaskScheduler)
        ensures
            r@ == Seq::<TaskStateView>::empty(),
            r.wf(),
    {
        let r = TaskScheduler { tasks: Vec::new() };
        proof {
            assert(r@ =~= Seq::<TaskStateView>::empty());
        }
        r
    }

    /// Whether a task with the same plugin name and argument was already
    /// submitted, in any state.
    fn exist(&self, plugin_name: &str, argument: &str) -> (r: bool)
        ensures
            r == spec_tracked_matching(self@, plugin_name@, argument@),
    {
        let n = self.tasks.len();
        let mut i: usize = 0;
        while i < n
            invariant
                i <= n,
                n == self@.len(),
                forall|j: int|
                    0 <= j < i ==> !(spec_state_task(#[trigger] self@[j]).plugin_name
                        == plugin_name@ && spec_state_task(self@[j]).argument == argument@),
            decreases n - i,
        {
            let task = match &self.tasks[i] {
                TaskState::Waiting(task) => task,
                TaskState::Launched(task) => task,
                TaskState::Finished(task, _) => task,
            };
            proof {
                assert(self@[i as int] == self.tasks@[i as int]@);
                assert(spec_state_task(self@[i as int]).plugin_name == task.plugin_name@);
                assert(spec_state_task(self@[i as int]).argument == task.argument@);
            }
            if str_eq(task.plugin_name.as_str(), plugin_name) && str_eq(
                task.argument.as_str(),
                argument,
            ) {
                return true;
            }
            i = i + 1;
        }
        false
    }

    /// Accept a submission unless an identical (plugin, argument) pair is
    /// already tracked and `relaunch` is unset. On acceptance the task is
    /// recorded as Waiting under the next sequential id, which is returned;
    /// handing the task to the pool is the caller's step.
    pub fn schedule(&mut self, plugin_name: String, argument: String, relaunch: bool) -> (r: Result<
        TaskId,
        RustructError,
    >)
        requires
            old(self).wf(),
            old(self)@.len() < u32::MAX as int,
        ensures
            final(self).wf(),
            match r {
                Ok(id) => {
                    &&& spec_accepts(old(self)@, plugin_name@, argument@, relaunch)
                    &&& id == old(self)@.len() + 1
                    &&& final(self)@ == old(self)@.push(
                        TaskStateView::Waiting(
                            TaskView {
                                id: (old(self)@.len() + 1) as u32,
                                plugin_name: plugin_name@,
                                argument: argument@,
                            },
                        ),
                    )
                },
                Err(e) => {
                    &&& !spec_accepts(old(self)@, plugin_name@, argument@, relaunch)
                    &&& e@ == RustructErrorView::PluginAlreadyRunned
                    &&& *final(self) == *old(self)
                },
            },
    {
        if relaunch || !self.exist(plugin_name.as_str(), argument.as_str()) {
            let task_id = (self.tasks.len() + 1) as u32;
            let task = Task { id: task_id, plugin_name, argument };
            let ghost pre = self@;
            self.tasks.push(TaskState::Waiting(task));
            proof {
                assert(self@ =~= pre.push(self.tasks@.last()@));
            }
            Ok(task_id)
        } else {
            Err(RustructError::PluginAlreadyRunned)
        }
    }

    /// Replace the map entry for the task a state speaks of. The shell's
    /// aggregator thread calls this for every state a worker publishes, then
    /// wakes the waiters.
    pub fn update(&mut self, state: TaskState)
        requires
            old(self).wf(),
            1 <= spec_state_task(state@).id <= old(self)@.len(),
        ensures
            final(self).wf(),
            final(self)@ == old(self)@.update(spec_state_task(state@).id - 1, state@),
    {
        let task_id = match &state {
            TaskState::Waiting(task) => task.id,
            TaskState::Launched(task) => task.id,
            TaskState::Finished(task, _) => task.id,
        };
        let index = (task_id - 1) as usize;
        let ghost pre = self@;
        self.tasks[index] = state;
        proof {
            assert(self@ =~= pre.update(task_id - 1, self.tasks@[index as int]@));
        }
    }

    /// Whether every tracked task is Finished: the condition under which
    /// `join` may return.
    pub fn tasks_are_finished(&self) -> (r: bool)
        ensures
            r <==> (forall|i: int| 0 <= i < self@.len() ==> #[trigger] self@[i] is Finished),
    {
        let n = self.tasks.len();
        let mut i: usize = 0;
        while i < n
            invariant
                i <= n,
                n == self@.len(),
                forall|j: int| 0 <= j < i ==> #[trigger] self@[j] is Finished,
            decreases n - i,
        {
            proof {
                assert(self@[i as int] == self.tasks@[i as int]@);
            }
            match &self.tasks[i] {
                TaskState::Waiting(_) => {
                    return false;
                },
                TaskState::Launched(_) => {
                    return false;
                },
                TaskState::Finished(_, _) => {},
            }
            i = i + 1;
        }
        true
    }

    /// The state tracked under a task id, if any.
    pub fn task(&self, id: TaskId) -> (r: Option<TaskState>)
        ensures
            match r {
                Some(s) => 1 <= id <= self@.len() && s@ == self@[id - 1],
                None => id < 1 || id > self@.len(),
            },
    {
        if id >= 1 && (id as usize) <= self.tasks.len() {
            let index = (id - 1) as usize;
            proof {
                assert(self@[id - 1] == self.tasks@[id - 1]@);
            }
            Some(self.tasks[index].clone())
        } else {
            None
        }
    }

    /// The states tracked under the given ids, unknown ids skipped.
    pub fn tasks(&self, ids: Vec<TaskId>) -> (r: Vec<TaskState>)
        ensures
            seq_state_views(r@) == spec_lookup_states(self@, ids@),
    {
        let mut out: Vec<TaskState> = Vec::new();
        let n = ids.len();
        let mut i: usize = 0;
        while i < n
            invariant
                i <= n,
                n == ids@.len(),
                seq_state_views(out@) == spec_lookup_states(self@, ids@.take(i as int)),
            decreases n - i,
        {
            let id = ids[i];
            let ghost out0 = out@;
            match self.task(id) {
                Some(state) => {
                    out.push(state);
                    proof {
                        assert(seq_state_views(out@) =~= seq_state_views(out0).push(
                            out@.last()@,
                        ));
                    }
                },
                None => {},
            }
            proof {
                assert(ids@.take(i as int + 1).drop_last() =~= ids@.take(i as int));
                assert(ids@.take(i as int + 1).last() == ids@[i as int]);
                assert(seq_state_views(out@) =~= spec_lookup_states(
                    self@,
                    ids@.take(i as int + 1),
                ));
            }
            i = i + 1;
        }
        proof {
            assert(ids@.take(n as int) =~= ids@);
        }
        out
    }

    /// A snapshot of every tracked state, in id order.
    pub fn to_vec(&self) -> (r: Vec<TaskState>)
        ensures
            r@.len() == self@.len(),
            forall|i: int| 0 <= i < r@.len() ==> #[trigger] r@[i]@ == self@[i],
    {
        let mut out: Vec<TaskState> = Vec::new();
        let n = self.tasks.len();
        let mut i: usize = 0;
        while i < n
            invariant
                i <= n,
                n == self@.len(),
                out@.len() == i,
                forall|j: int| 0 <= j < i ==> #[trigger] out@[j]@ == self@[j],
            decreases n - i,
        {
            proof {
                assert(self@[i as int] == self.tasks@[i as int]@);
            }
            out.push(self.tasks[i].clone());
            i = i + 1;
        }
        out
    }

    /// The number of tasks ever submitted.
    pub fn task_count(&self) -> (r: u32)
        requires
            self.wf(),
        ensures
            r == self@.len(),
    {
        proof {
            if self@.len() > 0 {
                assert(spec_state_task(self@[self@.len() - 1]).id == self@.len());
            }
        }
        self.tasks.len() as u32
    }

    /// Every finished task together with its result, in id order.
    pub fn tasks_finished(&self) -> (r: Vec<(Task, TaskResult)>)
        ensures
            seq_finished_views(r@) == spec_finished_list(self@),
    {
        let mut out: Vec<(Task, TaskResult)> = Vec::new();
        let n = self.tasks.len();
        let mut i: usize = 0;
        while i < n
            invariant
                i <= n,
                n == self@.len(),
                seq_finished_views(out@) == spec_finished_list(self@.take(i as int)),
            decreases n - i,
        {
            proof {
                assert(self@[i as int] == self.tasks@[i as int]@);
            }
            let ghost out0 = out@;
            match &self.tasks[i] {
                TaskState::Finished(task, res) => {
                    let res_clone = match res {
                        Ok(out_text) => Ok(out_text.clone()),
                        Err(e) => Err(e.clone()),
                    };
                    out.push((task.clone(), res_clone));
                    proof {
                        assert(seq_finished_views(out@) =~= seq_finished_views(out0).push(
                            (out@.last().0@, spec_result_view(out@.last().1)),
                        ));
                    }
                },
                _ => {},
            }
            proof {
                assert(self@.take(i as int + 1).drop_last() =~= self@.take(i as int));
                assert(self@.take(i as int + 1).last() == self@[i as int]);
                assert(seq_finished_views(out@) =~= spec_finished_list(self@.take(i as int + 1)));
            }
            i = i + 1;
        }
        proof {
            assert(self@.take(n as int) =~= self@);
        }
        out
    }
}

/// The spec-level shape of a task result.
pub open spec fn spec_result_view(r: TaskResult) -> Result<Seq<char>, RustructErrorView> {
    match r {
        Ok(out) => Ok(out@),
        Err(e) => Err(e@),
    }
}

/// The views of a sequence of task states.
pub open spec fn seq_state_views(v: Seq<TaskState>) -> Seq<TaskStateView> {
    v.map_values(|s: TaskState| s@)
}

/// The views of a sequence of finished tasks with their results.
pub open spec fn seq_finished_views(v: Seq<(Task, TaskResult)>) -> Seq<
    (TaskView, Result<Seq<char>, RustructErrorView>),
> {
    v.map_values(|p: (Task, TaskResult)| (p.0@, spec_result_view(p.1)))
}

/// The tracked states of the given ids, in the order the ids are named,
/// unknown ids skipped.
pub open spec fn spec_lookup_states(v: Seq<TaskStateView>, ids: Seq<u32>) -> Seq<TaskStateView>
    decreases ids.len(),
{
    if ids.len() == 0 {
        Seq::empty()
    } else {
        let rest = spec_lookup_states(v, ids.drop_last());
        if 1 <= ids.last() <= v.len() {
            rest.push(v[ids.last() - 1])
        } else {
            rest
        }
    }
}

/// The finished entries of the map, each with its task and result, in id
/// order.
pub open spec fn spec_finished_list(v: Seq<TaskStateView>) -> Seq<
    (TaskView, Result<Seq<char>, RustructErrorView>),
>
    decreases v.len(),
{
    if v.len() == 0 {
        Seq::empty()
    } else {
        let rest = spec_finished_list(v.drop_last());
        match v.last() {
            TaskStateView::Finished(t, res) => rest.push((t, res)),
            _ => rest,
        }
    }
}

/// Once a submission is tracked, an identical (plugin, argument) submission}

/// Once a submission is tracked, an identical (plugin, argument) submission
/// without `relaunch` is rejected: of two identical submissions, the first
/// one accepted blocks the second, whatever state the first has reached.
pub proof fn lemma_duplicate_submission_rejected(
    v: Seq<TaskStateView>,
    s: TaskStateView,
    name: Seq<char>,
    arg: Seq<char>,
)
    requires
        spec_state_task(s).plugin_name == name,
        spec_state_task(s).argument == arg,
    ensures
        !spec_accepts(v.push(s), name, arg, false),
{
    assert(spec_state_task(v.push(s)[v.len() as int]).plugin_name == name);
}

/// Apply one published state to the map: it replaces the entry of its task.
pub open spec fn spec_apply(v: Seq<TaskStateView>, s: TaskStateView) -> Seq<TaskStateView> {
    v.update(spec_state_task(s).id - 1, s)
}

/// Apply a sequence of published states in arrival order.
pub open spec fn spec_apply_all(v: Seq<TaskStateView>, us: Seq<TaskStateView>) -> Seq<
    TaskStateView,
>
    decreases us.len(),
{
    if us.len() == 0 {
        v
    } else {
        spec_apply_all(spec_apply(v, us[0]), us.drop_first())
    }
}

/// After applying a prefix of updates for one task, the entry of that task is
/// the last applied state, or the entry it started with when nothing was
/// applied.
proof fn lemma_apply_prefix_entry(v: Seq<TaskStateView>, us: Seq<TaskStateView>, id: int, k: int)
    requires
        1 <= id <= v.len(),
        forall|j: int| 0 <= j < us.len() ==> spec_state_task(#[trigger] us[j]).id == id,
        0 <= k <= us.len(),
    ensures
        spec_apply_all(v, us.take(k)).len() == v.len(),
        spec_apply_all(v, us.take(k))[id - 1] == (if k == 0 {
            v[id - 1]
        } else {
            us[k - 1]
        }),
    decreases k,
{
    if k == 0 {
        assert(us.take(0) =~= Seq::<TaskStateView>::empty());
    } else {
        let w = spec_apply(v, us[0]);
        assert(us.take(k)[0] == us[0]);
        assert(us.take(k).drop_first() =~= us.drop_first().take(k - 1));
        assert forall|j: int| 0 <= j < us.drop_first().len() implies spec_state_task(
            #[trigger] us.drop_first()[j],
        ).id == id by {
            assert(us.drop_first()[j] == us[j + 1]);
        }
        lemma_apply_prefix_entry(w, us.drop_first(), id, k - 1);
        if k == 1 {
            assert(w[id - 1] == us[0]);
        } else {
            assert(us.drop_first()[k - 2] == us[k - 1]);
        }
    }
}

/// Any observer of one task's map entry sees its stages in lifecycle order:
/// when the published states for that task arrive stage-ordered (Waiting,
/// then Launched, then Finished) and start no earlier than the current entry,
/// the entry's stage after any earlier prefix is at most its stage after any
/// later prefix — Launched is never seen after Finished.
pub proof fn lemma_observed_stages_monotone(
    v: Seq<TaskStateView>,
    us: Seq<TaskStateView>,
    id: int,
    k1: int,
    k2: int,
)
    requires
        1 <= id <= v.len(),
        forall|j: int| 0 <= j < us.len() ==> spec_state_task(#[trigger] us[j]).id == id,
        forall|j1: int, j2: int|
            0 <= j1 < j2 < us.len() ==> spec_stage(#[trigger] us[j1]) <= spec_stage(
                #[trigger] us[j2],
            ),
        us.len() > 0 ==> spec_stage(v[id - 1]) <= spec_stage(us[0]),
        0 <= k1 <= k2 <= us.len(),
    ensures
        spec_stage(spec_apply_all(v, us.take(k1))[id - 1]) <= spec_stage(
            spec_apply_all(v, us.take(k2))[id - 1],
        ),
{
    lemma_apply_prefix_entry(v, us, id, k1);
    lemma_apply_prefix_entry(v, us, id, k2);
}

/// `join` returns exactly when every task id ever accepted is Finished: ids
/// run from one to the submission count, and the all-finished check holds iff
/// the entry of each such id is Finished.
pub proof fn lemma_join_covers_all_accepted_ids(sched: TaskScheduler)
    requires
        sched.wf(),
    ensures
        (forall|i: int| 0 <= i < sched@.len() ==> #[trigger] sched@[i] is Finished) <==> (forall|
            id: int,
        |
            1 <= id <= sched@.len() ==> (#[trigger] sched@[id - 1]) is Finished
                && spec_state_task(sched@[id - 1]).id == id),
{
    if forall|id: int|
        1 <= id <= sched@.len() ==> (#[trigger] sched@[id - 1]) is Finished && spec_state_task(
            sched@[id - 1],
        ).id == id {
        assert forall|i: int| 0 <= i < sched@.len() implies #[trigger] sched@[i] is Finished by {
            assert((sched@[(i + 1) - 1]) is Finished);
        }
    }
}

} // verus!
