//! The task queue: producers enqueue, a single worker claims the most urgent
//! Pending task, runs its handler outside the library, and records the outcome.

use vstd::prelude::*;
use crate::catalog::{Catalog, CatalogError, Task, TaskStatus, TaskView, ID_LIMIT, pending_task, task_status_code, tasks_wf};
use crate::scanner::thumb_type;

verus! {

/// Whether a task for (file, type) is still outstanding: Pending or Running.
pub open spec fn has_pending_model(tasks: Seq<TaskView>, file_id: i32, task_type: Seq<char>) -> bool {
    exists|k: int|
        0 <= k < tasks.len() && #[trigger] tasks[k].file_id == file_id && tasks[k].task_type == task_type
            && (tasks[k].status == TaskStatus::Pending || tasks[k].status == TaskStatus::Running)
}

/// The queue after enqueueing, and the new task's id.
pub open spec fn enqueue_model(tasks: Seq<TaskView>, file_id: i32, task_type: Seq<char>, priority: i32) -> (Seq<TaskView>, Result<i64, CatalogError>) {
    if tasks.len() >= ID_LIMIT {
        (tasks, Err(CatalogError::Full))
    } else {
        (tasks.push(pending_task(tasks.len() + 1, file_id, task_type, priority)), Ok((tasks.len() + 1) as i64))
    }
}

/// Whether task `k` is the one to claim: Pending, and no other Pending task
/// has a higher priority, or the same priority and a smaller id.
pub open spec fn is_next(tasks: Seq<TaskView>, k: int) -> bool {
    &&& 0 <= k < tasks.len()
    &&& tasks[k].status == TaskStatus::Pending
    &&& forall|j: int|
        0 <= j < tasks.len() && #[trigger] tasks[j].status == TaskStatus::Pending ==> tasks[j].priority < tasks[k].priority
            || (tasks[j].priority == tasks[k].priority && j >= k)
}

pub open spec fn any_pending(tasks: Seq<TaskView>) -> bool {
    exists|k: int| 0 <= k < tasks.len() && #[trigger] tasks[k].status == TaskStatus::Pending
}

/// Task `k` marked Running at `now`.
pub open spec fn started(t: TaskView, now: i64) -> TaskView {
    TaskView { status: TaskStatus::Running, started_at: Some(now), ..t }
}

/// Task `t` finished at `now` with `outcome`: Completed, or Failed with its message.
pub open spec fn finished(t: TaskView, outcome: Result<(), Seq<char>>, now: i64) -> TaskView {
    match outcome {
        Ok(_) => TaskView { status: TaskStatus::Completed, completed_at: Some(now), ..t },
        Err(msg) => TaskView { status: TaskStatus::Failed, error_msg: Some(msg), completed_at: Some(now), ..t },
    }
}

/// The queue after finishing task `id`, or why it cannot be finished.
pub open spec fn finish_model(tasks: Seq<TaskView>, id: i64, outcome: Result<(), Seq<char>>, now: i64) -> (Seq<TaskView>, Result<(), CatalogError>) {
    if id < 1 || id > tasks.len() {
        (tasks, Err(CatalogError::TaskNotFound))
    } else if tasks[id - 1].status != TaskStatus::Running {
        (tasks, Err(CatalogError::InvalidTransition))
    } else {
        (tasks.update(id - 1, finished(tasks[id - 1], outcome, now)), Ok(()))
    }
}

/// A task handed to the worker.
pub struct ClaimedTask {
    pub id: i64,
    pub file_id: i32,
    pub task_type: String,
}

/// The handlers the worker knows, by task type.
#[derive(Clone, Copy, Debug, PartialEq, Eq, Structural)]
pub enum TaskHandler {
    /// Type `thumb`: generate a thumbnail for the file.
    Thumbnail,
}

/// The handler registered for `task_type`; an unknown type has none, and the
/// worker records such a task as Failed.
pub fn handler_for(task_type: &String) -> (r: Option<TaskHandler>)
    ensures
        r == (if task_type@ == thumb_type() { Some(TaskHandler::Thumbnail) } else { None::<TaskHandler> }),
{
    proof {
        reveal_strlit("thumb");
    }
    let thumb = String::from_str("thumb");
    assert(thumb@ =~= thumb_type());
    if *task_type == thumb {
        Some(TaskHandler::Thumbnail)
    } else {
        None
    }
}

/// The failure message recorded for a task whose type has no handler.
pub fn unknown_type_message(task_type: &String) -> (r: String)
    ensures
        r@ == "unknown task type: "@ + task_type@,
{
    let mut r = String::from_str("unknown task type: ");
    r.append(task_type.as_str());
    r
}

fn copy_text(s: &String) -> (r: String)
    ensures
        r@ == s@,
{
    s.clone()
}

impl Catalog {
    /// Queues a Pending task and returns its id; `Full` when no id is left.
    pub fn enqueue_task(&mut self, file_id: i32, task_type: &str, priority: i32) -> (r: Result<i64, CatalogError>)
        requires
            old(self)@.wf(),
        ensures
            final(self)@.wf(),
            final(self)@.files == old(self)@.files,
            final(self)@.tags == old(self)@.tags,
            final(self)@.links == old(self)@.links,
            (final(self)@.tasks, r) == enqueue_model(old(self)@.tasks, file_id, task_type@, priority),
    {
        if self.tasks.len() >= ID_LIMIT {
            return Err(CatalogError::Full);
        }
        let id = self.push_task(file_id, String::from_str(task_type), priority);
        Ok(id)
    }

    /// Queues a thumbnail task for a file, with priority 0 unless given.
    pub fn create_thumbnail_task(&mut self, file_id: i32, priority: Option<i32>) -> (r: Result<i64, CatalogError>)
        requires
            old(self)@.wf(),
        ensures
            final(self)@.wf(),
            final(self)@.files == old(self)@.files,
            final(self)@.tags == old(self)@.tags,
            final(self)@.links == old(self)@.links,
            (final(self)@.tasks, r) == enqueue_model(
                old(self)@.tasks,
                file_id,
                thumb_type(),
                match priority {
                    Some(p) => p,
                    None => 0i32,
                },
            ),
    {
        proof {
            reveal_strlit("thumb");
        }
        let p = match priority {
            Some(p) => p,
            None => 0,
        };
        let thumb = "thumb";
        assert(thumb@ =~= thumb_type());
        self.enqueue_task(file_id, thumb, p)
    }

    /// Whether a task of this type for this file is Pending or Running.
    pub fn has_pending(&self, file_id: i32, task_type: &str) -> (r: bool)
        ensures
            r == has_pending_model(self@.tasks, file_id, task_type@),
    {
        let ghost tv = self@.tasks;
        let wanted = String::from_str(task_type);
        let mut i: usize = 0;
        while i < self.tasks.len()
            invariant
                tv == self@.tasks,
                wanted@ == task_type@,
                i <= tv.len(),
                forall|k: int|
                    0 <= k < i ==> !(#[trigger] tv[k].file_id == file_id && tv[k].task_type == task_type@
                        && (tv[k].status == TaskStatus::Pending || tv[k].status == TaskStatus::Running)),
            decreases tv.len() - i,
        {
            let t = &self.tasks[i];
            if t.file_id == file_id && t.task_type == wanted && (t.status == TaskStatus::Pending || t.status == TaskStatus::Running) {
                assert(tv[i as int].file_id == file_id);
                return true;
            }
            i += 1;
        }
        false
    }

    /// Whether a thumbnail task for the file is Pending or Running.
    pub fn has_pending_thumbnail_task(&self, file_id: i32) -> (r: bool)
        ensures
            r == has_pending_model(self@.tasks, file_id, thumb_type()),
    {
        proof {
            reveal_strlit("thumb");
        }
        let thumb = "thumb";
        assert(thumb@ =~= thumb_type());
        self.has_pending(file_id, thumb)
    }

    /// Claims the Pending task with the highest priority (the oldest among
    /// equals) and marks it Running at `now`; `None` when nothing is Pending.
    pub fn claim_next_task(&mut self, now: i64) -> (r: Option<ClaimedTask>)
        requires
            old(self)@.wf(),
        ensures
            final(self)@.wf(),
            final(self)@.files == old(self)@.files,
            final(self)@.tags == old(self)@.tags,
            final(self)@.links == old(self)@.links,
            r is None <==> !any_pending(old(self)@.tasks),
            r is None ==> final(self)@.tasks == old(self)@.tasks,
            r is Some ==> {
                let k = r->0.id - 1;
                &&& is_next(old(self)@.tasks, k)
                &&& r->0.file_id == old(self)@.tasks[k].file_id
                &&& r->0.task_type@ == old(self)@.tasks[k].task_type
                &&& final(self)@.tasks == old(self)@.tasks.update(k, started(old(self)@.tasks[k], now))
            },
    {
        let ghost tv = self@.tasks;
        let mut best: Option<usize> = None;
        let mut i: usize = 0;
        while i < self.tasks.len()
            invariant
                tv == self@.tasks,
                self@ == old(self)@,
                tasks_wf(tv),
                i <= tv.len(),
                match best {
                    None => forall|j: int| 0 <= j < i ==> #[trigger] tv[j].status != TaskStatus::Pending,
                    Some(b) => b < i && tv[b as int].status == TaskStatus::Pending && forall|j: int|
                        0 <= j < i && #[trigger] tv[j].status == TaskStatus::Pending ==> tv[j].priority < tv[b as int].priority
                            || (tv[j].priority == tv[b as int].priority && j >= b),
                },
            decreases tv.len() - i,
        {
            if self.tasks[i].status == TaskStatus::Pending {
                match best {
                    None => {
                        best = Some(i);
                    },
                    Some(b) => {
                        if self.tasks[i].priority > self.tasks[b].priority {
                            best = Some(i);
                        }
                    },
                }
            }
            i += 1;
        }
        match best {
            None => {
                None
            },
            Some(b) => {
                let t = &self.tasks[b];
                let claimed = ClaimedTask { id: t.id, file_id: t.file_id, task_type: copy_text(&t.task_type) };
                let updated = Task {
                    id: t.id,
                    file_id: t.file_id,
                    task_type: copy_text(&t.task_type),
                    status: TaskStatus::Running,
                    priority: t.priority,
                    started_at: Some(now),
                    completed_at: t.completed_at,
                    error_msg: match &t.error_msg {
                        Some(m) => Some(copy_text(m)),
                        None => None,
                    },
                };
                let ghost raw0 = self.tasks@;
                assert(updated@ == started(tv[b as int], now));
                self.tasks.set(b, updated);
                assert(self@.tasks =~= tv.update(b as int, started(tv[b as int], now)));
                Some(claimed)
            },
        }
    }

    /// Records the outcome of a Running task at `now`: Completed on success,
    /// Failed with the message otherwise. Refused for an unknown id, and for a
    /// task that is not Running (no state returns to Pending or leaves a final state).
    pub fn finish_task(&mut self, id: i64, outcome: Result<(), String>, now: i64) -> (r: Result<(), CatalogError>)
        requires
            old(self)@.wf(),
        ensures
            final(self)@.wf(),
            final(self)@.files == old(self)@.files,
            final(self)@.tags == old(self)@.tags,
            final(self)@.links == old(self)@.links,
            (final(self)@.tasks, r) == finish_model(
                old(self)@.tasks,
                id,
                match outcome {
                    Ok(_) => Ok(()),
                    Err(m) => Err(m@),
                },
                now,
            ),
    {
        let ghost tv = self@.tasks;
        if id < 1 || id > self.tasks.len() as i64 {
            return Err(CatalogError::TaskNotFound);
        }
        let k = (id - 1) as usize;
        if self.tasks[k].status != TaskStatus::Running {
            return Err(CatalogError::InvalidTransition);
        }
        let t = &self.tasks[k];
        let (status, error_msg) = match outcome {
            Ok(_) => (TaskStatus::Completed, match &t.error_msg {
                Some(m) => Some(copy_text(m)),
                None => None,
            }),
            Err(m) => (TaskStatus::Failed, Some(m)),
        };
        let updated = Task {
            id: t.id,
            file_id: t.file_id,
            task_type: copy_text(&t.task_type),
            status,
            priority: t.priority,
            started_at: t.started_at,
            completed_at: Some(now),
            error_msg,
        };
        self.tasks.set(k, updated);
        assert(self@.tasks =~= tv.update(k as int, finished(tv[k as int], match outcome {
            Ok(_) => Ok(()),
            Err(m) => Err(m@),
        }, now)));
        Ok(())
    }
}

/// Lifecycle of one task: once enqueued it is Pending (code 0) and counts as
/// outstanding; once claimed it is Running (code 1) and still outstanding;
/// once finished it is Completed (2) or Failed (3), no longer outstanding when
/// no other task for that file and type was, and it cannot be finished again.
pub proof fn lemma_task_lifecycle(
    tasks: Seq<TaskView>,
    file_id: i32,
    task_type: Seq<char>,
    priority: i32,
    claimed_at: i64,
    outcome: Result<(), Seq<char>>,
    finished_at: i64,
)
    requires
        tasks_wf(tasks),
        tasks.len() < ID_LIMIT,
        !has_pending_model(tasks, file_id, task_type),
    ensures
        ({
            let (t1, r1) = enqueue_model(tasks, file_id, task_type, priority);
            let id = r1->Ok_0;
            let k = id - 1;
            let t2 = t1.update(k, started(t1[k], claimed_at));
            let (t3, r3) = finish_model(t2, id, outcome, finished_at);
            &&& r1 is Ok
            &&& task_status_code(t1[k].status) == 0
            &&& has_pending_model(t1, file_id, task_type)
            &&& task_status_code(t2[k].status) == 1
            &&& has_pending_model(t2, file_id, task_type)
            &&& r3 is Ok
            &&& task_status_code(t3[k].status) == (if outcome is Ok { 2i32 } else { 3i32 })
            &&& !has_pending_model(t3, file_id, task_type)
            &&& finish_model(t3, id, outcome, finished_at).1 == Err::<(), CatalogError>(CatalogError::InvalidTransition)
        }),
{
    let (t1, r1) = enqueue_model(tasks, file_id, task_type, priority);
    let id = r1->Ok_0;
    let k = id - 1;
    assert(k == tasks.len());
    let t2 = t1.update(k, started(t1[k], claimed_at));
    let (t3, r3) = finish_model(t2, id, outcome, finished_at);
    assert(t1[k].file_id == file_id);
    assert(has_pending_model(t1, file_id, task_type));
    assert(t2[k].file_id == file_id);
    assert(has_pending_model(t2, file_id, task_type));
    assert forall|j: int| 0 <= j < t3.len() implies !(#[trigger] t3[j].file_id == file_id && t3[j].task_type == task_type
        && (t3[j].status == TaskStatus::Pending || t3[j].status == TaskStatus::Running)) by {
        if j < tasks.len() {
            assert(t3[j] == tasks[j]);
        }
    }
}

} // verus!
