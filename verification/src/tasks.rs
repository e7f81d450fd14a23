//! The indexing jobs: which job a name selects, and the order of a job's steps.
use vstd::prelude::*;
use crate::error::IndexingError;
use crate::text::same_text;

verus! {

/// An indexing job.
#[derive(Debug, PartialEq, Eq, Structural, Clone, Copy)]
pub enum IndexingTask {
    /// Rebuild the store index from every store in use.
    StoreStatic,
    /// Replace the documents of the stores changed since the last indexing.
    StoreDynamic,
    /// Rebuild the auto-completion index from the keyword table.
    AutoCompleteStatic,
    /// Rebuild the subway station index.
    SubwayStatic,
}

/// The configured name of a job.
pub open spec fn task_name(task: IndexingTask) -> Seq<char> {
    match task {
        IndexingTask::StoreStatic => "store_static_index"@,
        IndexingTask::StoreDynamic => "store_dynamic_index"@,
        IndexingTask::AutoCompleteStatic => "auto_complete_static_index"@,
        IndexingTask::SubwayStatic => "subway_static_index"@,
    }
}

/// The job that a name selects among the four jobs, if any.
pub fn indexing_task_for(function_name: &str) -> (res: Result<IndexingTask, IndexingError>)
    ensures
        match res {
            Ok(task) => function_name@ == task_name(task),
            Err(e) => e matches IndexingError::UnknownFunction(n) && n@ == function_name@
                && forall|task: IndexingTask| function_name@ != #[trigger] task_name(task),
        },
{
    if same_text(function_name, "store_static_index") {
        Ok(IndexingTask::StoreStatic)
    } else if same_text(function_name, "store_dynamic_index") {
        Ok(IndexingTask::StoreDynamic)
    } else if same_text(function_name, "auto_complete_static_index") {
        Ok(IndexingTask::AutoCompleteStatic)
    } else if same_text(function_name, "subway_static_index") {
        Ok(IndexingTask::SubwayStatic)
    } else {
        Err(IndexingError::UnknownFunction(function_name.to_owned()))
    }
}

/// The job that a name selects among the two store jobs, if any.
pub fn store_task_for(function_name: &str) -> (res: Result<IndexingTask, IndexingError>)
    ensures
        match res {
            Ok(task) => function_name@ == task_name(task) && (task == IndexingTask::StoreStatic
                || task == IndexingTask::StoreDynamic),
            Err(e) => e matches IndexingError::UnknownFunction(n) && n@ == function_name@
                && function_name@ != task_name(IndexingTask::StoreStatic)
                && function_name@ != task_name(IndexingTask::StoreDynamic),
        },
{
    if same_text(function_name, "store_static_index") {
        Ok(IndexingTask::StoreStatic)
    } else if same_text(function_name, "store_dynamic_index") {
        Ok(IndexingTask::StoreDynamic)
    } else {
        Err(IndexingError::UnknownFunction(function_name.to_owned()))
    }
}

/// Where a job stands.
#[derive(Debug, PartialEq, Eq, Structural, Clone, Copy)]
pub enum TaskStage {
    /// Nothing has been done yet.
    Start,
    /// The time of the last indexing is being read.
    LoadingRecentDate,
    /// The rows to index are being read.
    LoadingRows,
    /// The documents of the changed stores are being deleted.
    DeletingChanged,
    /// The documents are being written to the search engine.
    Posting,
    /// The time of this indexing is being recorded.
    UpdatingRecentDate,
    /// The job completed.
    Done,
    /// A step failed and the job stopped.
    Failed,
}

/// What the driver is to do next.
#[derive(Debug, PartialEq, Eq, Structural, Clone, Copy)]
pub enum TaskAction {
    LoadRecentDate,
    LoadRows,
    DeleteChanged,
    PostDocuments,
    UpdateRecentDate,
    Finish,
    Abort,
}

/// How the last step went.
#[derive(Debug, PartialEq, Eq, Structural, Clone, Copy)]
pub enum TaskEvent {
    /// The step succeeded; `rows` is the number of rows read where the step read rows.
    Succeeded { rows: usize },
    /// The step failed.
    Failed,
}

/// A job and where it stands.
#[derive(Debug, PartialEq, Eq, Structural, Clone, Copy)]
pub struct TaskMachine {
    pub task: IndexingTask,
    pub stage: TaskStage,
}

/// The first step of a job: a store update first reads the time of the last indexing,
/// every other job reads its rows.
pub open spec fn first_step(task: IndexingTask) -> (TaskStage, TaskAction) {
    if task == IndexingTask::StoreDynamic {
        (TaskStage::LoadingRecentDate, TaskAction::LoadRecentDate)
    } else {
        (TaskStage::LoadingRows, TaskAction::LoadRows)
    }
}

/// The step that follows `stage` of `task` after `event`.
pub open spec fn next_step(task: IndexingTask, stage: TaskStage, event: TaskEvent) -> (TaskStage, TaskAction) {
    match stage {
        TaskStage::Done => (TaskStage::Done, TaskAction::Finish),
        TaskStage::Failed => (TaskStage::Failed, TaskAction::Abort),
        TaskStage::Start => first_step(task),
        _ => match event {
            TaskEvent::Failed => (TaskStage::Failed, TaskAction::Abort),
            TaskEvent::Succeeded { rows } => match stage {
                TaskStage::LoadingRecentDate => (TaskStage::LoadingRows, TaskAction::LoadRows),
                TaskStage::LoadingRows => if task != IndexingTask::StoreDynamic {
                    (TaskStage::Posting, TaskAction::PostDocuments)
                } else if rows == 0 {
                    (TaskStage::Done, TaskAction::Finish)
                } else {
                    (TaskStage::DeletingChanged, TaskAction::DeleteChanged)
                },
                TaskStage::DeletingChanged => (TaskStage::Posting, TaskAction::PostDocuments),
                TaskStage::Posting => (TaskStage::UpdatingRecentDate, TaskAction::UpdateRecentDate),
                _ => (TaskStage::Done, TaskAction::Finish),
            },
        },
    }
}


/// The actions a job takes when the driver reports `events` one after the other,
/// starting at `stage`.
pub open spec fn actions_of(task: IndexingTask, stage: TaskStage, events: Seq<TaskEvent>) -> Seq<TaskAction>
    decreases events.len(),
{
    if events.len() == 0 {
        Seq::empty()
    } else {
        let (next, action) = next_step(task, stage, events[0]);
        seq![action] + actions_of(task, next, events.drop_first())
    }
}

/// The time of an indexing is recorded only right after its documents were written.
pub proof fn lemma_date_update_only_after_post(task: IndexingTask, stage: TaskStage, event: TaskEvent)
    ensures
        next_step(task, stage, event).1 == TaskAction::UpdateRecentDate ==> stage
            == TaskStage::Posting && event is Succeeded,
{
}

/// Documents are deleted only by a store update that found changed stores.
pub proof fn lemma_delete_only_for_changed_stores(task: IndexingTask, stage: TaskStage, event: TaskEvent)
    ensures
        next_step(task, stage, event).1 == TaskAction::DeleteChanged ==> task
            == IndexingTask::StoreDynamic && stage == TaskStage::LoadingRows
            && (event matches TaskEvent::Succeeded { rows } && rows > 0),
{
}

/// A failed step stops the job, and a stopped or completed job does nothing more.
pub proof fn lemma_failure_stops(task: IndexingTask, stage: TaskStage, event: TaskEvent)
    ensures
        stage != TaskStage::Start && stage != TaskStage::Done && event == TaskEvent::Failed
            ==> next_step(task, stage, event) == (TaskStage::Failed, TaskAction::Abort),
        stage == TaskStage::Failed ==> next_step(task, stage, event) == (TaskStage::Failed, TaskAction::Abort),
        stage == TaskStage::Done ==> next_step(task, stage, event) == (TaskStage::Done, TaskAction::Finish),
{
}

/// A rebuild that meets no failure reads its rows, writes the documents, records the
/// time and finishes.
pub proof fn lemma_rebuild_run(task: IndexingTask, events: Seq<TaskEvent>)
    requires
        task != IndexingTask::StoreDynamic,
        events.len() == 4,
        forall|i: int| 0 <= i < 4 ==> #[trigger] events[i] is Succeeded,
    ensures
        actions_of(task, TaskStage::Start, events) == seq![
            TaskAction::LoadRows,
            TaskAction::PostDocuments,
            TaskAction::UpdateRecentDate,
            TaskAction::Finish,
        ],
{
    reveal_with_fuel(actions_of, 5);
    assert(events.drop_first().drop_first().drop_first().drop_first().len() == 0);
    assert(events.drop_first()[0] == events[1]);
    assert(events.drop_first().drop_first()[0] == events[2]);
    assert(events.drop_first().drop_first().drop_first()[0] == events[3]);
}

/// A store update that meets no failure and finds changed stores reads the last indexing
/// time and the changed stores, deletes their documents, writes the new ones, records the
/// time and finishes; one that finds no changed store finishes right after reading them.
pub proof fn lemma_update_run(rows: usize, events: Seq<TaskEvent>)
    requires
        events.len() == 6,
        forall|i: int| 0 <= i < 6 ==> #[trigger] events[i] is Succeeded,
        events[2] == (TaskEvent::Succeeded { rows }),
    ensures
        rows > 0 ==> actions_of(IndexingTask::StoreDynamic, TaskStage::Start, events) == seq![
            TaskAction::LoadRecentDate,
            TaskAction::LoadRows,
            TaskAction::DeleteChanged,
            TaskAction::PostDocuments,
            TaskAction::UpdateRecentDate,
            TaskAction::Finish,
        ],
        rows == 0 ==> actions_of(IndexingTask::StoreDynamic, TaskStage::Start, events) == seq![
            TaskAction::LoadRecentDate,
            TaskAction::LoadRows,
            TaskAction::Finish,
            TaskAction::Finish,
            TaskAction::Finish,
            TaskAction::Finish,
        ],
{
    reveal_with_fuel(actions_of, 7);
    let e1 = events.drop_first();
    let e2 = e1.drop_first();
    let e3 = e2.drop_first();
    let e4 = e3.drop_first();
    let e5 = e4.drop_first();
    assert(e5.drop_first().len() == 0);
    assert(e1[0] == events[1]);
    assert(e2[0] == events[2]);
    assert(e3[0] == events[3]);
    assert(e4[0] == events[4]);
    assert(e5[0] == events[5]);
}

impl TaskMachine {
    /// A job that has not started.
    pub fn new(task: IndexingTask) -> (res: TaskMachine)
        ensures
            res.task == task,
            res.stage == TaskStage::Start,
    {
        TaskMachine { task, stage: TaskStage::Start }
    }

    /// Moves the job on by one step and says what to do.
    pub fn advance(&mut self, event: TaskEvent) -> (action: TaskAction)
        ensures
            final(self).task == old(self).task,
            (final(self).stage, action) == next_step(old(self).task, old(self).stage, event),
    {
        let (stage, action) = match self.stage {
            TaskStage::Done => (TaskStage::Done, TaskAction::Finish),
            TaskStage::Failed => (TaskStage::Failed, TaskAction::Abort),
            TaskStage::Start => {
                if self.task == IndexingTask::StoreDynamic {
                    (TaskStage::LoadingRecentDate, TaskAction::LoadRecentDate)
                } else {
                    (TaskStage::LoadingRows, TaskAction::LoadRows)
                }
            },
            _ => match event {
                TaskEvent::Failed => (TaskStage::Failed, TaskAction::Abort),
                TaskEvent::Succeeded { rows } => match self.stage {
                    TaskStage::LoadingRecentDate => (TaskStage::LoadingRows, TaskAction::LoadRows),
                    TaskStage::LoadingRows => {
                        if self.task != IndexingTask::StoreDynamic {
                            (TaskStage::Posting, TaskAction::PostDocuments)
                        } else if rows == 0 {
                            (TaskStage::Done, TaskAction::Finish)
                        } else {
                            (TaskStage::DeletingChanged, TaskAction::DeleteChanged)
                        }
                    },
                    TaskStage::DeletingChanged => (TaskStage::Posting, TaskAction::PostDocuments),
                    TaskStage::Posting => (TaskStage::UpdatingRecentDate, TaskAction::UpdateRecentDate),
                    _ => (TaskStage::Done, TaskAction::Finish),
                },
            },
        };
        self.stage = stage;
        action
    }
}

} // verus!
