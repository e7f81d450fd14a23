use chrono::NaiveDate;
use yummy_indexing::analyzer::AnalyzerServicePub;
use yummy_indexing::config::IndexSchedules;
use yummy_indexing::elastic::{new_index_name, BulkAction, BulkEvent, BulkIndexing, BulkStage};
use yummy_indexing::error::IndexingError;
use yummy_indexing::handler::{MainController, ProcessHandler};
use yummy_indexing::models::AutoSearchKeyword;
use yummy_indexing::tasks::{indexing_task_for, IndexingTask, TaskAction, TaskEvent, TaskMachine, TaskStage};

fn schedule(function_name: &str, setting_path: Option<&str>) -> IndexSchedules {
    IndexSchedules {
        index_name: "yummy-index".to_string(),
        function_name: function_name.to_string(),
        time: "0 0 * * * *".to_string(),
        indexing_type: "static".to_string(),
        setting_path: setting_path.map(|s| s.to_string()),
        sql_batch_size: 500,
        es_batch_size: 1000,
    }
}

const OK: TaskEvent = TaskEvent::Succeeded { rows: 0 };

#[test]
fn task_names_select_jobs() {
    assert_eq!(indexing_task_for("store_static_index"), Ok(IndexingTask::StoreStatic));
    assert_eq!(indexing_task_for("store_dynamic_index"), Ok(IndexingTask::StoreDynamic));
    assert_eq!(indexing_task_for("auto_complete_static_index"), Ok(IndexingTask::AutoCompleteStatic));
    assert_eq!(indexing_task_for("subway_static_index"), Ok(IndexingTask::SubwayStatic));
    assert_eq!(indexing_task_for("Store_static_index"), Err(IndexingError::UnknownFunction("Store_static_index".to_string())));
}

#[test]
fn main_controller_knows_only_store_jobs() {
    let controller = MainController::new();
    assert_eq!(controller.main_task(&schedule("store_dynamic_index", None)).unwrap().task, IndexingTask::StoreDynamic);
    assert_eq!(
        controller.main_task(&schedule("subway_static_index", None)),
        Err(IndexingError::UnknownFunction("subway_static_index".to_string()))
    );
}

#[test]
fn static_index_settings_need_setting_path() {
    let controller = MainController::new();
    let s = controller.static_index_settings(&schedule("store_static_index", Some("./settings.json"))).unwrap();
    assert_eq!(s.index_setting_path, "./settings.json");
    assert_eq!(s.index_alias_name, "yummy-index");
    assert_eq!(s.sql_batch_size, 500);
    assert_eq!(
        controller.static_index_settings(&schedule("store_static_index", None)),
        Err(IndexingError::MissingSettingPath)
    );
}

#[test]
fn rebuild_job_steps() {
    let mut m = TaskMachine::new(IndexingTask::SubwayStatic);
    assert_eq!(m.advance(OK), TaskAction::LoadRows);
    assert_eq!(m.advance(TaskEvent::Succeeded { rows: 0 }), TaskAction::PostDocuments);
    assert_eq!(m.advance(OK), TaskAction::UpdateRecentDate);
    assert_eq!(m.advance(OK), TaskAction::Finish);
    assert_eq!(m.stage, TaskStage::Done);
    assert_eq!(m.advance(TaskEvent::Failed), TaskAction::Finish);
}

#[test]
fn update_job_steps_with_changes() {
    let mut m = TaskMachine::new(IndexingTask::StoreDynamic);
    assert_eq!(m.advance(OK), TaskAction::LoadRecentDate);
    assert_eq!(m.advance(OK), TaskAction::LoadRows);
    assert_eq!(m.advance(TaskEvent::Succeeded { rows: 3 }), TaskAction::DeleteChanged);
    assert_eq!(m.advance(OK), TaskAction::PostDocuments);
    assert_eq!(m.advance(OK), TaskAction::UpdateRecentDate);
    assert_eq!(m.advance(OK), TaskAction::Finish);
}

#[test]
fn update_job_without_changes_finishes() {
    let mut m = TaskMachine::new(IndexingTask::StoreDynamic);
    m.advance(OK);
    m.advance(OK);
    assert_eq!(m.advance(TaskEvent::Succeeded { rows: 0 }), TaskAction::Finish);
    assert_eq!(m.stage, TaskStage::Done);
}

#[test]
fn failed_step_aborts_job() {
    let mut m = TaskMachine::new(IndexingTask::StoreStatic);
    m.advance(OK);
    assert_eq!(m.advance(TaskEvent::Failed), TaskAction::Abort);
    assert_eq!(m.stage, TaskStage::Failed);
    assert_eq!(m.advance(OK), TaskAction::Abort);
}

#[test]
fn process_handler_dispatch_and_auto_complete() {
    let handler = ProcessHandler::new(AnalyzerServicePub::new());
    let m = handler.main_indexing_task(&schedule("auto_complete_static_index", None)).unwrap();
    assert_eq!(m.task, IndexingTask::AutoCompleteStatic);
    assert_eq!(m.stage, TaskStage::Start);
    assert!(handler.main_indexing_task(&schedule("nothing", None)).is_err());
    let list = handler.to_auto_complete_list(vec![
        AutoSearchKeyword::new("삼겹살".to_string(), 10),
        AutoSearchKeyword::new("BBQ치킨".to_string(), 4),
    ]);
    assert_eq!(list.len(), 2);
    assert_eq!(list[0].name, "삼겹살");
    assert_eq!(list[0].name_chosung, "ㅅㄱㅅ");
    assert_eq!(list[0].keyword_weight, 10);
    assert_eq!(list[1].name_chosung, "BBQㅊㅋ");
}

#[test]
fn new_index_name_joins_alias_and_stamp() {
    assert_eq!(new_index_name("store-index", "20250707120000"), "store-index-20250707120000");
}

fn built_at() -> chrono::NaiveDateTime {
    NaiveDate::from_ymd_opt(2025, 7, 7).unwrap().and_hms_opt(9, 5, 3).unwrap()
}

#[test]
fn publication_over_existing_alias() {
    let mut m = BulkIndexing::new("store", built_at());
    assert_eq!(m.new_index, "store-20250707090503");
    let new = m.new_index.clone();
    assert_eq!(m.advance(BulkEvent::Succeeded), BulkAction::CreateIndex { index: new.clone() });
    assert_eq!(m.advance(BulkEvent::Succeeded), BulkAction::BulkInsert { index: new.clone() });
    assert_eq!(m.advance(BulkEvent::Succeeded), BulkAction::CheckAlias { alias: "store".to_string() });
    assert_eq!(m.advance(BulkEvent::Succeeded), BulkAction::ReadAlias { alias: "store".to_string() });
    assert_eq!(
        m.advance(BulkEvent::AliasIndexes(vec!["store-20250101000000".to_string(), "other".to_string()])),
        BulkAction::MoveAlias { alias: "store".to_string(), new_index: new.clone(), old_index: "store-20250101000000".to_string() }
    );
    assert_eq!(m.advance(BulkEvent::Succeeded), BulkAction::DeleteIndex { index: "store-20250101000000".to_string() });
    assert_eq!(m.advance(BulkEvent::Succeeded), BulkAction::Refresh { alias: "store".to_string() });
    assert_eq!(m.advance(BulkEvent::Succeeded), BulkAction::Finish);
    assert_eq!(m.stage, BulkStage::Done);
}

#[test]
fn publication_with_new_alias() {
    let mut m = BulkIndexing::new("subway", built_at());
    let new = m.new_index.clone();
    m.advance(BulkEvent::Succeeded);
    m.advance(BulkEvent::Succeeded);
    m.advance(BulkEvent::Succeeded);
    assert_eq!(m.advance(BulkEvent::Failed), BulkAction::CreateAlias { alias: "subway".to_string(), index: new });
    assert_eq!(m.advance(BulkEvent::Succeeded), BulkAction::Refresh { alias: "subway".to_string() });
    assert_eq!(m.advance(BulkEvent::Succeeded), BulkAction::Finish);
}

#[test]
fn publication_without_alias_index_fails() {
    let mut m = BulkIndexing::new("store", built_at());
    for _ in 0..4 {
        m.advance(BulkEvent::Succeeded);
    }
    assert_eq!(
        m.advance(BulkEvent::AliasIndexes(vec![])),
        BulkAction::Abort { error: Some(IndexingError::AliasIndexNameMissing) }
    );
    assert_eq!(m.stage, BulkStage::Failed);
}

#[test]
fn publication_stops_on_failed_request() {
    let mut m = BulkIndexing::new("store", built_at());
    m.advance(BulkEvent::Succeeded);
    assert_eq!(m.advance(BulkEvent::Failed), BulkAction::Abort { error: None });
    assert_eq!(m.stage, BulkStage::Failed);
}
