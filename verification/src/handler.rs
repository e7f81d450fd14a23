//! The jobs' own computations, between reading rows and writing documents.
use vstd::prelude::*;
use crate::analyzer::{AnalyzerService, chosung_of};
use crate::config::IndexSchedules;
use crate::error::IndexingError;
use crate::models::{AutoComplete, AutoSearchKeyword, SubwayInfo, SubwayInfoEs};
use crate::tasks::{IndexingTask, TaskMachine, TaskStage, task_name, indexing_task_for, store_task_for};

verus! {

/// Runs the indexing jobs; holds the analyzer that auto-completion documents need.
pub struct ProcessHandler<A: AnalyzerService> {
    pub analyzer_service: A,
}

impl<A: AnalyzerService> ProcessHandler<A> {
    pub fn new(analyzer_service: A) -> (res: ProcessHandler<A>)
        ensures
            res.analyzer_service == analyzer_service,
    {
        ProcessHandler { analyzer_service }
    }

    /// The job that the schedule names, not yet started; an error when the name maps to
    /// no job.
    pub fn main_indexing_task(&self, index_schedule: &IndexSchedules) -> (res: Result<TaskMachine, IndexingError>)
        ensures
            match res {
                Ok(m) => index_schedule.function_name@ == task_name(m.task) && m.stage == TaskStage::Start,
                Err(e) => e matches IndexingError::UnknownFunction(n) && n@ == index_schedule.function_name@
                    && forall|task: IndexingTask| index_schedule.function_name@ != #[trigger] task_name(task),
            },
    {
        match indexing_task_for(index_schedule.function_name.as_str()) {
            Ok(task) => Ok(TaskMachine::new(task)),
            Err(e) => Err(e),
        }
    }

    /// One auto-completion document per keyword, in order: the keyword, its initials and
    /// its weight.
    pub fn to_auto_complete_list(&self, items: Vec<AutoSearchKeyword>) -> (res: Vec<AutoComplete>)
        ensures
            res@.len() == items@.len(),
            forall|i: int|
                0 <= i < items@.len() ==> (#[trigger] res@[i]).name == items@[i].keyword
                    && res@[i].name_chosung@ == chosung_of(items@[i].keyword@)
                    && res@[i].keyword_weight == items@[i].keyword_weight,
    {
        let mut res: Vec<AutoComplete> = Vec::new();
        let n = items.len();
        let mut i: usize = 0;
        while i < n
            invariant
                n == items@.len(),
                i <= n,
                res@.len() == i,
                forall|k: int|
                    0 <= k < i ==> (#[trigger] res@[k]).name == items@[k].keyword
                        && res@[k].name_chosung@ == chosung_of(items@[k].keyword@)
                        && res@[k].keyword_weight == items@[k].keyword_weight,
            decreases n - i,
        {
            let item = &items[i];
            let name: String = item.keyword.clone();
            let chosung: String = self.analyzer_service.extract_chosung(name.as_str());
            res.push(AutoComplete::new(name, chosung, item.keyword_weight));
            i = i + 1;
        }
        res
    }

    /// The search documents of the subway stations, one per station, in order.
    pub fn subway_documents(&self, subway_infos: &Vec<SubwayInfo>) -> (res: Vec<SubwayInfoEs>)
        ensures
            res@.len() == subway_infos@.len(),
            forall|i: int|
                0 <= i < res@.len() ==> {
                    let d = #[trigger] res@[i];
                    let s = subway_infos@[i];
                    &&& d.seq == s.seq
                    &&& d.subway_line == s.subway_line
                    &&& d.station_name == s.station_name
                    &&& d.station_eng_name == s.station_eng_name
                    &&& d.station_load_addr == s.station_load_addr
                    &&& d.lat == s.lat
                    &&& d.lng == s.lng
                },
    {
        let mut res: Vec<SubwayInfoEs> = Vec::new();
        let n = subway_infos.len();
        let mut i: usize = 0;
        while i < n
            invariant
                n == subway_infos@.len(),
                i <= n,
                res@.len() == i,
                forall|k: int|
                    0 <= k < i ==> {
                        let d = #[trigger] res@[k];
                        let s = subway_infos@[k];
                        &&& d.seq == s.seq
                        &&& d.subway_line == s.subway_line
                        &&& d.station_name == s.station_name
                        &&& d.station_eng_name == s.station_eng_name
                        &&& d.station_load_addr == s.station_load_addr
                        &&& d.lat == s.lat
                        &&& d.lng == s.lng
                    },
            decreases n - i,
        {
            res.push(subway_infos[i].to_es());
            i = i + 1;
        }
        res
    }
}

/// What a full store indexing needs from the schedule.
#[derive(Debug, Clone, PartialEq, Eq)]
pub struct StaticIndexSettings {
    pub index_alias_name: String,
    pub index_setting_path: String,
    pub sql_batch_size: usize,
}

/// The scheduler of the two store jobs, one index at a time.
pub struct MainController;

impl MainController {
    pub fn new() -> (res: MainController) {
        MainController
    }

    /// The store job that the schedule names, not yet started; an error when the name is
    /// neither store job.
    pub fn main_task(&self, index_schedule: &IndexSchedules) -> (res: Result<TaskMachine, IndexingError>)
        ensures
            match res {
                Ok(m) => index_schedule.function_name@ == task_name(m.task) && m.stage == TaskStage::Start
                    && (m.task == IndexingTask::StoreStatic || m.task == IndexingTask::StoreDynamic),
                Err(e) => e matches IndexingError::UnknownFunction(n) && n@ == index_schedule.function_name@
                    && index_schedule.function_name@ != task_name(IndexingTask::StoreStatic)
                    && index_schedule.function_name@ != task_name(IndexingTask::StoreDynamic),
            },
    {
        match store_task_for(index_schedule.function_name.as_str()) {
            Ok(task) => Ok(TaskMachine::new(task)),
            Err(e) => Err(e),
        }
    }

    /// The alias, settings file and batch size of a full store indexing; an error when
    /// the schedule names no settings file.
    pub fn static_index_settings(&self, index_schedule: &IndexSchedules) -> (res: Result<StaticIndexSettings, IndexingError>)
        ensures
            match index_schedule.setting_path {
                Some(path) => res matches Ok(s) && s.index_alias_name == index_schedule.index_name
                    && s.index_setting_path == path && s.sql_batch_size == index_schedule.sql_batch_size,
                None => res matches Err(e) && e == IndexingError::MissingSettingPath,
            },
    {
        match &index_schedule.setting_path {
            Some(path) => Ok(StaticIndexSettings {
                index_alias_name: index_schedule.index_name.clone(),
                index_setting_path: path.clone(),
                sql_batch_size: index_schedule.sql_batch_size,
            }),
            None => Err(IndexingError::MissingSettingPath),
        }
    }
}

} // verus!
