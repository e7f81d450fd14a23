//! Index schedules and the choice of environment file.
use vstd::prelude::*;
use crate::text::concat_text;

verus! {

/// One index to maintain: which job builds it and when.
#[derive(Debug, Clone, PartialEq, Eq)]
pub struct IndexSchedules {
    /// Alias of the index in the search engine.
    pub index_name: String,
    /// Name of the job that builds the index.
    pub function_name: String,
    /// Cron expression of the job's schedule.
    pub time: String,
    /// "static" or "dynamic".
    pub indexing_type: String,
    /// File holding the index settings, where the job needs one.
    pub setting_path: Option<String>,
    /// Rows per database batch.
    pub sql_batch_size: usize,
    /// Rows per search-engine batch.
    pub es_batch_size: usize,
}

/// All indexes to maintain.
#[derive(Debug, Clone, PartialEq, Eq)]
pub struct IndexSchedulesConfig {
    pub index: Vec<IndexSchedules>,
}

impl IndexSchedules {
    pub fn index_name(&self) -> (res: &String)
        ensures
            res == &self.index_name,
    {
        &self.index_name
    }

    pub fn function_name(&self) -> (res: &String)
        ensures
            res == &self.function_name,
    {
        &self.function_name
    }

    pub fn setting_path(&self) -> (res: &Option<String>)
        ensures
            res == &self.setting_path,
    {
        &self.setting_path
    }

    pub fn es_batch_size(&self) -> (res: usize)
        ensures
            res == self.es_batch_size,
    {
        self.es_batch_size
    }

    pub fn sql_batch_size(&self) -> (res: usize)
        ensures
            res == self.sql_batch_size,
    {
        self.sql_batch_size
    }
}

impl IndexSchedulesConfig {
    pub fn index(&self) -> (res: &Vec<IndexSchedules>)
        ensures
            res == &self.index,
    {
        &self.index
    }
}

/// The environment file for the given `APP_ENV` value (`None` when it is unset).
pub open spec fn env_file_of(app_env: Option<Seq<char>>) -> Seq<char> {
    if app_env == Some("prod"@) {
        ".env.prod"@
    } else {
        ".env.dev"@
    }
}

/// Chooses the environment file to load: ".env.prod" for "prod", ".env.dev" otherwise,
/// also when `APP_ENV` is unset.
pub fn env_file_for(app_env: Option<&str>) -> (res: &'static str)
    ensures
        res@ == env_file_of(match app_env { Some(s) => Some(s@), None => None }),
{
    match app_env {
        Some(env_type) => {
            if crate::text::same_text(env_type, "prod") {
                ".env.prod"
            } else {
                ".env.dev"
            }
        },
        None => ".env.dev",
    }
}

/// The key under which an index's schedule is kept: its alias followed by its job name.
pub fn schedule_key(index_name: &str, function_name: &str) -> (res: String)
    ensures
        res@ == index_name@ + function_name@,
{
    concat_text(index_name, function_name)
}

} // verus!
