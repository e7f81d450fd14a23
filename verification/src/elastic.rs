//! Publishing a freshly built index under its alias.
use vstd::prelude::*;
use crate::error::IndexingError;
use crate::text::concat_text;
use chrono::NaiveDateTime;

verus! {

/// What chrono's `NaiveDateTime::format` with the pattern "%Y%m%d%H%M%S" writes for a time.
pub uninterp spec fn compact_time_stamp_of(dt: NaiveDateTime) -> Seq<char>;

/// Writes a time as year, month, day, hour, minute and second, each zero-padded, with no
/// separator, by chrono's `NaiveDateTime::format("%Y%m%d%H%M%S")` and `to_string`.
/// Claimed, not proved: the text is `compact_time_stamp_of(dt)`, a name for chrono's result
/// that depends on the time alone; nothing more is said of its characters.
#[verifier::external_body]
fn compact_time_stamp(dt: NaiveDateTime) -> (res: String)
    ensures
        res@ == compact_time_stamp_of(dt),
{
    dt.format("%Y%m%d%H%M%S").to_string()
}

/// The name of a newly built index: the alias, a hyphen and the build time stamp.
pub fn new_index_name(index_alias_name: &str, time_stamp: &str) -> (res: String)
    ensures
        res@ == index_alias_name@ + "-"@ + time_stamp@,
{
    let head = concat_text(index_alias_name, "-");
    concat_text(head.as_str(), time_stamp)
}

/// What chrono's `NaiveDateTime::parse_from_str` with the pattern "%Y-%m-%dT%H:%M:%SZ"
/// gives for a text: the time it reads, or `None` where the text does not match.
pub uninterp spec fn utc_time_parse_of(text: Seq<char>) -> Option<NaiveDateTime>;

/// Reads a time written as store documents write it, by chrono's
/// `NaiveDateTime::parse_from_str(text, "%Y-%m-%dT%H:%M:%SZ")`, with the error dropped.
/// Claimed, not proved: the result is `utc_time_parse_of(text@)`, a name for chrono's result
/// that depends on the text alone; nothing more is said of which texts match.
#[verifier::external_body]
fn parse_utc_time_text(text: &str) -> (res: Option<NaiveDateTime>)
    ensures
        res == utc_time_parse_of(text@),
{
    NaiveDateTime::parse_from_str(text, "%Y-%m-%dT%H:%M:%SZ").ok()
}

/// Builds the publications of the index jobs.
pub struct EsQueryServicePub;

impl EsQueryServicePub {
    pub fn new() -> (res: EsQueryServicePub) {
        EsQueryServicePub
    }

    /// The time of the newest indexed document, from the text of its time field as the
    /// search engine returned it: an error when no document holds one, or when the text
    /// is not a time as store documents write it.
    pub fn recent_index_datetime_of(&self, newest: Option<String>) -> (res: Result<NaiveDateTime, IndexingError>)
        ensures
            match newest {
                None => res == Err::<NaiveDateTime, IndexingError>(IndexingError::NoIndexedTime),
                Some(text) => match utc_time_parse_of(text@) {
                    Some(t) => res == Ok::<NaiveDateTime, IndexingError>(t),
                    None => res == Err::<NaiveDateTime, IndexingError>(IndexingError::InvalidIndexTime(text)),
                },
            },
    {
        match newest {
            None => Err(IndexingError::NoIndexedTime),
            Some(text) => match parse_utc_time_text(text.as_str()) {
                Some(t) => Ok(t),
                None => Err(IndexingError::InvalidIndexTime(text)),
            },
        }
    }
}

/// Where a publication stands.
#[derive(Debug, PartialEq, Eq, Structural, Clone, Copy)]
pub enum BulkStage {
    Start,
    /// The new index is being created with its settings.
    CreatingIndex,
    /// The documents are being written into the new index.
    Indexing,
    /// The search engine is asked whether the alias exists.
    CheckingAlias,
    /// The indexes behind the alias are being read.
    ReadingAlias,
    /// The alias is being moved from the old index to the new one.
    MovingAlias,
    /// The old index is being deleted.
    DeletingOld,
    /// The alias is being created on the new index.
    CreatingAlias,
    /// The alias is being refreshed so that searches see the documents.
    Refreshing,
    Done,
    Failed,
}

/// What the driver is to ask of the search engine next.
#[derive(Debug, PartialEq, Eq, Clone)]
pub enum BulkAction {
    CreateIndex { index: String },
    BulkInsert { index: String },
    CheckAlias { alias: String },
    ReadAlias { alias: String },
    MoveAlias { alias: String, new_index: String, old_index: String },
    DeleteIndex { index: String },
    CreateAlias { alias: String, index: String },
    Refresh { alias: String },
    Finish,
    /// Stop; `error` is the library's reason, or `None` where the failed request's own error stands.
    Abort { error: Option<IndexingError> },
}

/// How the last request went.
#[derive(Debug, PartialEq, Eq, Clone)]
pub enum BulkEvent {
    Succeeded,
    Failed,
    /// The request for the alias succeeded and named these indexes, first one first.
    AliasIndexes(Vec<String>),
}

/// A publication of documents under `alias` through the new index `new_index`.
#[derive(Debug, PartialEq, Eq, Clone)]
pub struct BulkIndexing {
    pub alias: String,
    pub new_index: String,
    pub old_index: Option<String>,
    pub stage: BulkStage,
}

/// Whether a reply reports success.
pub open spec fn succeeded(event: BulkEvent) -> bool {
    !(event is Failed)
}

/// The state with another stage.
pub open spec fn at_stage(m: BulkIndexing, stage: BulkStage) -> BulkIndexing {
    BulkIndexing { stage, ..m }
}

/// The abort step.
pub open spec fn abort_with(m: BulkIndexing, error: Option<IndexingError>) -> (BulkIndexing, BulkAction) {
    (at_stage(m, BulkStage::Failed), BulkAction::Abort { error })
}

/// The step that follows `m` after `event`. Every failed request stops the publication,
/// except the alias check: an alias the engine does not confirm is created anew.
pub open spec fn bulk_next(m: BulkIndexing, event: BulkEvent) -> (BulkIndexing, BulkAction) {
    match m.stage {
        BulkStage::Start => (at_stage(m, BulkStage::CreatingIndex), BulkAction::CreateIndex { index: m.new_index }),
        BulkStage::Done => (m, BulkAction::Finish),
        BulkStage::Failed => (m, BulkAction::Abort { error: None }),
        BulkStage::CheckingAlias => if succeeded(event) {
            (at_stage(m, BulkStage::ReadingAlias), BulkAction::ReadAlias { alias: m.alias })
        } else {
            (at_stage(m, BulkStage::CreatingAlias), BulkAction::CreateAlias { alias: m.alias, index: m.new_index })
        },
        _ => if !succeeded(event) {
            abort_with(m, None)
        } else {
            match m.stage {
                BulkStage::CreatingIndex => (at_stage(m, BulkStage::Indexing), BulkAction::BulkInsert { index: m.new_index }),
                BulkStage::Indexing => (at_stage(m, BulkStage::CheckingAlias), BulkAction::CheckAlias { alias: m.alias }),
                BulkStage::ReadingAlias => match event {
                    BulkEvent::AliasIndexes(keys) => if keys@.len() > 0 {
                        (
                            BulkIndexing { old_index: Some(keys@[0]), stage: BulkStage::MovingAlias, ..m },
                            BulkAction::MoveAlias { alias: m.alias, new_index: m.new_index, old_index: keys@[0] },
                        )
                    } else {
                        abort_with(m, Some(IndexingError::AliasIndexNameMissing))
                    },
                    _ => abort_with(m, Some(IndexingError::AliasIndexNameMissing)),
                },
                BulkStage::MovingAlias => match m.old_index {
                    Some(old) => (at_stage(m, BulkStage::DeletingOld), BulkAction::DeleteIndex { index: old }),
                    None => abort_with(m, Some(IndexingError::AliasIndexNameMissing)),
                },
                BulkStage::DeletingOld => (at_stage(m, BulkStage::Refreshing), BulkAction::Refresh { alias: m.alias }),
                BulkStage::CreatingAlias => (at_stage(m, BulkStage::Refreshing), BulkAction::Refresh { alias: m.alias }),
                _ => (at_stage(m, BulkStage::Done), BulkAction::Finish),
            }
        },
    }
}


/// The requests of a publication when the driver reports `events` one after the other.
pub open spec fn bulk_actions(m: BulkIndexing, events: Seq<BulkEvent>) -> Seq<BulkAction>
    decreases events.len(),
{
    if events.len() == 0 {
        Seq::empty()
    } else {
        let (next, action) = bulk_next(m, events[0]);
        seq![action] + bulk_actions(next, events.drop_first())
    }
}

/// Every failed request except the alias check stops the publication: the state keeps its
/// names and old index, takes the stage `Failed`, and the driver is told to abort with the
/// failed request's own error. A failed bulk insert or alias move therefore never goes on
/// to the alias, to deleting an index, or to a reported success.
pub proof fn lemma_failed_request_stops_publication(m: BulkIndexing)
    requires
        m.stage != BulkStage::Start,
        m.stage != BulkStage::Done,
        m.stage != BulkStage::Failed,
        m.stage != BulkStage::CheckingAlias,
    ensures
        bulk_next(m, BulkEvent::Failed).0 == (BulkIndexing {
            alias: m.alias,
            new_index: m.new_index,
            old_index: m.old_index,
            stage: BulkStage::Failed,
        }),
        bulk_next(m, BulkEvent::Failed).1 == (BulkAction::Abort { error: None }),
{
}

/// A stopped publication stays stopped: whatever the driver reports afterwards, nothing
/// changes and every further step is an abort.
pub proof fn lemma_stopped_publication_only_aborts(m: BulkIndexing, events: Seq<BulkEvent>)
    requires
        m.stage == BulkStage::Failed,
    ensures
        forall|e: BulkEvent| #[trigger] bulk_next(m, e) == (m, (BulkAction::Abort { error: None })),
        forall|i: int| 0 <= i < events.len() ==> #[trigger] bulk_actions(m, events)[i] == (BulkAction::Abort {
            error: None,
        }),
        bulk_actions(m, events).len() == events.len(),
    decreases events.len(),
{
    if events.len() > 0 {
        lemma_stopped_publication_only_aborts(m, events.drop_first());
        let rest = bulk_actions(m, events.drop_first());
        assert forall|i: int| 0 <= i < events.len() implies #[trigger] bulk_actions(m, events)[i] == (BulkAction::Abort {
            error: None,
        }) by {
            if i > 0 {
                assert(bulk_actions(m, events)[i] == rest[i - 1]);
            }
        }
    }
}

/// A publication keeps its alias and its new index from start to end.
pub proof fn lemma_bulk_names_kept(m: BulkIndexing, event: BulkEvent)
    ensures
        bulk_next(m, event).0.alias == m.alias,
        bulk_next(m, event).0.new_index == m.new_index,
{
}

/// The old index is deleted only once the alias has been moved off it onto the new index,
/// and it is the index that the alias named.
pub proof fn lemma_delete_after_alias_moved(m: BulkIndexing, event: BulkEvent)
    ensures
        bulk_next(m, event).1 matches BulkAction::DeleteIndex { index } ==> m.stage
            == BulkStage::MovingAlias && succeeded(event) && m.old_index == Some(index),
{
}

/// The alias is refreshed only once it stands on the new index.
pub proof fn lemma_refresh_after_alias_set(m: BulkIndexing, event: BulkEvent)
    ensures
        bulk_next(m, event).1 is Refresh ==> succeeded(event) && (m.stage == BulkStage::DeletingOld
            || m.stage == BulkStage::CreatingAlias),
{
}

/// Where the alias exists, a publication that meets no failure creates the new index,
/// fills it, moves the alias from the first index behind it to the new index, deletes that
/// old index and refreshes the alias.
pub proof fn lemma_publish_over_existing_alias(m: BulkIndexing, keys: Vec<String>, events: Seq<BulkEvent>)
    requires
        m.stage == BulkStage::Start,
        keys@.len() > 0,
        events.len() == 8,
        events[4] == BulkEvent::AliasIndexes(keys),
        forall|i: int| 0 <= i < 8 && i != 4 ==> #[trigger] events[i] == BulkEvent::Succeeded,
    ensures
        bulk_actions(m, events) == seq![
            BulkAction::CreateIndex { index: m.new_index },
            BulkAction::BulkInsert { index: m.new_index },
            BulkAction::CheckAlias { alias: m.alias },
            BulkAction::ReadAlias { alias: m.alias },
            BulkAction::MoveAlias { alias: m.alias, new_index: m.new_index, old_index: keys@[0] },
            BulkAction::DeleteIndex { index: keys@[0] },
            BulkAction::Refresh { alias: m.alias },
            BulkAction::Finish,
        ],
{
    reveal_with_fuel(bulk_actions, 9);
    let e1 = events.drop_first();
    let e2 = e1.drop_first();
    let e3 = e2.drop_first();
    let e4 = e3.drop_first();
    let e5 = e4.drop_first();
    let e6 = e5.drop_first();
    let e7 = e6.drop_first();
    assert(e7.drop_first().len() == 0);
    assert(events[0] == BulkEvent::Succeeded);
    assert(e1[0] == events[1] && events[1] == BulkEvent::Succeeded);
    assert(e2[0] == events[2] && events[2] == BulkEvent::Succeeded);
    assert(e3[0] == events[3] && events[3] == BulkEvent::Succeeded);
    assert(e4[0] == events[4]);
    assert(e5[0] == events[5] && events[5] == BulkEvent::Succeeded);
    assert(e6[0] == events[6] && events[6] == BulkEvent::Succeeded);
    assert(e7[0] == events[7] && events[7] == BulkEvent::Succeeded);
}

/// Where the engine does not confirm the alias, a publication that meets no other failure
/// creates the new index, fills it, creates the alias on it and refreshes the alias.
pub proof fn lemma_publish_with_new_alias(m: BulkIndexing, events: Seq<BulkEvent>)
    requires
        m.stage == BulkStage::Start,
        events.len() == 6,
        events[3] == BulkEvent::Failed,
        forall|i: int| 0 <= i < 6 && i != 3 ==> #[trigger] events[i] == BulkEvent::Succeeded,
    ensures
        bulk_actions(m, events) == seq![
            BulkAction::CreateIndex { index: m.new_index },
            BulkAction::BulkInsert { index: m.new_index },
            BulkAction::CheckAlias { alias: m.alias },
            BulkAction::CreateAlias { alias: m.alias, index: m.new_index },
            BulkAction::Refresh { alias: m.alias },
            BulkAction::Finish,
        ],
{
    reveal_with_fuel(bulk_actions, 7);
    let e1 = events.drop_first();
    let e2 = e1.drop_first();
    let e3 = e2.drop_first();
    let e4 = e3.drop_first();
    let e5 = e4.drop_first();
    assert(e5.drop_first().len() == 0);
    assert(events[0] == BulkEvent::Succeeded);
    assert(e1[0] == events[1] && events[1] == BulkEvent::Succeeded);
    assert(e2[0] == events[2] && events[2] == BulkEvent::Succeeded);
    assert(e3[0] == events[3]);
    assert(e4[0] == events[4] && events[4] == BulkEvent::Succeeded);
    assert(e5[0] == events[5] && events[5] == BulkEvent::Succeeded);
}

impl BulkIndexing {
    /// A publication of documents under `index_alias_name`, through a new index named
    /// after the alias and the time `built_at`.
    pub fn new(index_alias_name: &str, built_at: NaiveDateTime) -> (res: BulkIndexing)
        ensures
            res.alias@ == index_alias_name@,
            res.new_index@ == index_alias_name@ + "-"@ + compact_time_stamp_of(built_at),
            res.old_index is None,
            res.stage == BulkStage::Start,
    {
        let time_stamp = compact_time_stamp(built_at);
        BulkIndexing {
            alias: index_alias_name.to_owned(),
            new_index: new_index_name(index_alias_name, time_stamp.as_str()),
            old_index: None,
            stage: BulkStage::Start,
        }
    }

    /// Moves the publication on by one step and says what to ask next.
    pub fn advance(&mut self, event: BulkEvent) -> (action: BulkAction)
        ensures
            (*final(self), action) == bulk_next(*old(self), event),
            event is Failed && old(self).stage != BulkStage::Start && old(self).stage != BulkStage::Done
                && old(self).stage != BulkStage::CheckingAlias ==> final(self).stage == BulkStage::Failed
                && action == (BulkAction::Abort { error: None }),
    {
        let failed = match &event {
            BulkEvent::Failed => true,
            _ => false,
        };
        match self.stage {
            BulkStage::Start => {
                self.stage = BulkStage::CreatingIndex;
                BulkAction::CreateIndex { index: self.new_index.clone() }
            },
            BulkStage::Done => BulkAction::Finish,
            BulkStage::Failed => BulkAction::Abort { error: None },
            BulkStage::CheckingAlias => {
                if !failed {
                    self.stage = BulkStage::ReadingAlias;
                    BulkAction::ReadAlias { alias: self.alias.clone() }
                } else {
                    self.stage = BulkStage::CreatingAlias;
                    BulkAction::CreateAlias { alias: self.alias.clone(), index: self.new_index.clone() }
                }
            },
            _ => {
                if failed {
                    self.stage = BulkStage::Failed;
                    BulkAction::Abort { error: None }
                } else {
                    match self.stage {
                        BulkStage::CreatingIndex => {
                            self.stage = BulkStage::Indexing;
                            BulkAction::BulkInsert { index: self.new_index.clone() }
                        },
                        BulkStage::Indexing => {
                            self.stage = BulkStage::CheckingAlias;
                            BulkAction::CheckAlias { alias: self.alias.clone() }
                        },
                        BulkStage::ReadingAlias => {
                            match event {
                                BulkEvent::AliasIndexes(keys) => {
                                    let mut keys = keys;
                                    if keys.len() > 0 {
                                        let first = keys.remove(0);
                                        self.old_index = Some(first.clone());
                                        self.stage = BulkStage::MovingAlias;
                                        BulkAction::MoveAlias {
                                            alias: self.alias.clone(),
                                            new_index: self.new_index.clone(),
                                            old_index: first,
                                        }
                                    } else {
                                        self.stage = BulkStage::Failed;
                                        BulkAction::Abort { error: Some(IndexingError::AliasIndexNameMissing) }
                                    }
                                },
                                _ => {
                                    self.stage = BulkStage::Failed;
                                    BulkAction::Abort { error: Some(IndexingError::AliasIndexNameMissing) }
                                },
                            }
                        },
                        BulkStage::MovingAlias => {
                            match &self.old_index {
                                Some(old) => {
                                    let old = old.clone();
                                    self.stage = BulkStage::DeletingOld;
                                    BulkAction::DeleteIndex { index: old }
                                },
                                None => {
                                    self.stage = BulkStage::Failed;
                                    BulkAction::Abort { error: Some(IndexingError::AliasIndexNameMissing) }
                                },
                            }
                        },
                        BulkStage::DeletingOld => {
                            self.stage = BulkStage::Refreshing;
                            BulkAction::Refresh { alias: self.alias.clone() }
                        },
                        BulkStage::CreatingAlias => {
                            self.stage = BulkStage::Refreshing;
                            BulkAction::Refresh { alias: self.alias.clone() }
                        },
                        _ => {
                            self.stage = BulkStage::Done;
                            BulkAction::Finish
                        },
                    }
                }
            },
        }
    }
}

} // verus!
