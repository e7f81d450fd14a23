//! Cron schedules of the indexes: which jobs are due at a given time.
use vstd::prelude::*;
use std::str::FromStr;
use chrono::{DateTime, FixedOffset};
use cron::Schedule;
use crate::config::{IndexSchedules, IndexSchedulesConfig};
use crate::error::IndexingError;

verus! {

/// A parsed cron schedule; carried through unchanged.
#[verifier::external_type_specification]
#[verifier::external_body]
pub struct ExSchedule(Schedule);

/// Offset of Korean standard time from UTC, in seconds, in which schedules are read.
pub const KST_UTC_OFFSET_SECONDS: i32 = 32400;

/// chrono's last representable whole second, 262142-12-31T23:59:59 UTC, in seconds past the
/// epoch. The cron crate starts its search one second after the given instant, and chrono
/// panics when that addition leaves its range, so schedules are only asked about earlier
/// instants.
pub const LAST_TIMESTAMP_SECONDS: i64 = 8210266876799;

/// Whether the cron crate's `Schedule::from_str` accepts the expression.
pub uninterp spec fn cron_accepts(expr: Seq<char>) -> bool;

/// The first firing of the schedule written `expr` strictly after the instant `now_secs`
/// seconds and `now_nanos` nanoseconds past the epoch, read in the time zone `utc_offset`
/// seconds east of UTC, as seconds past the epoch, by the cron crate's `Schedule::after`;
/// `None` where there is none or the instant or offset is out of chrono's range.
pub uninterp spec fn cron_next_after(expr: Seq<char>, now_secs: i64, now_nanos: u32, utc_offset: i32) -> Option<i64>;

/// Parses a cron expression with the cron crate's `Schedule::from_str`. Claimed, not
/// proved: a schedule comes back exactly when the crate accepts the expression.
#[verifier::external_body]
fn parse_cron(expr: &str) -> (res: Option<Schedule>)
    ensures
        res is Some <==> cron_accepts(expr@),
{
    Schedule::from_str(expr).ok()
}

/// A cron schedule together with the expression it was parsed from.
pub struct CronSchedule {
    expr: String,
    schedule: Schedule,
}

impl CronSchedule {
    /// The expression that the schedule was parsed from.
    pub closed spec fn expr_view(&self) -> Seq<char> {
        self.expr@
    }
}

/// Parses a cron expression; `None` when the cron crate rejects it.
pub fn parse_schedule(expr: &str) -> (res: Option<CronSchedule>)
    ensures
        res is Some <==> cron_accepts(expr@),
        res matches Some(s) ==> s.expr_view() == expr@,
{
    match parse_cron(expr) {
        Some(schedule) => Some(CronSchedule { expr: expr.to_owned(), schedule }),
        None => None,
    }
}

/// The first firing of `s` after the given instant, by chrono's `FixedOffset::east_opt`,
/// `DateTime::from_timestamp` and `with_timezone`, then the cron crate's `Schedule::after`
/// and the iterator's first item, as a timestamp. Claimed, not proved: the result is
/// `cron_next_after` of the expression `s` was parsed from; this holds because a
/// `CronSchedule` is only built by `parse_schedule`, from that expression. The instant must
/// be before `LAST_TIMESTAMP_SECONDS`, where the cron crate's one-second step would panic.
#[verifier::external_body]
fn next_firing_after(s: &CronSchedule, now_secs: i64, now_nanos: u32, utc_offset: i32) -> (res: Option<i64>)
    requires
        now_secs < LAST_TIMESTAMP_SECONDS,
    ensures
        res == cron_next_after(s.expr_view(), now_secs, now_nanos, utc_offset),
{
    let tz = FixedOffset::east_opt(utc_offset)?;
    let now = DateTime::from_timestamp(now_secs, now_nanos)?.with_timezone(&tz);
    s.schedule.after(&now).next().map(|t| t.timestamp())
}

/// Whole seconds from the instant (`now_secs`, `now_nanos`) to the whole second `next`,
/// with the fraction cut off towards zero.
pub open spec fn whole_seconds_until(next: i64, now_secs: i64, now_nanos: u32) -> int {
    let d = next - now_secs;
    if now_nanos > 0 && d > 0 {
        d - 1
    } else {
        d
    }
}

/// A schedule written `expr` is due at an instant when its next firing in Korean time is
/// less than one whole second away.
pub open spec fn due_at(expr: Seq<char>, now_secs: i64, now_nanos: u32) -> bool {
    match cron_next_after(expr, now_secs, now_nanos, KST_UTC_OFFSET_SECONDS) {
        Some(next) => whole_seconds_until(next, now_secs, now_nanos) < 1,
        None => false,
    }
}

/// Schedules are read in Korean time, 9 hours (32400 seconds) east of UTC: a schedule is
/// due exactly when its first firing in Korean time strictly after the instant is less than
/// one whole second away, counting the elapsed fraction of the current second as chrono's
/// `num_seconds` does (a firing one second after a whole second is due once that second
/// has begun to pass).
pub proof fn lemma_due_in_korean_time(expr: Seq<char>, now_secs: i64, now_nanos: u32)
    ensures
        due_at(expr, now_secs, now_nanos) == (cron_next_after(expr, now_secs, now_nanos, 32400) matches Some(
            next,
        ) && (next - now_secs < 1 || (next - now_secs == 1 && now_nanos > 0))),
{
}

/// Whether the schedule is due at the instant `now_secs` seconds and `now_nanos`
/// nanoseconds past the epoch.
pub fn is_due_at(s: &CronSchedule, now_secs: i64, now_nanos: u32) -> (res: bool)
    requires
        now_secs < LAST_TIMESTAMP_SECONDS,
    ensures
        res == due_at(s.expr_view(), now_secs, now_nanos),
        res == (cron_next_after(s.expr_view(), now_secs, now_nanos, 32400) matches Some(next) && (next
            - now_secs < 1 || (next - now_secs == 1 && now_nanos > 0))),
{
    match next_firing_after(s, now_secs, now_nanos, KST_UTC_OFFSET_SECONDS) {
        Some(next) => {
            let d: i128 = next as i128 - now_secs as i128;
            let whole: i128 = if now_nanos > 0 && d > 0 { d - 1 } else { d };
            whole < 1
        },
        None => false,
    }
}

/// The key of a schedule entry: its alias followed by its job name.
pub open spec fn entry_key(e: IndexSchedules) -> Seq<char> {
    e.index_name@ + e.function_name@
}

/// Position of the last key equal to `k`, or -1.
pub open spec fn last_position_of(keys: Seq<Seq<char>>, k: Seq<char>) -> int
    decreases keys.len(),
{
    if keys.len() == 0 {
        -1
    } else if keys.last() == k {
        keys.len() - 1
    } else {
        last_position_of(keys.drop_last(), k)
    }
}

/// The keys of the entries, in order.
pub open spec fn entry_keys(entries: Seq<IndexSchedules>) -> Seq<Seq<char>> {
    entries.map_values(|e: IndexSchedules| entry_key(e))
}

/// Entry `i` is due: the schedule kept under its key, that of the last entry with the same
/// key, is due at the instant.
pub open spec fn entry_due(entries: Seq<IndexSchedules>, i: int, now_secs: i64, now_nanos: u32) -> bool {
    let j = last_position_of(entry_keys(entries), entry_key(entries[i]));
    due_at(entries[j].time@, now_secs, now_nanos)
}

/// The last position of a key that occurs is a position holding that key.
pub proof fn lemma_last_position(keys: Seq<Seq<char>>, k: Seq<char>, i: int)
    requires
        0 <= i < keys.len(),
        keys[i] == k,
    ensures
        i <= last_position_of(keys, k) < keys.len(),
        keys[last_position_of(keys, k)] == k,
    decreases keys.len(),
{
    if keys.last() != k {
        assert(i < keys.len() - 1);
        assert(keys.drop_last()[i] == k);
        lemma_last_position(keys.drop_last(), k, i);
    }
}

/// The schedules of all indexes, each under its key.
pub struct ScheduleTable {
    keys: Vec<String>,
    schedules: Vec<CronSchedule>,
}

impl ScheduleTable {
    /// One schedule per key.
    #[verifier::type_invariant]
    spec fn well_formed(self) -> bool {
        self.keys@.len() == self.schedules@.len()
    }

    /// The keys, in entry order.
    pub closed spec fn keys_view(&self) -> Seq<Seq<char>> {
        self.keys@.map_values(|k: String| k@)
    }

    /// The expressions of the schedules, in entry order.
    pub closed spec fn exprs_view(&self) -> Seq<Seq<char>> {
        self.schedules@.map_values(|s: CronSchedule| s.expr_view())
    }

    /// Parses the schedule of every entry of the configuration; an error names the first
    /// expression that does not parse.
    pub fn new(config: &IndexSchedulesConfig) -> (res: Result<ScheduleTable, IndexingError>)
        ensures
            match res {
                Ok(t) => {
                    &&& t.keys_view() == entry_keys(config.index@)
                    &&& t.exprs_view() == config.index@.map_values(|e: IndexSchedules| e.time@)
                    &&& forall|i: int| 0 <= i < config.index@.len() ==> cron_accepts(#[trigger] config.index@[i].time@)
                },
                Err(e) => exists|i: int|
                    0 <= i < config.index@.len() && !cron_accepts(#[trigger] config.index@[i].time@)
                        && (forall|k: int| 0 <= k < i ==> cron_accepts(#[trigger] config.index@[k].time@))
                        && e == IndexingError::InvalidCron(config.index@[i].time),
            },
    {
        let entries = &config.index;
        let n = entries.len();
        let mut keys: Vec<String> = Vec::new();
        let mut schedules: Vec<CronSchedule> = Vec::new();
        let mut i: usize = 0;
        while i < n
            invariant
                n == entries@.len(),
                entries == &config.index,
                i <= n,
                keys@.len() == i,
                schedules@.len() == i,
                forall|k: int| 0 <= k < i ==> (#[trigger] keys@[k])@ == entry_key(entries@[k]),
                forall|k: int| 0 <= k < i ==> (#[trigger] schedules@[k]).expr_view() == entries@[k].time@,
                forall|k: int| 0 <= k < i ==> cron_accepts(#[trigger] entries@[k].time@),
            decreases n - i,
        {
            let entry = &entries[i];
            match parse_schedule(entry.time.as_str()) {
                Some(s) => {
                    keys.push(crate::config::schedule_key(entry.index_name.as_str(), entry.function_name.as_str()));
                    schedules.push(s);
                },
                None => {
                    return Err(IndexingError::InvalidCron(entry.time.clone()));
                },
            }
            i = i + 1;
        }
        let t = ScheduleTable { keys, schedules };
        assert(t.keys@.len() == t.schedules@.len());
        assert(t.keys_view() == entry_keys(config.index@));
        assert(t.exprs_view() == config.index@.map_values(|e: IndexSchedules| e.time@));
        Ok(t)
    }

    /// For each entry, in order, whether its job is due at the instant `now_secs` seconds
    /// and `now_nanos` nanoseconds past the epoch: whether the schedule kept under the
    /// entry's key, that of the last entry with the same key, is due.
    pub fn due_flags(&self, now_secs: i64, now_nanos: u32) -> (res: Vec<bool>)
        requires
            now_secs < LAST_TIMESTAMP_SECONDS,
        ensures
            res@.len() == self.keys_view().len(),
            forall|i: int|
                0 <= i < res@.len() ==> #[trigger] res@[i] == due_at(
                    self.exprs_view()[last_position_of(self.keys_view(), self.keys_view()[i])],
                    now_secs,
                    now_nanos,
                ),
    {
        proof {
            use_type_invariant(self);
        }
        let n = self.keys.len();
        let ghost kv = self.keys_view();
        let ghost ev = self.exprs_view();
        let mut res: Vec<bool> = Vec::new();
        let mut i: usize = 0;
        while i < n
            invariant
                n == self.keys@.len(),
                n == self.schedules@.len(),
                now_secs < LAST_TIMESTAMP_SECONDS,
                kv == self.keys_view(),
                ev == self.exprs_view(),
                kv.len() == n,
                ev.len() == n,
                i <= n,
                res@.len() == i,
                forall|k: int|
                    0 <= k < i ==> #[trigger] res@[k] == due_at(ev[last_position_of(kv, kv[k])], now_secs, now_nanos),
            decreases n - i,
        {
            let key = &self.keys[i];
            assert(kv[i as int] == key@);
            let mut k: usize = 0;
            let mut found: usize = i;
            while k < n
                invariant
                    n == self.keys@.len(),
                    kv == self.keys_view(),
                    kv.len() == n,
                    i < n,
                    k <= n,
                    key@ == kv[i as int],
                    last_position_of(kv.take(k as int), key@) >= 0 ==> found as int == last_position_of(kv.take(k as int), key@),
                    last_position_of(kv.take(k as int), key@) < 0 ==> found == i,
                decreases n - k,
            {
                proof {
                    assert(kv.take(k + 1).drop_last() == kv.take(k as int));
                    assert(kv.take(k + 1).last() == kv[k as int]);
                    assert(kv[k as int] == self.keys@[k as int]@);
                }
                if self.keys[k] == *key {
                    found = k;
                }
                k = k + 1;
            }
            proof {
                assert(kv.take(n as int) == kv);
                lemma_last_position(kv, key@, i as int);
                assert(ev[found as int] == self.schedules@[found as int].expr_view());
            }
            res.push(is_due_at(&self.schedules[found], now_secs, now_nanos));
            i = i + 1;
        }
        res
    }
}

/// A table built from a configuration marks entry `i` due exactly when `entry_due` holds:
/// the schedule of the last entry that shares its key is due at the instant.
pub proof fn lemma_due_flags_follow_config(
    t: ScheduleTable,
    config: IndexSchedulesConfig,
    flags: Seq<bool>,
    now_secs: i64,
    now_nanos: u32,
)
    requires
        t.keys_view() == entry_keys(config.index@),
        t.exprs_view() == config.index@.map_values(|e: IndexSchedules| e.time@),
        flags.len() == t.keys_view().len(),
        forall|i: int|
            0 <= i < flags.len() ==> #[trigger] flags[i] == due_at(
                t.exprs_view()[last_position_of(t.keys_view(), t.keys_view()[i])],
                now_secs,
                now_nanos,
            ),
    ensures
        flags.len() == config.index@.len(),
        forall|i: int| 0 <= i < flags.len() ==> #[trigger] flags[i] == entry_due(config.index@, i, now_secs, now_nanos),
{
    let entries = config.index@;
    assert forall|i: int| 0 <= i < flags.len() implies #[trigger] flags[i] == entry_due(entries, i, now_secs, now_nanos) by {
        let kv = t.keys_view();
        assert(kv[i] == entry_key(entries[i]));
        lemma_last_position(kv, kv[i], i);
        let j = last_position_of(kv, kv[i]);
        assert(t.exprs_view()[j] == entries[j].time@);
    }
}

/// Where no two entries of a configuration share a key, each entry's flag says whether
/// that entry's own schedule is due at the instant.
pub proof fn lemma_due_flags_of_distinct_keys(
    t: ScheduleTable,
    config: IndexSchedulesConfig,
    flags: Seq<bool>,
    now_secs: i64,
    now_nanos: u32,
)
    requires
        forall|i: int, j: int|
            0 <= i < j < config.index@.len() ==> entry_key(#[trigger] config.index@[i]) != entry_key(
                #[trigger] config.index@[j],
            ),
        t.keys_view() == entry_keys(config.index@),
        t.exprs_view() == config.index@.map_values(|e: IndexSchedules| e.time@),
        flags.len() == t.keys_view().len(),
        forall|i: int|
            0 <= i < flags.len() ==> #[trigger] flags[i] == due_at(
                t.exprs_view()[last_position_of(t.keys_view(), t.keys_view()[i])],
                now_secs,
                now_nanos,
            ),
    ensures
        flags.len() == config.index@.len(),
        forall|i: int| 0 <= i < flags.len() ==> #[trigger] flags[i] == due_at(config.index@[i].time@, now_secs, now_nanos),
{
    let entries = config.index@;
    let kv = t.keys_view();
    assert forall|i: int| 0 <= i < flags.len() implies #[trigger] flags[i] == due_at(entries[i].time@, now_secs, now_nanos) by {
        lemma_last_position(kv, kv[i], i);
        let j = last_position_of(kv, kv[i]);
        assert(kv[i] == entry_key(entries[i]));
        assert(kv[j] == entry_key(entries[j]));
        if j != i {
            assert(entry_key(entries[i]) != entry_key(entries[j]));
        }
        assert(t.exprs_view()[i] == entries[i].time@);
    }
}

} // verus!
