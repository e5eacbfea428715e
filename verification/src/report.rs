//! The status report: one row per configured group, and how long ago a
//! probe happened, in words.

use vstd::prelude::*;
use chrono::TimeZone;
use crate::text::{decimal, push_decimal, strings_equal, to_owned_string};

verus! {

/// One row of the status report. `summary` is the position, in the probe
/// summaries given, of the summary of the group's current node.
pub struct MinuteReportRow {
    pub group_key: String,
    pub strategy_group: String,
    pub current_node: String,
    pub summary: Option<usize>,
}

/// The position of the last summary of `(group, node)`.
pub open spec fn last_summary(summaries: Seq<(String, String)>, group: Seq<char>, node: Seq<char>) -> Option<int>
    decreases summaries.len(),
{
    if summaries.len() == 0 {
        None
    } else if summaries.last().0@ == group && summaries.last().1@ == node {
        Some(summaries.len() - 1)
    } else {
        last_summary(summaries.drop_last(), group, node)
    }
}

fn find_last_summary(summaries: &Vec<(String, String)>, group: &String, node: &String) -> (r: Option<usize>)
    ensures
        match r {
            Some(i) => last_summary(summaries@, group@, node@) == Some(i as int),
            None => last_summary(summaries@, group@, node@) is None,
        },
{
    let mut k: usize = summaries.len();
    assert(summaries@.take(k as int) =~= summaries@);
    while k > 0
        invariant
            k <= summaries@.len(),
            last_summary(summaries@, group@, node@) == last_summary(summaries@.take(k as int), group@, node@),
        decreases k,
    {
        let ghost t = summaries@.take(k as int);
        assert(t.drop_last() =~= summaries@.take(k - 1));
        let e = &summaries[k - 1];
        if strings_equal(&e.0, group) && strings_equal(&e.1, node) {
            return Some(k - 1);
        }
        k = k - 1;
    }
    None
}

/// Whether `row` reports group `g` with its saved state `state`: the saved
/// node, or `n/a` without one; the last probe summary of that node, none
/// for `n/a`.
pub open spec fn row_reports(
    row: MinuteReportRow,
    g: (String, crate::config::GroupConfig),
    state: Option<String>,
    summaries: Seq<(String, String)>,
) -> bool {
    let node = match state {
        Some(n) => n@,
        None => "n/a"@,
    };
    &&& row.group_key@ == g.0@
    &&& row.strategy_group@ == g.1.strategy_group@
    &&& row.current_node@ == node
    &&& row.summary == if node == "n/a"@ {
        None::<usize>
    } else {
        match last_summary(summaries, g.0@, node) {
            Some(i) => Some(i as usize),
            None => None,
        }
    }
}

/// The report rows, one per group in order; `states[i]` is the saved node
/// of group `i`, and `summaries` lists the (group, node) of each probe
/// summary.
pub fn report_rows(
    groups: &Vec<(String, crate::config::GroupConfig)>,
    states: &Vec<Option<String>>,
    summaries: &Vec<(String, String)>,
) -> (r: Vec<MinuteReportRow>)
    requires
        states@.len() == groups@.len(),
    ensures
        r@.len() == groups@.len(),
        forall|i: int| 0 <= i < groups@.len() ==> row_reports(#[trigger] r@[i], groups@[i], states@[i], summaries@),
{
    let mut rows: Vec<MinuteReportRow> = Vec::new();
    let mut i: usize = 0;
    while i < groups.len()
        invariant
            i <= groups@.len(),
            states@.len() == groups@.len(),
            rows@.len() == i,
            forall|k: int| 0 <= k < i ==> row_reports(#[trigger] rows@[k], groups@[k], states@[k], summaries@),
        decreases groups@.len() - i,
    {
        let g = &groups[i];
        let current_node = match &states[i] {
            Some(n) => n.clone(),
            None => to_owned_string("n/a"),
        };
        let summary = if crate::text::equals_str(&current_node, "n/a") {
            None
        } else {
            find_last_summary(summaries, &g.0, &current_node)
        };
        rows.push(MinuteReportRow {
            group_key: g.0.clone(),
            strategy_group: g.1.strategy_group.clone(),
            current_node,
            summary,
        });
        i = i + 1;
    }
    rows
}

/// How long ago, in words, for a difference of `diff` seconds below 30
/// days: "just now" below a second, then seconds, minutes, hours, and days
/// with the remaining hours (counts rounded down).
pub open spec fn relative_text(diff: int) -> Seq<char> {
    if diff < 1 {
        "刚刚"@
    } else if diff < 60 {
        decimal(diff as nat) + "秒前"@
    } else if diff < 3600 {
        decimal((diff / 60) as nat) + "分钟前"@
    } else if diff < 86400 {
        decimal((diff / 3600) as nat) + "小时前"@
    } else {
        let days = diff / 86400;
        let hours = (diff / 3600) % 24;
        if hours > 0 {
            decimal(days as nat) + "天"@ + decimal(hours as nat) + "小时前"@
        } else {
            decimal(days as nat) + "天前"@
        }
    }
}

/// The words for a difference of `diff` seconds; `None` from 30 days on,
/// where a calendar date is shown instead.
pub fn relative_time_text(diff: i64) -> (r: Option<String>)
    ensures
        diff < 2_592_000 ==> (r matches Some(s) && s@ == relative_text(diff as int)),
        diff >= 2_592_000 ==> r is None,
{
    if diff < 1 {
        return Some(to_owned_string("刚刚"));
    }
    let mut s = String::new();
    if diff < 60 {
        push_decimal(&mut s, diff as u64);
        s.append("秒前");
    } else if diff < 3600 {
        push_decimal(&mut s, (diff / 60) as u64);
        s.append("分钟前");
    } else if diff < 86400 {
        push_decimal(&mut s, (diff / 3600) as u64);
        s.append("小时前");
    } else if diff < 2_592_000 {
        let days = diff / 86400;
        let hours = (diff / 3600) % 24;
        push_decimal(&mut s, days as u64);
        if hours > 0 {
            s.append("天");
            push_decimal(&mut s, hours as u64);
            s.append("小时前");
        } else {
            s.append("天前");
        }
    } else {
        return None;
    }
    Some(s)
}

/// The last second of the year 9999, in seconds since the epoch.
pub const LAST_SECOND_OF_9999: i64 = 253_402_300_799;

/// Calls chrono's `Local.timestamp_opt(ts, 0).single()` and tells whether
/// it gave a local time. In chrono's source `timestamp_opt` gives a single
/// local time for every `ts` that `DateTime::from_timestamp` accepts, and
/// that takes every time from the epoch to the end of the year 9999; the
/// contract states that much. (chrono panics where the time zone data
/// cannot give an offset; that depends on the machine, not on `ts`.)
#[verifier::external_body]
fn local_time_exists(ts: i64) -> (r: bool)
    ensures
        0 < ts <= LAST_SECOND_OF_9999 ==> r,
{
    chrono::Local.timestamp_opt(ts, 0).single().is_some()
}

/// Calls chrono's `Local.timestamp_opt(ts, 0).single()` and formats the
/// local time as `%Y-%m-%d %H:%M:%S`. As above there is such a time from
/// the epoch to the end of the year 9999; the text itself depends on the
/// machine's time zone and is not stated.
#[verifier::external_body]
fn local_date_text(ts: i64) -> (r: Option<String>)
    ensures
        0 < ts <= LAST_SECOND_OF_9999 ==> r is Some,
{
    chrono::Local.timestamp_opt(ts, 0).single().map(|dt| dt.format("%Y-%m-%d %H:%M:%S").to_string())
}

/// How long ago `update_ts` was, as of `now_ts`: `-` without a time or for
/// times not after the epoch, the words of `relative_time_text` below 30
/// days, and the local calendar date from then on. `-` also stands where
/// chrono has no local time for a timestamp, which is never so from the
/// epoch to the end of the year 9999.
pub fn format_relative_time(update_ts: Option<i64>, now_ts: i64) -> (r: String)
    ensures
        (update_ts is None || update_ts->0 <= 0 || now_ts <= 0) ==> r@ == "-"@,
        update_ts matches Some(ts) ==> (ts > 0 && now_ts > 0 && now_ts - ts < 2_592_000 ==> (
            r@ == "-"@ || r@ == relative_text(now_ts - ts))),
        update_ts matches Some(ts) ==> (0 < ts <= LAST_SECOND_OF_9999 && 0 < now_ts <= LAST_SECOND_OF_9999
            && now_ts - ts < 2_592_000 ==> r@ == relative_text(now_ts - ts)),
{
    let ts = match update_ts {
        None => {
            return to_owned_string("-");
        },
        Some(t) => t,
    };
    if ts <= 0 || now_ts <= 0 {
        return to_owned_string("-");
    }
    if !local_time_exists(now_ts) || !local_time_exists(ts) {
        return to_owned_string("-");
    }
    let diff = now_ts - ts;
    match relative_time_text(diff) {
        Some(s) => s,
        None => match local_date_text(ts) {
            Some(d) => d,
            None => to_owned_string("-"),
        },
    }
}

} // verus!
