//! The query surface: each query reads the whole cached record set, keeps
//! the records inside the requested time range, and runs one aggregation
//! pass over them.
//!
//! The range rules: `"today"` keeps records whose local calendar day equals
//! today's, `"week"` and `"month"` keep records whose day lies at or after
//! the range's floor, and any other range — `"all"` included — is no filter
//! at all: the records pass untouched. Which calendar day a record falls on
//! depends on the machine's time zone and the clock, so the day values and
//! floors stay existential; everything else — which rule applies, that the
//! filtered set is a subsequence of the actual corpus, and what the
//! aggregation returns on it — is pinned.

use vstd::prelude::*;
use vstd::multiset::Multiset;
use crate::types::{LogEntry, UsageData, BillingWindow, SessionSummary, SessionSummaryModel};
use crate::cache::{EntryCache, all_entries_of};
use crate::clock::{epoch_millis_of, local_day_of, local_day_bounds};
use crate::text::str_eq;
use crate::parser::{
    aggregate_usage, calculate_billing_windows, get_session_breakdown, spec_totals,
    spec_cost_total, spec_breakdown, spec_windows, spec_sessions, sorted_desc_by_end,
    time_in_range,
};

verus! {

/// The records whose day passes the filter: with `exact`, the day must equal
/// `floor` (the "today" rule); otherwise it must be at or after `floor`. A
/// record with no day (its timestamp did not parse) never passes.
pub open spec fn spec_filter_by_day(
    entries: Seq<LogEntry>,
    days: Seq<Option<i64>>,
    floor: i64,
    exact: bool,
) -> Seq<LogEntry>
    decreases entries.len(),
    when entries.len() == days.len()
{
    if entries.len() == 0 {
        Seq::empty()
    } else {
        let pre = spec_filter_by_day(entries.drop_last(), days.drop_last(), floor, exact);
        match days.last() {
            Option::None => pre,
            Option::Some(d) => if (exact && d == floor) || (!exact && d >= floor) {
                pre.push(entries.last())
            } else {
                pre
            },
        }
    }
}

/// A day assignment consistent with the records: one day per record, present
/// exactly when the record's timestamp parses.
pub open spec fn days_match(entries: Seq<LogEntry>, days: Seq<Option<i64>>) -> bool {
    days.len() == entries.len() && (forall|k: int|
        0 <= k < entries.len() ==> ((#[trigger] days[k]) is Some <==> epoch_millis_of(
            entries[k].timestamp@,
        ) is Some))
}

/// The ranges that bound records by calendar day.
pub open spec fn range_is_day_bounded(time_range: Seq<char>) -> bool {
    time_range == "today"@ || time_range == "week"@ || time_range == "month"@
}

/// Whether a range uses the exact-day rule.
pub open spec fn range_is_exact(time_range: Seq<char>) -> bool {
    time_range == "today"@
}

/// What time-range filtering returns: for a day-bounded range, the day
/// filter at some consistent day assignment and some floor, with the
/// exact-day rule applied precisely for `"today"`; for any other range, the
/// records untouched.
pub open spec fn filter_outcome(
    entries: Seq<LogEntry>,
    time_range: Seq<char>,
    r: Seq<LogEntry>,
) -> bool {
    if range_is_day_bounded(time_range) {
        exists|days: Seq<Option<i64>>, floor: i64|
            days_match(entries, days) && r == #[trigger] spec_filter_by_day(
                entries,
                days,
                floor,
                range_is_exact(time_range),
            )
    } else {
        r == entries
    }
}

/// Keeps the records whose given day passes the filter.
fn filter_entries_by_day(
    entries: &Vec<LogEntry>,
    days: &Vec<Option<i64>>,
    floor: i64,
    exact: bool,
) -> (r: Vec<LogEntry>)
    requires
        entries@.len() == days@.len(),
    ensures
        r@ == spec_filter_by_day(entries@, days@, floor, exact),
{
    let mut out: Vec<LogEntry> = Vec::new();
    let mut j: usize = 0;
    proof {
        assert(entries@.subrange(0, 0) =~= Seq::<LogEntry>::empty());
        assert(days@.subrange(0, 0) =~= Seq::<Option<i64>>::empty());
    }
    while j < entries.len()
        invariant
            j <= entries@.len(),
            entries@.len() == days@.len(),
            out@ == spec_filter_by_day(
                entries@.subrange(0, j as int),
                days@.subrange(0, j as int),
                floor,
                exact,
            ),
        decreases entries@.len() - j,
    {
        proof {
            assert(entries@.subrange(0, j as int + 1).drop_last() =~= entries@.subrange(
                0,
                j as int,
            ));
            assert(days@.subrange(0, j as int + 1).drop_last() =~= days@.subrange(0, j as int));
            assert(entries@.subrange(0, j as int + 1).last() == entries@[j as int]);
            assert(days@.subrange(0, j as int + 1).last() == days@[j as int]);
        }
        match days[j] {
            Option::None => {},
            Option::Some(d) => {
                if (exact && d == floor) || (!exact && d >= floor) {
                    out.push(entries[j].clone());
                }
            },
        }
        j = j + 1;
    }
    proof {
        assert(entries@.subrange(0, entries@.len() as int) =~= entries@);
        assert(days@.subrange(0, days@.len() as int) =~= days@);
    }
    out
}

/// The local day of each record's timestamp, in input order.
fn days_of(entries: &Vec<LogEntry>) -> (r: Vec<Option<i64>>)
    ensures
        days_match(entries@, r@),
{
    let mut out: Vec<Option<i64>> = Vec::new();
    let mut j: usize = 0;
    while j < entries.len()
        invariant
            j <= entries@.len(),
            out@.len() == j,
            forall|k: int|
                0 <= k < j ==> ((#[trigger] out@[k]) is Some <==> epoch_millis_of(
                    entries@[k].timestamp@,
                ) is Some),
        decreases entries@.len() - j,
    {
        out.push(local_day_of(entries[j].timestamp.as_str()));
        j = j + 1;
    }
    out
}

fn clone_entries(entries: &Vec<LogEntry>) -> (r: Vec<LogEntry>)
    ensures
        r@ == entries@,
{
    let mut out: Vec<LogEntry> = Vec::new();
    let mut j: usize = 0;
    while j < entries.len()
        invariant
            j <= entries@.len(),
            out@ == entries@.subrange(0, j as int),
        decreases entries@.len() - j,
    {
        out.push(entries[j].clone());
        j = j + 1;
        proof {
            assert(out@ =~= entries@.subrange(0, j as int));
        }
    }
    proof {
        assert(entries@.subrange(0, entries@.len() as int) =~= entries@);
    }
    out
}

/// Restricts records to a named time range, per `filter_outcome`: `"today"`
/// keeps the current local calendar day, `"week"` the last seven days,
/// `"month"` the current month from its first day — in those three ranges a
/// record whose timestamp does not parse never passes — and any other
/// range, `"all"` included, returns the records untouched.
pub fn filter_entries_by_time_range(entries: &Vec<LogEntry>, time_range: &str) -> (r: Vec<
    LogEntry,
>)
    ensures
        filter_outcome(entries@, time_range@, r@),
{
    let today = str_eq(time_range, "today");
    let week = str_eq(time_range, "week");
    let month = str_eq(time_range, "month");
    if !(today || week || month) {
        return clone_entries(entries);
    }
    let bounds = local_day_bounds();
    let floor: i64 = if today {
        bounds.0
    } else if week {
        bounds.1
    } else {
        bounds.2
    };
    let days = days_of(entries);
    let r = filter_entries_by_day(entries, &days, floor, today);
    proof {
        assert(days_match(entries@, days@) && r@ == spec_filter_by_day(
            entries@,
            days@,
            floor,
            range_is_exact(time_range@),
        ));
    }
    r
}

/// A record vector holding the cache's corpus: its views are exactly the
/// cached records, in cache order.
pub open spec fn corpus_view(all: Seq<LogEntry>, cache: EntryCache) -> bool {
    all.map_values(|e: LogEntry| e@) == all_entries_of(cache.files@)
}

/// The usage-totals query: the result is exactly the usage aggregation of
/// the requested time-range's filtering of the cached corpus. For `"all"`
/// and unrecognized ranges that filtering is the whole corpus; for the
/// day-bounded ranges the day values and floor come from the local
/// calendar and stay existential.
pub fn get_usage_data(cache: &EntryCache, time_range: &str) -> (r: UsageData)
    requires
        cache.wf(),
    ensures
        exists|all: Seq<LogEntry>, es: Seq<LogEntry>|
            #![trigger corpus_view(all, *cache), spec_totals(es)]
            corpus_view(all, *cache) && filter_outcome(all, time_range@, es)
                && r.total_tokens.input_tokens as int == spec_totals(es).0
                && r.total_tokens.output_tokens as int == spec_totals(es).1
                && r.total_tokens.cache_creation_input_tokens as int == spec_totals(es).2
                && r.total_tokens.cache_read_input_tokens as int == spec_totals(es).3
                && r.total_cost_microcents == spec_cost_total(es) && r.model_breakdown@.map_values(
                |m: crate::types::ModelUsage| m@,
            ) == spec_breakdown(es),
{
    let all = cache.get_all_entries();
    let filtered = filter_entries_by_time_range(&all, time_range);
    let r = aggregate_usage(&filtered);
    proof {
        assert(corpus_view(all@, *cache) && filter_outcome(all@, time_range@, filtered@)
            && r.total_tokens.input_tokens as int == spec_totals(filtered@).0
            && r.total_tokens.output_tokens as int == spec_totals(filtered@).1
            && r.total_tokens.cache_creation_input_tokens as int == spec_totals(filtered@).2
            && r.total_tokens.cache_read_input_tokens as int == spec_totals(filtered@).3
            && r.total_cost_microcents == spec_cost_total(filtered@)
            && r.model_breakdown@.map_values(|m: crate::types::ModelUsage| m@) == spec_breakdown(
            filtered@,
        ));
    }
    r
}

/// The billing-windows query: the result is exactly the window scan of the
/// `"today"` filtering of the cached corpus, at some in-range instant.
pub fn get_billing_windows(cache: &EntryCache) -> (r: Vec<BillingWindow>)
    requires
        cache.wf(),
    ensures
        exists|all: Seq<LogEntry>, es: Seq<LogEntry>, n: i64|
            #![trigger corpus_view(all, *cache), spec_windows(es, n)]
            corpus_view(all, *cache) && filter_outcome(all, "today"@, es) && time_in_range(n)
                && r@ == spec_windows(es, n),
{
    let all = cache.get_all_entries();
    let filtered = filter_entries_by_time_range(&all, "today");
    let r = calculate_billing_windows(&filtered);
    proof {
        let n = choose|n: i64| #[trigger] time_in_range(n) && r@ == spec_windows(filtered@, n);
        assert(corpus_view(all@, *cache) && filter_outcome(all@, "today"@, filtered@)
            && time_in_range(n) && r@ == spec_windows(filtered@, n));
    }
    r
}

/// The session-breakdown query: the result holds exactly the session groups
/// of the `"today"` filtering of the cached corpus, sorted descending by
/// end time.
pub fn get_session_breakdown_cmd(cache: &EntryCache) -> (r: Vec<SessionSummary>)
    requires
        cache.wf(),
    ensures
        exists|all: Seq<LogEntry>, es: Seq<LogEntry>|
            #![trigger corpus_view(all, *cache), spec_sessions(es)]
            corpus_view(all, *cache) && filter_outcome(all, "today"@, es)
                && r@.map_values(|s: SessionSummary| s@).to_multiset() == spec_sessions(
                es,
            ).to_multiset(),
        sorted_desc_by_end(r@),
{
    let all = cache.get_all_entries();
    let filtered = filter_entries_by_time_range(&all, "today");
    let r = get_session_breakdown(&filtered);
    proof {
        assert(corpus_view(all@, *cache) && filter_outcome(all@, "today"@, filtered@)
            && r@.map_values(|s: SessionSummary| s@).to_multiset() == spec_sessions(
            filtered@,
        ).to_multiset());
    }
    r
}

} // verus!
