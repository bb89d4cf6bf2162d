//! The three aggregation passes over a record set: usage totals with a
//! per-model breakdown, fixed-width billing windows, and per-session
//! summaries.
//!
//! Token sums are exact: the result fields are wide enough that no count of
//! `u64`-sized summands can overflow them, and the per-model buckets are
//! proved to sum to the grand totals. Cost sums saturate at the top of
//! `u128`, far beyond any value the price table can produce.

use vstd::prelude::*;
use vstd::multiset::Multiset;
use crate::types::{
    LogEntry, TokenUsage, AggregatedTokens, ModelUsage, ModelUsageModel, UsageData,
    BillingWindow, SessionSummary, SessionSummaryModel,
};

use crate::json::or_zero;
use crate::text::{lower_of, str_eq, str_lex_leq, lex_leq, lemma_lex_leq_total, lemma_lex_leq_trans};
use crate::pricing::{spec_cost_microcents, calculate_cost};
use crate::clock::{epoch_millis_of, parse_timestamp_millis, now_millis, now_rfc3339};

verus! {

/// The model identifier a record is bucketed under.
pub open spec fn model_key(e: LogEntry) -> Seq<char> {
    match e.message.model {
        Option::Some(m) => m@,
        Option::None => "unknown"@,
    }
}

pub open spec fn clamp128(x: int) -> u128 {
    if x > u128::MAX {
        u128::MAX
    } else if x < 0 {
        0u128
    } else {
        x as u128
    }
}

pub open spec fn sat_add128(a: u128, b: u128) -> u128 {
    if a + b > u128::MAX {
        u128::MAX
    } else {
        (a + b) as u128
    }
}

fn sat_add(a: u128, b: u128) -> (r: u128)
    ensures
        r == sat_add128(a, b),
{
    match a.checked_add(b) {
        Option::Some(v) => v,
        Option::None => u128::MAX,
    }
}

/// The cost one record contributes: its own precomputed cost if present,
/// else the price-table cost of its usage; zero without a usage block.
pub open spec fn record_cost(e: LogEntry) -> u128 {
    match e.message.usage {
        Option::None => 0u128,
        Option::Some(u) => match e.cost_microcents {
            Option::Some(c) => c,
            Option::None => clamp128(spec_cost_microcents(lower_of(model_key(e)), u)),
        },
    }
}

fn entry_cost(e: &LogEntry) -> (r: u128)
    ensures
        r == record_cost(*e),
{
    match &e.message.usage {
        Option::None => 0,
        Option::Some(u) => match e.cost_microcents {
            Option::Some(c) => c,
            Option::None => {
                let model_cost = match &e.message.model {
                    Option::Some(m) => calculate_cost(m.as_str(), u),
                    Option::None => calculate_cost("unknown", u),
                };
                model_cost
            },
        },
    }
}

/// Exact token totals of a record set, one component per usage field.
pub open spec fn spec_totals(entries: Seq<LogEntry>) -> (int, int, int, int)
    decreases entries.len(),
{
    if entries.len() == 0 {
        (0int, 0int, 0int, 0int)
    } else {
        let t = spec_totals(entries.drop_last());
        match entries.last().message.usage {
            Option::None => t,
            Option::Some(u) => (
                t.0 + u.input_tokens,
                t.1 + u.output_tokens,
                t.2 + or_zero(u.cache_creation_input_tokens),
                t.3 + or_zero(u.cache_read_input_tokens),
            ),
        }
    }
}

/// Saturating cost total of a record set.
pub open spec fn spec_cost_total(entries: Seq<LogEntry>) -> u128
    decreases entries.len(),
{
    if entries.len() == 0 {
        0u128
    } else {
        sat_add128(spec_cost_total(entries.drop_last()), record_cost(entries.last()))
    }
}

/// First bucket index holding the given model, or -1.
pub open spec fn spec_find_model(bs: Seq<ModelUsageModel>, key: Seq<char>) -> int
    decreases bs.len(),
{
    if bs.len() == 0 {
        -1
    } else if bs[0].model == key {
        0
    } else {
        let r = spec_find_model(bs.skip(1), key);
        if r == -1 {
            -1
        } else {
            r + 1
        }
    }
}

proof fn lemma_find_model_at(bs: Seq<ModelUsageModel>, key: Seq<char>, j: int)
    requires
        0 <= j < bs.len(),
        bs[j].model == key,
        forall|t: int| 0 <= t < j ==> (#[trigger] bs[t]).model != key,
    ensures
        spec_find_model(bs, key) == j,
    decreases j,
{
    if j > 0 {
        lemma_find_model_at(bs.skip(1), key, j - 1);
    }
}

proof fn lemma_find_model_none(bs: Seq<ModelUsageModel>, key: Seq<char>)
    requires
        forall|t: int| 0 <= t < bs.len() ==> (#[trigger] bs[t]).model != key,
    ensures
        spec_find_model(bs, key) == -1,
    decreases bs.len(),
{
    if bs.len() > 0 {
        lemma_find_model_none(bs.skip(1), key);
    }
}

proof fn lemma_find_model_valid(bs: Seq<ModelUsageModel>, key: Seq<char>)
    ensures
        spec_find_model(bs, key) == -1 || (0 <= spec_find_model(bs, key) < bs.len()
            && bs[spec_find_model(bs, key)].model == key),
    decreases bs.len(),
{
    if bs.len() > 0 && bs[0].model != key {
        lemma_find_model_valid(bs.skip(1), key);
    }
}

/// One record folded into the breakdown: added to its model's bucket, or
/// opening a new bucket at the end.
pub open spec fn spec_breakdown_step(bs: Seq<ModelUsageModel>, e: LogEntry) -> Seq<
    ModelUsageModel,
> {
    match e.message.usage {
        Option::None => bs,
        Option::Some(u) => {
            let key = model_key(e);
            let c = record_cost(e);
            let idx = spec_find_model(bs, key);
            if idx == -1 {
                bs.push(
                    ModelUsageModel {
                        model: key,
                        input_tokens: u.input_tokens as int,
                        output_tokens: u.output_tokens as int,
                        cache_creation_input_tokens: or_zero(u.cache_creation_input_tokens) as int,
                        cache_read_input_tokens: or_zero(u.cache_read_input_tokens) as int,
                        cost_microcents: c,
                    },
                )
            } else {
                bs.update(
                    idx,
                    ModelUsageModel {
                        model: bs[idx].model,
                        input_tokens: bs[idx].input_tokens + u.input_tokens,
                        output_tokens: bs[idx].output_tokens + u.output_tokens,
                        cache_creation_input_tokens: bs[idx].cache_creation_input_tokens + or_zero(
                            u.cache_creation_input_tokens,
                        ),
                        cache_read_input_tokens: bs[idx].cache_read_input_tokens + or_zero(
                            u.cache_read_input_tokens,
                        ),
                        cost_microcents: sat_add128(bs[idx].cost_microcents, c),
                    },
                )
            }
        },
    }
}

/// The per-model breakdown of a record set, buckets in order of each
/// model's first appearance.
pub open spec fn spec_breakdown(entries: Seq<LogEntry>) -> Seq<ModelUsageModel>
    decreases entries.len(),
{
    if entries.len() == 0 {
        Seq::empty()
    } else {
        spec_breakdown_step(spec_breakdown(entries.drop_last()), entries.last())
    }
}

/// Componentwise token sums over the buckets of a breakdown.
pub open spec fn spec_bucket_sums(bs: Seq<ModelUsageModel>) -> (int, int, int, int)
    decreases bs.len(),
{
    if bs.len() == 0 {
        (0int, 0int, 0int, 0int)
    } else {
        let t = spec_bucket_sums(bs.drop_last());
        (
            t.0 + bs.last().input_tokens,
            t.1 + bs.last().output_tokens,
            t.2 + bs.last().cache_creation_input_tokens,
            t.3 + bs.last().cache_read_input_tokens,
        )
    }
}

proof fn lemma_bucket_sums_update(bs: Seq<ModelUsageModel>, idx: int, nb: ModelUsageModel)
    requires
        0 <= idx < bs.len(),
    ensures
        spec_bucket_sums(bs.update(idx, nb)).0 == spec_bucket_sums(bs).0 + nb.input_tokens
            - bs[idx].input_tokens,
        spec_bucket_sums(bs.update(idx, nb)).1 == spec_bucket_sums(bs).1 + nb.output_tokens
            - bs[idx].output_tokens,
        spec_bucket_sums(bs.update(idx, nb)).2 == spec_bucket_sums(bs).2
            + nb.cache_creation_input_tokens - bs[idx].cache_creation_input_tokens,
        spec_bucket_sums(bs.update(idx, nb)).3 == spec_bucket_sums(bs).3
            + nb.cache_read_input_tokens - bs[idx].cache_read_input_tokens,
    decreases bs.len(),
{
    let ub = bs.update(idx, nb);
    if idx == bs.len() - 1 {
        assert(ub.drop_last() =~= bs.drop_last());
        assert(ub.last() == nb);
    } else {
        assert(ub.drop_last() =~= bs.drop_last().update(idx, nb));
        assert(ub.last() == bs.last());
        lemma_bucket_sums_update(bs.drop_last(), idx, nb);
    }
}

proof fn lemma_bucket_sums_push(bs: Seq<ModelUsageModel>, nb: ModelUsageModel)
    ensures
        spec_bucket_sums(bs.push(nb)).0 == spec_bucket_sums(bs).0 + nb.input_tokens,
        spec_bucket_sums(bs.push(nb)).1 == spec_bucket_sums(bs).1 + nb.output_tokens,
        spec_bucket_sums(bs.push(nb)).2 == spec_bucket_sums(bs).2
            + nb.cache_creation_input_tokens,
        spec_bucket_sums(bs.push(nb)).3 == spec_bucket_sums(bs).3 + nb.cache_read_input_tokens,
{
    assert(bs.push(nb).drop_last() =~= bs);
    assert(bs.push(nb).last() == nb);
}

/// The per-model buckets sum exactly to the grand totals, on every record
/// set: folding one record moves its counts into exactly one bucket.
pub proof fn lemma_breakdown_sums_to_totals(entries: Seq<LogEntry>)
    ensures
        spec_bucket_sums(spec_breakdown(entries)) == spec_totals(entries),
    decreases entries.len(),
{
    if entries.len() > 0 {
        let pre = entries.drop_last();
        let e = entries.last();
        lemma_breakdown_sums_to_totals(pre);
        let bs = spec_breakdown(pre);
        match e.message.usage {
            Option::None => {},
            Option::Some(u) => {
                let key = model_key(e);
                let idx = spec_find_model(bs, key);
                lemma_find_model_valid(bs, key);
                if idx == -1 {
                    lemma_bucket_sums_push(
                        bs,
                        ModelUsageModel {
                            model: key,
                            input_tokens: u.input_tokens as int,
                            output_tokens: u.output_tokens as int,
                            cache_creation_input_tokens: or_zero(
                                u.cache_creation_input_tokens,
                            ) as int,
                            cache_read_input_tokens: or_zero(u.cache_read_input_tokens) as int,
                            cost_microcents: record_cost(e),
                        },
                    );
                } else {
                    lemma_bucket_sums_update(
                        bs,
                        idx,
                        ModelUsageModel {
                            model: bs[idx].model,
                            input_tokens: bs[idx].input_tokens + u.input_tokens,
                            output_tokens: bs[idx].output_tokens + u.output_tokens,
                            cache_creation_input_tokens: bs[idx].cache_creation_input_tokens
                                + or_zero(u.cache_creation_input_tokens),
                            cache_read_input_tokens: bs[idx].cache_read_input_tokens + or_zero(
                                u.cache_read_input_tokens,
                            ),
                            cost_microcents: sat_add128(bs[idx].cost_microcents, record_cost(e)),
                        },
                    );
                }
            },
        }
    }
}

/// Saturating sum of the buckets' costs.
pub open spec fn spec_bucket_cost_sum(bs: Seq<ModelUsageModel>) -> u128
    decreases bs.len(),
{
    if bs.len() == 0 {
        0u128
    } else {
        sat_add128(spec_bucket_cost_sum(bs.drop_last()), bs.last().cost_microcents)
    }
}

proof fn lemma_sat_add_assoc(x: u128, y: u128, z: u128)
    ensures
        sat_add128(sat_add128(x, y), z) == sat_add128(x, sat_add128(y, z)),
{
}

proof fn lemma_sat_add_exchange(x: u128, y: u128, c: u128)
    ensures
        sat_add128(sat_add128(x, c), y) == sat_add128(sat_add128(x, y), c),
{
}

proof fn lemma_bucket_cost_sum_update(
    bs: Seq<ModelUsageModel>,
    idx: int,
    nb: ModelUsageModel,
    c: u128,
)
    requires
        0 <= idx < bs.len(),
        nb.cost_microcents == sat_add128(bs[idx].cost_microcents, c),
    ensures
        spec_bucket_cost_sum(bs.update(idx, nb)) == sat_add128(spec_bucket_cost_sum(bs), c),
    decreases bs.len(),
{
    let ub = bs.update(idx, nb);
    if idx == bs.len() - 1 {
        assert(ub.drop_last() =~= bs.drop_last());
        assert(ub.last() == nb);
        lemma_sat_add_assoc(
            spec_bucket_cost_sum(bs.drop_last()),
            bs[idx].cost_microcents,
            c,
        );
    } else {
        assert(ub.drop_last() =~= bs.drop_last().update(idx, nb));
        assert(ub.last() == bs.last());
        lemma_bucket_cost_sum_update(bs.drop_last(), idx, nb, c);
        lemma_sat_add_exchange(
            spec_bucket_cost_sum(bs.drop_last()),
            bs.last().cost_microcents,
            c,
        );
    }
}

/// The cost half of the totals law: the buckets' saturating cost sum equals
/// the records' saturating cost total, on every record set — folding one
/// record adds its cost to exactly one bucket and to the total, and
/// saturating addition regroups freely.
pub proof fn lemma_breakdown_costs_sum_to_total(entries: Seq<LogEntry>)
    ensures
        spec_bucket_cost_sum(spec_breakdown(entries)) == spec_cost_total(entries),
    decreases entries.len(),
{
    if entries.len() > 0 {
        let pre = entries.drop_last();
        let e = entries.last();
        lemma_breakdown_costs_sum_to_total(pre);
        let bs = spec_breakdown(pre);
        let c = record_cost(e);
        match e.message.usage {
            Option::None => {
            },
            Option::Some(u) => {
                let key = model_key(e);
                let idx = spec_find_model(bs, key);
                lemma_find_model_valid(bs, key);
                if idx == -1 {
                    let nb = ModelUsageModel {
                        model: key,
                        input_tokens: u.input_tokens as int,
                        output_tokens: u.output_tokens as int,
                        cache_creation_input_tokens: or_zero(u.cache_creation_input_tokens) as int,
                        cache_read_input_tokens: or_zero(u.cache_read_input_tokens) as int,
                        cost_microcents: c,
                    };
                    assert(spec_breakdown(entries) == bs.push(nb));
                    assert(bs.push(nb).drop_last() =~= bs);
                    assert(bs.push(nb).last() == nb);
                } else {
                    let nb = ModelUsageModel {
                        model: bs[idx].model,
                        input_tokens: bs[idx].input_tokens + u.input_tokens,
                        output_tokens: bs[idx].output_tokens + u.output_tokens,
                        cache_creation_input_tokens: bs[idx].cache_creation_input_tokens
                            + or_zero(u.cache_creation_input_tokens),
                        cache_read_input_tokens: bs[idx].cache_read_input_tokens + or_zero(
                            u.cache_read_input_tokens,
                        ),
                        cost_microcents: sat_add128(bs[idx].cost_microcents, c),
                    };
                    assert(spec_breakdown(entries) == bs.update(idx, nb));
                    lemma_bucket_cost_sum_update(bs, idx, nb, c);
                }
            },
        }
    }
}

/// Bucket token fields are never negative.
proof fn lemma_breakdown_nonneg(entries: Seq<LogEntry>)
    ensures
        forall|k: int|
            0 <= k < spec_breakdown(entries).len() ==> {
                let b = #[trigger] spec_breakdown(entries)[k];
                b.input_tokens >= 0 && b.output_tokens >= 0 && b.cache_creation_input_tokens >= 0
                    && b.cache_read_input_tokens >= 0
            },
    decreases entries.len(),
{
    if entries.len() > 0 {
        lemma_breakdown_nonneg(entries.drop_last());
        let bs = spec_breakdown(entries.drop_last());
        let e = entries.last();
        if e.message.usage is Some {
            lemma_find_model_valid(bs, model_key(e));
        }
    }
}

/// Each bucket's fields are bounded by the grand totals.
proof fn lemma_element_le_sums(bs: Seq<ModelUsageModel>, k: int)
    requires
        0 <= k < bs.len(),
        forall|t: int|
            0 <= t < bs.len() ==> {
                let b = #[trigger] bs[t];
                b.input_tokens >= 0 && b.output_tokens >= 0 && b.cache_creation_input_tokens >= 0
                    && b.cache_read_input_tokens >= 0
            },
    ensures
        bs[k].input_tokens <= spec_bucket_sums(bs).0,
        bs[k].output_tokens <= spec_bucket_sums(bs).1,
        bs[k].cache_creation_input_tokens <= spec_bucket_sums(bs).2,
        bs[k].cache_read_input_tokens <= spec_bucket_sums(bs).3,
    decreases bs.len(),
{
    if k == bs.len() - 1 {
        lemma_bucket_sums_nonneg(bs.drop_last());
    } else {
        lemma_element_le_sums(bs.drop_last(), k);
    }
}

proof fn lemma_bucket_sums_nonneg(bs: Seq<ModelUsageModel>)
    requires
        forall|t: int|
            0 <= t < bs.len() ==> {
                let b = #[trigger] bs[t];
                b.input_tokens >= 0 && b.output_tokens >= 0 && b.cache_creation_input_tokens >= 0
                    && b.cache_read_input_tokens >= 0
            },
    ensures
        spec_bucket_sums(bs).0 >= 0,
        spec_bucket_sums(bs).1 >= 0,
        spec_bucket_sums(bs).2 >= 0,
        spec_bucket_sums(bs).3 >= 0,
    decreases bs.len(),
{
    if bs.len() > 0 {
        lemma_bucket_sums_nonneg(bs.drop_last());
    }
}

/// The grand totals are bounded by the record count times the largest count.
proof fn lemma_totals_bound(entries: Seq<LogEntry>)
    ensures
        spec_totals(entries).0 <= entries.len() * 0xFFFFFFFFFFFFFFFF,
        spec_totals(entries).1 <= entries.len() * 0xFFFFFFFFFFFFFFFF,
        spec_totals(entries).2 <= entries.len() * 0xFFFFFFFFFFFFFFFF,
        spec_totals(entries).3 <= entries.len() * 0xFFFFFFFFFFFFFFFF,
        spec_totals(entries).0 >= 0,
        spec_totals(entries).1 >= 0,
        spec_totals(entries).2 >= 0,
        spec_totals(entries).3 >= 0,
    decreases entries.len(),
{
    if entries.len() > 0 {
        lemma_totals_bound(entries.drop_last());
    }
}

/// The usage-totals pass: exact token totals, per-model buckets in order of
/// first appearance, a saturating cost total, and a freshness stamp from the
/// clock (the one field this contract does not pin).
pub fn aggregate_usage(entries: &Vec<LogEntry>) -> (r: UsageData)
    ensures
        r.total_tokens.input_tokens as int == spec_totals(entries@).0,
        r.total_tokens.output_tokens as int == spec_totals(entries@).1,
        r.total_tokens.cache_creation_input_tokens as int == spec_totals(entries@).2,
        r.total_tokens.cache_read_input_tokens as int == spec_totals(entries@).3,
        r.total_cost_microcents == spec_cost_total(entries@),
        r.model_breakdown@.map_values(|m: ModelUsage| m@) == spec_breakdown(entries@),
{
    let mut tin: u128 = 0;
    let mut tout: u128 = 0;
    let mut tcc: u128 = 0;
    let mut tcr: u128 = 0;
    let mut tcost: u128 = 0;
    let mut buckets: Vec<ModelUsage> = Vec::new();
    let mut j: usize = 0;
    proof {
        assert(entries@.subrange(0, 0) =~= Seq::<LogEntry>::empty());
        assert(buckets@.map_values(|m: ModelUsage| m@) =~= spec_breakdown(
            entries@.subrange(0, 0),
        ));
    }
    while j < entries.len()
        invariant
            j <= entries@.len(),
            tin as int == spec_totals(entries@.subrange(0, j as int)).0,
            tout as int == spec_totals(entries@.subrange(0, j as int)).1,
            tcc as int == spec_totals(entries@.subrange(0, j as int)).2,
            tcr as int == spec_totals(entries@.subrange(0, j as int)).3,
            tcost == spec_cost_total(entries@.subrange(0, j as int)),
            buckets@.map_values(|m: ModelUsage| m@) == spec_breakdown(
                entries@.subrange(0, j as int),
            ),
        decreases entries@.len() - j,
    {
        let ghost pre = entries@.subrange(0, j as int);
        let ghost post = entries@.subrange(0, j as int + 1);
        proof {
            assert(post.drop_last() =~= pre);
            assert(post.last() == entries@[j as int]);
            lemma_totals_bound(pre);
            assert(pre.len() * 0xFFFFFFFFFFFFFFFF <= 0xFFFFFFFFFFFFFFFFint
                * 0xFFFFFFFFFFFFFFFF) by (nonlinear_arith)
                requires
                    pre.len() <= 0xFFFFFFFFFFFFFFFFint,
            ;
        }
        let e = &entries[j];
        let c = entry_cost(e);
        proof {
            assert(c == record_cost(entries@[j as int]));
        }
        match &e.message.usage {
            Option::None => {
                proof {
                    assert(spec_totals(post) == spec_totals(pre));
                    assert(spec_cost_total(post) == sat_add128(
                        spec_cost_total(pre),
                        record_cost(post.last()),
                    ));
                    assert(record_cost(post.last()) == 0);
                    assert(spec_breakdown(post) == spec_breakdown(pre));
                }
                tcost = sat_add(tcost, c);
            },
            Option::Some(u) => {
                let u = *u;
                tin = tin + u.input_tokens as u128;
                tout = tout + u.output_tokens as u128;
                let ucc: u64 = match u.cache_creation_input_tokens {
                    Option::None => 0,
                    Option::Some(v) => v,
                };
                let ucr: u64 = match u.cache_read_input_tokens {
                    Option::None => 0,
                    Option::Some(v) => v,
                };
                tcc = tcc + ucc as u128;
                tcr = tcr + ucr as u128;
                tcost = sat_add(tcost, c);
                let key_string;
                match &e.message.model {
                    Option::Some(m) => {
                        key_string = m.clone();
                    },
                    Option::None => {
                        key_string = String::from_str("unknown");
                    },
                }
                proof {
                    assert(key_string@ == model_key(entries@[j as int]));
                }
                let ghost bs = buckets@.map_values(|m: ModelUsage| m@);
                let mut k: usize = 0;
                while k < buckets.len() && !str_eq(buckets[k].model.as_str(), key_string.as_str())
                    invariant
                        k <= buckets@.len(),
                        bs == buckets@.map_values(|m: ModelUsage| m@),
                        forall|t: int| 0 <= t < k ==> (#[trigger] bs[t]).model != key_string@,
                    decreases buckets@.len() - k,
                {
                    k = k + 1;
                }
                let found = k < buckets.len();
                proof {
                    lemma_breakdown_nonneg(pre);
                    lemma_breakdown_sums_to_totals(pre);
                }
                if found {
                    proof {
                        lemma_find_model_at(bs, key_string@, k as int);
                        lemma_element_le_sums(bs, k as int);
                    }
                    let nb = ModelUsage {
                        model: key_string,
                        input_tokens: buckets[k].input_tokens + u.input_tokens as u128,
                        output_tokens: buckets[k].output_tokens + u.output_tokens as u128,
                        cache_creation_input_tokens: buckets[k].cache_creation_input_tokens
                            + ucc as u128,
                        cache_read_input_tokens: buckets[k].cache_read_input_tokens
                            + ucr as u128,
                        cost_microcents: sat_add(buckets[k].cost_microcents, c),
                    };
                    buckets[k] = nb;
                    proof {
                        assert(buckets@.map_values(|m: ModelUsage| m@) =~= spec_breakdown_step(
                            bs,
                            entries@[j as int],
                        ));
                    }
                } else {
                    proof {
                        lemma_find_model_none(bs, key_string@);
                    }
                    buckets.push(
                        ModelUsage {
                            model: key_string,
                            input_tokens: u.input_tokens as u128,
                            output_tokens: u.output_tokens as u128,
                            cache_creation_input_tokens: ucc as u128,
                            cache_read_input_tokens: ucr as u128,
                            cost_microcents: c,
                        },
                    );
                    proof {
                        assert(buckets@.map_values(|m: ModelUsage| m@) =~= spec_breakdown_step(
                            bs,
                            entries@[j as int],
                        ));
                    }
                }
            },
        }
        j = j + 1;
    }
    proof {
        assert(entries@.subrange(0, entries@.len() as int) =~= entries@);
    }
    UsageData {
        total_cost_microcents: tcost,
        total_tokens: AggregatedTokens {
            input_tokens: tin,
            output_tokens: tout,
            cache_creation_input_tokens: tcc,
            cache_read_input_tokens: tcr,
        },
        model_breakdown: buckets,
        last_updated: now_rfc3339(),
    }
}

/// The billing window span: five hours, in milliseconds.
pub const WINDOW_MILLIS: i64 = 18000000;

/// Instants the window arithmetic accepts; anything chrono can parse lies
/// well inside.
pub open spec fn time_in_range(t: i64) -> bool {
    -0x80000000000000 <= t <= 0x80000000000000
}

/// The parsed instant of a record, if its timestamp parses to an instant in
/// range.
pub open spec fn entry_time(e: LogEntry) -> Option<i64> {
    match epoch_millis_of(e.timestamp@) {
        Option::None => Option::None,
        Option::Some(t) => if time_in_range(t) {
            Option::Some(t)
        } else {
            Option::None
        },
    }
}

/// All four token counts of a record summed; zero without a usage block.
pub open spec fn entry_tokens(e: LogEntry) -> u128 {
    match e.message.usage {
        Option::None => 0u128,
        Option::Some(u) => (u.input_tokens + u.output_tokens + or_zero(
            u.cache_creation_input_tokens,
        ) + or_zero(u.cache_read_input_tokens)) as u128,
    }
}

fn tokens_of_entry(e: &LogEntry) -> (r: u128)
    ensures
        r == entry_tokens(*e),
{
    match &e.message.usage {
        Option::None => 0,
        Option::Some(u) => {
            let cc: u64 = match u.cache_creation_input_tokens {
                Option::None => 0,
                Option::Some(v) => v,
            };
            let cr: u64 = match u.cache_read_input_tokens {
                Option::None => 0,
                Option::Some(v) => v,
            };
            u.input_tokens as u128 + u.output_tokens as u128 + cc as u128 + cr as u128
        },
    }
}

/// A window closed at `now`: its end lies exactly the span after its start,
/// the remaining minutes never go negative, and it is active exactly when
/// `now` falls within the half-open span.
pub open spec fn spec_close_window(st: i64, tk: u128, c: u128, now: i64) -> BillingWindow {
    let endv = (st + WINDOW_MILLIS) as i64;
    BillingWindow {
        id: st,
        start_millis: st,
        end_millis: endv,
        total_tokens: tk,
        cost_microcents: c,
        remaining_minutes: if now >= endv {
            0i64
        } else {
            ((endv - now) / 60000) as i64
        },
        is_active: st <= now && now < endv,
    }
}

fn close_window(st: i64, tk: u128, c: u128, now: i64) -> (r: BillingWindow)
    requires
        time_in_range(st),
        time_in_range(now),
    ensures
        r == spec_close_window(st, tk, c, now),
{
    let endv: i64 = st + WINDOW_MILLIS;
    let remaining: i64 = if now >= endv {
        0
    } else {
        (endv - now) / 60000
    };
    BillingWindow {
        id: st,
        start_millis: st,
        end_millis: endv,
        total_tokens: tk,
        cost_microcents: c,
        remaining_minutes: remaining,
        is_active: st <= now && now < endv,
    }
}

/// The forward scan over the records from index `j`, with the open window
/// `cur` (start, token sum, cost sum): a record beyond the open window's
/// span closes it and opens a new one at that record's own instant; the
/// final open window is flushed at the end. Records whose timestamps do not
/// parse are skipped. The scan trusts the caller to supply records in
/// ascending time order; it does not sort.
pub open spec fn spec_windows_from(
    entries: Seq<LogEntry>,
    j: int,
    cur: Option<(i64, u128, u128)>,
    now: i64,
) -> Seq<BillingWindow>
    decreases entries.len() - j,
    when 0 <= j <= entries.len()
{
    if j == entries.len() {
        match cur {
            Option::None => Seq::empty(),
            Option::Some(w) => seq![spec_close_window(w.0, w.1, w.2, now)],
        }
    } else {
        let e = entries[j];
        match entry_time(e) {
            Option::None => spec_windows_from(entries, j + 1, cur, now),
            Option::Some(t) => match cur {
                Option::None => spec_windows_from(
                    entries,
                    j + 1,
                    Option::Some((t, entry_tokens(e), record_cost(e))),
                    now,
                ),
                Option::Some(w) => if t - w.0 <= WINDOW_MILLIS {
                    spec_windows_from(
                        entries,
                        j + 1,
                        Option::Some(
                            (w.0, sat_add128(w.1, entry_tokens(e)), sat_add128(w.2, record_cost(e))),
                        ),
                        now,
                    )
                } else {
                    seq![spec_close_window(w.0, w.1, w.2, now)] + spec_windows_from(
                        entries,
                        j + 1,
                        Option::Some((t, entry_tokens(e), record_cost(e))),
                        now,
                    )
                },
            },
        }
    }
}

/// The billing windows of a record set, scanned in the records' order.
pub open spec fn spec_windows(entries: Seq<LogEntry>, now: i64) -> Seq<BillingWindow> {
    spec_windows_from(entries, 0, Option::None, now)
}

/// The billing-window pass against an explicit `now`.
pub fn calculate_billing_windows_at(entries: &Vec<LogEntry>, now_ms: i64) -> (r: Vec<
    BillingWindow,
>)
    requires
        time_in_range(now_ms),
    ensures
        r@ == spec_windows(entries@, now_ms),
{
    let mut out: Vec<BillingWindow> = Vec::new();
    let mut cur: Option<(i64, u128, u128)> = Option::None;
    let mut j: usize = 0;
    proof {
        assert(spec_windows(entries@, now_ms) =~= out@ + spec_windows_from(
            entries@,
            0,
            cur,
            now_ms,
        ));
    }
    while j < entries.len()
        invariant
            j <= entries@.len(),
            time_in_range(now_ms),
            cur matches Option::Some(w) ==> time_in_range(w.0),
            spec_windows(entries@, now_ms) == out@ + spec_windows_from(
                entries@,
                j as int,
                cur,
                now_ms,
            ),
        decreases entries@.len() - j,
    {
        let e = &entries[j];
        let tks = tokens_of_entry(e);
        let c = entry_cost(e);
        match parse_timestamp_millis(e.timestamp.as_str()) {
            Option::None => {},
            Option::Some(t) => {
                match cur {
                    Option::None => {
                        cur = Option::Some((t, tks, c));
                    },
                    Option::Some(w) => {
                        if t - w.0 <= WINDOW_MILLIS {
                            cur = Option::Some((w.0, sat_add(w.1, tks), sat_add(w.2, c)));
                        } else {
                            let ghost out_pre = out@;
                            out.push(close_window(w.0, w.1, w.2, now_ms));
                            cur = Option::Some((t, tks, c));
                            proof {
                                assert(out@ =~= out_pre + seq![
                                    spec_close_window(w.0, w.1, w.2, now_ms),
                                ]);
                                assert(out_pre + (seq![
                                    spec_close_window(w.0, w.1, w.2, now_ms),
                                ] + spec_windows_from(
                                    entries@,
                                    j as int + 1,
                                    cur,
                                    now_ms,
                                )) =~= out@ + spec_windows_from(
                                    entries@,
                                    j as int + 1,
                                    cur,
                                    now_ms,
                                ));
                            }
                        }
                    },
                }
            },
        }
        j = j + 1;
    }
    match cur {
        Option::None => {},
        Option::Some(w) => {
            let ghost out_pre = out@;
            out.push(close_window(w.0, w.1, w.2, now_ms));
            proof {
                assert(out@ =~= out_pre + seq![spec_close_window(w.0, w.1, w.2, now_ms)]);
            }
        },
    }
    out
}

/// The billing-window pass at the clock's current instant.
pub fn calculate_billing_windows(entries: &Vec<LogEntry>) -> (r: Vec<BillingWindow>)
    ensures
        exists|n: i64| #[trigger] time_in_range(n) && r@ == spec_windows(entries@, n),
{
    let now = now_millis();
    let r = calculate_billing_windows_at(entries, now);
    proof {
        assert(time_in_range(now) && r@ == spec_windows(entries@, now));
    }
    r
}

/// Billing windows are well formed: each spans exactly the window size, and
/// of any two, the later one starts strictly after the earlier one ends, so
/// no two windows overlap.
pub proof fn lemma_windows_wellformed(entries: Seq<LogEntry>, now: i64)
    requires
        time_in_range(now),
    ensures
        forall|k: int|
            0 <= k < spec_windows(entries, now).len() ==> (#[trigger] spec_windows(entries, now)[k])
                .end_millis == spec_windows(entries, now)[k].start_millis + WINDOW_MILLIS,
        forall|k: int, l: int|
            0 <= k < l < spec_windows(entries, now).len() ==> (#[trigger] spec_windows(
                entries,
                now,
            )[l]).start_millis > (#[trigger] spec_windows(entries, now)[k]).end_millis,
{
    lemma_windows_from_wellformed(entries, 0, Option::None, now);
}

proof fn lemma_windows_from_wellformed(
    entries: Seq<LogEntry>,
    j: int,
    cur: Option<(i64, u128, u128)>,
    now: i64,
)
    requires
        0 <= j <= entries.len(),
        time_in_range(now),
        cur matches Option::Some(w) ==> time_in_range(w.0),
    ensures
        forall|k: int|
            0 <= k < spec_windows_from(entries, j, cur, now).len()
                ==> (#[trigger] spec_windows_from(entries, j, cur, now)[k]).end_millis
                == spec_windows_from(entries, j, cur, now)[k].start_millis + WINDOW_MILLIS
                && time_in_range(spec_windows_from(entries, j, cur, now)[k].start_millis),
        forall|k: int, l: int|
            0 <= k < l < spec_windows_from(entries, j, cur, now).len()
                ==> (#[trigger] spec_windows_from(entries, j, cur, now)[l]).start_millis
                > (#[trigger] spec_windows_from(entries, j, cur, now)[k]).end_millis,
        (cur matches Option::Some(w) ==> forall|k: int|
            0 <= k < spec_windows_from(entries, j, cur, now).len()
                ==> (#[trigger] spec_windows_from(entries, j, cur, now)[k]).start_millis
                >= w.0),
    decreases entries.len() - j,
{
    let ws = spec_windows_from(entries, j, cur, now);
    if j == entries.len() {
        match cur {
            Option::None => {},
            Option::Some(w) => {
                assert(ws =~= seq![spec_close_window(w.0, w.1, w.2, now)]);
                assert(ws[0].end_millis == ws[0].start_millis + WINDOW_MILLIS);
                assert(time_in_range(ws[0].start_millis));
            },
        }
    } else {
        let e = entries[j];
        match entry_time(e) {
            Option::None => {
                lemma_windows_from_wellformed(entries, j + 1, cur, now);
                assert(ws == spec_windows_from(entries, j + 1, cur, now));
            },
            Option::Some(t) => {
                match cur {
                    Option::None => {
                        let ncur = Option::Some((t, entry_tokens(e), record_cost(e)));
                        lemma_windows_from_wellformed(entries, j + 1, ncur, now);
                        assert(ws == spec_windows_from(entries, j + 1, ncur, now));
                    },
                    Option::Some(w) => {
                        if t - w.0 <= WINDOW_MILLIS {
                            let ncur = Option::Some(
                                (
                                    w.0,
                                    sat_add128(w.1, entry_tokens(e)),
                                    sat_add128(w.2, record_cost(e)),
                                ),
                            );
                            lemma_windows_from_wellformed(entries, j + 1, ncur, now);
                            assert(ws == spec_windows_from(entries, j + 1, ncur, now));
                        } else {
                            let ncur = Option::Some((t, entry_tokens(e), record_cost(e)));
                            lemma_windows_from_wellformed(entries, j + 1, ncur, now);
                            let w0 = spec_close_window(w.0, w.1, w.2, now);
                            let rest = spec_windows_from(entries, j + 1, ncur, now);
                            assert(ws =~= seq![w0] + rest);
                            assert(ws[0] == w0);
                            assert(w0.end_millis == w.0 + WINDOW_MILLIS);
                            assert forall|k: int| 0 <= k < ws.len() implies (#[trigger] ws[k])
                                .end_millis == ws[k].start_millis + WINDOW_MILLIS
                                && time_in_range(ws[k].start_millis) by {
                                if k > 0 {
                                    assert(ws[k] == rest[k - 1]);
                                }
                            }
                            assert forall|k: int| 0 <= k < ws.len() implies (#[trigger] ws[k])
                                .start_millis >= w.0 by {
                                if k > 0 {
                                    assert(ws[k] == rest[k - 1]);
                                    assert(rest[k - 1].start_millis >= t);
                                }
                            }
                            assert forall|k: int, l: int| 0 <= k < l < ws.len() implies (
                            #[trigger] ws[l]).start_millis > (#[trigger] ws[k]).end_millis by {
                                assert(ws[l] == rest[l - 1]);
                                assert(rest[l - 1].start_millis >= t);
                                if k > 0 {
                                    assert(ws[k] == rest[k - 1]);
                                }
                            }
                        }
                    },
                }
            },
        }
    }
}

/// The session identifier a record is grouped under.
pub open spec fn session_key(e: LogEntry) -> Seq<char> {
    match e.session_id {
        Option::Some(s) => s@,
        Option::None => "unknown"@,
    }
}

/// The working directory a record carries.
pub open spec fn cwd_key(e: LogEntry) -> Seq<char> {
    match e.cwd {
        Option::Some(s) => s@,
        Option::None => "unknown"@,
    }
}

/// First group index holding the given session, or -1.
pub open spec fn spec_find_session(ss: Seq<SessionSummaryModel>, key: Seq<char>) -> int
    decreases ss.len(),
{
    if ss.len() == 0 {
        -1
    } else if ss[0].session_id == key {
        0
    } else {
        let r = spec_find_session(ss.skip(1), key);
        if r == -1 {
            -1
        } else {
            r + 1
        }
    }
}

proof fn lemma_find_session_at(ss: Seq<SessionSummaryModel>, key: Seq<char>, j: int)
    requires
        0 <= j < ss.len(),
        ss[j].session_id == key,
        forall|t: int| 0 <= t < j ==> (#[trigger] ss[t]).session_id != key,
    ensures
        spec_find_session(ss, key) == j,
    decreases j,
{
    if j > 0 {
        lemma_find_session_at(ss.skip(1), key, j - 1);
    }
}

proof fn lemma_find_session_none(ss: Seq<SessionSummaryModel>, key: Seq<char>)
    requires
        forall|t: int| 0 <= t < ss.len() ==> (#[trigger] ss[t]).session_id != key,
    ensures
        spec_find_session(ss, key) == -1,
    decreases ss.len(),
{
    if ss.len() > 0 {
        lemma_find_session_none(ss.skip(1), key);
    }
}

proof fn lemma_find_session_valid(ss: Seq<SessionSummaryModel>, key: Seq<char>)
    ensures
        spec_find_session(ss, key) == -1 || (0 <= spec_find_session(ss, key) < ss.len()
            && ss[spec_find_session(ss, key)].session_id == key),
    decreases ss.len(),
{
    if ss.len() > 0 && ss[0].session_id != key {
        lemma_find_session_valid(ss.skip(1), key);
    }
}

/// One record folded into the session groups: the record's timestamp
/// overwrites the group's end time, the count and cost grow, and an unseen
/// model is appended.
pub open spec fn spec_session_step(ss: Seq<SessionSummaryModel>, e: LogEntry) -> Seq<
    SessionSummaryModel,
> {
    let sid = session_key(e);
    let mkey = model_key(e);
    let c = record_cost(e);
    let idx = spec_find_session(ss, sid);
    if idx == -1 {
        ss.push(
            SessionSummaryModel {
                session_id: sid,
                project_path: cwd_key(e),
                start_time: e.timestamp@,
                end_time: e.timestamp@,
                message_count: 1,
                cost_microcents: c,
                models: seq![mkey],
            },
        )
    } else {
        ss.update(
            idx,
            SessionSummaryModel {
                session_id: ss[idx].session_id,
                project_path: ss[idx].project_path,
                start_time: ss[idx].start_time,
                end_time: e.timestamp@,
                message_count: ss[idx].message_count + 1,
                cost_microcents: sat_add128(ss[idx].cost_microcents, c),
                models: if ss[idx].models.contains(mkey) {
                    ss[idx].models
                } else {
                    ss[idx].models.push(mkey)
                },
            },
        )
    }
}

/// The session groups of a record set, in order of first appearance,
/// before sorting.
pub open spec fn spec_sessions(entries: Seq<LogEntry>) -> Seq<SessionSummaryModel>
    decreases entries.len(),
{
    if entries.len() == 0 {
        Seq::empty()
    } else {
        spec_session_step(spec_sessions(entries.drop_last()), entries.last())
    }
}

/// Group message counts never exceed the number of records folded in.
proof fn lemma_sessions_counts(entries: Seq<LogEntry>)
    ensures
        forall|k: int|
            0 <= k < spec_sessions(entries).len() ==> 0 < (#[trigger] spec_sessions(
                entries,
            )[k]).message_count <= entries.len(),
    decreases entries.len(),
{
    if entries.len() > 0 {
        lemma_sessions_counts(entries.drop_last());
        let pre = spec_sessions(entries.drop_last());
        lemma_find_session_valid(pre, session_key(entries.last()));
    }
}

/// Sorted descending by end time, lexicographically.
pub open spec fn sorted_desc_by_end(s: Seq<SessionSummary>) -> bool {
    forall|k: int, l: int|
        0 <= k < l < s.len() ==> lex_leq((#[trigger] s[l]).end_time@, (#[trigger] s[k]).end_time@)
}

fn clone_strings(v: &Vec<String>) -> (r: Vec<String>)
    ensures
        r@ == v@,
{
    let mut r: Vec<String> = Vec::new();
    let mut i: usize = 0;
    while i < v.len()
        invariant
            i <= v@.len(),
            r@ == v@.subrange(0, i as int),
        decreases v@.len() - i,
    {
        r.push(v[i].clone());
        i = i + 1;
        proof {
            assert(r@ =~= v@.subrange(0, i as int));
        }
    }
    proof {
        assert(v@.subrange(0, v@.len() as int) =~= v@);
    }
    r
}

/// The session pass: groups in the fold's own order (first appearance).
fn fold_sessions(entries: &Vec<LogEntry>) -> (r: Vec<SessionSummary>)
    ensures
        r@.map_values(|s: SessionSummary| s@) == spec_sessions(entries@),
{
    let mut groups: Vec<SessionSummary> = Vec::new();
    let mut j: usize = 0;
    proof {
        assert(entries@.subrange(0, 0) =~= Seq::<LogEntry>::empty());
        assert(groups@.map_values(|s: SessionSummary| s@) =~= spec_sessions(
            entries@.subrange(0, 0),
        ));
    }
    while j < entries.len()
        invariant
            j <= entries@.len(),
            groups@.map_values(|s: SessionSummary| s@) == spec_sessions(
                entries@.subrange(0, j as int),
            ),
        decreases entries@.len() - j,
    {
        let ghost pre = entries@.subrange(0, j as int);
        let ghost post = entries@.subrange(0, j as int + 1);
        proof {
            assert(post.drop_last() =~= pre);
            assert(post.last() == entries@[j as int]);
            lemma_sessions_counts(pre);
        }
        let e = &entries[j];
        let c = entry_cost(e);
        let sid: String = match &e.session_id {
            Option::Some(s) => s.clone(),
            Option::None => String::from_str("unknown"),
        };
        let mkey: String = match &e.message.model {
            Option::Some(m) => m.clone(),
            Option::None => String::from_str("unknown"),
        };
        proof {
            assert(sid@ == session_key(entries@[j as int]));
            assert(mkey@ == model_key(entries@[j as int]));
        }
        let ghost ss = groups@.map_values(|s: SessionSummary| s@);
        let mut k: usize = 0;
        while k < groups.len() && !str_eq(groups[k].session_id.as_str(), sid.as_str())
            invariant
                k <= groups@.len(),
                ss == groups@.map_values(|s: SessionSummary| s@),
                forall|t: int| 0 <= t < k ==> (#[trigger] ss[t]).session_id != sid@,
            decreases groups@.len() - k,
        {
            k = k + 1;
        }
        if k < groups.len() {
            proof {
                lemma_find_session_at(ss, sid@, k as int);
                assert(ss[k as int].message_count <= pre.len());
            }
            let mut new_models = clone_strings(&groups[k].models);
            let mut t: usize = 0;
            while t < new_models.len() && !str_eq(new_models[t].as_str(), mkey.as_str())
                invariant
                    t <= new_models@.len(),
                    forall|u: int| 0 <= u < t ==> (#[trigger] new_models@[u])@ != mkey@,
                decreases new_models@.len() - t,
            {
                t = t + 1;
            }
            let ghost old_models_v = new_models@.map_values(|m: String| m@);
            if t == new_models.len() {
                proof {
                    assert forall|u: int| 0 <= u < old_models_v.len() implies old_models_v[u]
                        != mkey@ by {
                        assert(old_models_v[u] == new_models@[u]@);
                    }
                    assert(!old_models_v.contains(mkey@));
                }
                new_models.push(mkey);
                proof {
                    assert(new_models@.map_values(|m: String| m@) =~= old_models_v.push(mkey@));
                }
            } else {
                proof {
                    assert(old_models_v[t as int] == mkey@);
                    assert(old_models_v.contains(mkey@));
                }
            }
            let nb = SessionSummary {
                session_id: groups[k].session_id.clone(),
                project_path: groups[k].project_path.clone(),
                start_time: groups[k].start_time.clone(),
                end_time: e.timestamp.clone(),
                message_count: groups[k].message_count + 1,
                cost_microcents: sat_add(groups[k].cost_microcents, c),
                models: new_models,
            };
            groups[k] = nb;
            proof {
                assert(groups@.map_values(|s: SessionSummary| s@) =~= spec_session_step(
                    ss,
                    entries@[j as int],
                ));
            }
        } else {
            proof {
                lemma_find_session_none(ss, sid@);
            }
            let cwd: String = match &e.cwd {
                Option::Some(s) => s.clone(),
                Option::None => String::from_str("unknown"),
            };
            let mut ms: Vec<String> = Vec::new();
            ms.push(mkey);
            proof {
                assert(ms@.map_values(|m: String| m@) =~= seq![model_key(entries@[j as int])]);
            }
            groups.push(
                SessionSummary {
                    session_id: sid,
                    project_path: cwd,
                    start_time: e.timestamp.clone(),
                    end_time: e.timestamp.clone(),
                    message_count: 1,
                    cost_microcents: c,
                    models: ms,
                },
            );
            proof {
                assert(groups@.map_values(|s: SessionSummary| s@) =~= spec_session_step(
                    ss,
                    entries@[j as int],
                ));
            }
        }
        j = j + 1;
    }
    proof {
        assert(entries@.subrange(0, entries@.len() as int) =~= entries@);
    }
    groups
}

/// The session-breakdown pass: the groups of the fold, sorted descending by
/// their end-time strings. The result holds the same groups (as a multiset)
/// as the unsorted fold.
pub fn get_session_breakdown(entries: &Vec<LogEntry>) -> (r: Vec<SessionSummary>)
    ensures
        r@.map_values(|s: SessionSummary| s@).to_multiset() == spec_sessions(
            entries@,
        ).to_multiset(),
        sorted_desc_by_end(r@),
{
    let mut work = fold_sessions(entries);
    let mut out: Vec<SessionSummary> = Vec::new();
    proof {
        broadcast use vstd::seq_lib::group_seq_properties;
        assert(out@.map_values(|s: SessionSummary| s@).to_multiset() =~= Multiset::empty());
    }
    while work.len() > 0
        invariant
            out@.map_values(|s: SessionSummary| s@).to_multiset().add(
                work@.map_values(|s: SessionSummary| s@).to_multiset(),
            ) == spec_sessions(entries@).to_multiset(),
            sorted_desc_by_end(out@),
            forall|a: int, b: int|
                0 <= a < out@.len() && 0 <= b < work@.len() ==> lex_leq(
                    (#[trigger] work@[b]).end_time@,
                    (#[trigger] out@[a]).end_time@,
                ),
        decreases work@.len(),
    {
        let mut m: usize = 0;
        let mut k: usize = 1;
        proof {
            lemma_lex_leq_total(work@[0].end_time@, work@[0].end_time@);
        }
        while k < work.len()
            invariant
                k <= work@.len(),
                m < work@.len(),
                work@.len() > 0,
                forall|t: int|
                    0 <= t < k ==> lex_leq(
                        (#[trigger] work@[t]).end_time@,
                        work@[m as int].end_time@,
                    ),
            decreases work@.len() - k,
        {
            proof {
                lemma_lex_leq_total(work@[k as int].end_time@, work@[m as int].end_time@);
            }
            if str_lex_leq(work[m].end_time.as_str(), work[k].end_time.as_str())
                && !str_lex_leq(work[k].end_time.as_str(), work[m].end_time.as_str()) {
                proof {
                    lemma_lex_leq_total(work@[k as int].end_time@, work@[k as int].end_time@);
                    assert forall|t: int| 0 <= t < k + 1 implies lex_leq(
                        (#[trigger] work@[t]).end_time@,
                        work@[k as int].end_time@,
                    ) by {
                        if t < k {
                            lemma_lex_leq_trans(
                                work@[t].end_time@,
                                work@[m as int].end_time@,
                                work@[k as int].end_time@,
                            );
                        }
                    }
                }
                m = k;
            }
            k = k + 1;
        }
        let ghost wv = work@.map_values(|s: SessionSummary| s@);
        let ghost ov = out@.map_values(|s: SessionSummary| s@);
        let ghost pre_work = work@;
        let item = work.remove(m);
        let ghost wv2 = work@.map_values(|s: SessionSummary| s@);
        proof {
            assert(wv2 =~= wv.remove(m as int));
            wv.to_multiset_ensures();
            assert(wv.remove(m as int).to_multiset() =~= wv.to_multiset().remove(wv[m as int]));
            assert(wv.to_multiset().count(wv[m as int]) > 0) by {
                wv.to_multiset_ensures();
                assert(wv.contains(wv[m as int]));
            }
        }
        let ghost pre_out = out@;
        out.push(item);
        proof {
            assert(out@ =~= pre_out.push(item));
            assert(out@.map_values(|s: SessionSummary| s@) =~= ov.push(item@));
            ov.to_multiset_ensures();
            assert(ov.push(item@).to_multiset() =~= ov.to_multiset().insert(item@));
            assert(item@ == wv[m as int]);
            assert(ov.to_multiset().insert(item@).add(wv.to_multiset().remove(item@))
                =~= ov.to_multiset().add(wv.to_multiset()));
            assert forall|a: int, b: int|
                0 <= a < out@.len() && 0 <= b < work@.len() implies lex_leq(
                (#[trigger] work@[b]).end_time@,
                (#[trigger] out@[a]).end_time@,
            ) by {
                if b < m {
                    assert(work@[b] == pre_work[b]);
                } else {
                    assert(work@[b] == pre_work[b + 1]);
                }
                if a < pre_out.len() {
                    assert(out@[a] == pre_out[a]);
                } else {
                    assert(out@[a] == item);
                    assert(item == pre_work[m as int]);
                }
            }
            assert(sorted_desc_by_end(out@));
        }
    }
    proof {
        assert(work@.map_values(|s: SessionSummary| s@).to_multiset() =~= Multiset::empty());
        assert(out@.map_values(|s: SessionSummary| s@).to_multiset().add(Multiset::empty())
            =~= out@.map_values(|s: SessionSummary| s@).to_multiset());
    }
    out
}

} // verus!
