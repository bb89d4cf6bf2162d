//! The price table: model family to four per-million-token rates, selected
//! by case-insensitive substring match against the model identifier, with a
//! mid-tier default for anything unknown.
//!
//! Rates are held in cents per million tokens, so a token count multiplied
//! by a rate lands exactly in microcents (hundred-millionths of a USD).

use vstd::prelude::*;
use crate::types::TokenUsage;
use crate::text::{lower_of, lowercase, to_chars, contains_lit, is_substring};
use crate::json::or_zero;

verus! {

/// Four rates, in cents per million tokens.
#[derive(Clone, Copy, PartialEq, Eq, Structural)]
pub struct ModelPricing {
    pub input_cents_per_million: u64,
    pub output_cents_per_million: u64,
    pub cache_creation_cents_per_million: u64,
    pub cache_read_cents_per_million: u64,
}

/// The table, applied to the lowercased model identifier. Earlier rows win.
pub open spec fn spec_pricing(lowered: Seq<char>) -> ModelPricing {
    if is_substring("opus-4-5"@, lowered) || is_substring("opus-4.5"@, lowered) {
        ModelPricing {
            input_cents_per_million: 500,
            output_cents_per_million: 2500,
            cache_creation_cents_per_million: 625,
            cache_read_cents_per_million: 50,
        }
    } else if is_substring("sonnet-4-5"@, lowered) || is_substring("sonnet-4.5"@, lowered)
        || is_substring("3-5-sonnet"@, lowered) || is_substring("3.5-sonnet"@, lowered) {
        ModelPricing {
            input_cents_per_million: 300,
            output_cents_per_million: 1500,
            cache_creation_cents_per_million: 375,
            cache_read_cents_per_million: 30,
        }
    } else if is_substring("sonnet-4-"@, lowered) || is_substring("sonnet-4."@, lowered) {
        ModelPricing {
            input_cents_per_million: 300,
            output_cents_per_million: 1500,
            cache_creation_cents_per_million: 375,
            cache_read_cents_per_million: 30,
        }
    } else if is_substring("haiku-4-5"@, lowered) || is_substring("haiku-4.5"@, lowered)
        || is_substring("3-5-haiku"@, lowered) || is_substring("3.5-haiku"@, lowered) {
        ModelPricing {
            input_cents_per_million: 100,
            output_cents_per_million: 500,
            cache_creation_cents_per_million: 125,
            cache_read_cents_per_million: 10,
        }
    } else if is_substring("haiku"@, lowered) {
        ModelPricing {
            input_cents_per_million: 25,
            output_cents_per_million: 125,
            cache_creation_cents_per_million: 30,
            cache_read_cents_per_million: 3,
        }
    } else if is_substring("opus"@, lowered) {
        ModelPricing {
            input_cents_per_million: 1500,
            output_cents_per_million: 7500,
            cache_creation_cents_per_million: 1875,
            cache_read_cents_per_million: 150,
        }
    } else if is_substring("sonnet"@, lowered) {
        ModelPricing {
            input_cents_per_million: 300,
            output_cents_per_million: 1500,
            cache_creation_cents_per_million: 375,
            cache_read_cents_per_million: 30,
        }
    } else {
        ModelPricing {
            input_cents_per_million: 300,
            output_cents_per_million: 1500,
            cache_creation_cents_per_million: 375,
            cache_read_cents_per_million: 30,
        }
    }
}

/// Every rate in the table is small; useful to bound cost arithmetic.
pub proof fn lemma_rates_bounded(lowered: Seq<char>)
    ensures
        spec_pricing(lowered).input_cents_per_million <= 7500,
        spec_pricing(lowered).output_cents_per_million <= 7500,
        spec_pricing(lowered).cache_creation_cents_per_million <= 7500,
        spec_pricing(lowered).cache_read_cents_per_million <= 7500,
{
}

/// The rates for a model identifier.
pub fn get_pricing(model: &str) -> (r: ModelPricing)
    ensures
        r == spec_pricing(lower_of(model@)),
{
    let low = lowercase(model);
    let h = to_chars(low.as_str());
    if contains_lit(&h, "opus-4-5") || contains_lit(&h, "opus-4.5") {
        ModelPricing {
            input_cents_per_million: 500,
            output_cents_per_million: 2500,
            cache_creation_cents_per_million: 625,
            cache_read_cents_per_million: 50,
        }
    } else if contains_lit(&h, "sonnet-4-5") || contains_lit(&h, "sonnet-4.5")
        || contains_lit(&h, "3-5-sonnet") || contains_lit(&h, "3.5-sonnet") {
        ModelPricing {
            input_cents_per_million: 300,
            output_cents_per_million: 1500,
            cache_creation_cents_per_million: 375,
            cache_read_cents_per_million: 30,
        }
    } else if contains_lit(&h, "sonnet-4-") || contains_lit(&h, "sonnet-4.") {
        ModelPricing {
            input_cents_per_million: 300,
            output_cents_per_million: 1500,
            cache_creation_cents_per_million: 375,
            cache_read_cents_per_million: 30,
        }
    } else if contains_lit(&h, "haiku-4-5") || contains_lit(&h, "haiku-4.5")
        || contains_lit(&h, "3-5-haiku") || contains_lit(&h, "3.5-haiku") {
        ModelPricing {
            input_cents_per_million: 100,
            output_cents_per_million: 500,
            cache_creation_cents_per_million: 125,
            cache_read_cents_per_million: 10,
        }
    } else if contains_lit(&h, "haiku") {
        ModelPricing {
            input_cents_per_million: 25,
            output_cents_per_million: 125,
            cache_creation_cents_per_million: 30,
            cache_read_cents_per_million: 3,
        }
    } else if contains_lit(&h, "opus") {
        ModelPricing {
            input_cents_per_million: 1500,
            output_cents_per_million: 7500,
            cache_creation_cents_per_million: 1875,
            cache_read_cents_per_million: 150,
        }
    } else if contains_lit(&h, "sonnet") {
        ModelPricing {
            input_cents_per_million: 300,
            output_cents_per_million: 1500,
            cache_creation_cents_per_million: 375,
            cache_read_cents_per_million: 30,
        }
    } else {
        ModelPricing {
            input_cents_per_million: 300,
            output_cents_per_million: 1500,
            cache_creation_cents_per_million: 375,
            cache_read_cents_per_million: 30,
        }
    }
}

/// Cost of a usage block at the table's rates, in microcents: each token
/// count times the matching per-million-cents rate, missing fields as zero.
pub open spec fn spec_cost_microcents(lowered: Seq<char>, u: TokenUsage) -> int {
    let p = spec_pricing(lowered);
    u.input_tokens * p.input_cents_per_million + u.output_tokens * p.output_cents_per_million
        + or_zero(u.cache_creation_input_tokens) * p.cache_creation_cents_per_million + or_zero(
        u.cache_read_input_tokens,
    ) * p.cache_read_cents_per_million
}

/// The computed cost of a usage block for a model, in microcents.
pub fn calculate_cost(model: &str, usage: &TokenUsage) -> (r: u128)
    ensures
        r as int == spec_cost_microcents(lower_of(model@), *usage),
{
    let p = get_pricing(model);
    proof {
        lemma_rates_bounded(lower_of(model@));
    }
    let cc: u64 = match usage.cache_creation_input_tokens {
        Option::None => 0,
        Option::Some(v) => v,
    };
    let cr: u64 = match usage.cache_read_input_tokens {
        Option::None => 0,
        Option::Some(v) => v,
    };
    proof {
        lemma_token_rate_product(usage.input_tokens, p.input_cents_per_million);
        lemma_token_rate_product(usage.output_tokens, p.output_cents_per_million);
        lemma_token_rate_product(cc, p.cache_creation_cents_per_million);
        lemma_token_rate_product(cr, p.cache_read_cents_per_million);
    }
    (usage.input_tokens as u128) * (p.input_cents_per_million as u128) + (usage.output_tokens
        as u128) * (p.output_cents_per_million as u128) + (cc as u128) * (
    p.cache_creation_cents_per_million as u128) + (cr as u128) * (p.cache_read_cents_per_million
        as u128)
}

/// A token count times a bounded rate stays far below the top of `u128`.
pub proof fn lemma_token_rate_product(t: u64, rate: u64)
    requires
        rate <= 7500,
    ensures
        t * rate <= 0xFFFFFFFFFFFFFFFFu128 * 7500,
{
    assert(t * rate <= 0xFFFFFFFFFFFFFFFFu128 * 7500) by (nonlinear_arith)
        requires
            t <= 0xFFFFFFFFFFFFFFFFu64,
            rate <= 7500,
    ;
}

} // verus!
