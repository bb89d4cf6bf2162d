//! Data model: usage records as parsed from the log files, and the shapes the
//! aggregation passes produce.
//!
//! Money is held in integer microcents: hundred-millionths of a USD. A rate of
//! cents per million tokens multiplied by a token count lands exactly in this
//! unit, so no rounding happens in the cost arithmetic itself.

use vstd::prelude::*;

verus! {

/// Token counts attached to one usage record. A missing optional field counts
/// as zero everywhere the counts are summed.
#[derive(Clone, Copy)]
pub struct TokenUsage {
    pub input_tokens: u64,
    pub output_tokens: u64,
    pub cache_creation_input_tokens: Option<u64>,
    pub cache_read_input_tokens: Option<u64>,
}

/// The message payload of a record: who spoke, with which model, and the
/// token usage if the line carried one.
pub struct Message {
    pub role: Option<String>,
    pub model: Option<String>,
    pub usage: Option<TokenUsage>,
}

/// One structured record from a log file. `cost_microcents` is the record's
/// own precomputed cost if the line carried one.
pub struct LogEntry {
    pub timestamp: String,
    pub session_id: Option<String>,
    pub cwd: Option<String>,
    pub message: Message,
    pub cost_microcents: Option<u128>,
}

/// Mathematical image of a `Message`: strings become character sequences.
pub struct MessageModel {
    pub role: Option<Seq<char>>,
    pub model: Option<Seq<char>>,
    pub usage: Option<TokenUsage>,
}

/// Mathematical image of a `LogEntry`.
pub struct LogEntryModel {
    pub timestamp: Seq<char>,
    pub session_id: Option<Seq<char>>,
    pub cwd: Option<Seq<char>>,
    pub message: MessageModel,
    pub cost_microcents: Option<u128>,
}

pub open spec fn view_opt_string(o: Option<String>) -> Option<Seq<char>> {
    match o {
        Option::None => Option::None,
        Option::Some(s) => Option::Some(s@),
    }
}

impl View for Message {
    type V = MessageModel;

    open spec fn view(&self) -> MessageModel {
        MessageModel {
            role: view_opt_string(self.role),
            model: view_opt_string(self.model),
            usage: self.usage,
        }
    }
}

impl View for LogEntry {
    type V = LogEntryModel;

    open spec fn view(&self) -> LogEntryModel {
        LogEntryModel {
            timestamp: self.timestamp@,
            session_id: view_opt_string(self.session_id),
            cwd: view_opt_string(self.cwd),
            message: self.message@,
            cost_microcents: self.cost_microcents,
        }
    }
}

fn clone_opt_string(o: &Option<String>) -> (r: Option<String>)
    ensures
        r == *o,
{
    match o {
        Option::None => Option::None,
        Option::Some(s) => Option::Some(s.clone()),
    }
}

impl Clone for Message {
    fn clone(&self) -> (r: Self)
        ensures
            r == *self,
    {
        Message {
            role: clone_opt_string(&self.role),
            model: clone_opt_string(&self.model),
            usage: self.usage,
        }
    }
}

impl Clone for LogEntry {
    fn clone(&self) -> (r: Self)
        ensures
            r == *self,
    {
        LogEntry {
            timestamp: self.timestamp.clone(),
            session_id: clone_opt_string(&self.session_id),
            cwd: clone_opt_string(&self.cwd),
            message: self.message.clone(),
            cost_microcents: self.cost_microcents,
        }
    }
}

/// Grand token totals over a record set. The fields are wide enough that a sum
/// of arbitrarily many `u64` counts cannot overflow them.
#[derive(Clone, Copy, PartialEq, Eq, Structural)]
pub struct AggregatedTokens {
    pub input_tokens: u128,
    pub output_tokens: u128,
    pub cache_creation_input_tokens: u128,
    pub cache_read_input_tokens: u128,
}

/// Per-model bucket of the usage breakdown.
pub struct ModelUsage {
    pub model: String,
    pub input_tokens: u128,
    pub output_tokens: u128,
    pub cache_creation_input_tokens: u128,
    pub cache_read_input_tokens: u128,
    pub cost_microcents: u128,
}

/// Mathematical image of a `ModelUsage`: token sums as unbounded integers.
pub struct ModelUsageModel {
    pub model: Seq<char>,
    pub input_tokens: int,
    pub output_tokens: int,
    pub cache_creation_input_tokens: int,
    pub cache_read_input_tokens: int,
    pub cost_microcents: u128,
}

impl View for ModelUsage {
    type V = ModelUsageModel;

    open spec fn view(&self) -> ModelUsageModel {
        ModelUsageModel {
            model: self.model@,
            input_tokens: self.input_tokens as int,
            output_tokens: self.output_tokens as int,
            cache_creation_input_tokens: self.cache_creation_input_tokens as int,
            cache_read_input_tokens: self.cache_read_input_tokens as int,
            cost_microcents: self.cost_microcents,
        }
    }
}

/// Result of the usage-totals pass. `last_updated` is the wall-clock time the
/// aggregation finished, not anything derived from the input records.
pub struct UsageData {
    pub total_cost_microcents: u128,
    pub total_tokens: AggregatedTokens,
    pub model_breakdown: Vec<ModelUsage>,
    pub last_updated: String,
}

/// One fixed-width billing window. Its identifier is its start instant, in
/// milliseconds since the Unix epoch; the end lies exactly the window size
/// after the start.
#[derive(Clone, Copy, PartialEq, Eq, Structural)]
pub struct BillingWindow {
    pub id: i64,
    pub start_millis: i64,
    pub end_millis: i64,
    pub total_tokens: u128,
    pub cost_microcents: u128,
    pub remaining_minutes: i64,
    pub is_active: bool,
}

/// One session's roll-up: identity, first-seen working directory, first and
/// last timestamps folded in, message count, cost, and the models used in
/// order of first appearance.
pub struct SessionSummary {
    pub session_id: String,
    pub project_path: String,
    pub start_time: String,
    pub end_time: String,
    pub message_count: u64,
    pub cost_microcents: u128,
    pub models: Vec<String>,
}

/// Mathematical image of a `SessionSummary`.
pub struct SessionSummaryModel {
    pub session_id: Seq<char>,
    pub project_path: Seq<char>,
    pub start_time: Seq<char>,
    pub end_time: Seq<char>,
    pub message_count: int,
    pub cost_microcents: u128,
    pub models: Seq<Seq<char>>,
}

impl View for SessionSummary {
    type V = SessionSummaryModel;

    open spec fn view(&self) -> SessionSummaryModel {
        SessionSummaryModel {
            session_id: self.session_id@,
            project_path: self.project_path@,
            start_time: self.start_time@,
            end_time: self.end_time@,
            message_count: self.message_count as int,
            cost_microcents: self.cost_microcents,
            models: self.models@.map_values(|m: String| m@),
        }
    }
}

} // verus!
