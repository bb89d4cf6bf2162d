use usage_ledger::json::parse_jsonl_file;
use usage_ledger::parser::{
    aggregate_usage, calculate_billing_windows_at, get_session_breakdown,
};

fn costed_line(ts: &str, session: &str, model: &str, input: u64, output: u64, cost: &str) -> String {
    format!(
        "{{\"timestamp\":\"{}\",\"sessionId\":\"{}\",\"cwd\":\"/w\",\"costUSD\":{},\"message\":{{\"model\":\"{}\",\"usage\":{{\"input_tokens\":{},\"output_tokens\":{}}}}}}}",
        ts, session, cost, model, input, output
    )
}

fn plain_line(ts: &str, session: &str, model: &str, input: u64, output: u64) -> String {
    format!(
        "{{\"timestamp\":\"{}\",\"sessionId\":\"{}\",\"message\":{{\"model\":\"{}\",\"usage\":{{\"input_tokens\":{},\"output_tokens\":{}}}}}}}",
        ts, session, model, input, output
    )
}

#[test]
fn totals_sum_over_models() {
    let text = format!(
        "{}\n{}\n{}\n",
        plain_line("2024-01-01T09:00:00Z", "a", "acme-3-5-sonnet", 100, 10),
        plain_line("2024-01-01T10:00:00Z", "a", "acme-opus-3", 200, 20),
        plain_line("2024-01-01T11:00:00Z", "b", "acme-3-5-sonnet", 300, 30),
    );
    let entries = parse_jsonl_file(&text);
    let data = aggregate_usage(&entries);
    assert_eq!(data.total_tokens.input_tokens, 600);
    assert_eq!(data.total_tokens.output_tokens, 60);
    assert_eq!(data.total_tokens.cache_creation_input_tokens, 0);
    assert_eq!(data.total_tokens.cache_read_input_tokens, 0);
    assert_eq!(data.model_breakdown.len(), 2);
    // The buckets' token fields sum to the grand totals, whatever the order.
    let in_sum: u128 = data.model_breakdown.iter().map(|m| m.input_tokens).sum();
    let out_sum: u128 = data.model_breakdown.iter().map(|m| m.output_tokens).sum();
    assert_eq!(in_sum, data.total_tokens.input_tokens);
    assert_eq!(out_sum, data.total_tokens.output_tokens);
    let sonnet = data
        .model_breakdown
        .iter()
        .find(|m| m.model == "acme-3-5-sonnet")
        .unwrap();
    assert_eq!(sonnet.input_tokens, 400);
    assert_eq!(sonnet.output_tokens, 40);
    let opus = data.model_breakdown.iter().find(|m| m.model == "acme-opus-3").unwrap();
    assert_eq!(opus.input_tokens, 200);
    // The buckets' costs sum to the total cost as well.
    let cost_sum: u128 = data.model_breakdown.iter().map(|m| m.cost_microcents).sum();
    assert_eq!(cost_sum, data.total_cost_microcents);
}

#[test]
fn totals_prefer_recorded_cost() {
    let text = format!(
        "{}\n{}\n",
        costed_line("2024-01-01T09:00:00Z", "a", "m", 1, 1, "0.5"),
        plain_line("2024-01-01T10:00:00Z", "a", "acme-3-5-sonnet", 1000, 500),
    );
    let entries = parse_jsonl_file(&text);
    let data = aggregate_usage(&entries);
    // 0.5 USD recorded + 0.0105 USD computed = 51_050_000 microcents.
    assert_eq!(data.total_cost_microcents, 51_050_000);
}

#[test]
fn missing_model_buckets_as_unknown() {
    let text = "{\"timestamp\":\"t\",\"message\":{\"usage\":{\"input_tokens\":5,\"output_tokens\":0}}}";
    let entries = parse_jsonl_file(text);
    let data = aggregate_usage(&entries);
    assert_eq!(data.model_breakdown.len(), 1);
    assert_eq!(data.model_breakdown[0].model, "unknown");
    assert_eq!(data.model_breakdown[0].input_tokens, 5);
}

#[test]
fn three_records_make_two_windows() {
    // Records at 09:00, 11:00 and 14:30 with a five-hour window: the first
    // two share [09:00, 14:00) and the third opens [14:30, 19:30).
    let text = format!(
        "{}\n{}\n{}\n",
        plain_line("2024-01-01T09:00:00Z", "a", "m", 10, 1),
        plain_line("2024-01-01T11:00:00Z", "a", "m", 20, 2),
        plain_line("2024-01-01T14:30:00Z", "a", "m", 40, 4),
    );
    let entries = parse_jsonl_file(&text);
    let now_ms: i64 = 1_704_117_600_000; // 2024-01-01T14:00:00Z
    let windows = calculate_billing_windows_at(&entries, now_ms);
    assert_eq!(windows.len(), 2);
    assert_eq!(windows[0].start_millis, 1_704_099_600_000); // 09:00
    assert_eq!(windows[0].end_millis, 1_704_117_600_000); // 14:00
    assert_eq!(windows[0].id, windows[0].start_millis);
    assert_eq!(windows[0].total_tokens, 33);
    assert_eq!(windows[1].start_millis, 1_704_119_400_000); // 14:30
    assert_eq!(windows[1].end_millis, 1_704_137_400_000); // 19:30
    assert_eq!(windows[1].total_tokens, 44);
    // Non-overlap and exact span.
    assert!(windows[1].start_millis > windows[0].end_millis);
    assert_eq!(windows[0].end_millis - windows[0].start_millis, 18_000_000);
    assert_eq!(windows[1].end_millis - windows[1].start_millis, 18_000_000);
}

#[test]
fn window_activity_and_remaining_minutes() {
    let text = plain_line("2024-01-01T09:00:00Z", "a", "m", 1, 1);
    let entries = parse_jsonl_file(&text);
    // At 10:00 the window [09:00, 14:00) is active with 240 minutes left.
    let at_ten = calculate_billing_windows_at(&entries, 1_704_103_200_000);
    assert_eq!(at_ten.len(), 1);
    assert!(at_ten[0].is_active);
    assert_eq!(at_ten[0].remaining_minutes, 240);
    // At 15:00 it is closed with nothing remaining.
    let at_fifteen = calculate_billing_windows_at(&entries, 1_704_121_200_000);
    assert!(!at_fifteen[0].is_active);
    assert_eq!(at_fifteen[0].remaining_minutes, 0);
}

#[test]
fn unparseable_timestamps_are_excluded_from_windows() {
    let text = format!(
        "{}\n{}\n",
        plain_line("not a date", "a", "m", 1, 1),
        plain_line("2024-01-01T09:00:00Z", "a", "m", 2, 2),
    );
    let entries = parse_jsonl_file(&text);
    let windows = calculate_billing_windows_at(&entries, 1_704_103_200_000);
    assert_eq!(windows.len(), 1);
    assert_eq!(windows[0].total_tokens, 4);
}

#[test]
fn two_models_one_session() {
    // Two records in one session with different models: one summary with
    // both models once each, two messages, and the cost of both.
    let text = format!(
        "{}\n{}\n",
        costed_line("2024-01-01T09:00:00Z", "s1", "model-a", 1, 1, "0.5"),
        costed_line("2024-01-01T10:00:00Z", "s1", "model-b", 1, 1, "0.25"),
    );
    let entries = parse_jsonl_file(&text);
    let sessions = get_session_breakdown(&entries);
    assert_eq!(sessions.len(), 1);
    let s = &sessions[0];
    assert_eq!(s.session_id, "s1");
    assert_eq!(s.message_count, 2);
    assert_eq!(s.cost_microcents, 75_000_000);
    assert_eq!(s.models, vec!["model-a".to_string(), "model-b".to_string()]);
    assert_eq!(s.start_time, "2024-01-01T09:00:00Z");
    assert_eq!(s.end_time, "2024-01-01T10:00:00Z");
}

#[test]
fn repeated_model_listed_once() {
    let text = format!(
        "{}\n{}\n{}\n",
        plain_line("2024-01-01T09:00:00Z", "s1", "m", 1, 1),
        plain_line("2024-01-01T10:00:00Z", "s1", "m", 1, 1),
        plain_line("2024-01-01T11:00:00Z", "s1", "m", 1, 1),
    );
    let entries = parse_jsonl_file(&text);
    let sessions = get_session_breakdown(&entries);
    assert_eq!(sessions.len(), 1);
    assert_eq!(sessions[0].models.len(), 1);
    assert_eq!(sessions[0].message_count, 3);
}

#[test]
fn sessions_sort_descending_by_end_time() {
    let text = format!(
        "{}\n{}\n{}\n",
        plain_line("2024-01-01T09:00:00Z", "old", "m", 1, 1),
        plain_line("2024-01-01T12:00:00Z", "late", "m", 1, 1),
        plain_line("2024-01-01T10:00:00Z", "mid", "m", 1, 1),
    );
    let entries = parse_jsonl_file(&text);
    let sessions = get_session_breakdown(&entries);
    assert_eq!(sessions.len(), 3);
    assert_eq!(sessions[0].session_id, "late");
    assert_eq!(sessions[1].session_id, "mid");
    assert_eq!(sessions[2].session_id, "old");
}

#[test]
fn missing_session_and_cwd_fall_back_to_unknown() {
    let text = "{\"timestamp\":\"t\",\"message\":{\"model\":\"m\",\"usage\":{\"input_tokens\":1,\"output_tokens\":1}}}";
    let entries = parse_jsonl_file(text);
    let sessions = get_session_breakdown(&entries);
    assert_eq!(sessions[0].session_id, "unknown");
    assert_eq!(sessions[0].project_path, "unknown");
}
