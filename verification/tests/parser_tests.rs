use usage_ledger::json::parse_jsonl_file;
use usage_ledger::pricing::{calculate_cost, get_pricing};
use usage_ledger::types::TokenUsage;

fn line(ts: &str, session: &str, model: &str, input: u64, output: u64) -> String {
    format!(
        "{{\"timestamp\":\"{}\",\"sessionId\":\"{}\",\"cwd\":\"/w\",\"message\":{{\"role\":\"assistant\",\"model\":\"{}\",\"usage\":{{\"input_tokens\":{},\"output_tokens\":{}}}}}}}",
        ts, session, model, input, output
    )
}

#[test]
fn parses_a_plain_record() {
    let text = line("2024-01-01T09:00:00Z", "s1", "acme-3-5-sonnet", 1000, 500);
    let entries = parse_jsonl_file(&text);
    assert_eq!(entries.len(), 1);
    let e = &entries[0];
    assert_eq!(e.timestamp, "2024-01-01T09:00:00Z");
    assert_eq!(e.session_id.as_deref(), Some("s1"));
    assert_eq!(e.cwd.as_deref(), Some("/w"));
    assert_eq!(e.message.model.as_deref(), Some("acme-3-5-sonnet"));
    let u = e.message.usage.as_ref().unwrap();
    assert_eq!(u.input_tokens, 1000);
    assert_eq!(u.output_tokens, 500);
    assert_eq!(u.cache_creation_input_tokens, None);
    assert_eq!(u.cache_read_input_tokens, None);
    assert_eq!(e.cost_microcents, None);
}

#[test]
fn record_without_usage_is_dropped() {
    let text = "{\"timestamp\":\"2024-01-01T09:00:00Z\",\"message\":{\"role\":\"user\"}}\n";
    let entries = parse_jsonl_file(text);
    assert_eq!(entries.len(), 0);
}

#[test]
fn usage_null_is_dropped() {
    let text =
        "{\"timestamp\":\"2024-01-01T09:00:00Z\",\"message\":{\"usage\":null}}\n";
    assert_eq!(parse_jsonl_file(text).len(), 0);
}

#[test]
fn malformed_line_is_skipped_others_kept() {
    let good = line("2024-01-01T09:00:00Z", "s1", "m", 1, 2);
    let text = format!("not json at all\n{}\n{{\"broken\": \n", good);
    let entries = parse_jsonl_file(&text);
    assert_eq!(entries.len(), 1);
    assert_eq!(entries[0].message.usage.as_ref().unwrap().input_tokens, 1);
}

#[test]
fn unknown_fields_and_nesting_are_skipped() {
    let text = "{\"timestamp\":\"t\",\"extra\":{\"deep\":[1,2,{\"x\":null}],\"s\":\"v\"},\"message\":{\"other\":true,\"usage\":{\"input_tokens\":7,\"output_tokens\":0,\"weird\":[[]]}},\"more\":-1.5e3}";
    let entries = parse_jsonl_file(text);
    assert_eq!(entries.len(), 1);
    assert_eq!(entries[0].message.usage.as_ref().unwrap().input_tokens, 7);
}

#[test]
fn duplicate_known_field_rejects_line() {
    let text = "{\"timestamp\":\"a\",\"timestamp\":\"b\",\"message\":{\"usage\":{\"input_tokens\":1,\"output_tokens\":1}}}";
    assert_eq!(parse_jsonl_file(text).len(), 0);
}

#[test]
fn missing_timestamp_rejects_line() {
    let text = "{\"message\":{\"usage\":{\"input_tokens\":1,\"output_tokens\":1}}}";
    assert_eq!(parse_jsonl_file(text).len(), 0);
}

#[test]
fn missing_message_rejects_line() {
    let text = "{\"timestamp\":\"t\"}";
    assert_eq!(parse_jsonl_file(text).len(), 0);
}

#[test]
fn token_count_must_be_plain_integer() {
    let frac = "{\"timestamp\":\"t\",\"message\":{\"usage\":{\"input_tokens\":1.5,\"output_tokens\":1}}}";
    assert_eq!(parse_jsonl_file(frac).len(), 0);
    let exp = "{\"timestamp\":\"t\",\"message\":{\"usage\":{\"input_tokens\":1e3,\"output_tokens\":1}}}";
    assert_eq!(parse_jsonl_file(exp).len(), 0);
    let neg = "{\"timestamp\":\"t\",\"message\":{\"usage\":{\"input_tokens\":-1,\"output_tokens\":1}}}";
    assert_eq!(parse_jsonl_file(neg).len(), 0);
    let too_big = "{\"timestamp\":\"t\",\"message\":{\"usage\":{\"input_tokens\":18446744073709551616,\"output_tokens\":1}}}";
    assert_eq!(parse_jsonl_file(too_big).len(), 0);
    let max = "{\"timestamp\":\"t\",\"message\":{\"usage\":{\"input_tokens\":18446744073709551615,\"output_tokens\":1}}}";
    let entries = parse_jsonl_file(max);
    assert_eq!(entries.len(), 1);
    assert_eq!(entries[0].message.usage.as_ref().unwrap().input_tokens, u64::MAX);
}

#[test]
fn missing_token_fields_default() {
    let text = "{\"timestamp\":\"t\",\"message\":{\"usage\":{}}}";
    let entries = parse_jsonl_file(text);
    assert_eq!(entries.len(), 1);
    let u = entries[0].message.usage.as_ref().unwrap();
    assert_eq!(u.input_tokens, 0);
    assert_eq!(u.output_tokens, 0);
    assert_eq!(u.cache_creation_input_tokens, None);
    assert_eq!(u.cache_read_input_tokens, None);
}

#[test]
fn cache_fields_accept_null_and_values() {
    let text = "{\"timestamp\":\"t\",\"message\":{\"usage\":{\"input_tokens\":1,\"output_tokens\":2,\"cache_creation_input_tokens\":3,\"cache_read_input_tokens\":null}}}";
    let entries = parse_jsonl_file(text);
    let u = entries[0].message.usage.as_ref().unwrap();
    assert_eq!(u.cache_creation_input_tokens, Some(3));
    assert_eq!(u.cache_read_input_tokens, None);
}

#[test]
fn cost_is_read_in_microcents() {
    let text = "{\"timestamp\":\"t\",\"costUSD\":0.0105,\"message\":{\"usage\":{\"input_tokens\":1,\"output_tokens\":1}}}";
    let entries = parse_jsonl_file(text);
    assert_eq!(entries[0].cost_microcents, Some(1_050_000));
}

#[test]
fn cost_exponent_forms() {
    let text = "{\"timestamp\":\"t\",\"costUSD\":1e-2,\"message\":{\"usage\":{\"input_tokens\":1,\"output_tokens\":1}}}";
    let entries = parse_jsonl_file(text);
    assert_eq!(entries[0].cost_microcents, Some(1_000_000));
    let text2 = "{\"timestamp\":\"t\",\"costUSD\":2.5E1,\"message\":{\"usage\":{\"input_tokens\":1,\"output_tokens\":1}}}";
    let entries2 = parse_jsonl_file(text2);
    assert_eq!(entries2[0].cost_microcents, Some(2_500_000_000));
}

#[test]
fn negative_cost_clamps_to_zero() {
    let text = "{\"timestamp\":\"t\",\"costUSD\":-0.5,\"message\":{\"usage\":{\"input_tokens\":1,\"output_tokens\":1}}}";
    let entries = parse_jsonl_file(text);
    assert_eq!(entries[0].cost_microcents, Some(0));
}

#[test]
fn cost_null_means_absent() {
    let text = "{\"timestamp\":\"t\",\"costUSD\":null,\"message\":{\"usage\":{\"input_tokens\":1,\"output_tokens\":1}}}";
    let entries = parse_jsonl_file(text);
    assert_eq!(entries[0].cost_microcents, None);
}

#[test]
fn string_escapes_decode() {
    let text = "{\"timestamp\":\"t\",\"sessionId\":\"a\\u0041\\n\\\\\\\"b\",\"message\":{\"usage\":{\"input_tokens\":1,\"output_tokens\":1}}}";
    let entries = parse_jsonl_file(text);
    assert_eq!(entries[0].session_id.as_deref(), Some("aA\n\\\"b"));
}

#[test]
fn surrogate_pair_escape_decodes() {
    let text = "{\"timestamp\":\"t\",\"cwd\":\"\\uD83D\\uDE00\",\"message\":{\"usage\":{\"input_tokens\":1,\"output_tokens\":1}}}";
    let entries = parse_jsonl_file(text);
    assert_eq!(entries[0].cwd.as_deref(), Some("\u{1F600}"));
}

#[test]
fn lone_surrogate_rejects_line() {
    let text = "{\"timestamp\":\"t\",\"cwd\":\"\\uD83D\",\"message\":{\"usage\":{\"input_tokens\":1,\"output_tokens\":1}}}";
    assert_eq!(parse_jsonl_file(text).len(), 0);
}

#[test]
fn crlf_lines_are_handled() {
    let a = line("2024-01-01T09:00:00Z", "s", "m", 1, 1);
    let b = line("2024-01-01T10:00:00Z", "s", "m", 2, 2);
    let text = format!("{}\r\n{}\r\n", a, b);
    assert_eq!(parse_jsonl_file(&text).len(), 2);
}

#[test]
fn trailing_garbage_rejects_line() {
    let text = "{\"timestamp\":\"t\",\"message\":{\"usage\":{\"input_tokens\":1,\"output_tokens\":1}}} extra";
    assert_eq!(parse_jsonl_file(text).len(), 0);
}

#[test]
fn sonnet_example_costs_together() {
    // usage {input: 1000, output: 500} on a sonnet model:
    // 1000/1e6*3.00 + 500/1e6*15.00 = 0.0105 USD = 1_050_000 microcents.
    let u = TokenUsage {
        input_tokens: 1000,
        output_tokens: 500,
        cache_creation_input_tokens: None,
        cache_read_input_tokens: None,
    };
    assert_eq!(calculate_cost("acme-3-5-sonnet-20241022", &u), 1_050_000);
    assert_eq!(calculate_cost("SONNET", &u), 1_050_000);
}

#[test]
fn pricing_families() {
    let p = get_pricing("acme-opus-4-5");
    assert_eq!(p.input_cents_per_million, 500);
    assert_eq!(p.output_cents_per_million, 2500);
    assert_eq!(p.cache_creation_cents_per_million, 625);
    assert_eq!(p.cache_read_cents_per_million, 50);
    let h = get_pricing("acme-3-5-haiku");
    assert_eq!(h.input_cents_per_million, 100);
    let h2 = get_pricing("some-haiku-model");
    assert_eq!(h2.input_cents_per_million, 25);
    let o = get_pricing("acme-opus-3");
    assert_eq!(o.output_cents_per_million, 7500);
    let d = get_pricing("something-else");
    assert_eq!(d.input_cents_per_million, 300);
    assert_eq!(d.output_cents_per_million, 1500);
}

#[test]
fn cost_uses_cache_fields() {
    let u = TokenUsage {
        input_tokens: 0,
        output_tokens: 0,
        cache_creation_input_tokens: Some(1_000_000),
        cache_read_input_tokens: Some(2_000_000),
    };
    // opus family: 18.75 + 2*1.50 = 21.75 USD = 2_175_000_000 microcents.
    assert_eq!(calculate_cost("acme-opus-3", &u), 2_175_000_000);
}
