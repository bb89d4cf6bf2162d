use usage_ledger::cache::{EntryCache, FileScan, PathChange};
use usage_ledger::commands::filter_entries_by_time_range;
use usage_ledger::json::parse_jsonl_file;
use usage_ledger::watcher::{filter_jsonl_paths, path_has_jsonl_ext, plan_invalidation};

fn scan(path: &str, mtime: u64, content: &str) -> FileScan {
    FileScan { path: path.to_string(), modified_millis: mtime, content: content.to_string() }
}

fn record_line(ts: &str, input: u64) -> String {
    format!(
        "{{\"timestamp\":\"{}\",\"message\":{{\"usage\":{{\"input_tokens\":{},\"output_tokens\":0}}}}}}",
        ts, input
    )
}

#[test]
fn initialize_parses_each_file() {
    let mut cache = EntryCache::new();
    cache.initialize(vec![
        scan("/a.jsonl", 1, &record_line("2024-01-01T09:00:00Z", 1)),
        scan("/b.jsonl", 2, &format!(
            "{}\n{}\n",
            record_line("2024-01-01T10:00:00Z", 2),
            record_line("2024-01-01T11:00:00Z", 3),
        )),
    ]);
    let all = cache.get_all_entries();
    assert_eq!(all.len(), 3);
    let total: u64 = all.iter().map(|e| e.message.usage.as_ref().unwrap().input_tokens).sum();
    assert_eq!(total, 6);
}

#[test]
fn initialize_replaces_previous_contents() {
    let mut cache = EntryCache::new();
    cache.initialize(vec![scan("/a.jsonl", 1, &record_line("t", 1))]);
    cache.initialize(vec![scan("/b.jsonl", 2, &record_line("t", 9))]);
    let all = cache.get_all_entries();
    assert_eq!(all.len(), 1);
    assert_eq!(all[0].message.usage.as_ref().unwrap().input_tokens, 9);
}

#[test]
fn deleted_path_is_removed_and_restored() {
    // Invalidating a deleted path removes its records; a later snapshot of
    // the same path restores them.
    let mut cache = EntryCache::new();
    cache.initialize(vec![scan("/a.jsonl", 1, &record_line("t", 5))]);
    assert_eq!(cache.get_all_entries().len(), 1);

    cache.invalidate_paths(vec![PathChange { path: "/a.jsonl".to_string(), snapshot: None }]);
    assert_eq!(cache.get_all_entries().len(), 0);

    cache.invalidate_paths(vec![PathChange {
        path: "/a.jsonl".to_string(),
        snapshot: Some((7, record_line("t", 5))),
    }]);
    let all = cache.get_all_entries();
    assert_eq!(all.len(), 1);
    assert_eq!(all[0].message.usage.as_ref().unwrap().input_tokens, 5);
}

#[test]
fn invalidation_touches_only_listed_paths() {
    let mut cache = EntryCache::new();
    cache.initialize(vec![
        scan("/a.jsonl", 1, &record_line("t", 1)),
        scan("/b.jsonl", 1, &record_line("t", 2)),
    ]);
    cache.invalidate_paths(vec![PathChange {
        path: "/a.jsonl".to_string(),
        snapshot: Some((5, format!("{}\n{}\n", record_line("t", 10), record_line("t", 20)))),
    }]);
    let all = cache.get_all_entries();
    assert_eq!(all.len(), 3);
    let total: u64 = all.iter().map(|e| e.message.usage.as_ref().unwrap().input_tokens).sum();
    assert_eq!(total, 32);
}

#[test]
fn cache_output_never_holds_usage_free_records() {
    // A file mixing usage-free and usage-bearing lines contributes only the
    // latter to the cache's output.
    let content = format!(
        "{}\n{}\n",
        "{\"timestamp\":\"t\",\"message\":{\"role\":\"user\"}}",
        record_line("t", 4),
    );
    let mut cache = EntryCache::new();
    cache.initialize(vec![scan("/a.jsonl", 1, &content)]);
    let all = cache.get_all_entries();
    assert_eq!(all.len(), 1);
    assert!(all.iter().all(|e| e.message.usage.is_some()));
}

#[test]
fn all_range_keeps_records_untouched() {
    // "all" means no filter: even a record whose timestamp does not parse
    // passes through, in order.
    let text = format!(
        "{}\n{}\n",
        record_line("2024-01-01T09:00:00Z", 1),
        record_line("never", 2),
    );
    let entries = parse_jsonl_file(&text);
    assert_eq!(entries.len(), 2);
    let kept = filter_entries_by_time_range(&entries, "all");
    assert_eq!(kept.len(), 2);
    assert_eq!(kept[0].message.usage.as_ref().unwrap().input_tokens, 1);
    assert_eq!(kept[1].message.usage.as_ref().unwrap().input_tokens, 2);
}

#[test]
fn unrecognized_range_behaves_as_all() {
    let text = format!(
        "{}\n{}\n",
        record_line("2024-01-01T09:00:00Z", 1),
        record_line("never", 2),
    );
    let entries = parse_jsonl_file(&text);
    let kept = filter_entries_by_time_range(&entries, "fortnight");
    assert_eq!(kept.len(), 2);
}

#[test]
fn jsonl_extension_filter() {
    assert!(path_has_jsonl_ext("/home/u/p/chat.jsonl"));
    assert!(path_has_jsonl_ext("a.b.jsonl"));
    assert!(!path_has_jsonl_ext("/home/u/p/chat.json"));
    assert!(!path_has_jsonl_ext("/home/u/p/.jsonl"));
    assert!(!path_has_jsonl_ext(".jsonl"));
    assert!(!path_has_jsonl_ext("chat.jsonl.bak"));
}

#[test]
fn watcher_plans_only_log_paths() {
    let batch = vec![
        "/p/a.jsonl".to_string(),
        "/p/notes.txt".to_string(),
        "/p/b.jsonl".to_string(),
    ];
    let filtered = filter_jsonl_paths(&batch);
    assert_eq!(filtered, vec!["/p/a.jsonl".to_string(), "/p/b.jsonl".to_string()]);
    let plan = plan_invalidation(&batch).unwrap();
    assert_eq!(plan.len(), 2);
    let nothing = plan_invalidation(&vec!["/p/readme.md".to_string()]);
    assert!(nothing.is_none());
}

#[test]
fn today_filter_keeps_current_day_records() {
    let now = chrono::Utc::now().to_rfc3339();
    let text = format!(
        "{}\n{}\n",
        format!(
            "{{\"timestamp\":\"{}\",\"message\":{{\"usage\":{{\"input_tokens\":1,\"output_tokens\":0}}}}}}",
            now
        ),
        record_line("2001-01-01T00:00:00Z", 2),
    );
    let entries = parse_jsonl_file(&text);
    assert_eq!(entries.len(), 2);
    let kept = filter_entries_by_time_range(&entries, "today");
    assert_eq!(kept.len(), 1);
    assert_eq!(kept[0].message.usage.as_ref().unwrap().input_tokens, 1);
}

#[test]
fn week_filter_keeps_recent_records() {
    let recent = (chrono::Utc::now() - chrono::Duration::days(3)).to_rfc3339();
    let old = (chrono::Utc::now() - chrono::Duration::days(30)).to_rfc3339();
    let text = format!(
        "{}\n{}\n",
        record_line(&recent, 1),
        record_line(&old, 2),
    );
    let entries = parse_jsonl_file(&text);
    let kept = filter_entries_by_time_range(&entries, "week");
    assert_eq!(kept.len(), 1);
    assert_eq!(kept[0].message.usage.as_ref().unwrap().input_tokens, 1);
}

#[test]
fn whitespace_tolerant_lines() {
    let text = " { \"timestamp\" : \"t\" , \"message\" : { \"usage\" : { } } } ";
    let entries = parse_jsonl_file(text);
    assert_eq!(entries.len(), 1);
}

#[test]
fn empty_input_yields_nothing() {
    assert_eq!(parse_jsonl_file("").len(), 0);
    assert_eq!(parse_jsonl_file("\n\n").len(), 0);
    let cache = EntryCache::new();
    assert_eq!(cache.get_all_entries().len(), 0);
}
