use ds_free_api::server::runtime_log::{
    color_for_level, level_of_setting, parse_level, DualLogger, FileStep, LevelFilter,
    RuntimeLogEntry,
};
use ds_free_api::server::stats::{
    can_be_masked, mask_key, RequestLog, RequestTimer, Stats,
};
use ds_free_api::server::store::{ModelStatsData, RequestLogData, StatsStore};

fn log(id: &str) -> RequestLog {
    RequestLog {
        timestamp: 1,
        request_id: id.to_string(),
        model: "m".to_string(),
        api_key: "k".to_string(),
        prompt_tokens: 2,
        completion_tokens: 3,
        latency_ms: 4,
        success: true,
    }
}

#[test]
fn requests_are_counted_once() {
    let mut s = Stats::new_with_store(&StatsStore::default());
    assert!(s.record_request(true, 10).is_none());
    assert!(s.record_request(false, 20).is_none());
    let snap = s.snapshot(7);
    assert_eq!(snap.total_requests, 2);
    assert_eq!(snap.success_requests, 1);
    assert_eq!(snap.failed_requests, 1);
    assert_eq!(snap.avg_latency_ms, 15);
    assert_eq!(snap.uptime_secs, 7);
    assert_eq!(Stats::new_with_store(&StatsStore::default()).snapshot(0).avg_latency_ms, 0);
}

#[test]
fn tokens_are_counted_by_model_and_key() {
    let mut s = Stats::new_with_store(&StatsStore::default());
    s.record_tokens_for_model_and_key("m1", Some("sk-123456789"), 5, 7);
    s.record_tokens_for_model_and_key("m1", None, 1, 1);
    s.record_tokens_for_model_and_key("m2", Some("short"), 2, 3);
    let snap = s.snapshot(0);
    assert_eq!(snap.total_prompt_tokens, 8);
    assert_eq!(snap.total_completion_tokens, 11);
    let m1 = snap.models.iter().find(|m| m.0 == "m1").unwrap().1;
    assert_eq!((m1.prompt_tokens, m1.completion_tokens, m1.requests), (6, 8, 2));
    let mut keys: Vec<String> = snap.keys.iter().map(|k| k.0.clone()).collect();
    keys.sort();
    assert_eq!(keys, vec!["***", "sk-12345***"]);
}

#[test]
fn counters_go_round() {
    let mut d = StatsStore::default();
    d.total_requests = u64::MAX;
    d.total_prompt_tokens = u64::MAX;
    let mut s = Stats::new_with_store(&d);
    s.record_request(true, 0);
    s.record_tokens_for_model_and_key("m", None, 2, 0);
    assert_eq!(s.total_requests, 0);
    assert_eq!(s.total_prompt_tokens, 1);
}

#[test]
fn counts_are_written_down_every_thirty_requests() {
    let mut s = Stats::new_with_store(&StatsStore::default());
    for _ in 0..29 {
        s.record_request(true, 1);
        assert!(s.persist_if_due().is_none());
    }
    s.record_tokens_for_model_and_key("m", Some("sk-123456789"), 1, 2);
    s.append_log(log("r"));
    let d = s.record_request(false, 1).unwrap();
    assert_eq!(d.total_requests, 30);
    assert_eq!(d.failed_requests, 1);
    assert_eq!(d.model_stats[0].0, "m");
    assert_eq!(d.key_stats[0].0, "sk-12345***");
    assert_eq!(d.request_logs[0].request_id, "r");
    assert!(s.persist_if_due().is_none());
    let again = Stats::new_with_store(&d);
    assert_eq!(again.total_requests, 30);
    assert_eq!(again.last_persisted, 30);
    assert_eq!(again.total_latency_ms, 0);
    assert_eq!(again.model_stats.get("m").unwrap().completion_tokens, 2);
    assert_eq!(again.recent_logs(5)[0].request_id, "r");
}

#[test]
fn only_the_last_requests_are_noted() {
    let mut s = Stats::new_with_store(&StatsStore::default());
    for i in 0..201 {
        s.append_log(log(&i.to_string()));
    }
    let recent = s.recent_logs(1000);
    assert_eq!(recent.len(), 200);
    assert_eq!(recent[0].request_id, "200");
    assert_eq!(recent[199].request_id, "1");
    assert_eq!(s.recent_logs(2)[1].request_id, "199");
}

#[test]
fn restart_keeps_the_last_requests() {
    let mut d = StatsStore::default();
    for i in 0..250u64 {
        d.request_logs.push(RequestLogData {
            timestamp: i,
            request_id: i.to_string(),
            model: String::new(),
            api_key: String::new(),
            prompt_tokens: 0,
            completion_tokens: 0,
            latency_ms: 0,
            success: true,
        });
    }
    d.model_stats.push((
        "m".to_string(),
        ModelStatsData { prompt_tokens: 1, completion_tokens: 2, requests: 3 },
    ));
    let s = Stats::new_with_store(&d);
    let recent = s.recent_logs(1000);
    assert_eq!(recent.len(), 200);
    assert_eq!(recent[0].timestamp, 249);
    assert_eq!(recent[199].timestamp, 50);
    assert_eq!(s.model_stats.get("m").unwrap().requests, 3);
}

#[test]
fn keys_are_masked() {
    assert_eq!(mask_key("12345678"), "***");
    assert_eq!(mask_key("123456789"), "12345678***");
    assert!(can_be_masked("1234567éé") == false);
    assert!(can_be_masked("é"));
    let mut s = Stats::new_with_store(&StatsStore::default());
    s.record_tokens_for_model_and_key("m", Some("1234567éé"), 1, 1);
    assert!(!s.keys_can_be_masked());
}

#[test]
fn timer_counts_milliseconds() {
    let mut s = Stats::new_with_store(&StatsStore::default());
    RequestTimer::new(1_000_000).mark_success(&mut s, 6_999_999);
    assert_eq!(s.total_latency_ms, 5);
    assert!(RequestTimer::new(0).mark_failure(&mut s, 2_000_000).is_none());
    assert_eq!(s.total_latency_ms, 7);
    assert_eq!(s.failed_requests, 1);
}

fn entry(message: &str) -> RuntimeLogEntry {
    RuntimeLogEntry {
        timestamp: "T".to_string(),
        level: "INFO".to_string(),
        target: "t".to_string(),
        message: message.to_string(),
    }
}

#[test]
fn lines_have_their_form() {
    let plain = DualLogger::new("p", LevelFilter::Info, false);
    assert_eq!(plain.terminal_line(&entry("hello")), "[T INFO   t] hello");
    let mut e = entry("x");
    e.level = "ERROR".to_string();
    assert_eq!(e.plain_line(), "[T ERROR  t] x");
    let colours = DualLogger::new("p", LevelFilter::Info, true);
    assert_eq!(
        colours.terminal_line(&e),
        "[\x1b[2mT \x1b[0m\x1b[31mERROR\x1b[0m\x1b[2m  t\x1b[0m] x"
    );
    assert_eq!(color_for_level("WARN"), "\x1b[33m");
    assert_eq!(color_for_level("INFO"), "\x1b[32m");
    assert_eq!(color_for_level("DEBUG"), "\x1b[34m");
    assert_eq!(color_for_level("TRACE"), "\x1b[35m");
    assert_eq!(color_for_level("other"), "\x1b[0m");
}

#[test]
fn pages_show_the_newest_first() {
    let mut l = DualLogger::new("p", LevelFilter::Info, false);
    for i in 0..2001 {
        l.log(entry(&i.to_string()));
    }
    let (total, page) = l.query_logs(0, 2);
    assert_eq!(total, 2000);
    assert_eq!(page[0].message, "2000");
    assert_eq!(page[1].message, "1999");
    let (_, page) = l.query_logs(1999, 10);
    assert_eq!(page.len(), 1);
    assert_eq!(page[0].message, "1");
    assert!(l.query_logs(5000, 10).1.is_empty());
}

#[test]
fn full_file_is_put_away() {
    let l = DualLogger::new("a.log", LevelFilter::Info, false);
    assert!(l.rotate_if_needed(10 * 1024 * 1024 - 1).is_empty());
    let steps: Vec<String> = l
        .rotate_if_needed(10 * 1024 * 1024)
        .iter()
        .map(|s| match s {
            FileStep::Remove(a) => format!("rm {}", a),
            FileStep::Rename(a, b) => format!("mv {} {}", a, b),
        })
        .collect();
    assert_eq!(
        steps,
        vec!["rm a.log.3", "mv a.log.2 a.log.3", "mv a.log.1 a.log.2", "mv a.log a.log.1"]
    );
}

#[test]
fn level_is_the_highest_named() {
    assert_eq!(parse_level("debug"), LevelFilter::Debug);
    assert_eq!(parse_level("warn"), LevelFilter::Info);
    assert_eq!(parse_level("a=off,b= trace "), LevelFilter::Trace);
    assert_eq!(parse_level("x=y=debug"), LevelFilter::Debug);
    assert_eq!(parse_level("nonsense"), LevelFilter::Info);
    assert_eq!(level_of_setting(None), LevelFilter::Info);
    assert_eq!(level_of_setting(Some("")), LevelFilter::Info);
    assert_eq!(level_of_setting(Some("trace")), LevelFilter::Trace);
    let l = DualLogger::new("p", LevelFilter::Info, false);
    assert!(l.enabled(LevelFilter::Warn));
    assert!(!l.enabled(LevelFilter::Debug));
}

#[test]
fn keys_that_cannot_be_masked_are_noticed() {
    let mut s = Stats::new_with_store(&StatsStore::default());
    for _ in 0..29 {
        s.record_request(true, 1);
    }
    s.record_tokens_for_model_and_key("m", Some("sk-123456789"), 1, 2);
    assert!(s.keys_can_be_masked() && s.can_persist_if_due() && s.can_record_failure());
    let d = s.persist_now();
    assert_eq!((d.total_requests, d.total_prompt_tokens, d.total_completion_tokens), (29, 1, 2));
    let keys = s.key_stats_snapshot();
    assert_eq!(keys.len(), 1);
    assert_eq!((keys[0].0.as_str(), keys[0].1.requests), ("sk-12345***", 1));
    s.record_tokens_for_model_and_key("m", Some("1234567ă9"), 1, 2);
    assert!(!s.keys_can_be_masked() && s.can_persist_if_due() && !s.can_record_failure());
}

#[test]
fn keys_that_look_alike_are_listed_once() {
    let mut s = Stats::new_with_store(&StatsStore::default());
    s.record_tokens_for_model_and_key("m", Some("a"), 1, 2);
    s.record_tokens_for_model_and_key("m", Some("b"), 3, 4);
    s.record_tokens_for_model_and_key("m", Some("sk-123456789"), 5, 6);
    s.record_tokens_for_model_and_key("m", Some("sk-12345xyz"), 7, 8);
    let d = s.persist_now();
    let mut names: Vec<&str> = d.key_stats.iter().map(|k| k.0.as_str()).collect();
    names.sort();
    assert_eq!(names, vec!["***", "sk-12345***"]);
    let short = d.key_stats.iter().find(|k| k.0 == "***").unwrap().1;
    assert!([(1, 2), (3, 4)].contains(&(short.prompt_tokens, short.completion_tokens)));
    assert_eq!(s.key_stats_snapshot().len(), 2);
    assert_eq!(Stats::new_with_store(&d).key_stats_snapshot().len(), 2);
}
