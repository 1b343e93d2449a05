use vn_core::source::{
    reprioritize_sources, select_best_source, sort_sources, DownloadSource,
    DEFAULT_MAX_CONNECTIONS, MAX_SOURCE_FAILURES,
};

fn src(url: &str, priority: u32) -> DownloadSource {
    DownloadSource::new(url.to_string(), priority)
}

#[test]
fn new_source_defaults() {
    let s = src("https://a", 3);
    assert_eq!(s.priority, 3);
    assert_eq!(s.max_connections, DEFAULT_MAX_CONNECTIONS);
    assert_eq!(s.active_connections, 0);
    assert_eq!(s.failures, 0);
    assert_eq!(s.last_speed, 0);
}

#[test]
fn select_prefers_lower_priority() {
    let pool = vec![src("https://b", 1), src("https://a", 0)];
    assert_eq!(select_best_source(&pool), Some(1));
}

#[test]
fn select_prefers_less_loaded_on_equal_priority() {
    let mut pool = vec![src("https://a", 0), src("https://b", 0)];
    pool[0].active_connections = 2;
    pool[1].active_connections = 1;
    assert_eq!(select_best_source(&pool), Some(1));
}

#[test]
fn select_prefers_fewer_failures_on_equal_load() {
    let mut pool = vec![src("https://a", 0), src("https://b", 0)];
    pool[0].failures = 2;
    assert_eq!(select_best_source(&pool), Some(1));
}

#[test]
fn select_breaks_ties_by_pool_order() {
    let pool = vec![src("https://a", 0), src("https://b", 0)];
    assert_eq!(select_best_source(&pool), Some(0));
}

#[test]
fn select_skips_full_sources() {
    let mut pool = vec![src("https://a", 0), src("https://b", 1)];
    pool[0].active_connections = pool[0].max_connections;
    assert_eq!(select_best_source(&pool), Some(1));
}

#[test]
fn select_excludes_failed_sources() {
    let mut pool = vec![src("https://a", 0), src("https://b", 1)];
    pool[0].failures = MAX_SOURCE_FAILURES;
    assert_eq!(select_best_source(&pool), Some(1));
}

#[test]
fn select_none_when_no_source_eligible() {
    let mut pool = vec![src("https://a", 0)];
    pool[0].failures = MAX_SOURCE_FAILURES;
    assert_eq!(select_best_source(&pool), None);
    let empty: Vec<DownloadSource> = Vec::new();
    assert_eq!(select_best_source(&empty), None);
}

#[test]
fn reprioritize_moves_match_to_front_rank() {
    let mut pool = vec![src("https://a/mirror1", 0), src("https://b/mirror2", 1)];
    let found = reprioritize_sources(&mut pool, "mirror2");
    assert!(found);
    assert_eq!(pool[0].priority, 1);
    assert_eq!(pool[1].priority, 0);
}

#[test]
fn reprioritize_without_match_still_demotes_leader() {
    let mut pool = vec![src("https://a/mirror1", 0), src("https://b/mirror2", 1)];
    let found = reprioritize_sources(&mut pool, "elsewhere");
    assert!(!found);
    assert_eq!(pool[0].priority, 1);
    assert_eq!(pool[1].priority, 1);
}

#[test]
fn sort_orders_by_priority_then_load_then_failures() {
    let mut pool = vec![src("https://c", 2), src("https://a", 0), src("https://b", 1)];
    pool[2].active_connections = 1;
    sort_sources(&mut pool);
    assert_eq!(pool[0].url, "https://a");
    assert_eq!(pool[1].url, "https://b");
    assert_eq!(pool[2].url, "https://c");
}
