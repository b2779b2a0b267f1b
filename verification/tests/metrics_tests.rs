use concurrency::AmapMetrics;
use concurrency::CmapMetrics;
use concurrency::Metrics;
use concurrency::MetricsError;

#[test]
fn metrics_inc_and_snapshot() {
    let mut m = Metrics::new();
    m.inc("req.page.1".to_string()).unwrap();
    m.inc("req.page.1".to_string()).unwrap();
    m.inc("call.worker".to_string()).unwrap();
    let snap = m.snapshot().unwrap();
    assert_eq!(
        snap,
        vec![("req.page.1".to_string(), 2), ("call.worker".to_string(), 1)]
    );
}

#[test]
fn metrics_display() {
    let mut m = Metrics::new();
    m.inc("req".to_string()).unwrap();
    m.inc("req".to_string()).unwrap();
    m.inc("call".to_string()).unwrap();
    assert_eq!(m.display_string(), "req: 2\ncall: 1\n");
}

#[test]
fn metrics_default_is_empty() {
    let m = Metrics::default();
    assert!(m.snapshot().unwrap().is_empty());
    assert_eq!(m.display_string(), "");
}

#[test]
fn amap_counts_registered_names() {
    let names = vec!["call.thread.worker.0".to_string(), "call.thread.worker.1".to_string()];
    let mut m = AmapMetrics::new(&names);
    m.inc(&"call.thread.worker.1".to_string()).unwrap();
    m.inc(&"call.thread.worker.1".to_string()).unwrap();
    assert_eq!(
        m.display_string(),
        "call.thread.worker.0: 0\ncall.thread.worker.1: 2\n"
    );
}

#[test]
fn amap_rejects_unknown_name() {
    let names = vec!["a".to_string()];
    let mut m = AmapMetrics::new(&names);
    assert_eq!(m.inc(&"b".to_string()), Err(MetricsError::KeyNotFound));
    assert_eq!(m.display_string(), "a: 0\n");
}

#[test]
fn amap_registers_duplicates_once() {
    let names = vec!["a".to_string(), "a".to_string(), "b".to_string()];
    let mut m = AmapMetrics::new(&names);
    m.inc(&"a".to_string()).unwrap();
    assert_eq!(m.display_string(), "a: 1\nb: 0\n");
}

#[test]
fn cmap_counts_any_name() {
    let mut m = CmapMetrics::new();
    assert_eq!(m.get(&"page".to_string()), None);
    m.inc("page".to_string()).unwrap();
    m.inc("page".to_string()).unwrap();
    m.inc("other".to_string()).unwrap();
    assert_eq!(m.get(&"page".to_string()), Some(2));
    assert_eq!(m.get(&"other".to_string()), Some(1));
}

#[test]
fn cmap_display_single_entry() {
    let mut m = CmapMetrics::new();
    m.inc("x".to_string()).unwrap();
    m.inc("x".to_string()).unwrap();
    assert_eq!(m.display_string(), "x: 2\n");
}

#[test]
fn cmap_default_is_empty() {
    let m = CmapMetrics::default();
    assert_eq!(m.get(&"anything".to_string()), None);
}
