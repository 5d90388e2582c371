use router_monitor::classify::FlowLabel;
use router_monitor::table::FlowCounterTable;

fn label(src: &str, dst: &str) -> FlowLabel {
    FlowLabel { src: src.to_string(), dst: dst.to_string() }
}

#[test]
fn record_creates_entry_lazily() {
    let mut t = FlowCounterTable::new();
    assert_eq!(t.len(), 0);
    t.record(&label("a", "b"), 100);
    assert_eq!(t.len(), 1);
    let snap = t.snapshot();
    assert_eq!(snap[0].label.src, "a");
    assert_eq!(snap[0].label.dst, "b");
    assert_eq!(snap[0].packets, 1);
    assert_eq!(snap[0].bytes, 100);
}

#[test]
fn record_increments_existing_entry() {
    let mut t = FlowCounterTable::new();
    t.record(&label("a", "b"), 100);
    t.record(&label("a", "b"), 50);
    assert_eq!(t.len(), 1);
    let snap = t.snapshot();
    assert_eq!(snap[0].packets, 2);
    assert_eq!(snap[0].bytes, 150);
}

#[test]
fn one_entry_per_distinct_label() {
    let mut t = FlowCounterTable::new();
    t.record(&label("a", "b"), 1);
    t.record(&label("b", "a"), 2);
    t.record(&label("a", "b"), 3);
    assert_eq!(t.len(), 2);
    let snap = t.snapshot();
    assert_eq!(snap[0].packets, 2);
    assert_eq!(snap[0].bytes, 4);
    assert_eq!(snap[1].packets, 1);
    assert_eq!(snap[1].bytes, 2);
}

#[test]
fn entries_keep_creation_order() {
    let mut t = FlowCounterTable::new();
    t.record(&label("x", "y"), 1);
    t.record(&label("y", "x"), 1);
    t.record(&label("z", "z"), 1);
    let snap = t.snapshot();
    assert_eq!(snap[0].label.src, "x");
    assert_eq!(snap[1].label.src, "y");
    assert_eq!(snap[2].label.src, "z");
}

#[test]
fn counters_never_decrease_between_snapshots() {
    let mut t = FlowCounterTable::new();
    t.record(&label("a", "b"), 10);
    t.record(&label("c", "d"), 20);
    let before = t.snapshot();
    t.record(&label("a", "b"), 5);
    t.record(&label("e", "f"), 1);
    let after = t.snapshot();
    for (i, old) in before.iter().enumerate() {
        assert_eq!(after[i].label.src, old.label.src);
        assert_eq!(after[i].label.dst, old.label.dst);
        assert!(after[i].packets >= old.packets);
        assert!(after[i].bytes >= old.bytes);
    }
}

#[test]
fn n_records_count_exactly_n() {
    let mut t = FlowCounterTable::new();
    let l = label("192.168.1.10", "internet");
    for _ in 0..100 {
        t.record(&l, 60);
    }
    let snap = t.snapshot();
    assert_eq!(snap.len(), 1);
    assert_eq!(snap[0].packets, 100);
    assert_eq!(snap[0].bytes, 6000);
}

#[test]
fn byte_counter_saturates_instead_of_rolling_over() {
    let mut t = FlowCounterTable::new();
    let l = label("a", "b");
    t.record(&l, u64::MAX);
    t.record(&l, u64::MAX);
    let snap = t.snapshot();
    assert_eq!(snap[0].packets, 2);
    assert_eq!(snap[0].bytes, u64::MAX);
}
