use router_monitor::classify::FlowLabel;
use router_monitor::registry::{MetricRegistry, encode_flow_metrics};
use router_monitor::table::FlowCounterTable;

#[test]
fn a_name_registers_once() {
    let mut r = MetricRegistry::new();
    assert!(r.register("router_monitor_packets".to_string(), "Packets transferred".to_string())
        .is_ok());
    assert!(r.register("router_monitor_bytes".to_string(), "Bytes transferred".to_string())
        .is_ok());
    assert!(r.register("router_monitor_packets".to_string(), "again".to_string()).is_err());
    assert_eq!(r.len(), 2);
    assert!(r.is_registered(&"router_monitor_bytes".to_string()));
    assert!(!r.is_registered(&"router_monitor_hostnames".to_string()));
}

#[test]
fn empty_snapshot_encodes_headers_only() {
    let t = FlowCounterTable::new();
    let text = encode_flow_metrics(&t.snapshot());
    assert_eq!(
        text,
        "# HELP router_monitor_packets Packets transferred\n\
         # TYPE router_monitor_packets counter\n\
         # HELP router_monitor_bytes Bytes transferred\n\
         # TYPE router_monitor_bytes counter\n"
    );
}

#[test]
fn snapshot_encodes_one_sample_per_flow_per_family() {
    let mut t = FlowCounterTable::new();
    t.record(
        &FlowLabel { src: "192.168.1.10".to_string(), dst: "internet".to_string() },
        100,
    );
    t.record(
        &FlowLabel { src: "internet".to_string(), dst: "192.168.1.10".to_string() },
        250,
    );
    t.record(
        &FlowLabel { src: "192.168.1.10".to_string(), dst: "internet".to_string() },
        100,
    );
    let text = encode_flow_metrics(&t.snapshot());
    assert_eq!(
        text,
        "# HELP router_monitor_packets Packets transferred\n\
         # TYPE router_monitor_packets counter\n\
         router_monitor_packets_total{src=\"192.168.1.10\",dst=\"internet\"} 2\n\
         router_monitor_packets_total{src=\"internet\",dst=\"192.168.1.10\"} 1\n\
         # HELP router_monitor_bytes Bytes transferred\n\
         # TYPE router_monitor_bytes counter\n\
         router_monitor_bytes_total{src=\"192.168.1.10\",dst=\"internet\"} 200\n\
         router_monitor_bytes_total{src=\"internet\",dst=\"192.168.1.10\"} 250\n"
    );
}
