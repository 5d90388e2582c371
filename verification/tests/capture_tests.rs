use router_monitor::capture::{
    CaptureError, CaptureEvent, CaptureState, InterfaceInfo, PacketMonitor, find_interface, step,
};
use router_monitor::net::{IpAddress, Network};
use router_monitor::packet::{DecodedFrame, decode_frame};
use router_monitor::registry::MetricRegistry;

fn v4(a: u8, b: u8, c: u8, d: u8) -> IpAddress {
    IpAddress::V4(
        (a as u32) * 0x1000000 + (b as u32) * 0x10000 + (c as u32) * 0x100 + (d as u32),
    )
}

/// An IPv4 Ethernet frame of `frame_len` bytes in all.
fn ipv4_frame(src: [u8; 4], dst: [u8; 4], frame_len: usize) -> Vec<u8> {
    assert!(frame_len >= 34);
    let mut f = vec![0u8; frame_len];
    f[12] = 0x08;
    f[13] = 0x00;
    f[14] = 0x45;
    f[26..30].copy_from_slice(&src);
    f[30..34].copy_from_slice(&dst);
    f
}

fn lan() -> Vec<Network> {
    vec![Network { addr: v4(192, 168, 1, 10), prefix: 24 }]
}

#[test]
fn local_to_internet_frame_counts_once() {
    // Interface bound to 192.168.1.10; one 100-byte IPv4 frame to 8.8.8.8.
    let mut m = PacketMonitor::new();
    let frame = ipv4_frame([192, 168, 1, 10], [8, 8, 8, 8], 100);
    let outcome = m.process_frame(&lan(), &frame);
    assert!(matches!(outcome, DecodedFrame::Ip { .. }));
    let snap = m.snapshot();
    assert_eq!(snap.len(), 1);
    assert_eq!(snap[0].label.src, "192.168.1.10");
    assert_eq!(snap[0].label.dst, "internet");
    assert_eq!(snap[0].packets, 1);
    assert_eq!(snap[0].bytes, 100);
}

#[test]
fn two_local_flows_stay_distinct() {
    // Two frames between two locally bound addresses, one each way.
    let mut m = PacketMonitor::new();
    m.process_frame(&lan(), &ipv4_frame([192, 168, 1, 10], [192, 168, 1, 20], 60));
    m.process_frame(&lan(), &ipv4_frame([192, 168, 1, 20], [192, 168, 1, 10], 80));
    let snap = m.snapshot();
    assert_eq!(snap.len(), 2);
    assert_eq!(snap[0].label.src, "192.168.1.10");
    assert_eq!(snap[0].label.dst, "192.168.1.20");
    assert_eq!(snap[0].packets, 1);
    assert_eq!(snap[0].bytes, 60);
    assert_eq!(snap[1].label.src, "192.168.1.20");
    assert_eq!(snap[1].label.dst, "192.168.1.10");
    assert_eq!(snap[1].packets, 1);
    assert_eq!(snap[1].bytes, 80);
}

#[test]
fn unsupported_ethertype_changes_nothing() {
    let mut m = PacketMonitor::new();
    m.process_frame(&lan(), &ipv4_frame([192, 168, 1, 10], [8, 8, 8, 8], 40));
    let before = m.snapshot();
    // An address-resolution frame: ethertype 0x0806.
    let mut arp = vec![0u8; 60];
    arp[12] = 0x08;
    arp[13] = 0x06;
    let outcome = m.process_frame(&lan(), &arp);
    assert!(matches!(outcome, DecodedFrame::Unsupported));
    let after = m.snapshot();
    assert_eq!(after.len(), before.len());
    for (b, a) in before.iter().zip(after.iter()) {
        assert_eq!(b.packets, a.packets);
        assert_eq!(b.bytes, a.bytes);
    }
}

#[test]
fn malformed_frames_are_dropped_not_counted() {
    let mut m = PacketMonitor::new();
    // Too short for an Ethernet header.
    assert!(matches!(m.process_frame(&lan(), &vec![0u8; 5]), DecodedFrame::Malformed));
    // An IPv4 ethertype with a truncated header.
    let mut short = vec![0u8; 20];
    short[12] = 0x08;
    short[13] = 0x00;
    assert!(matches!(m.process_frame(&lan(), &short), DecodedFrame::Malformed));
    assert_eq!(m.snapshot().len(), 0);
}

#[test]
fn sums_over_a_frame_sequence_count_decoded_frames() {
    // Two decodable frames, one unsupported, one malformed: packet sum 2,
    // byte sum 100 + 60.
    let mut m = PacketMonitor::new();
    let mut arp = vec![0u8; 60];
    arp[12] = 0x08;
    arp[13] = 0x06;
    let frames = vec![
        ipv4_frame([192, 168, 1, 10], [8, 8, 8, 8], 100),
        arp,
        vec![0u8; 3],
        ipv4_frame([192, 168, 1, 10], [8, 8, 8, 8], 60),
    ];
    m.process_frames(&lan(), &frames);
    let snap = m.snapshot();
    let packets: u64 = snap.iter().map(|e| e.packets).sum();
    let bytes: u64 = snap.iter().map(|e| e.bytes).sum();
    assert_eq!(packets, 2);
    assert_eq!(bytes, 160);
}

#[test]
fn ipv6_frame_decodes_and_counts() {
    let mut f = vec![0u8; 14 + 40];
    f[12] = 0x86;
    f[13] = 0xdd;
    // Source ::1, destination 2001:db8::1.
    f[22 + 15] = 1;
    f[38] = 0x20;
    f[39] = 0x01;
    f[40] = 0x0d;
    f[41] = 0xb8;
    f[38 + 15] = 1;
    let mut m = PacketMonitor::new();
    let nets = vec![Network { addr: IpAddress::V6(1), prefix: 128 }];
    m.process_frame(&nets, &f);
    let snap = m.snapshot();
    assert_eq!(snap[0].label.src, "::1");
    assert_eq!(snap[0].label.dst, "internet");
    assert_eq!(snap[0].bytes, 54);
}

#[test]
fn decode_reads_addresses_big_endian() {
    let f = ipv4_frame([10, 0, 0, 1], [10, 0, 0, 2], 34);
    match decode_frame(&f) {
        DecodedFrame::Ip { src, dst, size } => {
            assert_eq!(src, IpAddress::V4(0x0a000001));
            assert_eq!(dst, IpAddress::V4(0x0a000002));
            // The recorded size is the frame's whole byte length.
            assert_eq!(size, 34);
        },
        other => panic!("unexpected outcome: {:?}", other),
    }
}

#[test]
fn missing_interface_is_a_configuration_error() {
    let interfaces = vec![
        InterfaceInfo { name: "lo".to_string(), ips: vec![] },
        InterfaceInfo { name: "eth0".to_string(), ips: lan() },
    ];
    assert_eq!(find_interface(&interfaces, &"eth0".to_string()), Ok(1));
    assert_eq!(
        find_interface(&interfaces, &"nonexistent0".to_string()),
        Err(CaptureError::NoSuchInterface)
    );
}

#[test]
fn binding_failure_never_reaches_running() {
    // The loop faults at binding and stays faulted whatever follows.
    let mut s = step(CaptureState::Binding, CaptureEvent::ConfigError);
    assert_eq!(s, CaptureState::Faulted);
    for e in [
        CaptureEvent::BoundOk,
        CaptureEvent::FrameSeen,
        CaptureEvent::TapFailure,
        CaptureEvent::ProcessExit,
    ] {
        s = step(s, e);
        assert_ne!(s, CaptureState::Running);
        assert_eq!(s, CaptureState::Faulted);
    }
}

#[test]
fn running_loop_survives_frames_and_faults_on_tap_failure() {
    let s = step(CaptureState::Binding, CaptureEvent::BoundOk);
    assert_eq!(s, CaptureState::Running);
    let s = step(s, CaptureEvent::FrameSeen);
    assert_eq!(s, CaptureState::Running);
    let s = step(s, CaptureEvent::TapFailure);
    assert_eq!(s, CaptureState::Faulted);
    let s = step(s, CaptureEvent::FrameSeen);
    assert_eq!(s, CaptureState::Faulted);
}

#[test]
fn monitor_registers_its_two_families_once() {
    let m = PacketMonitor::new();
    let mut reg = MetricRegistry::new();
    assert!(m.register(&mut reg).is_ok());
    assert_eq!(reg.len(), 2);
    assert!(m.register(&mut reg).is_err());
    assert_eq!(reg.len(), 2);
}
