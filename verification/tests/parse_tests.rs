use router_monitor::arp::{parse_arp_line, strip_suffix_bytes};
use router_monitor::dnsmasq::{LeaseParseError, parse_lease_line, parse_leases};
use router_monitor::net::{IpAddress, Network};
use router_monitor::net_parse::{
    NetworkParseError, parse_v4_addr, parse_v4_network, parse_v6_addr, parse_v6_network,
};
use router_monitor::scan_args::{
    OutputFormat, ProfileType, ScanOptions, ScanTiming, lines_of,
};
use router_monitor::text::{parse_i64_dec, parse_i64_hex, split_byte, split_ws};

fn bytes(s: &str) -> Vec<u8> {
    s.as_bytes().to_vec()
}

#[test]
fn whitespace_split_skips_runs() {
    let fields = split_ws(&bytes("  a\tbb   c "));
    assert_eq!(fields, vec![bytes("a"), bytes("bb"), bytes("c")]);
    assert_eq!(split_ws(&bytes("   ")), Vec::<Vec<u8>>::new());
}

#[test]
fn byte_split_keeps_empty_parts() {
    assert_eq!(split_byte(&bytes("a  b"), 32), vec![bytes("a"), bytes(""), bytes("b")]);
    assert_eq!(split_byte(&bytes(""), 32), vec![bytes("")]);
}

#[test]
fn decimal_parse_matches_the_language() {
    assert_eq!(parse_i64_dec(&bytes("0")), Some(0));
    assert_eq!(parse_i64_dec(&bytes("1700000000")), Some(1_700_000_000));
    assert_eq!(parse_i64_dec(&bytes("-42")), Some(-42));
    assert_eq!(parse_i64_dec(&bytes("+42")), Some(42));
    assert_eq!(parse_i64_dec(&bytes("9223372036854775807")), Some(i64::MAX));
    assert_eq!(parse_i64_dec(&bytes("9223372036854775808")), None);
    assert_eq!(parse_i64_dec(&bytes("-9223372036854775808")), Some(i64::MIN));
    assert_eq!(parse_i64_dec(&bytes("-9223372036854775809")), None);
    assert_eq!(parse_i64_dec(&bytes("")), None);
    assert_eq!(parse_i64_dec(&bytes("-")), None);
    assert_eq!(parse_i64_dec(&bytes("12a")), None);
    assert_eq!(parse_i64_dec(&bytes(" 1")), None);
}

#[test]
fn hex_parse_accepts_both_cases() {
    assert_eq!(parse_i64_hex(&bytes("2f")), Some(0x2f));
    assert_eq!(parse_i64_hex(&bytes("2F")), Some(0x2f));
    assert_eq!(parse_i64_hex(&bytes("0f")), Some(15));
    assert_eq!(parse_i64_hex(&bytes("g")), None);
}

#[test]
fn arp_line_yields_its_fields() {
    let rec = parse_arp_line(&bytes(
        "192.168.1.106    0x1         0x2         90:11:95:3e:cf:5d     *        lan",
    ))
    .expect("a six-field line with a real hardware address");
    assert_eq!(rec.ip, bytes("192.168.1.106"));
    assert_eq!(rec.hw, bytes("90:11:95:3e:cf:5d"));
    assert_eq!(rec.device, bytes("lan"));
    // Flags 0x2: the marker goes, an f is appended, and 2f reads as 47.
    assert_eq!(rec.flags, 47);
}

#[test]
fn arp_flags_edge_readings() {
    let rec = |flags: &str| {
        parse_arp_line(&bytes(&format!(
            "10.0.0.1 0x1 {} aa:bb:cc:dd:ee:ff * lan",
            flags
        )))
        .unwrap()
        .flags
    };
    assert_eq!(rec("0x0"), 15);
    assert_eq!(rec("0x6"), 0x6f);
    // A flags word that is no hexadecimal number reads as -1.
    assert_eq!(rec("zz"), -1);
}

#[test]
fn incomplete_and_misshapen_arp_lines_are_skipped() {
    assert!(parse_arp_line(&bytes(
        "192.168.1.15 0x1 0x0 00:00:00:00:00:00 * lan"
    ))
    .is_none());
    assert!(parse_arp_line(&bytes("IP address HW type Flags")).is_none());
    assert!(parse_arp_line(&bytes("")).is_none());
}

#[test]
fn hostname_suffix_is_stripped_once() {
    assert_eq!(
        strip_suffix_bytes(&bytes("printer.home.local"), &bytes(".home.local")),
        bytes("printer")
    );
    assert_eq!(strip_suffix_bytes(&bytes("printer"), &bytes(".home.local")), bytes("printer"));
    assert_eq!(strip_suffix_bytes(&bytes("local"), &bytes(".home.local")), bytes("local"));
}

#[test]
fn lease_line_yields_expiry_and_fields() {
    let lease = parse_lease_line(&bytes(
        "1700000000 90:11:95:3e:cf:5d 192.168.1.106 laptop 01:90:11:95:3e:cf:5d",
    ))
    .expect("a well-formed lease record");
    assert_eq!(lease.expiry, 1_700_000_000);
    assert_eq!(lease.mac, bytes("90:11:95:3e:cf:5d"));
    assert_eq!(lease.ip, bytes("192.168.1.106"));
    assert_eq!(lease.devicename, bytes("laptop"));
}

#[test]
fn short_lease_record_is_refused() {
    assert!(matches!(
        parse_lease_line(&bytes("1700000000 aa:bb 10.0.0.1")),
        Err(LeaseParseError::FieldCount)
    ));
}

#[test]
fn bad_lease_expiry_is_refused() {
    assert!(matches!(
        parse_lease_line(&bytes("soon aa:bb:cc:dd:ee:ff 10.0.0.1 tv")),
        Err(LeaseParseError::Expiry)
    ));
}

#[test]
fn lease_file_counts_every_line() {
    let lines = vec![
        bytes("1700000000 aa:bb:cc:dd:ee:01 192.168.1.2 tv"),
        bytes("1700000100 aa:bb:cc:dd:ee:02 192.168.1.3 phone"),
    ];
    let leases = parse_leases(&lines).expect("both lines read");
    assert_eq!(leases.len(), 2);
    assert_eq!(leases[1].expiry, 1_700_000_100);
    let bad = vec![
        bytes("1700000000 aa:bb:cc:dd:ee:01 192.168.1.2 tv"),
        bytes("short line"),
    ];
    assert!(matches!(parse_leases(&bad), Err(LeaseParseError::FieldCount)));
}

#[test]
fn v4_address_text_reads_strictly() {
    assert_eq!(parse_v4_addr(&bytes("192.168.1.0")), Some(0xc0a80100));
    assert_eq!(parse_v4_addr(&bytes("0.0.0.0")), Some(0));
    assert_eq!(parse_v4_addr(&bytes("255.255.255.255")), Some(u32::MAX));
    assert_eq!(parse_v4_addr(&bytes("256.1.1.1")), None);
    assert_eq!(parse_v4_addr(&bytes("01.2.3.4")), None);
    assert_eq!(parse_v4_addr(&bytes("1.2.3")), None);
    assert_eq!(parse_v4_addr(&bytes("1.2.3.4.5")), None);
    assert_eq!(parse_v4_addr(&bytes("1.2.3.")), None);
}

#[test]
fn network_text_reads_prefix_mask_or_bare_address() {
    assert_eq!(
        parse_v4_network(&bytes("192.168.1.0/24")),
        Ok(Network { addr: IpAddress::V4(0xc0a80100), prefix: 24 })
    );
    assert_eq!(
        parse_v4_network(&bytes("10.0.0.1")),
        Ok(Network { addr: IpAddress::V4(0x0a000001), prefix: 32 })
    );
    assert_eq!(
        parse_v4_network(&bytes("10.0.0.1/255.255.255.0")),
        Ok(Network { addr: IpAddress::V4(0x0a000001), prefix: 24 })
    );
    assert_eq!(
        parse_v4_network(&bytes("10.0.0.1/255.255.0.255")),
        Err(NetworkParseError::InvalidPrefix)
    );
    assert_eq!(parse_v4_network(&bytes("10.0.0.1/33")), Err(NetworkParseError::InvalidPrefix));
    assert_eq!(parse_v4_network(&bytes("10.0.0.1/24/3")), Err(NetworkParseError::InvalidCidrFormat));
    assert_eq!(parse_v4_network(&bytes("bad/24")), Err(NetworkParseError::InvalidAddr));
}

#[test]
fn requested_ranges_come_from_file_or_text() {
    let content = bytes("192.168.1.0/24\r\n10.0.0.0/8\n");
    let from_file = ScanOptions::compute_networks(Some(&content), None)
        .expect("both lines read")
        .expect("ranges were asked for");
    assert_eq!(from_file.len(), 2);
    assert_eq!(from_file[0].prefix, 24);
    assert_eq!(from_file[1].prefix, 8);
    let raw = bytes("192.168.1.0/24,10.37.4.55/24");
    let from_text = ScanOptions::compute_networks(None, Some(&raw))
        .expect("both ranges read")
        .expect("ranges were asked for");
    assert_eq!(from_text.len(), 2);
    assert_eq!(ScanOptions::compute_networks(None, None), Ok(None));
    // A range that reads as neither family fails the whole computation,
    // whatever went wrong inside.
    let bad = bytes("192.168.1.0/24,1.2.3.4/99");
    assert_eq!(
        ScanOptions::compute_networks(None, Some(&bad)),
        Err(NetworkParseError::InvalidAddr)
    );
    let mixed = bytes("10.0.0.0/8,2001:db8::/32");
    let nets = ScanOptions::compute_networks(None, Some(&mixed))
        .expect("both ranges read")
        .expect("ranges were asked for");
    assert_eq!(nets[1].prefix, 32);
    assert_eq!(nets[1].addr, IpAddress::V6(0x2001_0db8_0000_0000_0000_0000_0000_0000));
}

#[test]
fn v6_address_text_reads_groups_and_elisions() {
    assert_eq!(parse_v6_addr(&bytes("::")), Some(0));
    assert_eq!(parse_v6_addr(&bytes("::1")), Some(1));
    assert_eq!(parse_v6_addr(&bytes("1::")), Some(0x0001_0000_0000_0000_0000_0000_0000_0000));
    assert_eq!(
        parse_v6_addr(&bytes("2001:db8::1")),
        Some(0x2001_0db8_0000_0000_0000_0000_0000_0001)
    );
    assert_eq!(
        parse_v6_addr(&bytes("1:2:3:4:5:6:7:8")),
        Some(0x0001_0002_0003_0004_0005_0006_0007_0008)
    );
    assert_eq!(
        parse_v6_addr(&bytes("ABCD::ef01")),
        Some(0xabcd_0000_0000_0000_0000_0000_0000_ef01)
    );
    assert_eq!(
        parse_v6_addr(&bytes("::ffff:1.2.3.4")),
        Some(0x0000_0000_0000_0000_0000_ffff_0102_0304)
    );
    assert_eq!(
        parse_v6_addr(&bytes("1:2:3:4:5:6:1.2.3.4")),
        Some(0x0001_0002_0003_0004_0005_0006_0102_0304)
    );
    // At least one group must be elided.
    assert_eq!(parse_v6_addr(&bytes("1:2:3:4:5:6:7:8::")), None);
    assert_eq!(parse_v6_addr(&bytes("1:2:3:4:5:6:7::8")), None);
    // One elision at most, and only whole groups.
    assert_eq!(parse_v6_addr(&bytes("1::2::3")), None);
    assert_eq!(parse_v6_addr(&bytes(":::")), None);
    assert_eq!(parse_v6_addr(&bytes(":1::2")), None);
    assert_eq!(parse_v6_addr(&bytes("1::2:")), None);
    assert_eq!(parse_v6_addr(&bytes("")), None);
    assert_eq!(parse_v6_addr(&bytes("1")), None);
    assert_eq!(parse_v6_addr(&bytes("12345::")), None);
    assert_eq!(parse_v6_addr(&bytes("1:2:3:4:5:6:7")), None);
    // The dotted tail stands for exactly the last two groups.
    assert_eq!(parse_v6_addr(&bytes("1:2:3:4:5:6:7:1.2.3.4")), None);
    assert_eq!(parse_v6_addr(&bytes("1.2.3.4::")), None);
}

#[test]
fn v6_network_text_reads_prefix_or_full_length() {
    assert_eq!(
        parse_v6_network(&bytes("2001:db8::/32")),
        Ok(Network {
            addr: IpAddress::V6(0x2001_0db8_0000_0000_0000_0000_0000_0000),
            prefix: 32
        })
    );
    assert_eq!(
        parse_v6_network(&bytes("::1")),
        Ok(Network { addr: IpAddress::V6(1), prefix: 128 })
    );
    assert_eq!(
        parse_v6_network(&bytes("2001:db8::/129")),
        Err(NetworkParseError::InvalidPrefix)
    );
    assert_eq!(parse_v6_network(&bytes("zz::/32")), Err(NetworkParseError::InvalidAddr));
}

#[test]
fn text_lines_drop_the_final_break() {
    assert_eq!(lines_of(&bytes("a\nb\n")), vec![bytes("a"), bytes("b")]);
    assert_eq!(lines_of(&bytes("a\nb")), vec![bytes("a"), bytes("b")]);
    assert_eq!(lines_of(&bytes("")), Vec::<Vec<u8>>::new());
    assert_eq!(lines_of(&bytes("a\r\n\nb")), vec![bytes("a"), bytes(""), bytes("b")]);
}

#[test]
fn scan_timing_prefers_bandwidth_then_interval_then_profile() {
    assert_eq!(
        ScanOptions::compute_scan_timing(Some(1_000_000), None, &ProfileType::Default),
        ScanTiming::Bandwidth(1_000_000)
    );
    assert_eq!(
        ScanOptions::compute_scan_timing(None, Some(25), &ProfileType::Default),
        ScanTiming::Interval(25)
    );
    assert_eq!(
        ScanOptions::compute_scan_timing(None, None, &ProfileType::Default),
        ScanTiming::Interval(10)
    );
    assert_eq!(
        ScanOptions::compute_scan_timing(None, None, &ProfileType::Stealth),
        ScanTiming::Interval(20)
    );
    assert_eq!(
        ScanOptions::compute_scan_timing(None, None, &ProfileType::Fast),
        ScanTiming::Interval(0)
    );
    // With both given, the profile decides, as the option matching falls
    // through.
    assert_eq!(
        ScanOptions::compute_scan_timing(Some(1), Some(2), &ProfileType::Chaos),
        ScanTiming::Interval(10)
    );
}

#[test]
fn scan_option_getters_read_their_fields() {
    let opts = ScanOptions {
        profile: ProfileType::Default,
        interface_name: Some("eth0".to_string()),
        network_range: None,
        timeout_ms: 2000,
        resolve_hostname: true,
        source_mac: None,
        destination_mac: None,
        vlan_id: Some(45),
        retry_count: 1,
        scan_timing: ScanTiming::Interval(10),
        randomize_targets: false,
        output: OutputFormat::Plain,
        oui_file: "".to_string(),
        hw_type: None,
        hw_addr: None,
        proto_type: None,
        proto_addr: None,
        arp_operation: None,
        packet_help: false,
    };
    assert!(opts.is_plain_output());
    assert!(opts.has_vlan());
    assert!(!opts.request_protocol_print());
    let json = ScanOptions { output: OutputFormat::Json, vlan_id: None, ..opts };
    assert!(!json.is_plain_output());
    assert!(!json.has_vlan());
}
