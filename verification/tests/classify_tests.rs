use router_monitor::classify::{FlowLabel, attribution, classify};
use router_monitor::net::{IpAddress, Network};

fn v4(a: u8, b: u8, c: u8, d: u8) -> IpAddress {
    IpAddress::V4(
        (a as u32) * 0x1000000 + (b as u32) * 0x10000 + (c as u32) * 0x100 + (d as u32),
    )
}

#[test]
fn v4_address_renders_dotted_decimal() {
    assert_eq!(v4(192, 168, 1, 10).to_text(), "192.168.1.10");
    assert_eq!(v4(8, 8, 8, 8).to_text(), "8.8.8.8");
    assert_eq!(v4(0, 0, 0, 0).to_text(), "0.0.0.0");
    assert_eq!(v4(255, 255, 255, 255).to_text(), "255.255.255.255");
}

#[test]
fn v6_address_renders_canonical_form() {
    assert_eq!(IpAddress::V6(0).to_text(), "::");
    assert_eq!(IpAddress::V6(1).to_text(), "::1");
    assert_eq!(
        IpAddress::V6(0x2001_0db8_0000_0000_0000_0000_0000_0001).to_text(),
        "2001:db8::1"
    );
    // The longest zero run wins.
    assert_eq!(
        IpAddress::V6(0x2001_0000_0000_0db8_0000_0000_0000_0001).to_text(),
        "2001:0:0:db8::1"
    );
    // On a tie the leftmost run is elided.
    assert_eq!(
        IpAddress::V6(0x2001_0000_0000_0db8_0000_0000_0db8_0001).to_text(),
        "2001::db8:0:0:db8:1"
    );
    // A single zero group is not elided.
    assert_eq!(
        IpAddress::V6(0x2001_0db8_0000_0001_0001_0001_0001_0001).to_text(),
        "2001:db8:0:1:1:1:1:1"
    );
    // No zero group at all.
    assert_eq!(
        IpAddress::V6(0x0001_0002_0003_0004_0005_0006_0007_0008).to_text(),
        "1:2:3:4:5:6:7:8"
    );
    // An IPv4-mapped address keeps its dotted-decimal tail.
    assert_eq!(
        IpAddress::V6(0x0000_0000_0000_0000_0000_ffff_0102_0304).to_text(),
        "::ffff:1.2.3.4"
    );
    // A trailing zero run.
    assert_eq!(
        IpAddress::V6(0x0001_0000_0000_0000_0000_0000_0000_0000).to_text(),
        "1::"
    );
}

#[test]
fn network_membership_is_by_leading_bits() {
    let net = Network { addr: v4(192, 168, 1, 10), prefix: 24 };
    assert!(net.contains(&v4(192, 168, 1, 10)));
    assert!(net.contains(&v4(192, 168, 1, 20)));
    assert!(!net.contains(&v4(192, 168, 2, 1)));
    assert!(!net.contains(&v4(8, 8, 8, 8)));
    // An address of the other family is never a member.
    assert!(!net.contains(&IpAddress::V6(1)));
    // A zero prefix admits every address of the family.
    let all = Network { addr: v4(0, 0, 0, 0), prefix: 0 };
    assert!(all.contains(&v4(255, 1, 2, 3)));
    // A full prefix admits exactly one address.
    let one = Network { addr: v4(10, 0, 0, 1), prefix: 32 };
    assert!(one.contains(&v4(10, 0, 0, 1)));
    assert!(!one.contains(&v4(10, 0, 0, 2)));
}

#[test]
fn member_attributes_by_literal_text_others_as_internet() {
    let nets = vec![Network { addr: v4(192, 168, 1, 10), prefix: 24 }];
    assert_eq!(attribution(&v4(192, 168, 1, 10), &nets), "192.168.1.10");
    assert_eq!(attribution(&v4(192, 168, 1, 20), &nets), "192.168.1.20");
    assert_eq!(attribution(&v4(8, 8, 8, 8), &nets), "internet");
    let v6net = Network {
        addr: IpAddress::V6(0x2001_0db8_0000_0000_0000_0000_0000_0000),
        prefix: 32,
    };
    let both = vec![nets[0], v6net];
    assert_eq!(
        attribution(&IpAddress::V6(0x2001_0db8_0000_0000_0000_0000_0000_0001), &both),
        "2001:db8::1"
    );
    assert_eq!(
        attribution(&IpAddress::V6(0x2001_0db9_0000_0000_0000_0000_0000_0001), &both),
        "internet"
    );
}

#[test]
fn classify_pairs_both_attributions() {
    let nets = vec![Network { addr: v4(192, 168, 1, 10), prefix: 24 }];
    let label = classify(&v4(192, 168, 1, 10), &v4(8, 8, 8, 8), &nets);
    assert_eq!(label.src, "192.168.1.10");
    assert_eq!(label.dst, "internet");
}

#[test]
fn labels_compare_by_value() {
    let a = FlowLabel { src: "a".to_string(), dst: "b".to_string() };
    let b = FlowLabel { src: "a".to_string(), dst: "b".to_string() };
    let c = FlowLabel { src: "a".to_string(), dst: "c".to_string() };
    assert!(a.label_eq(&b));
    assert!(!a.label_eq(&c));
    let d = a.duplicate();
    assert!(a.label_eq(&d));
}
