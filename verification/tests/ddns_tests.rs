use router_monitor::ddns::{
    DdnsCloudflare, DnsRecordRequest, DnsRecordResponse, UpdateAction, first_zone_id, plan_update,
};

fn updater() -> DdnsCloudflare {
    DdnsCloudflare::new(
        "api-token".to_string(),
        "operator".to_string(),
        "home.example".to_string(),
        "router.home.example".to_string(),
        300,
    )
}

fn held(content: &str, ttl: u32, proxied: bool, record_type: &str) -> DnsRecordResponse {
    DnsRecordResponse {
        name: "router.home.example".to_string(),
        content: content.to_string(),
        record_type: record_type.to_string(),
        id: "rec-1".to_string(),
        ttl,
        proxied,
    }
}

#[test]
fn desired_record_carries_the_current_address() {
    let r = updater().desired_record("203.0.113.7".to_string());
    assert_eq!(r.name, "router.home.example");
    assert_eq!(r.content, "203.0.113.7");
    assert_eq!(r.record_type, "A");
    assert_eq!(r.ttl, 300);
    assert!(!r.proxied);
}

#[test]
fn missing_record_is_created() {
    let desired = updater().desired_record("203.0.113.7".to_string());
    assert!(matches!(plan_update(&None, &desired), UpdateAction::Create));
}

#[test]
fn changed_address_rewrites_the_record() {
    let desired = updater().desired_record("203.0.113.7".to_string());
    let current = Some(held("203.0.113.6", 300, false, "A"));
    match plan_update(&current, &desired) {
        UpdateAction::Update { id } => assert_eq!(id, "rec-1"),
        other => panic!("expected a rewrite, got {}", kind_of(&other)),
    }
}

#[test]
fn changed_ttl_proxying_or_type_rewrites_too() {
    let desired = updater().desired_record("203.0.113.7".to_string());
    for current in [
        held("203.0.113.7", 60, false, "A"),
        held("203.0.113.7", 300, true, "A"),
        held("203.0.113.7", 300, false, "AAAA"),
    ] {
        assert!(matches!(
            plan_update(&Some(current), &desired),
            UpdateAction::Update { .. }
        ));
    }
}

#[test]
fn matching_record_is_kept() {
    let desired = updater().desired_record("203.0.113.7".to_string());
    let current = Some(held("203.0.113.7", 300, false, "A"));
    assert!(matches!(plan_update(&current, &desired), UpdateAction::Keep));
}

#[test]
fn the_first_zone_wins_and_an_empty_listing_is_none() {
    assert_eq!(
        first_zone_id(vec!["z1".to_string(), "z2".to_string()]),
        Some("z1".to_string())
    );
    assert_eq!(first_zone_id(Vec::new()), None);
}

fn kind_of(a: &UpdateAction) -> &'static str {
    match a {
        UpdateAction::Create => "create",
        UpdateAction::Update { .. } => "update",
        UpdateAction::Keep => "keep",
    }
}

#[test]
fn request_fields_survive_construction() {
    let r = DnsRecordRequest {
        name: "n".to_string(),
        content: "c".to_string(),
        record_type: "A".to_string(),
        ttl: 1,
        proxied: true,
    };
    assert_eq!(r.name, "n");
    assert!(r.proxied);
}
