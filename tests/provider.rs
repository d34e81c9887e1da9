use cddns::cloudflare::{keep_editable_zones, keep_supported_records, next_page, Record, Zone};

fn zone(name: &str, status: &str, perms: &[&str]) -> Zone {
    Zone {
        id: format!("id-{}", name),
        name: name.to_string(),
        permissions: perms.iter().map(|p| p.to_string()).collect(),
        status: status.to_string(),
    }
}

fn record(id: &str, kind: &str, locked: bool) -> Record {
    Record {
        id: id.to_string(),
        zone_id: "z".to_string(),
        zone_name: "example.com".to_string(),
        name: id.to_string(),
        record_type: kind.to_string(),
        content: "x".to_string(),
        locked,
    }
}

#[test]
fn only_active_editable_zones() {
    let zones = vec![
        zone("a", "active", &["#zone:read", "#zone:edit"]),
        zone("b", "pending", &["#zone:edit"]),
        zone("c", "active", &["#zone:read"]),
    ];
    let kept = keep_editable_zones(zones);
    assert_eq!(kept.len(), 1);
    assert_eq!(kept[0].name, "a");
}

#[test]
fn only_address_records() {
    let records = vec![
        record("1", "A", true),
        record("2", "AAAA", false),
        record("3", "AAAA", true),
        record("4", "TXT", false),
    ];
    let kept: Vec<String> = keep_supported_records(records).into_iter().map(|r| r.id).collect();
    assert_eq!(kept, vec!["1".to_string(), "2".to_string()]);
}

#[test]
fn paging() {
    assert_eq!(next_page(1, 3), Some(2));
    assert_eq!(next_page(3, 3), None);
    assert_eq!(next_page(1, 0), None);
}
