use cddns::cloudflare::{Record, Zone};
use cddns::session::BuildSession;

fn zone(id: &str) -> Zone {
    Zone {
        id: id.to_string(),
        name: format!("{}.com", id),
        permissions: vec!["#zone:edit".to_string()],
        status: "active".to_string(),
    }
}

fn record(id: &str, zone_id: &str) -> Record {
    Record {
        id: id.to_string(),
        zone_id: zone_id.to_string(),
        zone_name: format!("{}.com", zone_id),
        name: format!("{}.{}.com", id, zone_id),
        record_type: "A".to_string(),
        content: "1.1.1.1".to_string(),
        locked: false,
    }
}

#[test]
fn picking_last_record_of_zone_drops_zone() {
    let mut s = BuildSession::new(vec![zone("a"), zone("b")], vec![record("r1", "a"), record("r2", "b"), record("r3", "b")]);
    assert_eq!(s.options(1), vec![1, 2]);
    s.pick(0, 0);
    assert!(s.data.contains("a", "r1"));
    assert_eq!(s.zones.len(), 1);
    assert_eq!(s.zones[0].id, "b");
    assert_eq!(s.records.len(), 2);
    s.pick(0, 0);
    assert_eq!(s.zones.len(), 1);
    assert!(!s.finished());
    s.pick(0, 0);
    assert!(s.finished());
    assert!(s.data.contains("b", "r2") && s.data.contains("b", "r3"));
}
