use cddns::cloudflare::Record;
use cddns::commit::{plan_updates, prune, remaining_invalid};
use cddns::inventory::InventoryData;
use cddns::reconcile::{check, needed_families, AddressFamily, ReconcileError};

fn record(id: &str, zone_id: &str, name: &str, kind: &str, content: &str) -> Record {
    Record {
        id: id.to_string(),
        zone_id: zone_id.to_string(),
        zone_name: format!("{}.example", zone_id),
        name: name.to_string(),
        record_type: kind.to_string(),
        content: content.to_string(),
        locked: false,
    }
}

fn ids(records: &[Record]) -> Vec<String> {
    records.iter().map(|r| r.id.clone()).collect()
}

fn two_record_inventory() -> InventoryData {
    let mut data = InventoryData::new();
    data.insert("Z", "R1");
    data.insert("Z", "R2");
    data
}

#[test]
fn invalid_detection() {
    let data = two_record_inventory();
    let live = vec![record("R1", "Z", "one.example", "A", "1.2.3.4")];
    let result = check(&data, &live, &Some("1.2.3.4".to_string()), &None).ok().unwrap();
    assert_eq!(ids(&result.valid), vec!["R1".to_string()]);
    assert!(result.outdated.is_empty());
    assert_eq!(result.invalid, vec![("Z".to_string(), "R2".to_string())]);
}

#[test]
fn commit_correction() {
    let data = two_record_inventory();
    let v4 = Some("1.2.3.4".to_string());
    let live = vec![record("R1", "Z", "one.example", "A", "9.9.9.9")];
    let result = check(&data, &live, &v4, &None).ok().unwrap();
    assert!(result.valid.is_empty());
    assert_eq!(ids(&result.outdated), vec!["R1".to_string()]);

    let calls = plan_updates(&result.outdated, &v4, &None).ok().unwrap();
    assert_eq!(calls.len(), 1);
    assert_eq!(calls[0].zone_id, "Z");
    assert_eq!(calls[0].record_id, "R1");
    assert_eq!(calls[0].content, "1.2.3.4");

    let patched = vec![record("R1", "Z", "one.example", "A", &calls[0].content)];
    let again = check(&data, &patched, &v4, &None).ok().unwrap();
    assert_eq!(ids(&again.valid), vec!["R1".to_string()]);
    assert!(again.outdated.is_empty());
}

#[test]
fn check_twice_is_identical() {
    let data = two_record_inventory();
    let live = vec![
        record("R1", "Z", "one.example", "A", "9.9.9.9"),
        record("R2", "Z", "two.example", "AAAA", "::1"),
    ];
    let v4 = Some("1.2.3.4".to_string());
    let v6 = Some("::1".to_string());
    let a = check(&data, &live, &v4, &v6).ok().unwrap();
    let b = check(&data, &live, &v4, &v6).ok().unwrap();
    assert_eq!(ids(&a.valid), ids(&b.valid));
    assert_eq!(ids(&a.outdated), ids(&b.outdated));
    assert_eq!(a.invalid, b.invalid);
    assert_eq!(ids(&a.valid), vec!["R2".to_string()]);
    assert_eq!(ids(&a.outdated), vec!["R1".to_string()]);
}

#[test]
fn matches_by_names_as_well_as_ids() {
    let mut data = InventoryData::new();
    data.insert("Z.example", "one.example");
    let live = vec![record("R1", "Z", "one.example", "A", "1.2.3.4")];
    let result = check(&data, &live, &Some("1.2.3.4".to_string()), &None).ok().unwrap();
    assert_eq!(ids(&result.valid), vec!["R1".to_string()]);
}

#[test]
fn empty_inventory_gives_empty_result() {
    let data = InventoryData::new();
    let result = check(&data, &vec![], &None, &None).ok().unwrap();
    assert!(result.valid.is_empty() && result.outdated.is_empty() && result.invalid.is_empty());
}

#[test]
fn missing_address_is_an_error() {
    let data = two_record_inventory();
    let live = vec![record("R1", "Z", "one.example", "AAAA", "::1")];
    match check(&data, &live, &Some("1.2.3.4".to_string()), &None) {
        Err(ReconcileError::AddressUnavailable(f)) => assert_eq!(f, AddressFamily::V6),
        _ => panic!("expected a missing address"),
    }
}

#[test]
fn unsupported_type_is_an_error() {
    let data = two_record_inventory();
    let live = vec![record("R1", "Z", "one.example", "CNAME", "x.example")];
    match check(&data, &live, &Some("1.2.3.4".to_string()), &None) {
        Err(ReconcileError::UnsupportedRecordType(t)) => assert_eq!(t, "CNAME"),
        _ => panic!("expected an unsupported type"),
    }
}

#[test]
fn call_count_bound() {
    let v4 = Some("1.2.3.4".to_string());
    let v6 = Some("::2".to_string());
    let mut data = InventoryData::new();
    for i in 0..5 {
        data.insert("Z", &format!("R{}", i));
    }
    let live = vec![
        record("R0", "Z", "a", "A", "1.2.3.4"),
        record("R1", "Z", "b", "A", "0.0.0.0"),
        record("R2", "Z", "c", "AAAA", "::1"),
        record("R3", "Z", "d", "A", "5.5.5.5"),
    ];
    let result = check(&data, &live, &v4, &v6).ok().unwrap();
    assert_eq!(result.valid.len(), 1);
    assert_eq!(result.invalid.len(), 1);
    let calls = plan_updates(&result.outdated, &v4, &v6).ok().unwrap();
    assert_eq!(calls.len(), 3);
    assert_eq!(calls[1].content, "::2");
}

#[test]
fn prune_removes_emptied_zone() {
    let mut data = InventoryData::new();
    data.insert("Z", "R2");
    let invalid = vec![("Z".to_string(), "R2".to_string())];
    let pruned = prune(&mut data, &invalid);
    assert_eq!(pruned, 1);
    assert!(data.is_empty());
    assert!(data.zones().is_empty());
    assert!(remaining_invalid(&invalid, &data).is_empty());
}

#[test]
fn prune_counts_only_tracked_pairs() {
    let mut data = two_record_inventory();
    let invalid = vec![
        ("Z".to_string(), "R2".to_string()),
        ("Y".to_string(), "R9".to_string()),
    ];
    assert_eq!(prune(&mut data, &invalid), 1);
    assert!(data.contains("Z", "R1"));
    assert!(!data.contains("Z", "R2"));
    let zones = data.zones();
    assert_eq!(zones.len(), 1);
    assert_eq!(zones[0].id, "Z");
}

#[test]
fn only_needed_families_are_resolved() {
    let data = two_record_inventory();
    let live = vec![
        record("R1", "Z", "one.example", "AAAA", "::1"),
        record("R7", "Z", "seven.example", "A", "1.1.1.1"),
    ];
    assert_eq!(needed_families(&data, &live), (false, true));
}
