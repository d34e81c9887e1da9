use cddns::inventory::{Inventory, InventoryData, InventoryError, InventoryRecord, InventoryZone};

fn zone(id: &str, records: &[&str]) -> InventoryZone {
    InventoryZone {
        id: id.to_string(),
        records: records.iter().map(|r| InventoryRecord(r.to_string())).collect(),
    }
}

fn pairs(data: &InventoryData) -> Vec<(String, String)> {
    let mut out = Vec::new();
    for z in data.zones() {
        for r in z.records {
            out.push((z.id.clone(), r.0));
        }
    }
    out.sort();
    out
}

#[test]
fn insert_contains_remove() {
    let mut data = InventoryData::new();
    assert!(data.is_empty());
    data.insert("Z", "R1");
    data.insert("Z", "R1");
    assert!(data.contains("Z", "R1"));
    assert!(!data.contains("Z", "R2"));
    assert_eq!(pairs(&data).len(), 1);
    assert!(!data.remove("Z", "R2"));
    assert!(data.remove("Z", "R1"));
    assert!(!data.remove("Z", "R1"));
    assert!(data.is_empty());
}

#[test]
fn remove_last_record_drops_zone() {
    let mut data = InventoryData::new();
    data.insert("Z", "R1");
    data.insert("Y", "R2");
    assert!(data.remove("Z", "R1"));
    let zones = data.zones();
    assert_eq!(zones.len(), 1);
    assert_eq!(zones[0].id, "Y");
}

#[test]
fn grouping_collects_records_by_zone() {
    let mut data = InventoryData::new();
    data.insert("Z", "R1");
    data.insert("Y", "R2");
    data.insert("Z", "R3");
    let zones = data.zones();
    assert_eq!(zones.len(), 2);
    assert_eq!(zones[0].id, "Z");
    let recs: Vec<String> = zones[0].records.iter().map(|r| r.0.clone()).collect();
    assert_eq!(recs, vec!["R1".to_string(), "R3".to_string()]);
}

#[test]
fn round_trip_ignores_order() {
    let written = vec![zone("Z", &["R1", "R3"]), zone("Y", &["R2"])];
    let data = InventoryData::from_zones(&written);
    let mut entries = data.zones();
    entries.reverse();
    let reread = InventoryData::from_zones(&entries);
    assert_eq!(pairs(&reread), pairs(&data));
    assert_eq!(
        pairs(&data),
        vec![
            ("Y".to_string(), "R2".to_string()),
            ("Z".to_string(), "R1".to_string()),
            ("Z".to_string(), "R3".to_string()),
        ]
    );
}

#[test]
fn iterator_hands_out_every_zone() {
    let data = InventoryData::from_zones(&vec![zone("Z", &["R1"]), zone("Y", &["R2"])]);
    let mut it = data.iter();
    let mut seen = Vec::new();
    while let Some(z) = it.next() {
        seen.push(z.id);
    }
    seen.sort();
    assert_eq!(seen, vec!["Y".to_string(), "Z".to_string()]);
}

#[test]
fn builder_needs_path_and_data() {
    let missing_path = Inventory::builder().with_data(InventoryData::new()).build();
    assert!(matches!(missing_path, Err(InventoryError::MissingPath)));
    let missing_data = Inventory::builder().path("inv.yml".to_string()).build();
    assert!(matches!(missing_data, Err(InventoryError::MissingData)));
    let built = Inventory::builder()
        .path("inv.yml".to_string())
        .with_data(InventoryData::new())
        .build();
    match built {
        Ok(inv) => {
            assert_eq!(inv.path, "inv.yml");
            assert!(inv.data.is_empty());
        }
        Err(_) => panic!("expected an inventory"),
    }
}

#[test]
fn zone_without_records_is_not_kept() {
    let data = InventoryData::from_zones(&vec![zone("Z", &[]), zone("Y", &["R1", "R1"])]);
    let zones = data.zones();
    assert_eq!(zones.len(), 1);
    assert_eq!(zones[0].id, "Y");
    assert_eq!(zones[0].records.len(), 1);
}

#[test]
fn sorted_zones_orders_entries_and_records() {
    let data = InventoryData::from_zones(&vec![zone("b.com", &["z", "a"]), zone("a.com", &["m", "b", "c"])]);
    let sorted = data.sorted_zones();
    let ids: Vec<String> = sorted.iter().map(|z| z.id.clone()).collect();
    assert_eq!(ids, vec!["a.com".to_string(), "b.com".to_string()]);
    let first: Vec<String> = sorted[0].records.iter().map(|r| r.0.clone()).collect();
    assert_eq!(first, vec!["b".to_string(), "c".to_string(), "m".to_string()]);
    let second: Vec<String> = sorted[1].records.iter().map(|r| r.0.clone()).collect();
    assert_eq!(second, vec!["a".to_string(), "z".to_string()]);
}

#[test]
fn string_order_is_by_code_point() {
    assert!(cddns::order::str_lt("a", "b"));
    assert!(cddns::order::str_lt("ab", "abc"));
    assert!(!cddns::order::str_lt("abc", "ab"));
    assert!(!cddns::order::str_lt("a", "a"));
    assert!(cddns::order::str_lt("Z", "a"));
}
