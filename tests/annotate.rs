use cddns::annotate::InventoryPostProcessor;
use cddns::cloudflare::{Record, Zone};
use cddns::inventory::{InventoryRecord, InventoryZone};

fn snapshot() -> InventoryPostProcessor {
    let zones = vec![Zone {
        id: "Z".to_string(),
        name: "example.com".to_string(),
        permissions: vec![],
        status: "active".to_string(),
    }];
    let records = vec![Record {
        id: "R1".to_string(),
        zone_id: "Z".to_string(),
        zone_name: "example.com".to_string(),
        name: "www.example.com".to_string(),
        record_type: "A".to_string(),
        content: "1.2.3.4".to_string(),
        locked: false,
    }];
    InventoryPostProcessor::from(zones, records)
}

fn entries(records: &[&str]) -> Vec<InventoryZone> {
    vec![InventoryZone {
        id: "Z".to_string(),
        records: records.iter().map(|r| InventoryRecord(r.to_string())).collect(),
    }]
}

#[test]
fn annotation_adds_aliases() {
    let text = "Z:\n- R1\n".to_string();
    let out = snapshot().post_process(&text, &entries(&["R1"]));
    assert_eq!(out, Some("Z: # 'example.com'\n- R1 # 'www.example.com'\n".to_string()));
}

#[test]
fn annotation_by_name_gives_id() {
    let text = "Z:\n- www.example.com\n".to_string();
    let out = snapshot().post_process(&text, &entries(&["www.example.com"]));
    assert_eq!(out, Some("Z: # 'example.com'\n- www.example.com # 'R1'\n".to_string()));
}

#[test]
fn failed_lookup_keeps_plain_text() {
    let text = "Z:\n- R9\n".to_string();
    let pp = snapshot();
    assert_eq!(pp.post_process(&text, &entries(&["R9"])), None);
    assert_eq!(pp.annotate_or_plain(text.clone(), &entries(&["R9"])), text);
}

#[test]
fn key_missing_from_text_keeps_plain_text() {
    let text = "Y:\n- R1\n".to_string();
    assert_eq!(snapshot().annotate_or_plain(text.clone(), &entries(&["R1"])), text);
}

#[test]
fn apex_record_comment_stays_on_its_line() {
    let zones = vec![Zone {
        id: "zid".to_string(),
        name: "example.com".to_string(),
        permissions: vec![],
        status: "active".to_string(),
    }];
    let records = vec![Record {
        id: "rid".to_string(),
        zone_id: "zid".to_string(),
        zone_name: "example.com".to_string(),
        name: "example.com".to_string(),
        record_type: "A".to_string(),
        content: "1.2.3.4".to_string(),
        locked: false,
    }];
    let pp = InventoryPostProcessor::from(zones, records);
    let entries = vec![InventoryZone {
        id: "example.com".to_string(),
        records: vec![InventoryRecord("example.com".to_string())],
    }];
    let text = "example.com:\n- example.com\n".to_string();
    assert_eq!(
        pp.annotate_or_plain(text, &entries),
        "example.com: # 'zid'\n- example.com # 'rid'\n".to_string()
    );
}

#[test]
fn text_other_than_plain_layout_is_left_alone() {
    let text = "Z:\n- R1\nextra: []\n".to_string();
    assert_eq!(snapshot().annotate_or_plain(text.clone(), &entries(&["R1"])), text);
    let quoted = "'Z':\n- R1\n".to_string();
    assert_eq!(snapshot().annotate_or_plain(quoted.clone(), &entries(&["R1"])), quoted);
}
