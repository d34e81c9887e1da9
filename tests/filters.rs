use cddns::cloudflare::{Record, Zone};
use cddns::config::ConfigOpts;
use cddns::filters::{find_record, find_zone, retain_records, retain_zones, FilterSetting};

fn zone(id: &str, name: &str) -> Zone {
    Zone {
        id: id.to_string(),
        name: name.to_string(),
        permissions: vec!["#zone:edit".to_string()],
        status: "active".to_string(),
    }
}

fn record(id: &str, name: &str) -> Record {
    Record {
        id: id.to_string(),
        zone_id: "z".to_string(),
        zone_name: "example.com".to_string(),
        name: name.to_string(),
        record_type: "A".to_string(),
        content: "1.1.1.1".to_string(),
        locked: false,
    }
}

#[test]
fn retain_zones_applies_include_and_ignore() {
    let opts = ConfigOpts::builder()
        .list_include_zones(Some(vec![r"\.com$".to_string()]))
        .list_ignore_zones(Some(vec!["^skip".to_string()]))
        .build();
    let mut zones = vec![zone("1", "a.com"), zone("2", "b.dev"), zone("3", "skip.com")];
    assert!(retain_zones(&mut zones, &opts).is_ok());
    let names: Vec<String> = zones.iter().map(|z| z.name.clone()).collect();
    assert_eq!(names, vec!["a.com".to_string()]);
}

#[test]
fn retain_zones_without_filters_keeps_all() {
    let opts = ConfigOpts::builder().build();
    let mut zones = vec![zone("1", "a.com"), zone("2", "b.dev")];
    assert!(retain_zones(&mut zones, &opts).is_ok());
    assert_eq!(zones.len(), 2);
}

#[test]
fn bad_pattern_names_its_setting() {
    let opts = ConfigOpts::builder()
        .list_ignore_records(Some(vec!["(".to_string()]))
        .build();
    let mut records = vec![record("1", "a")];
    match retain_records(&mut records, &opts) {
        Err(e) => {
            assert_eq!(e.setting, FilterSetting::IgnoreRecords);
            assert_eq!(e.pattern, "(");
        }
        Ok(()) => panic!("expected a filter error"),
    }
}

#[test]
fn retain_records_matches_id_or_name() {
    let opts = ConfigOpts::builder()
        .list_include_records(Some(vec!["^www".to_string()]))
        .build();
    let mut records = vec![record("www1", "x.com"), record("2", "www.y.com"), record("3", "z.com")];
    assert!(retain_records(&mut records, &opts).is_ok());
    let ids: Vec<String> = records.iter().map(|r| r.id.clone()).collect();
    assert_eq!(ids, vec!["www1".to_string(), "2".to_string()]);
}

#[test]
fn find_by_id_or_name() {
    let zones = vec![zone("1", "a.com"), zone("2", "b.com")];
    assert_eq!(find_zone(&zones, "b.com").unwrap().id, "2");
    assert_eq!(find_zone(&zones, "1").unwrap().name, "a.com");
    assert!(find_zone(&zones, "c.com").is_none());
    let records = vec![record("1", "a"), record("2", "b")];
    assert_eq!(find_record(&records, "b").unwrap().id, "2");
    assert!(find_record(&records, "3").is_none());
}

#[test]
fn menu_and_zone_positions() {
    use_menu();
}

fn use_menu() {
    assert_eq!(cddns::filters::menu_choice(1, 3), Some(0));
    assert_eq!(cddns::filters::menu_choice(0, 3), None);
    assert_eq!(cddns::filters::menu_choice(4, 3), None);
    let mut other = record("9", "n");
    other.zone_id = "other".to_string();
    let records = vec![record("1", "a"), other, record("2", "b")];
    assert_eq!(cddns::filters::records_of_zone(&records, "z"), vec![0, 2]);
}
