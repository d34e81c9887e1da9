use cddns::config::{resolve, ConfigBuilder, ConfigOpts, ConfigOptsInventory, ConfigOptsVerify};

fn layer_with_token(token: &str) -> ConfigBuilder {
    ConfigOpts::builder().verify_token(Some(token.to_string()))
}

#[test]
fn merge_precedence() {
    let defaults = ConfigOpts::defaults("inventory.yml".to_string());
    let file = layer_with_token("file").inventory_watch_interval(Some(5000));
    let env = layer_with_token("env");
    let cli = ConfigOpts::builder().inventory_force_update(Some(true));
    let opts = resolve(defaults, file, env, cli);
    assert_eq!(opts.verify.token, Some("env".to_string()));
    assert_eq!(opts.inventory.watch_interval, Some(5000));
    assert_eq!(opts.inventory.force_update, Some(true));
    assert_eq!(opts.inventory.force_prune, Some(false));
    assert_eq!(opts.inventory.path, Some("inventory.yml".to_string()));
    assert_eq!(opts.list.include_zones, Some(vec![".*".to_string()]));
    assert_eq!(opts.list.ignore_records, Some(vec![]));
}

#[test]
fn omitted_layer_changes_nothing() {
    let defaults = ConfigOpts::defaults("a.yml".to_string());
    let opts = resolve(defaults, ConfigBuilder::new(), ConfigBuilder::new(), ConfigBuilder::new());
    assert_eq!(opts.verify.token, None);
    assert_eq!(opts.inventory.watch_interval, Some(30000));
    assert_eq!(opts.inventory.path, Some("a.yml".to_string()));
}

#[test]
fn lists_are_replaced_not_joined() {
    let lower = ConfigOpts::builder().list_include_zones(Some(vec!["a".to_string(), "b".to_string()]));
    let upper = ConfigOpts::builder().list_include_zones(Some(vec!["c".to_string()]));
    let opts = lower.merge(upper).build();
    assert_eq!(opts.list.include_zones, Some(vec!["c".to_string()]));
    assert_eq!(opts.list.ignore_zones, None);
}

#[test]
fn sections_merge_field_by_field() {
    let lower = ConfigOpts::builder().inventory(Some(ConfigOptsInventory {
        path: Some("low.yml".to_string()),
        force_update: Some(false),
        force_prune: None,
        watch_interval: Some(10),
    }));
    let upper = ConfigOpts::builder().inventory(Some(ConfigOptsInventory {
        path: None,
        force_update: Some(true),
        force_prune: Some(true),
        watch_interval: None,
    }));
    let opts = lower.merge(upper).build();
    assert_eq!(opts.inventory.path, Some("low.yml".to_string()));
    assert_eq!(opts.inventory.force_update, Some(true));
    assert_eq!(opts.inventory.force_prune, Some(true));
    assert_eq!(opts.inventory.watch_interval, Some(10));
}

#[test]
fn verify_section_replaced_whole() {
    let b = layer_with_token("t").verify(Some(ConfigOptsVerify { token: None }));
    assert_eq!(b.build().verify.token, None);
    let b = layer_with_token("t").verify(None);
    assert_eq!(b.build().verify.token, None);
}

#[test]
fn token_required() {
    let opts = ConfigOpts::builder().build();
    assert!(opts.token().is_err());
    let opts = layer_with_token("abc").build();
    assert_eq!(opts.token().ok().unwrap(), "abc");
}

#[test]
fn setters_set_each_field() {
    let opts = ConfigOpts::builder()
        .list_ignore_zones(Some(vec!["x".to_string()]))
        .list_include_records(Some(vec!["y".to_string()]))
        .list_ignore_records(Some(vec!["z".to_string()]))
        .inventory_path(Some("p.yml".to_string()))
        .inventory_force_prune(Some(true))
        .build();
    assert_eq!(opts.list.ignore_zones, Some(vec!["x".to_string()]));
    assert_eq!(opts.list.include_records, Some(vec!["y".to_string()]));
    assert_eq!(opts.list.ignore_records, Some(vec!["z".to_string()]));
    assert_eq!(opts.inventory.path, Some("p.yml".to_string()));
    assert_eq!(opts.inventory.force_prune, Some(true));
    assert_eq!(opts.list.include_zones, None);
}

#[test]
fn merged_opts_layer_over_builder() {
    let base = ConfigOpts::defaults("base.yml".to_string());
    let opts = ConfigBuilder::new()
        .inventory_watch_interval(Some(1))
        .merge_opts(base)
        .build();
    assert_eq!(opts.inventory.watch_interval, Some(30000));
    let back = ConfigBuilder::from_opts(opts).build();
    assert_eq!(back.inventory.path, Some("base.yml".to_string()));
}
