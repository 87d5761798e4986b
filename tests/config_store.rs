use mgmt::acquire::RequiredKey;
use mgmt::merge::SectionSelector;
use mgmt::store::{ConfigStore, StoreError};
use mgmt::value_check::value_conforms;

fn named(names: &[&str]) -> SectionSelector {
    SectionSelector::Named(names.iter().map(|n| n.to_string()).collect())
}

fn database_store() -> ConfigStore {
    let mut store = ConfigStore::seeded();
    store.add_section("database");
    store.set_default("database", "host", "db.local", "string").unwrap();
    store.upsert_environment("staging", "de-staging");
    store.upsert_environment("prod", "de-prod");
    store
}

#[test]
fn upsert_environment_is_idempotent() {
    let mut store = ConfigStore::seeded();
    let first = store.upsert_environment("staging", "ns-a");
    let second = store.upsert_environment("staging", "ns-b");
    assert_eq!(first, second);
    assert_eq!(store.environments.len(), 1);
    assert_eq!(store.environments[0].namespace, "ns-a");
    assert_eq!(store.get_env_id("staging"), Some(first));
}

#[test]
fn upsert_environment_new_names_get_new_ids() {
    let mut store = ConfigStore::seeded();
    assert_eq!(store.upsert_environment("staging", "ns"), 1);
    assert_eq!(store.upsert_environment("prod", "ns"), 2);
}

#[test]
fn get_env_id_unknown_is_none() {
    let store = database_store();
    assert_eq!(store.get_env_id("qa"), None);
}

#[test]
fn add_section_is_idempotent() {
    let mut store = ConfigStore::seeded();
    let a = store.add_section("auth");
    let b = store.add_section("database");
    assert_ne!(a, b);
    assert_eq!(store.add_section("auth"), a);
    assert_eq!(store.list_sections(), vec!["auth".to_string(), "database".to_string()]);
}

#[test]
fn delete_missing_section_affects_no_rows() {
    let mut store = database_store();
    assert_eq!(store.delete_section("nope"), Ok(0));
    assert_eq!(store.list_sections(), vec!["database".to_string()]);
}

#[test]
fn delete_referenced_section_is_refused() {
    let mut store = database_store();
    assert_eq!(store.delete_section("database"), Err(StoreError::SectionInUse));
    assert_eq!(store.list_sections(), vec!["database".to_string()]);
}

#[test]
fn delete_unreferenced_section() {
    let mut store = database_store();
    store.add_section("auth");
    assert_eq!(store.delete_section("auth"), Ok(1));
    assert_eq!(store.list_sections(), vec!["database".to_string()]);
    // A new section takes a fresh identity.
    let id = store.add_section("auth");
    assert_eq!(id, 3);
}

#[test]
fn set_config_value_links_default() {
    let mut store = database_store();
    let id = store.set_config_value("database", "host", "db.x", "string").unwrap();
    assert_eq!(id, 1);
    assert_eq!(store.config_values[0].default_id, Some(1));
    let id2 = store.set_config_value("database", "port", "5432", "integer").unwrap();
    assert_eq!(id2, 2);
    assert_eq!(store.config_values[1].default_id, None);
}

#[test]
fn set_config_value_errors() {
    let mut store = database_store();
    assert_eq!(
        store.set_config_value("cache", "host", "x", "string"),
        Err(StoreError::SectionNotFound)
    );
    assert_eq!(
        store.set_config_value("database", "host", "x", "float"),
        Err(StoreError::ValueTypeNotFound)
    );
    assert_eq!(
        store.set_config_value("database", "port", "54a", "integer"),
        Err(StoreError::TypeMismatch)
    );
    assert_eq!(
        store.set_config_value("database", "tls", "yes", "boolean"),
        Err(StoreError::TypeMismatch)
    );
    assert_eq!(store.config_values.len(), 0);
}

#[test]
fn add_env_cfg_value_errors() {
    let mut store = database_store();
    let cid = store.set_config_value("database", "host", "h", "string").unwrap();
    assert_eq!(store.add_env_cfg_value(9, cid), Err(StoreError::EnvironmentNotFound));
    assert_eq!(store.add_env_cfg_value(1, 9), Err(StoreError::ConfigValueNotFound));
    assert_eq!(store.add_env_cfg_value(1, cid), Ok(1));
}

#[test]
fn set_default_replaces_in_place() {
    let mut store = database_store();
    let id = store.set_default("database", "host", "db2.local", "string").unwrap();
    assert_eq!(id, 1);
    assert_eq!(store.defaults.len(), 1);
    assert_eq!(store.defaults[0].value, "db2.local");
}

#[test]
fn value_type_rules() {
    let int = "integer".to_string();
    let boolean = "boolean".to_string();
    let string = "string".to_string();
    assert!(value_conforms(&int, &"-42".to_string()));
    assert!(value_conforms(&int, &"0".to_string()));
    assert!(!value_conforms(&int, &"-".to_string()));
    assert!(!value_conforms(&int, &"".to_string()));
    assert!(!value_conforms(&int, &"4.2".to_string()));
    assert!(value_conforms(&boolean, &"true".to_string()));
    assert!(value_conforms(&boolean, &"false".to_string()));
    assert!(!value_conforms(&boolean, &"True".to_string()));
    assert!(value_conforms(&string, &"anything at all".to_string()));
}

#[test]
fn override_takes_precedence_over_default() {
    let mut store = database_store();
    let cid = store.set_config_value("database", "host", "db.staging.internal", "string").unwrap();
    let staging = store.get_env_id("staging").unwrap();
    store.add_env_cfg_value(staging, cid).unwrap();
    assert_eq!(store.resolve(staging, 1, "host"), Some(("db.staging.internal".to_string(), 1)));
    let prod = store.get_env_id("prod").unwrap();
    assert_eq!(store.resolve(prod, 1, "host"), Some(("db.local".to_string(), 1)));
}

#[test]
fn last_write_wins() {
    let mut store = database_store();
    let staging = store.get_env_id("staging").unwrap();
    let c1 = store.set_config_value("database", "host", "first", "string").unwrap();
    store.add_env_cfg_value(staging, c1).unwrap();
    let c2 = store.set_config_value("database", "host", "second", "string").unwrap();
    store.add_env_cfg_value(staging, c2).unwrap();
    assert_eq!(store.resolve(staging, 1, "host"), Some(("second".to_string(), 1)));
    assert_eq!(store.render_values("staging", &named(&["database"])).unwrap(), "database:\n  host: second\n");
}

#[test]
fn override_without_default_is_included() {
    let mut store = database_store();
    let staging = store.get_env_id("staging").unwrap();
    let cid = store.set_config_value("database", "port", "5432", "integer").unwrap();
    store.add_env_cfg_value(staging, cid).unwrap();
    let doc = store.resolve_values("staging", &SectionSelector::All).unwrap();
    assert_eq!(doc.len(), 1);
    assert_eq!(doc[0].name, "database");
    assert_eq!(doc[0].entries.len(), 2);
    assert_eq!(doc[0].entries[0].key, "host");
    assert_eq!(doc[0].entries[1].key, "port");
    assert_eq!(doc[0].entries[1].value, "5432");
    assert_eq!(doc[0].entries[1].value_type_id, 2);
    assert_eq!(
        store.render_values("staging", &SectionSelector::All).unwrap(),
        "database:\n  host: db.local\n  port: 5432\n"
    );
    // Another environment does not see the key.
    assert_eq!(store.render_values("prod", &SectionSelector::All).unwrap(), "database:\n  host: db.local\n");
}

#[test]
fn render_is_deterministic() {
    let mut store = database_store();
    store.add_section("auth");
    store.set_default("auth", "issuer", "https://auth.local", "string").unwrap();
    let a = store.render_values("staging", &SectionSelector::All).unwrap();
    let b = store.render_values("staging", &SectionSelector::All).unwrap();
    assert_eq!(a, b);
    let c = store.render_values("staging", &named(&["auth", "database"])).unwrap();
    assert_eq!(a, c);
    assert_eq!(a, "database:\n  host: db.local\nauth:\n  issuer: https://auth.local\n");
}

#[test]
fn render_values_unknown_environment() {
    let store = database_store();
    assert_eq!(
        store.render_values("qa", &SectionSelector::All),
        Err(StoreError::EnvironmentNotFound)
    );
    assert!(store.resolve_values("qa", &SectionSelector::All).is_err());
}

#[test]
fn render_values_selects_sections() {
    let mut store = database_store();
    store.add_section("auth");
    store.set_default("auth", "issuer", "i", "string").unwrap();
    assert_eq!(store.render_values("prod", &named(&["auth"])).unwrap(), "auth:\n  issuer: i\n");
    assert_eq!(store.render_values("prod", &named(&[])).unwrap(), "");
}

#[test]
fn staging_database_scenario() {
    let mut store = database_store();
    let sel = named(&["database"]);
    assert_eq!(store.render_values("staging", &sel).unwrap(), "database:\n  host: db.local\n");
    let cid = store.set_config_value("database", "host", "db.staging.internal", "string").unwrap();
    let staging = store.get_env_id("staging").unwrap();
    store.add_env_cfg_value(staging, cid).unwrap();
    assert_eq!(
        store.render_values("staging", &sel).unwrap(),
        "database:\n  host: db.staging.internal\n"
    );
    assert_eq!(store.render_values("prod", &sel).unwrap(), "database:\n  host: db.local\n");
}

#[test]
fn render_defaults_groups_by_section() {
    let mut store = database_store();
    store.add_section("auth");
    store.set_default("auth", "issuer", "i", "string").unwrap();
    store.set_default("database", "port", "5432", "integer").unwrap();
    assert_eq!(
        store.render_defaults(),
        "database:\n  host: db.local\n  port: 5432\nauth:\n  issuer: i\n"
    );
    assert_eq!(ConfigStore::seeded().render_defaults(), "");
}

#[test]
fn missing_values_and_answers() {
    let mut store = database_store();
    let required = vec![
        RequiredKey { section: "database".to_string(), key: "host".to_string() },
        RequiredKey { section: "database".to_string(), key: "password".to_string() },
    ];
    let missing = store.missing_values("staging", &required).unwrap();
    assert_eq!(missing.len(), 1);
    assert_eq!(missing[0].key, "password");
    assert_eq!(store.record_answer("staging", "database", "password", "s3cr3t", "secret"), Ok(1));
    assert_eq!(store.missing_values("staging", &required).unwrap().len(), 0);
    assert_eq!(store.missing_values("prod", &required).unwrap().len(), 1);
    assert_eq!(
        store.missing_values("qa", &required).map(|m| m.len()),
        Err(StoreError::EnvironmentNotFound)
    );
    let bad = vec![RequiredKey { section: "cache".to_string(), key: "k".to_string() }];
    assert_eq!(store.missing_values("staging", &bad).map(|m| m.len()), Err(StoreError::SectionNotFound));
    assert_eq!(
        store.record_answer("qa", "database", "password", "x", "secret"),
        Err(StoreError::EnvironmentNotFound)
    );
    assert_eq!(
        store.record_answer("staging", "database", "port", "x", "integer"),
        Err(StoreError::TypeMismatch)
    );
}

#[test]
fn has_room_on_small_store() {
    assert!(database_store().has_room());
}
