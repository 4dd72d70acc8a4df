use ruxius::config::{AppConfig, PhpRegistry};
use std::path::Path;

fn joined(a: &str, b: &str) -> String {
    Path::new(a).join(b).to_string_lossy().into_owned()
}

#[test]
fn registry_reads_back_what_was_written() {
    let mut r = PhpRegistry::new();
    assert!(r.is_empty());
    assert_eq!(r.insert("php83".to_string(), "/opt/php83/php".to_string()), None);
    assert_eq!(r.insert("php74".to_string(), "/opt/php74/php".to_string()), None);
    assert_eq!(r.get("php83"), Some("/opt/php83/php".to_string()));
    assert_eq!(
        r.insert("php83".to_string(), "/usr/bin/php".to_string()),
        Some("/opt/php83/php".to_string())
    );
    assert_eq!(r.get("php83"), Some("/usr/bin/php".to_string()));
    assert_eq!(r.len(), 2);
    assert!(r.contains_key("php74"));
    assert_eq!(r.remove("php74"), Some("/opt/php74/php".to_string()));
    assert_eq!(r.get("php74"), None);
    assert_eq!(r.remove("php74"), None);
    assert_eq!(r.len(), 1);
}

#[test]
fn registry_keeps_names_in_order() {
    let mut r = PhpRegistry::new();
    for name in ["php83", "php74", "php80", "php74"] {
        r.insert(name.to_string(), format!("/{name}"));
    }
    let names: Vec<&str> = r.entries().iter().map(|(n, _)| n.as_str()).collect();
    assert_eq!(names, vec!["php74", "php80", "php83"]);
}

#[test]
fn php_reference_is_a_name_or_a_path() {
    let mut c = AppConfig::default();
    c.php_versions.insert("php74".to_string(), "C:/php/php.exe".to_string());
    assert_eq!(c.resolve_php_reference("php74"), "C:/php/php.exe");
    assert_eq!(c.resolve_php_reference("D:/other/php.exe"), "D:/other/php.exe");
}

#[test]
fn import_updates_same_names_and_keeps_the_rest() {
    let mut c = AppConfig::default();
    c.php_versions.insert("a".to_string(), "/a".to_string());
    c.php_versions.insert("b".to_string(), "/b".to_string());
    let mut imported = PhpRegistry::new();
    imported.insert("b".to_string(), "/b2".to_string());
    imported.insert("c".to_string(), "/c".to_string());
    assert_eq!(c.import(&imported), (1, 1));
    assert_eq!(c.php_versions.get("a"), Some("/a".to_string()));
    assert_eq!(c.php_versions.get("b"), Some("/b2".to_string()));
    assert_eq!(c.php_versions.get("c"), Some("/c".to_string()));
}

#[test]
fn config_and_packs_locations() {
    assert_eq!(AppConfig::config_path("data"), joined("data", "config.json"));
    let portable = Some(joined("portable", "config.json"));
    assert_eq!(AppConfig::resolve_path("data", &portable, true), joined("portable", "config.json"));
    assert_eq!(AppConfig::resolve_path("data", &portable, false), joined("data", "config.json"));
    assert_eq!(AppConfig::resolve_path("data", &None, true), joined("data", "config.json"));
    assert_eq!(AppConfig::packs_dir("data", &portable, true), joined("portable", "packs"));
    assert_eq!(AppConfig::packs_dir("data", &portable, false), joined("data", "packs"));
    assert_eq!(AppConfig::packs_dir("data", &None, false), joined("data", "packs"));
}
