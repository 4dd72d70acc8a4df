use ruxius::error::LauncherError;
use ruxius::ext::{
    check_extension_name, is_safe_extension_name, list_available_unconfigured, list_configured, normalize, set_enabled,
    IniEdit, ToggleOutcome,
};

const INI: &str = "[PHP]\nextension=curl\n;extension=gd\n; zend_extension=opcache\nextension_dir = \"ext\"\nextension=php_mbstring.dll\n";

#[test]
fn normalize_drops_decoration_and_case() {
    assert_eq!(normalize("curl"), "curl");
    assert_eq!(normalize("php_curl"), "curl");
    assert_eq!(normalize("php_curl.dll"), "curl");
    assert_eq!(normalize("  PHP_Curl.DLL "), "curl");
    assert_eq!(normalize("pdo_mysql.so"), "pdo_mysql");
    assert_eq!(normalize("php_"), "");
}

#[test]
fn safe_names_are_short_and_plain() {
    assert!(is_safe_extension_name("curl"));
    assert!(is_safe_extension_name("php_pdo-mysql.dll"));
    assert!(!is_safe_extension_name(""));
    assert!(!is_safe_extension_name("curl\n[evil]"));
    assert!(!is_safe_extension_name("a b"));
    assert!(!is_safe_extension_name(&"a".repeat(129)));
    assert!(is_safe_extension_name(&"a".repeat(128)));
}

#[test]
fn lists_configured_lines_in_file_order() {
    let list = list_configured(INI);
    let names: Vec<(&str, bool, bool)> =
        list.iter().map(|e| (e.name.as_str(), e.enabled, e.zend)).collect();
    assert_eq!(
        names,
        vec![("curl", true, false), ("gd", false, false), ("opcache", false, true), ("mbstring", true, false)]
    );
    assert_eq!(list[3].raw_value, "php_mbstring.dll");
}

fn edit(r: Result<IniEdit, LauncherError>) -> (ToggleOutcome, Option<String>) {
    let e = r.expect("a safe name");
    (e.outcome, e.new_text)
}

#[test]
fn enabling_uncomments_the_first_matching_line() {
    let (outcome, text) = edit(set_enabled(INI, &None, "gd", true));
    assert_eq!(outcome, ToggleOutcome::Changed);
    let text = text.unwrap();
    assert!(text.contains("\nextension=gd\n"));
    assert!(list_configured(&text).iter().any(|e| e.name == "gd" && e.enabled));
}

#[test]
fn enabling_drops_one_space_after_the_semicolon() {
    let (outcome, text) = edit(set_enabled(INI, &None, "php_opcache.dll", true));
    assert_eq!(outcome, ToggleOutcome::Changed);
    assert!(text.unwrap().contains("\nzend_extension=opcache\n"));
}

#[test]
fn disabling_comments_the_line_out() {
    let (outcome, text) = edit(set_enabled(INI, &None, "curl", false));
    assert_eq!(outcome, ToggleOutcome::Changed);
    let text = text.unwrap();
    assert!(text.contains("\n;extension=curl\n"));
    assert!(list_configured(&text).iter().any(|e| e.name == "curl" && !e.enabled));
}

#[test]
fn a_second_identical_request_changes_nothing() {
    let (_, text) = edit(set_enabled(INI, &None, "gd", true));
    let (outcome, again) = edit(set_enabled(&text.unwrap(), &None, "gd", true));
    assert_eq!(outcome, ToggleOutcome::AlreadyInThatState);
    assert!(again.is_none());
}

#[test]
fn disabling_then_enabling_restores_the_file() {
    let (_, off) = edit(set_enabled(INI, &None, "curl", false));
    let (_, on) = edit(set_enabled(&off.unwrap(), &None, "curl", true));
    assert_eq!(on.unwrap(), INI);
}

#[test]
fn already_in_that_state_leaves_the_file_alone() {
    assert_eq!(edit(set_enabled(INI, &None, "curl", true)), (ToggleOutcome::AlreadyInThatState, None));
    assert_eq!(edit(set_enabled(INI, &None, "gd", false)), (ToggleOutcome::AlreadyInThatState, None));
    assert_eq!(edit(set_enabled(INI, &None, "xdebug", false)), (ToggleOutcome::AlreadyInThatState, None));
}

#[test]
fn enabling_an_unmentioned_extension_adds_a_line() {
    let files = Some(vec!["php_intl.dll".to_string(), "php_curl.dll".to_string()]);
    let (outcome, text) = edit(set_enabled(INI, &files, "intl", true));
    assert_eq!(outcome, ToggleOutcome::AddedNewLine);
    assert_eq!(text.unwrap(), format!("{INI}extension=intl\n"));
    let (outcome, text) = edit(set_enabled(INI, &None, "intl", true));
    assert_eq!(outcome, ToggleOutcome::AddedNewLine);
    assert!(text.is_some());
}

#[test]
fn enabling_without_a_matching_dll_is_not_available() {
    let files = Some(vec!["php_curl.dll".to_string()]);
    assert_eq!(edit(set_enabled(INI, &files, "intl", true)), (ToggleOutcome::NotAvailable, None));
}

#[test]
fn unsafe_names_are_refused() {
    match set_enabled(INI, &None, "x\ny", true) {
        Err(LauncherError::Extraction(m)) => assert_eq!(
            m,
            "'x\ny' isn't a valid extension name (letters, digits, '_', '-', '.' only)"
        ),
        _ => panic!("expected a refusal"),
    }
}

#[test]
fn crlf_files_keep_their_line_endings() {
    let ini = "extension=curl\r\n;extension=gd\r\n";
    let (_, text) = edit(set_enabled(ini, &None, "gd", true));
    assert_eq!(text.unwrap(), "extension=curl\r\nextension=gd\r\n");
}

#[test]
fn available_extensions_exclude_configured_ones_and_are_sorted() {
    let files = Some(vec![
        "php_zip.dll".to_string(),
        "php_curl.dll".to_string(),
        "php_intl.DLL".to_string(),
        "readme.txt".to_string(),
        "php_zip.dll".to_string(),
    ]);
    let names: Vec<String> =
        list_available_unconfigured(INI, &files).into_iter().map(|a| a.name).collect();
    assert_eq!(names, vec!["intl".to_string(), "zip".to_string()]);
    assert!(list_available_unconfigured(INI, &None).is_empty());
}

#[test]
fn available_extensions_skip_dlls_without_php_prefix() {
    let files = Some(vec![
        "libssl.dll".to_string(),
        "PHP_gd.dll".to_string(),
        "icudt72.dll".to_string(),
    ]);
    let names: Vec<String> =
        list_available_unconfigured("", &files).into_iter().map(|a| a.name).collect();
    assert_eq!(names, vec!["gd".to_string()]);
}

#[test]
fn extension_names_are_checked_before_anything_else() {
    assert!(check_extension_name("curl").is_ok());
    assert!(check_extension_name("php_pdo-mysql.dll").is_ok());
    match check_extension_name("bad\nname") {
        Err(LauncherError::Extraction(m)) => assert_eq!(
            m,
            "'bad\nname' isn't a valid extension name (letters, digits, '_', '-', '.' only)"
        ),
        other => panic!("unexpected: {other:?}"),
    }
    assert!(check_extension_name("").is_err());
}

#[test]
fn toggles_show_in_the_listing() {
    let (outcome, text) = edit(set_enabled(INI, &None, "php_gd.dll", true));
    assert_eq!(outcome, ToggleOutcome::Changed);
    let listed = list_configured(&text.unwrap());
    let gd = listed.iter().find(|e| e.name == "gd").unwrap();
    assert!(gd.enabled);
    let (outcome, text) = edit(set_enabled(INI, &None, "curl", false));
    assert_eq!(outcome, ToggleOutcome::Changed);
    let listed = list_configured(&text.unwrap());
    assert!(!listed.iter().find(|e| e.name == "curl").unwrap().enabled);
    let (outcome, text) = edit(set_enabled(INI, &None, "intl", true));
    assert_eq!(outcome, ToggleOutcome::AddedNewLine);
    let listed = list_configured(&text.unwrap());
    assert!(listed.iter().find(|e| e.name == "intl").unwrap().enabled);
}

#[test]
fn toggles_show_in_the_listing_after_a_bare_carriage_return() {
    let ini = "extension=gd\r";
    let (outcome, text) = edit(set_enabled(ini, &None, "gd", false));
    assert_eq!(outcome, ToggleOutcome::Changed);
    let listed = list_configured(&text.unwrap());
    assert!(!listed.iter().find(|e| e.name == "gd").unwrap().enabled);
}
