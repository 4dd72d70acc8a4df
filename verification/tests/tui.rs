use ruxius::error::LauncherError;
use ruxius::ext::{AvailableExtension, ExtensionStatus, ToggleOutcome};
use ruxius::tui::{
    archive_summary, ext_rows, help_text, move_selection, select_index, select_index_or,
    toggle_message, wrap_index, Tab,
};

#[test]
fn tabs_cycle_in_title_order() {
    assert_eq!(Tab::titles(), ["PHP Versions", "Extensions", "Doctor"]);
    assert_eq!(Tab::Php.index(), 0);
    assert_eq!(Tab::Doctor.index(), 2);
    assert_eq!(Tab::Php.next(), Tab::Ext);
    assert_eq!(Tab::Ext.next(), Tab::Doctor);
    assert_eq!(Tab::Doctor.next(), Tab::Php);
    for t in [Tab::Php, Tab::Ext, Tab::Doctor] {
        assert_eq!(t.next().next().next(), t);
    }
    assert!(help_text(Tab::Doctor).contains("r: refresh"));
}

#[test]
fn selection_wraps_and_stays_in_bounds() {
    assert_eq!(wrap_index(0, -1, 3), 2);
    assert_eq!(wrap_index(2, 1, 3), 0);
    assert_eq!(wrap_index(1, -7, 3), 0);
    assert_eq!(move_selection(None, 0, 1), None);
    assert_eq!(move_selection(None, 4, 1), Some(1));
    assert_eq!(move_selection(Some(0), 4, -1), Some(3));
    assert_eq!(select_index(Some(9), 3), Some(2));
    assert_eq!(select_index(None, 3), Some(0));
    assert_eq!(select_index(Some(1), 0), None);
    assert_eq!(select_index_or(5, 0), Some(0));
    assert_eq!(select_index_or(2, 7), Some(1));
    assert_eq!(select_index_or(0, 0), None);
}

#[test]
fn extension_rows_list_configured_then_available() {
    let configured = vec![ExtensionStatus {
        raw_value: "php_curl.dll".to_string(),
        name: "curl".to_string(),
        enabled: true,
        zend: false,
    }];
    let available = vec![AvailableExtension { name: "intl".to_string() }];
    let rows = ext_rows(&configured, &available);
    assert_eq!(rows.len(), 2);
    assert_eq!((rows[0].name.as_str(), rows[0].enabled, rows[0].configured), ("curl", true, true));
    assert_eq!((rows[1].name.as_str(), rows[1].enabled, rows[1].configured), ("intl", false, false));
}

#[test]
fn toggle_messages() {
    assert_eq!(toggle_message("gd", true, ToggleOutcome::Changed).unwrap(), "'gd' is now enabled.");
    assert_eq!(toggle_message("gd", false, ToggleOutcome::Changed).unwrap(), "'gd' is now disabled.");
    assert_eq!(
        toggle_message("intl", true, ToggleOutcome::AddedNewLine).unwrap(),
        "'intl' enabled (new line added to php.ini)."
    );
    assert_eq!(
        toggle_message("gd", false, ToggleOutcome::AlreadyInThatState).unwrap(),
        "'gd' was already disabled."
    );
    match toggle_message("x", true, ToggleOutcome::NotAvailable) {
        Err(LauncherError::Extraction(m)) => {
            assert_eq!(m, "'x' isn't configured and no matching DLL was found in ext/.")
        }
        other => panic!("unexpected {other:?}"),
    }
}

#[test]
fn archive_summaries() {
    assert_eq!(archive_summary(3, 0), "Archived 3 PHP version(s).");
    assert_eq!(archive_summary(1, 2), "Archived 1 PHP version(s), 2 failed (check `rux php list`).");
}
