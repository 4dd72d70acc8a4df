use ruxius::dashboard::{Command, Dashboard, Input, Key};
use ruxius::tui::Tab;

fn typed(d: &mut Dashboard, s: &str) {
    for c in s.chars() {
        assert!(matches!(d.press(Key::Char(c)), Command::Nothing));
    }
}

#[test]
fn opens_on_the_php_tab_with_first_rows_selected() {
    let d = Dashboard::new(2, 0);
    assert_eq!(d.tab, Tab::Php);
    assert_eq!(d.php_selected, Some(0));
    assert_eq!(d.ext_php, Some(0));
    assert_eq!(d.ext_selected, None);
    assert!(!d.archiving);
    let e = Dashboard::new(0, 0);
    assert_eq!(e.php_selected, None);
    assert_eq!(e.ext_php, None);
}

#[test]
fn quit_tab_and_arrows() {
    let mut d = Dashboard::new(3, 2);
    assert!(matches!(d.press(Key::Char('q')), Command::Quit));
    assert!(matches!(d.press(Key::Esc), Command::Quit));
    assert!(matches!(d.press(Key::Up), Command::Nothing));
    assert_eq!(d.php_selected, Some(2));
    assert!(matches!(d.press(Key::Tab), Command::ClearStatus));
    assert_eq!(d.tab, Tab::Ext);
    d.press(Key::Down);
    d.press(Key::Down);
    assert_eq!(d.ext_selected, Some(0));
    assert!(matches!(d.press(Key::Left), Command::LoadExt(2)));
    assert_eq!(d.ext_php, Some(2));
    d.ext_rows_switched(5);
    assert_eq!(d.ext_selected, Some(0));
    assert_eq!(d.ext_len, 5);
}

#[test]
fn php_tab_commands() {
    let mut d = Dashboard::new(2, 0);
    d.press(Key::Down);
    assert!(matches!(d.press(Key::Char('d')), Command::RemovePhp(1)));
    d.php_rows_reloaded(1);
    assert_eq!(d.php_selected, Some(0));
    assert!(matches!(d.press(Key::Char('x')), Command::ArchiveAll));
    let (msg, err) = d.archive_requested(false);
    assert_eq!(msg, "Archiving all registered PHP versions...");
    assert!(!err && d.archiving);
    assert!(matches!(d.press(Key::Char('x')), Command::Nothing));
    let (msg, err) = d.archive_finished(&Err("disk full".to_string()));
    assert_eq!(msg, "Archiving failed: disk full");
    assert!(err && !d.archiving);
    let (msg, err) = d.archive_requested(true);
    assert_eq!(msg, "No PHP versions registered yet — press 'a' to add one.");
    assert!(err && !d.archiving);
    assert!(matches!(d.press(Key::Char('r')), Command::RefreshPhp));
}

#[test]
fn adding_an_install_types_a_name_then_a_path() {
    let mut d = Dashboard::new(0, 0);
    d.press(Key::Char('a'));
    assert!(matches!(d.input, Input::AddName(_)));
    d.press(Key::Enter);
    assert!(matches!(d.input, Input::AddName(_)), "a blank name is not taken");
    typed(&mut d, " php9x");
    d.press(Key::Backspace);
    typed(&mut d, "4 ");
    d.press(Key::Enter);
    match &d.input {
        Input::AddPath(name, buf) => {
            assert_eq!(name.iter().collect::<String>(), "php94");
            assert!(buf.is_empty());
        }
        other => panic!("unexpected {other:?}"),
    }
    typed(&mut d, "  /opt/php/bin ");
    match d.press(Key::Enter) {
        Command::Register(name, path) => {
            assert_eq!(name, "php94");
            assert_eq!(path, "/opt/php/bin");
        }
        other => panic!("unexpected {other:?}"),
    }
    assert!(matches!(d.input, Input::Normal));
    d.press(Key::Char('a'));
    d.press(Key::Esc);
    assert!(matches!(d.input, Input::Normal));
}

#[test]
fn extension_tab_toggles_the_selected_row() {
    let mut d = Dashboard::new(1, 2);
    d.press(Key::Tab);
    d.press(Key::Down);
    assert!(matches!(d.press(Key::Enter), Command::ToggleExt(0, 1)));
    assert!(matches!(d.press(Key::Char('r')), Command::RefreshExt(0)));
    d.ext_rows_reloaded(1);
    assert_eq!(d.ext_selected, Some(0));
    d.press(Key::Tab);
    assert!(matches!(d.press(Key::Char('r')), Command::RefreshDoctor));
    assert!(matches!(d.press(Key::Down), Command::Nothing));
}
