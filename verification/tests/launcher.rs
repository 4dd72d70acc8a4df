use ruxius::error::LauncherError;
use ruxius::extract::{extract_root, extraction_needed, sanity_check, BundleProbe};
use ruxius::launcher::{
    candidate_binary, doctor_cache_line, doctor_php_line, follow_step, is_php_candidate_name, latest_log,
    should_prune, version_line, FollowStep, Level,
};
use ruxius::launcher::{
    cache_dir, check_output_overwrite, check_php_ini_overrides, dedup_paths, init_choice,
    is_php_log_name, is_version_folder_name, logs_dir, parse_usize, php_log_path, require_php_ini,
    suggested_php_name, tail_lines, window_title, yes_no_answer, yes_no_hint,
};
use ruxius::launcher::{clamp_window_size, sanitize_title, watch_step, WatchAction};
use ruxius::php::ResolvedPhp;
use std::path::Path;

fn j(a: &str, b: &str) -> String {
    Path::new(a).join(b).to_string_lossy().into_owned()
}

fn chars(s: &str) -> Vec<char> {
    s.chars().collect()
}

#[test]
fn yes_no_prompts() {
    assert_eq!(yes_no_hint(true), "[Y/n]");
    assert_eq!(yes_no_hint(false), "[y/N]");
    assert!(yes_no_answer(" YES ", false));
    assert!(yes_no_answer("y", false));
    assert!(!yes_no_answer("No", true));
    assert!(yes_no_answer("", true));
    assert!(!yes_no_answer("maybe", false));
}

#[test]
fn tail_keeps_the_last_lines() {
    assert_eq!(tail_lines("a\nb\nc\n", 2), vec!["b", "c"]);
    assert_eq!(tail_lines("a\nb", 5), vec!["a", "b"]);
    assert!(tail_lines("a\n", 0).is_empty());
}

fn extraction_message(r: Result<(), LauncherError>) -> String {
    match r {
        Err(LauncherError::Extraction(m)) => m,
        other => panic!("unexpected {other:?}"),
    }
}

#[test]
fn php_ini_overrides_need_a_key() {
    assert!(check_php_ini_overrides(&vec!["memory_limit=512M".to_string(), "a=".to_string()]).is_ok());
    assert_eq!(
        extraction_message(check_php_ini_overrides(&vec!["ok=1".to_string(), "novalue".to_string()])),
        "--php-ini 'novalue' isn't in key=value form"
    );
    assert_eq!(
        extraction_message(check_php_ini_overrides(&vec![" =x".to_string()])),
        "--php-ini ' =x' has an empty key"
    );
}

#[test]
fn window_title_falls_back_to_the_folder_then_a_default() {
    assert_eq!(window_title(Some("T".to_string()), Some("f".to_string())), "T");
    assert_eq!(window_title(None, Some("my-app".to_string())), "my-app");
    assert_eq!(window_title(None, None), "Ruxius App");
}

#[test]
fn overwriting_foreign_files_needs_force() {
    assert!(check_output_overwrite("out.exe", false, false, false).is_ok());
    assert!(check_output_overwrite("out.exe", true, true, false).is_ok());
    assert!(check_output_overwrite("out.exe", true, false, true).is_ok());
    assert_eq!(
        extraction_message(check_output_overwrite("out.exe", true, false, false)),
        "'out.exe' already exists and doesn't look like a Ruxius build — refusing to overwrite it. Pass --force if you're sure, or pick a different output path."
    );
}

#[test]
fn suggested_names_from_php_version_lines() {
    assert_eq!(suggested_php_name(&Some("PHP 8.3.6 (cli) (built: Apr 10 2024)".to_string())), "php83");
    assert_eq!(suggested_php_name(&Some("PHP 7.4".to_string())), "php74");
    assert_eq!(suggested_php_name(&Some("PHP".to_string())), "php");
    assert_eq!(suggested_php_name(&None), "php");
}

#[test]
fn numbers_parse_like_usize() {
    assert_eq!(parse_usize(&chars("42")), Some(42));
    assert_eq!(parse_usize(&chars("+7")), Some(7));
    assert_eq!(parse_usize(&chars("")), None);
    assert_eq!(parse_usize(&chars("-1")), None);
    assert_eq!(parse_usize(&chars("1x")), None);
    assert_eq!(parse_usize(&chars("99999999999999999999999")), None);
}

#[test]
fn init_choice_takes_a_number_or_a_path() {
    let found = vec!["/a/php".to_string(), "/b/php".to_string()];
    assert_eq!(init_choice("2", &found), "/b/php");
    assert_eq!(init_choice(" 1 ", &found), "/a/php");
    assert_eq!(init_choice("3", &found), "3");
    assert_eq!(init_choice("/c/php", &found), "/c/php");
}

#[test]
fn log_and_version_folder_names() {
    assert!(is_php_log_name("php-abc.log"));
    assert!(!is_php_log_name("php-abc.txt"));
    assert!(!is_php_log_name("app.log"));
    assert!(is_version_folder_name("8.3"));
    assert!(!is_version_folder_name("php8"));
    assert!(!is_version_folder_name(""));
}

#[test]
fn candidates_are_deduplicated_in_order() {
    let c: Vec<String> = ["b", "a", "b", "c", "a"].iter().map(|s| s.to_string()).collect();
    assert_eq!(dedup_paths(&c), vec!["b", "a", "c"]);
}

#[test]
fn data_dir_layout() {
    assert_eq!(logs_dir("d"), j("d", "logs"));
    assert_eq!(php_log_path("d", "ab12"), j(&j("d", "logs"), "php-ab12.log"));
    assert_eq!(cache_dir("d"), j(&j("d", "cache"), "archives"));
    assert_eq!(extract_root("d", "ab12"), j(&j("d", "apps"), "ab12"));
}

#[test]
fn php_ext_commands_need_a_php_ini() {
    let with = ResolvedPhp {
        binary: "/p/php".to_string(),
        extension_dir: Some("/p/ext".to_string()),
        php_ini: Some("/p/php.ini".to_string()),
    };
    assert_eq!(
        require_php_ini(with).unwrap(),
        ("/p/php.ini".to_string(), Some("/p/ext".to_string()), "/p/php".to_string())
    );
    let without = ResolvedPhp { binary: "/p/php".to_string(), extension_dir: None, php_ini: None };
    match require_php_ini(without) {
        Err(LauncherError::Extraction(m)) => assert_eq!(m, "no php.ini found next to /p/php"),
        other => panic!("unexpected {other:?}"),
    }
}

#[test]
fn extraction_is_reused_only_when_it_matches() {
    let good = BundleProbe { php_exe_is_file: false, php_is_file: true, app_is_dir: true };
    assert!(sanity_check(&good));
    assert!(!sanity_check(&BundleProbe { app_is_dir: false, ..good }));
    assert!(!sanity_check(&BundleProbe { php_is_file: false, ..good }));
    let sum = Some("abc".to_string());
    assert!(!extraction_needed(true, &sum, "abc", true));
    assert!(extraction_needed(false, &sum, "abc", true));
    assert!(extraction_needed(true, &sum, "abd", true));
    assert!(extraction_needed(true, &None, "abc", true));
    assert!(extraction_needed(true, &sum, "abc", false));
}

#[test]
fn version_line_is_the_first_line_trimmed() {
    assert_eq!(version_line("PHP 8.3.6 (cli)  \nCopyright\n"), Some("PHP 8.3.6 (cli)".to_string()));
    assert_eq!(version_line(""), None);
    assert_eq!(version_line("\nsecond"), Some(String::new()));
}

#[test]
fn doctor_lines() {
    assert_eq!(
        doctor_php_line(true, 0, 0),
        (Level::Info, "No PHP versions registered yet (rux php add <name> <path>).".to_string())
    );
    assert_eq!(doctor_php_line(false, 2, 0), (Level::Success, "2 registered PHP version(s), all valid.".to_string()));
    assert_eq!(
        doctor_php_line(false, 1, 3),
        (Level::Warn, "1 registered PHP version(s) valid, 3 missing — check `rux php list`.".to_string())
    );
    assert_eq!(doctor_cache_line(Some(4), "/c"), "4 cached build archive(s) in /c");
    assert_eq!(doctor_cache_line(None, "/c"), "No cached build archives yet.");
}

#[test]
fn only_old_log_files_are_pruned() {
    let day: i128 = 86_400 * 1_000_000_000;
    let now = 100 * day;
    assert!(should_prune("applauncher-2024-01-01.log", Some(now - 15 * day), now));
    assert!(!should_prune("applauncher-2024-01-01.log", Some(now - 13 * day), now));
    assert!(!should_prune("applauncher-2024-01-01.log", Some(now - 14 * day), now));
    assert!(!should_prune("notes.txt", Some(0), now));
    assert!(!should_prune(".log", Some(0), now));
    assert!(!should_prune("old.log", None, now));
}

#[test]
fn the_latest_php_log_is_followed() {
    let names: Vec<String> = ["php-a.log", "applauncher.log", "php-b.log", "php-c.log"].iter().map(|s| s.to_string()).collect();
    assert_eq!(latest_log(&names, &vec![Some(5), Some(99), Some(7), Some(6)]), Some(2));
    assert_eq!(latest_log(&names, &vec![Some(5), Some(99), Some(5), Some(5)]), Some(3));
    assert_eq!(latest_log(&names, &vec![Some(1), Some(99), None, None]), Some(0));
    let none: Vec<String> = vec!["x.log".to_string()];
    assert_eq!(latest_log(&none, &vec![Some(1)]), None);
}

#[test]
fn php_candidates_and_their_binaries() {
    assert!(is_php_candidate_name("php-8.3"));
    assert!(is_php_candidate_name("PHP"));
    assert!(is_php_candidate_name("Php74"));
    assert!(!is_php_candidate_name("ph"));
    assert!(!is_php_candidate_name("xphp"));
    assert_eq!(candidate_binary("/opt/php", true, true), Some(j("/opt/php", "php.exe")));
    assert_eq!(candidate_binary("/opt/php", false, true), Some(j("/opt/php", "php")));
    assert_eq!(candidate_binary("/opt/php", false, false), None);
}

#[test]
fn following_a_log_reads_what_was_appended() {
    assert_eq!(follow_step(10, 10), FollowStep { rewind: false, read: false, shown: 10 });
    assert_eq!(follow_step(10, 25), FollowStep { rewind: false, read: true, shown: 25 });
    assert_eq!(follow_step(10, 4), FollowStep { rewind: true, read: true, shown: 4 });
    assert_eq!(follow_step(10, 0), FollowStep { rewind: true, read: false, shown: 0 });
}

#[test]
fn window_titles_lose_control_characters() {
    assert_eq!(sanitize_title("My\nApp\t\u{7}\u{85}!"), "MyApp!");
    assert_eq!(window_title(Some("a\r\nb".to_string()), None), "ab");
    assert_eq!(window_title(None, Some("x\u{1b}[31my".to_string())), "x[31my");
}

#[test]
fn window_titles_are_capped() {
    let long = "é".repeat(300);
    let t = sanitize_title(&long);
    assert_eq!(t.chars().count(), 256);
    assert!(t.chars().all(|c| c == 'é'));
    assert_eq!(sanitize_title(&"a".repeat(256)), "a".repeat(256));
    assert_eq!(sanitize_title(""), "");
}

#[test]
fn window_sizes_are_clamped() {
    assert_eq!(clamp_window_size(1024, 768), (1024, 768));
    assert_eq!(clamp_window_size(0, 0), (640, 480));
    assert_eq!(clamp_window_size(u32::MAX, u32::MAX), (7680, 4320));
    assert_eq!(clamp_window_size(640, 4320), (640, 4320));
    assert_eq!(clamp_window_size(639, 4321), (640, 4320));
}

#[test]
fn watching_rebuilds_only_on_a_change() {
    let mut last = "abc".to_string();
    assert_eq!(watch_step(&mut last, "abc".to_string()), WatchAction::Wait);
    assert_eq!(last, "abc");
    assert_eq!(watch_step(&mut last, "abd".to_string()), WatchAction::Rebuild);
    assert_eq!(last, "abd");
    assert_eq!(watch_step(&mut last, "abd".to_string()), WatchAction::Wait);
}
