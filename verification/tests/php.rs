use ruxius::error::LauncherError;
use ruxius::php::{
    choose_docroot, find_extension_dir, php_dir_of, resolve_external_php, server_address,
    server_args, server_url, DirProbe, PhpProbe,
};
use std::path::Path;

fn j(a: &str, b: &str) -> String {
    Path::new(a).join(b).to_string_lossy().into_owned()
}

fn dir_probe(ext: bool, extensions: bool, ini: bool) -> DirProbe {
    DirProbe { ext_is_dir: ext, extensions_is_dir: extensions, php_ini_is_file: ini }
}

#[test]
fn a_folder_resolves_to_its_php_binary_ext_and_ini() {
    let probe = PhpProbe {
        is_dir: true,
        php_exe_is_file: true,
        php_is_file: true,
        is_file: false,
        dir: dir_probe(true, true, true),
    };
    let r = resolve_external_php("/opt/php", &probe).unwrap();
    assert_eq!(r.binary, j("/opt/php", "php.exe"));
    assert_eq!(r.extension_dir, Some(j("/opt/php", "ext")));
    assert_eq!(r.php_ini, Some(j("/opt/php", "php.ini")));
}

#[test]
fn a_binary_path_resolves_to_itself() {
    let probe = PhpProbe {
        is_dir: false,
        php_exe_is_file: false,
        php_is_file: false,
        is_file: true,
        dir: dir_probe(false, true, false),
    };
    let r = resolve_external_php("/usr/bin/php", &probe).unwrap();
    assert_eq!(r.binary, "/usr/bin/php");
    assert_eq!(r.extension_dir, Some(j("/usr/bin", "extensions")));
    assert_eq!(r.php_ini, None);
}

fn start_error(r: Result<ruxius::php::ResolvedPhp, LauncherError>) -> String {
    match r {
        Err(LauncherError::PhpStart(m)) => m,
        other => panic!("unexpected {other:?}"),
    }
}

#[test]
fn missing_binaries_are_errors() {
    let empty_dir = PhpProbe {
        is_dir: true,
        php_exe_is_file: false,
        php_is_file: false,
        is_file: false,
        dir: dir_probe(false, false, false),
    };
    assert_eq!(start_error(resolve_external_php("/opt/x", &empty_dir)), "no php.exe found in /opt/x");
    let nothing = PhpProbe { is_dir: false, ..empty_dir };
    assert_eq!(start_error(resolve_external_php("/nope", &nothing)), "PHP binary not found at /nope");
    assert!(php_dir_of("/").is_err());
}

#[test]
fn extension_dir_prefers_ext() {
    assert_eq!(find_extension_dir("d", &dir_probe(true, true, false)), Some(j("d", "ext")));
    assert_eq!(find_extension_dir("d", &dir_probe(false, true, false)), Some(j("d", "extensions")));
    assert_eq!(find_extension_dir("d", &dir_probe(false, false, true)), None);
}

#[test]
fn server_command_line() {
    assert_eq!(server_address(8080), "127.0.0.1:8080");
    assert_eq!(server_url(80), "http://127.0.0.1:80");
    let overrides = vec!["memory_limit=512M".to_string(), "display_errors=1".to_string()];
    assert_eq!(
        server_args(9000, "/b/app", &Some("/b/php/ext".to_string()), &overrides, Some("_ruxius_router.php")),
        vec![
            "-S",
            "127.0.0.1:9000",
            "-t",
            "/b/app",
            "-d",
            "extension_dir=/b/php/ext",
            "-d",
            "memory_limit=512M",
            "-d",
            "display_errors=1",
            "_ruxius_router.php"
        ]
    );
    assert_eq!(server_args(1, "d", &None, &Vec::new(), None), vec!["-S", "127.0.0.1:1", "-t", "d"]);
    assert_eq!(choose_docroot("/b", true), j("/b", "app"));
    assert_eq!(choose_docroot("/b", false), "/b");
}
