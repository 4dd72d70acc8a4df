use ruxius::framework::{
    compatibility_warnings, detect, router_file, router_filename, router_script, AppLayout, Kind,
};
use std::path::Path;

fn layout(public_index: bool, artisan: bool, bin_console: bool) -> AppLayout {
    AppLayout { public_index, artisan, bin_console }
}

#[test]
fn kinds_by_layout() {
    let public = Path::new("app").join("public").to_string_lossy().into_owned();
    let d = detect("app", &layout(true, true, false));
    assert_eq!((d.kind, d.needs_router, d.docroot.as_str()), (Kind::Laravel, true, public.as_str()));
    assert_eq!(detect("app", &layout(true, false, true)).kind, Kind::Symfony);
    assert_eq!(detect("app", &layout(true, false, false)).kind, Kind::GenericPublic);
    let plain = detect("app", &layout(false, true, true));
    assert_eq!((plain.kind, plain.needs_router, plain.docroot.as_str()), (Kind::Plain, false, "app"));
}

#[test]
fn labels() {
    assert_eq!(Kind::Laravel.label(), "Laravel");
    assert_eq!(Kind::Symfony.label(), "Symfony");
    assert_eq!(Kind::GenericPublic.label(), "generic (public/ layout)");
    assert_eq!(Kind::Plain.label(), "plain PHP app");
}

#[test]
fn router_file_holds_the_script() {
    let (name, bytes) = router_file();
    assert_eq!(name, "_ruxius_router.php");
    assert_eq!(name, router_filename());
    assert_eq!(bytes, router_script().as_bytes());
    assert!(router_script().starts_with("<?php\n"));
    assert!(router_script().ends_with("require __DIR__ . '/index.php';\n"));
}

#[test]
fn warnings_for_missing_setup() {
    let laravel = detect("app", &layout(true, true, false));
    let w = compatibility_warnings(&laravel, false, false);
    assert_eq!(w.len(), 2);
    assert!(w[0].starts_with("vendor/autoload.php not found"));
    assert_eq!(
        w[1],
        ".env not found — APP_KEY and other Laravel settings normally come from one. Skip this if you're providing configuration another way."
    );
    assert!(compatibility_warnings(&laravel, true, true).is_empty());
    let symfony = detect("app", &layout(true, false, true));
    assert!(compatibility_warnings(&symfony, true, false)[0].contains("APP_SECRET"));
    let plain = detect("app", &layout(false, false, false));
    assert!(compatibility_warnings(&plain, false, false).is_empty());
}
