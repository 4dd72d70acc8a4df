//! Laravel/Symfony/`public/`-rooted app detection and the router script
//! PHP's built-in server runs for them.
//!
//! PHP's built-in server has no rewrite rules: a framework app needs to be
//! served from `public/`, with a router that hands everything that is not a
//! real file to the front controller. Looking at the app's files is the
//! caller's side; it reports what it found in an `AppLayout`.
use vstd::prelude::*;
use crate::bytes::push_bytes;
use crate::paths::{joined_path, path_join};
use crate::text::push_str;

verus! {

/// The router's file name inside the app archive, also the last argument
/// of `php -S ... -t <docroot> <router>`.
pub fn router_filename() -> (s: &'static str)
    ensures
        s@ == "_ruxius_router.php"@,
{
    "_ruxius_router.php"
}

/// The router script's text.
pub open spec fn router_script_text() -> Seq<char> {
    "<?php\n// Ruxius router for PHP's built-in server: serve real files/assets as-is,\n// route everything else to the front controller (so pretty URLs work the\n// way they would behind Apache's mod_rewrite or nginx's try_files).\n$path = urldecode(parse_url($_SERVER['REQUEST_URI'], PHP_URL_PATH));\n$candidate = __DIR__ . $path;\nif ($path !== '/' && file_exists($candidate) && !is_dir($candidate)) {\n    return false; // let the built-in server handle it directly\n}\nrequire __DIR__ . '/index.php';\n"@
}

/// The router script: serve the request as a real file if one exists at
/// that path, otherwise hand off to the front controller.
pub fn router_script() -> (s: &'static str)
    ensures
        s@ == router_script_text(),
{
    "<?php\n// Ruxius router for PHP's built-in server: serve real files/assets as-is,\n// route everything else to the front controller (so pretty URLs work the\n// way they would behind Apache's mod_rewrite or nginx's try_files).\n$path = urldecode(parse_url($_SERVER['REQUEST_URI'], PHP_URL_PATH));\n$candidate = __DIR__ . $path;\nif ($path !== '/' && file_exists($candidate) && !is_dir($candidate)) {\n    return false; // let the built-in server handle it directly\n}\nrequire __DIR__ . '/index.php';\n"
}

/// What kind of app a folder holds.
#[derive(Debug, Clone, Copy, PartialEq, Eq, Structural)]
pub enum Kind {
    Laravel,
    Symfony,
    /// Some other app with a `public/index.php` layout.
    GenericPublic,
    /// A plain app with `index.php` (or similar) at its root.
    Plain,
}

impl Kind {
    /// The name shown for this kind of app.
    pub fn label(self) -> (s: &'static str)
        ensures
            s@ == match self {
                Kind::Laravel => "Laravel"@,
                Kind::Symfony => "Symfony"@,
                Kind::GenericPublic => "generic (public/ layout)"@,
                Kind::Plain => "plain PHP app"@,
            },
    {
        match self {
            Kind::Laravel => "Laravel",
            Kind::Symfony => "Symfony",
            Kind::GenericPublic => "generic (public/ layout)",
            Kind::Plain => "plain PHP app",
        }
    }
}

/// Which of the files that decide the layout exist in an app folder.
#[derive(Debug, Clone, Copy)]
pub struct AppLayout {
    /// `public/index.php` is a file.
    pub public_index: bool,
    /// `artisan` is a file.
    pub artisan: bool,
    /// `bin/console` is a file.
    pub bin_console: bool,
}

/// How an app is to be served.
#[derive(Debug)]
pub struct Detection {
    pub kind: Kind,
    /// The docroot when packing: the app folder itself (`Plain`) or its
    /// `public` folder.
    pub docroot: String,
    pub needs_router: bool,
}

/// The kind of app with the given layout.
pub open spec fn kind_of(layout: AppLayout) -> Kind {
    if !layout.public_index {
        Kind::Plain
    } else if layout.artisan {
        Kind::Laravel
    } else if layout.bin_console {
        Kind::Symfony
    } else {
        Kind::GenericPublic
    }
}

/// Decides how the app at `app_path` is served. Only a real
/// `public/index.php` moves the docroot to `public/`, so a flat app that
/// merely has a `public` folder of assets stays as it is.
pub fn detect(app_path: &str, layout: &AppLayout) -> (d: Detection)
    ensures
        d.kind == kind_of(*layout),
        d.needs_router == (d.kind != Kind::Plain),
        d.docroot@ == if d.kind == Kind::Plain {
            app_path@
        } else {
            joined_path(app_path@, "public"@)
        },
{
    if !layout.public_index {
        return Detection { kind: Kind::Plain, docroot: app_path.to_owned(), needs_router: false };
    }
    let kind = if layout.artisan {
        Kind::Laravel
    } else if layout.bin_console {
        Kind::Symfony
    } else {
        Kind::GenericPublic
    };
    Detection { kind, docroot: path_join(app_path, "public"), needs_router: true }
}

/// The router file as an in-memory `(name, bytes)` pair, to be added to the
/// app archive; it is never written into the user's project.
pub fn router_file() -> (r: (String, Vec<u8>))
    ensures
        r.0@ == "_ruxius_router.php"@,
        r.1@ == vstd::utf8::encode_utf8(router_script_text()),
{
    let name = router_filename().to_owned();
    let script = router_script();
    let mut bytes: Vec<u8> = Vec::new();
    push_bytes(&mut bytes, script.as_bytes());
    (name, bytes)
}

/// The warning for a framework app without `vendor/autoload.php`.
pub open spec fn vendor_warning() -> Seq<char> {
    "vendor/autoload.php not found — run `composer install` in this project before building, or the app will fail immediately on launch."@
}

/// The warning for a framework app without `.env`.
pub open spec fn env_warning(kind: Kind) -> Seq<char> {
    ".env not found — "@ + match kind {
        Kind::Laravel => "APP_KEY and other Laravel settings"@,
        Kind::Symfony => "APP_SECRET and other Symfony settings"@,
        _ => "app settings"@,
    } + " normally come from one. Skip this if you're providing configuration another way."@
}

/// Warnings (never errors) about what Laravel/Symfony apps almost always
/// need but that cannot be set up at build time: `vendor/autoload.php`
/// (`has_vendor_autoload`) and `.env` (`has_env`). A plain app gets none.
pub fn compatibility_warnings(detection: &Detection, has_vendor_autoload: bool, has_env: bool) -> (r: Vec<String>)
    ensures
        r@.map_values(|s: String| s@) == if detection.kind == Kind::Plain {
            seq![]
        } else {
            (if has_vendor_autoload {
                seq![]
            } else {
                seq![vendor_warning()]
            }) + (if has_env {
                seq![]
            } else {
                seq![env_warning(detection.kind)]
            })
        },
{
    let mut warnings: Vec<String> = Vec::new();
    if detection.kind == Kind::Plain {
        assert(warnings@.map_values(|s: String| s@) =~= Seq::<Seq<char>>::empty());
        return warnings;
    }
    let ghost first: Seq<Seq<char>> = if has_vendor_autoload {
        seq![]
    } else {
        seq![vendor_warning()]
    };
    if !has_vendor_autoload {
        warnings.push("vendor/autoload.php not found — run `composer install` in this project before building, or the app will fail immediately on launch.".to_owned());
    }
    assert(warnings@.map_values(|s: String| s@) =~= first);
    if !has_env {
        let what = match detection.kind {
            Kind::Laravel => "APP_KEY and other Laravel settings",
            Kind::Symfony => "APP_SECRET and other Symfony settings",
            _ => "app settings",
        };
        let mut w = String::new();
        push_str(&mut w, ".env not found — ");
        push_str(&mut w, what);
        push_str(&mut w, " normally come from one. Skip this if you're providing configuration another way.");
        let ghost wv = w@;
        assert(wv == env_warning(detection.kind));
        warnings.push(w);
        assert(warnings@.map_values(|s: String| s@) =~= first + seq![wv]);
    } else {
        assert(first + Seq::<Seq<char>>::empty() =~= first);
    }
    warnings
}

} // verus!
