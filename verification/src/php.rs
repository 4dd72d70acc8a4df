//! Finding a PHP install's binary, extension directory and `php.ini`, and
//! the command line for PHP's built-in web server.
//!
//! Checking which files exist is the caller's side: it reports what it
//! found in a `PhpProbe`, and spawns and supervises the server process.
use vstd::prelude::*;
use crate::error::LauncherError;
use crate::paths::{joined_path, parent_path, path_join, path_parent};
use crate::text::{decimal, decimal_string, push_str};

verus! {

/// A PHP install resolved down to its binary, plus the extension
/// directory and `php.ini` that belong with it.
#[derive(Debug)]
pub struct ResolvedPhp {
    pub binary: String,
    pub extension_dir: Option<String>,
    pub php_ini: Option<String>,
}

/// What a directory holding a PHP binary contains.
#[derive(Debug, Clone, Copy)]
pub struct DirProbe {
    /// `ext` is a directory.
    pub ext_is_dir: bool,
    /// `extensions` is a directory.
    pub extensions_is_dir: bool,
    /// `php.ini` is a file.
    pub php_ini_is_file: bool,
}

/// What the file system says about a path given as a PHP install.
#[derive(Debug, Clone, Copy)]
pub struct PhpProbe {
    /// The path is a directory.
    pub is_dir: bool,
    /// `<path>/php.exe` is a file.
    pub php_exe_is_file: bool,
    /// `<path>/php` is a file.
    pub php_is_file: bool,
    /// The path is a file.
    pub is_file: bool,
    /// What the directory holding the chosen binary contains.
    pub dir: DirProbe,
}

/// The binary a path given as a PHP install stands for, or why there is
/// none: in a directory, `php.exe`, else `php`; otherwise the path itself,
/// if it is a file.
pub open spec fn binary_of(path: Seq<char>, probe: PhpProbe) -> Result<Seq<char>, Seq<char>> {
    if probe.is_dir {
        if probe.php_exe_is_file {
            Ok(joined_path(path, "php.exe"@))
        } else if probe.php_is_file {
            Ok(joined_path(path, "php"@))
        } else {
            Err("no php.exe found in "@ + path)
        }
    } else if !probe.is_file {
        Err("PHP binary not found at "@ + path)
    } else {
        Ok(path)
    }
}

/// Picks the PHP binary a path stands for (see `binary_of`).
pub fn choose_binary(path: &str, probe: &PhpProbe) -> (r: Result<String, LauncherError>)
    ensures
        match binary_of(path@, *probe) {
            Ok(b) => r matches Ok(s) && s@ == b,
            Err(m) => r matches Err(LauncherError::PhpStart(s)) && s@ == m,
        },
{
    if probe.is_dir {
        if probe.php_exe_is_file {
            Ok(path_join(path, "php.exe"))
        } else if probe.php_is_file {
            Ok(path_join(path, "php"))
        } else {
            let mut m = String::new();
            push_str(&mut m, "no php.exe found in ");
            push_str(&mut m, path);
            Err(LauncherError::PhpStart(m))
        }
    } else if !probe.is_file {
        let mut m = String::new();
        push_str(&mut m, "PHP binary not found at ");
        push_str(&mut m, path);
        Err(LauncherError::PhpStart(m))
    } else {
        Ok(path.to_owned())
    }
}

/// What a path given as a PHP install resolves to, for every path and
/// every probe of it:
/// - a directory resolves exactly when it holds a `php.exe` or a `php`
///   file, to `<dir>/php.exe` when that is there and otherwise to
///   `<dir>/php` (an install for Linux or macOS), and never to anything
///   outside it;
/// - a file (that is not a directory) resolves to itself;
/// - anything else is refused;
/// - whatever is chosen is a file the probe found.
pub proof fn law_binary_is_a_found_file(path: Seq<char>, probe: PhpProbe)
    ensures
        probe.is_dir ==> (binary_of(path, probe) is Ok <==> (probe.php_exe_is_file
            || probe.php_is_file)),
        probe.is_dir && probe.php_exe_is_file ==> binary_of(path, probe) == Ok::<
            Seq<char>,
            Seq<char>,
        >(joined_path(path, "php.exe"@)),
        probe.is_dir && !probe.php_exe_is_file && probe.php_is_file ==> binary_of(path, probe)
            == Ok::<Seq<char>, Seq<char>>(joined_path(path, "php"@)),
        !probe.is_dir && probe.is_file ==> binary_of(path, probe) == Ok::<Seq<char>, Seq<char>>(
            path,
        ),
        !probe.is_dir && !probe.is_file ==> binary_of(path, probe) is Err,
        binary_of(path, probe) matches Ok(b) ==> (b == path && probe.is_file) || (b == joined_path(
            path,
            "php.exe"@,
        ) && probe.php_exe_is_file) || (b == joined_path(path, "php"@) && probe.php_is_file),
{
}

/// The directory extensions load from: `ext`, else `extensions`, next to
/// the binary; `None` lets PHP use its own `php.ini` setting.
pub open spec fn extension_dir_of(php_dir: Seq<char>, probe: DirProbe) -> Option<Seq<char>> {
    if probe.ext_is_dir {
        Some(joined_path(php_dir, "ext"@))
    } else if probe.extensions_is_dir {
        Some(joined_path(php_dir, "extensions"@))
    } else {
        None
    }
}

/// PHP's official Windows builds ship extensions in `ext/` next to
/// php.exe; some third-party builds use `extensions/`. Checked in that
/// order.
pub fn find_extension_dir(php_dir: &str, probe: &DirProbe) -> (r: Option<String>)
    ensures
        match extension_dir_of(php_dir@, *probe) {
            Some(d) => r matches Some(s) && s@ == d,
            None => r is None,
        },
{
    if probe.ext_is_dir {
        Some(path_join(php_dir, "ext"))
    } else if probe.extensions_is_dir {
        Some(path_join(php_dir, "extensions"))
    } else {
        None
    }
}

/// The directory holding a PHP binary.
pub fn php_dir_of(binary: &str) -> (r: Result<String, LauncherError>)
    ensures
        match parent_path(binary@) {
            Some(d) => r matches Ok(s) && s@ == d,
            None => r matches Err(LauncherError::PhpStart(m)) && m@ == "PHP binary has no parent directory"@,
        },
{
    match path_parent(binary) {
        Some(d) => Ok(d),
        None => Err(LauncherError::PhpStart("PHP binary has no parent directory".to_owned())),
    }
}

/// Resolves a path given as a PHP install (a php.exe, or a folder holding
/// one) to its binary, extension directory and `php.ini`, so that the
/// right extensions load whichever install was chosen.
pub fn resolve_external_php(path: &str, probe: &PhpProbe) -> (r: Result<ResolvedPhp, LauncherError>)
    ensures
        match binary_of(path@, *probe) {
            Err(m) => r matches Err(LauncherError::PhpStart(s)) && s@ == m,
            Ok(b) => match parent_path(b) {
                None => r matches Err(LauncherError::PhpStart(s)) && s@ == "PHP binary has no parent directory"@,
                Some(d) => r matches Ok(res) && res.binary@ == b && match extension_dir_of(d, probe.dir) {
                    Some(e) => res.extension_dir matches Some(x) && x@ == e,
                    None => res.extension_dir is None,
                } && if probe.dir.php_ini_is_file {
                    res.php_ini matches Some(x) && x@ == joined_path(d, "php.ini"@)
                } else {
                    res.php_ini is None
                },
            },
        },
{
    let binary = choose_binary(path, probe)?;
    let php_dir = php_dir_of(binary.as_str())?;
    let extension_dir = find_extension_dir(php_dir.as_str(), &probe.dir);
    let php_ini = if probe.dir.php_ini_is_file {
        Some(path_join(php_dir.as_str(), "php.ini"))
    } else {
        None
    };
    Ok(ResolvedPhp { binary, extension_dir, php_ini })
}

/// The docroot of a built app: its `app` folder when that exists, else the
/// bundle directory itself.
pub fn choose_docroot(bundle_dir: &str, app_is_dir: bool) -> (r: String)
    ensures
        r@ == if app_is_dir {
            joined_path(bundle_dir@, "app"@)
        } else {
            bundle_dir@
        },
{
    if app_is_dir {
        path_join(bundle_dir, "app")
    } else {
        bundle_dir.to_owned()
    }
}

/// `127.0.0.1:<port>`
pub open spec fn listen_address(port: u16) -> Seq<char> {
    "127.0.0.1:"@ + decimal(port as nat)
}

/// The address PHP's server listens on.
pub fn server_address(port: u16) -> (r: String)
    ensures
        r@ == listen_address(port),
{
    let mut s = String::new();
    push_str(&mut s, "127.0.0.1:");
    let d = decimal_string(port as u64);
    push_str(&mut s, d.as_str());
    s
}

/// The URL the app is served at.
pub fn server_url(port: u16) -> (r: String)
    ensures
        r@ == "http://"@ + listen_address(port),
{
    let mut s = String::new();
    push_str(&mut s, "http://");
    let a = server_address(port);
    push_str(&mut s, a.as_str());
    s
}

/// `-d <entry>` for each `--php-ini` entry, in order.
pub open spec fn override_args(entries: Seq<Seq<char>>) -> Seq<Seq<char>>
    decreases entries.len(),
{
    if entries.len() == 0 {
        seq![]
    } else {
        override_args(entries.drop_last()) + seq!["-d"@, entries.last()]
    }
}

/// The arguments of `php -S 127.0.0.1:<port> -t <docroot>`, with
/// `-d extension_dir=<dir>` when the install has one (each PHP build's
/// extensions only load in that build), then `-d <key=value>` for each of
/// the app's `--php-ini` entries (the command line overrides `php.ini`),
/// and the router script last when the app has one.
pub open spec fn server_args_spec(
    port: u16,
    docroot: Seq<char>,
    ext_dir: Option<Seq<char>>,
    overrides: Seq<Seq<char>>,
    router: Option<Seq<char>>,
) -> Seq<Seq<char>> {
    seq!["-S"@, listen_address(port), "-t"@, docroot] + match ext_dir {
        Some(d) => seq!["-d"@, "extension_dir="@ + d],
        None => seq![],
    } + override_args(overrides) + match router {
        Some(r) => seq![r],
        None => seq![],
    }
}

/// Builds the server's command-line arguments (see `server_args_spec`).
/// `router` is passed only when the caller found the file in the docroot.
pub fn server_args(
    port: u16,
    docroot: &str,
    ext_dir: &Option<String>,
    overrides: &Vec<String>,
    router: Option<&str>,
) -> (r: Vec<String>)
    ensures
        r@.map_values(|s: String| s@) == server_args_spec(
            port,
            docroot@,
            match ext_dir {
                Some(d) => Some(d@),
                None => None,
            },
            overrides@.map_values(|s: String| s@),
            match router {
                Some(x) => Some(x@),
                None => None,
            },
        ),
{
    let mut args: Vec<String> = Vec::new();
    args.push("-S".to_owned());
    args.push(server_address(port));
    args.push("-t".to_owned());
    args.push(docroot.to_owned());
    let ghost head = args@.map_values(|s: String| s@);
    assert(head =~= seq!["-S"@, listen_address(port), "-t"@, docroot@]);
    if let Some(d) = ext_dir {
        args.push("-d".to_owned());
        let mut opt = String::new();
        push_str(&mut opt, "extension_dir=");
        push_str(&mut opt, d.as_str());
        args.push(opt);
    }
    let ghost mid = args@.map_values(|s: String| s@);
    assert(mid =~= head + match ext_dir {
        Some(d) => seq!["-d"@, "extension_dir="@ + d@],
        None => Seq::<Seq<char>>::empty(),
    });
    let ghost ov = overrides@.map_values(|s: String| s@);
    for k in 0..overrides.len()
        invariant
            ov == overrides@.map_values(|s: String| s@),
            args@.map_values(|s: String| s@) == mid + override_args(ov.take(k as int)),
    {
        let ghost before = args@.map_values(|s: String| s@);
        args.push("-d".to_owned());
        args.push(overrides[k].clone());
        assert(ov.take(k + 1).drop_last() =~= ov.take(k as int));
        assert(ov[k as int] == overrides@[k as int]@);
        assert(args@.map_values(|s: String| s@) =~= before + seq!["-d"@, ov[k as int]]);
        assert(mid + override_args(ov.take(k as int)) + seq!["-d"@, ov[k as int]] =~= mid + (
        override_args(ov.take(k as int)) + seq!["-d"@, ov[k as int]]));
    }
    assert(ov.take(overrides.len() as int) =~= ov);
    let ghost mid2 = args@.map_values(|s: String| s@);
    if let Some(r) = router {
        args.push(r.to_owned());
    }
    assert(args@.map_values(|s: String| s@) =~= mid2 + match router {
        Some(x) => seq![x@],
        None => Seq::<Seq<char>>::empty(),
    });
    args
}

} // verus!
