//! When a built app's bundled PHP and app files must be extracted again,
//! and whether an extraction looks usable.
//!
//! Unpacking the archives, the temp-directory-then-rename dance and the
//! JSON record of which payload an extraction holds are the caller's side.
use vstd::prelude::*;
use crate::paths::{joined_path, path_join};

verus! {

/// What an extraction directory holds.
#[derive(Debug, Clone, Copy)]
pub struct BundleProbe {
    /// `php/php.exe` is a file.
    pub php_exe_is_file: bool,
    /// `php/php` is a file.
    pub php_is_file: bool,
    /// `app` is a directory.
    pub app_is_dir: bool,
}

/// An extraction is usable when it has a PHP binary under `php/` and an
/// application docroot under `app/`.
pub fn sanity_check(probe: &BundleProbe) -> (b: bool)
    ensures
        b == ((probe.php_exe_is_file || probe.php_is_file) && probe.app_is_dir),
{
    (probe.php_exe_is_file || probe.php_is_file) && probe.app_is_dir
}

/// Whether the payload must be extracted (again): unless the extraction
/// directory exists, its record names this payload's checksum, and
/// the extraction passes `sanity_check` (`sane`).
pub fn extraction_needed(
    root_exists: bool,
    recorded_checksum: &Option<String>,
    checksum_hex: &str,
    sane: bool,
) -> (b: bool)
    ensures
        b == !(root_exists && sane && match recorded_checksum {
            Some(c) => c@ == checksum_hex@,
            None => false,
        }),
{
    if root_exists {
        if let Some(existing) = recorded_checksum {
            if crate::text::chars_eq(
                crate::text::chars_of(existing.as_str()).as_slice(),
                crate::text::chars_of(checksum_hex).as_slice(),
            ) && sane {
                return false;
            }
        }
    }
    true
}

/// Where a built app extracts to: one directory per payload checksum, so
/// different apps (or versions of one) never collide.
pub fn extract_root(data_dir: &str, checksum_hex: &str) -> (r: String)
    ensures
        r@ == joined_path(joined_path(data_dir@, "apps"@), checksum_hex@),
{
    let apps = path_join(data_dir, "apps");
    path_join(apps.as_str(), checksum_hex)
}

} // verus!
