//! The `rux` command line, as plain values: what each subcommand carries
//! once its arguments are parsed. Paths are held as their text.
use vstd::prelude::*;

verus! {

/// The parsed command line. With no subcommand, `rux` shows its help.
#[derive(Debug, Clone)]
pub struct Cli {
    pub command: Option<Command>,
}

/// The subcommands of `rux`.
#[derive(Debug, Clone)]
pub enum Command {
    /// Package a PHP app and a PHP install into a new standalone
    /// executable: `rux build <app-path> <php> <output-path>`, where `php`
    /// is a registered name or a path to `php.exe` or its folder.
    ///
    /// `force` rebuilds an output that is already up to date (and
    /// overwrites a file that is no build); `watch` keeps rebuilding on
    /// change; `icon` is an `.ico` file to embed; `php_ini` are `key=value`
    /// directives passed to PHP at launch.
    Build {
        app_path: String,
        php: String,
        output_path: String,
        title: Option<String>,
        width: u32,
        height: u32,
        force: bool,
        watch: bool,
        icon: Option<String>,
        php_ini: Vec<String>,
    },
    /// Manage the registry of named PHP installs.
    Php { action: PhpAction },
    /// Check this machine for what building and running apps needs.
    Doctor,
    /// Guided first-time setup.
    Init,
    /// The interactive terminal dashboard.
    Tui,
    /// Follow the PHP log of the app run last, showing its last `lines`
    /// lines first.
    Logs { lines: usize },
    /// Export or import the PHP registry.
    Config { action: ConfigAction },
}

/// The `rux config` subcommands.
#[derive(Debug, Clone)]
pub enum ConfigAction {
    /// Write the PHP registry to a JSON file.
    Export { path: String },
    /// Merge a PHP registry from a JSON file into this one.
    Import { path: String },
}

/// The `rux php` subcommands.
#[derive(Debug, Clone)]
pub enum PhpAction {
    /// Register a named PHP install.
    Add { name: String, path: String },
    /// Remove a registered PHP install by name.
    Remove { name: String },
    /// List registered installs and those found on this machine.
    List,
    /// Delete the cached PHP/app archives.
    ClearCache,
    /// Snapshot every registered install into a `.pack` file.
    Archive,
    /// Manage the extensions enabled in a registered install's php.ini.
    Ext { action: ExtAction },
}

/// The `rux php ext` subcommands.
#[derive(Debug, Clone)]
pub enum ExtAction {
    /// List configured extensions and those available but unconfigured.
    List { php: String },
    /// Enable an extension (with or without its `php_`/`.dll` decoration).
    Enable { php: String, extension: String },
    /// Disable an extension.
    Disable { php: String, extension: String },
}

/// Default window width of a built app, in pixels.
pub const DEFAULT_WIDTH: u32 = 1400;

/// Default window height of a built app, in pixels.
pub const DEFAULT_HEIGHT: u32 = 900;

/// How many lines of the log `rux logs` shows before following it.
pub const DEFAULT_LOG_LINES: usize = 20;

} // verus!
