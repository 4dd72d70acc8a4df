# Ruxius

Ruxius packages a PHP web app and a PHP install into one standalone
executable, without compiling anything: `rux build` copies its own stub,
appends a payload (the zstd-compressed tar archives of the PHP install and
of the app, plus JSON metadata) and a footer holding the payload's length
and SHA-256. A built executable finds that footer on start, extracts the
payload once, starts PHP's built-in server and shows the app in a window.

## Layout

- `src/` — the library, verified with Verus: the payload, footer and
  `.pack` byte formats; the `.ico` parser and the icon resource layout;
  the `php.ini` extension editor; the PHP registry; app-layout detection;
  the archive cache's fingerprint and walk order; the command line's
  checks, defaults and messages; the state machines of the dashboard and
  of an app's window; the splash and error pages. Each public function
  states its result in its contract, and the library's laws (a footer or
  payload reads back what was written, a toggled extension is in the
  requested state, no key moves a selection off its list, ...) are proof
  functions.
- `app/` — the `rux` program around it: argument parsing (`clap`), files,
  processes, threads, the terminal dashboard (`ratatui`), the window
  (`tao`/`wry`), logging.
- `tests/` — the library's tests.
