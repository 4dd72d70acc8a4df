[package]
name = "ruxius"
version = "0.1.0"
edition = "2021"
publish = false

[dependencies]
anyhow = "=1.0.104"
chrono = "=0.4.45"
clap = { version = "=4.5.61", features = ["derive"] }
crossterm = "=0.28.1"
ctrlc = "=3.5.2"
directories = "=6.0.0"
fern = "=0.7.1"
fs2 = "=0.4.3"
hex = "=0.4.3"
log = "=0.4.35"
portpicker = "=0.1.1"
ratatui = "=0.29.0"
serde = { version = "=1.0.229", features = ["derive"] }
serde_json = "=1.0.154"
sha2 = "=0.10.9"
tar = "=0.4.46"
tempfile = "=3.27.0"
thiserror = "=2.0.21"
walkdir = "=2.5.0"
windows-sys = { version = "=0.52.0", features = ["Win32_Foundation", "Win32_System_Console", "Win32_UI_WindowsAndMessaging"] }
winres-edit = "=0.2.0"
zstd = { version = "=0.13.4", features = ["zstdmt"] }
