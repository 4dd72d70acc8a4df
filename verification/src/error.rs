//! The launcher's error type.
use vstd::prelude::*;

verus! {

/// `std::io::Error`, carried opaquely by `LauncherError::Io`.
#[verifier::external_type_specification]
#[verifier::external_body]
pub struct ExIoError(std::io::Error);

/// `anyhow::Error`, carried opaquely by `LauncherError::Other`.
#[verifier::external_type_specification]
#[verifier::external_body]
pub struct ExAnyhowError(anyhow::Error);

/// Everything that can go wrong while building, extracting or launching
/// an app. The human-readable messages live with the variants' payloads.
#[derive(Debug)]
pub enum LauncherError {
    NoDataDir,
    AlreadyRunning,
    Extraction(String),
    ChecksumMismatch { expected: String, actual: String },
    NoFreePort,
    PhpStart(String),
    PhpNotReady,
    WebView(String),
    Io(std::io::Error),
    Archive(String),
    Other(anyhow::Error),
}

} // verus!
