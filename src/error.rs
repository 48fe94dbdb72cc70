//! The errors that the backends report.
use vstd::prelude::*;

verus! {

/// Why a configuration text could not be read or rewritten.
#[derive(Clone, Copy, Debug, PartialEq, Eq, Structural)]
pub enum ConfigError {
    /// The text is no INI document.
    Parse,
    /// The text has no `[Network]` section.
    MissingSection,
    /// An `Address` or `Gateway` line holds no address.
    Malformed,
    /// The backend does not implement this operation.
    Unsupported,
}

/// Why `static_ip` refused to compute a new document.
#[derive(Debug)]
pub enum StaticIPError {
    /// The address or the gateway is not written as required.
    Validation(&'static str),
    /// The configuration text could not be read or rewritten.
    Config(ConfigError),
}

} // verus!
