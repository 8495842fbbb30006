//! Error taxonomy of the interception engine.
//!
//! Each family marks a different blast radius: an `AuthorityError` is fatal
//! for interception as a whole, a `MintError` or `HandshakeError` closes one
//! tunnel, a `ParseError` or `ForwardError` aborts one request/response
//! cycle, and registry errors are plain operator-facing results.

use vstd::prelude::*;

verus! {

/// Failure while loading the root signing authority.  Terminal for
/// interception: the proxy listener must not start without an authority.
#[derive(Debug, Clone, PartialEq, Eq, Structural)]
pub enum AuthorityError {
    /// A required authority file was missing.
    NotFound,
    /// The private key could not be parsed.
    InvalidKey,
    /// The certificate could not be parsed.  (Whether a parsed
    /// certificate pairs with the key is not checked at load time.)
    InvalidCertificate,
}

/// Failure while minting a leaf certificate for one tunnel.
#[derive(Debug, Clone, PartialEq, Eq, Structural)]
pub enum MintError {
    /// The hostname cannot be encoded as a subject alternative name.
    InvalidHostname,
    /// A cryptographic failure while signing.
    SigningError,
}

/// Failure of the per-connection CONNECT/TLS handshake.  Closes that tunnel;
/// the accept loop continues.
#[derive(Debug, Clone, PartialEq, Eq, Structural)]
pub enum HandshakeError {
    /// The preamble did not begin with CONNECT or named no target.
    MalformedConnect,
    /// Minting the leaf certificate failed.
    CertificateError,
    /// The TLS server handshake did not complete.
    TlsError,
}

/// Failure while parsing one raw HTTP message.  Aborts that cycle; the
/// tunnel loop continues with the next message.
#[derive(Debug, Clone, PartialEq, Eq, Structural)]
pub enum ParseError {
    /// No parseable request line was found.
    MalformedRequest,
    /// No parseable status line was found.
    MalformedResponse,
}

/// Failure while planning or performing the forward to the origin server.
#[derive(Debug, Clone, PartialEq, Eq, Structural)]
pub enum ForwardError {
    /// The raw text held no header block or no request line of three tokens.
    MalformedRequest,
    /// The method was neither GET nor POST.
    UnsupportedMethod,
    /// A header line carried a name or value that cannot go on the wire.
    InvalidHeader,
    /// A transport-level failure while sending; reported, never fatal.
    Upstream,
}

/// Failure of one script inside a pipeline pass.  The first failure aborts
/// the whole pass for that request; nothing partial is forwarded.
#[derive(Debug, Clone, PartialEq, Eq)]
pub struct PipelineError {
    /// Name of the script whose execution failed.
    pub script: String,
    /// The script runtime's own account of the failure.
    pub cause: String,
}

/// Operator-facing outcome of a registry operation on a named script.
#[derive(Debug, Clone, PartialEq, Eq)]
pub enum RegistryError {
    /// No script of that name is registered.
    NotRegistered,
    /// The named script ran and failed.
    ScriptFailed { name: String, cause: String },
}

} // verus!
