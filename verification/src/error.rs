//! Error taxonomy of the tunnel core.
//!
//! Every failure the library reports falls in one of five kinds:
//! configuration errors are fatal at startup, transport anomalies are
//! retryable, handshake failures and pinning rejections end the session,
//! and forwarding failures are scoped to a single relayed stream.

use vstd::prelude::*;

verus! {

/// The failure classes the tunnel core distinguishes.
#[derive(Clone, Copy, Debug, PartialEq, Eq, Structural)]
pub enum ErrorKind {
    /// Bad domain length, zero MTU budget, unreadable certificate or key:
    /// fatal at startup, never retried.
    Configuration,
    /// A malformed or unmatched DNS frame, or a single socket send or
    /// receive failure: logged and retried up to a bounded count.
    Transport,
    /// An engine-reported handshake error or a handshake timeout: fails
    /// the session without retry.
    Handshake,
    /// A peer certificate that the pinned set does not admit: always
    /// fatal to the session.
    Pinning,
    /// One stream's relay broke: scoped to that stream, the session
    /// continues.
    Forwarding,
}

/// An error surfaced by the tunnel core, carrying its kind and a
/// human-readable reason.
#[derive(Debug)]
pub struct ClientError {
    pub kind: ErrorKind,
    pub message: String,
}

impl ClientError {
    /// Builds an error of the given kind with the given reason text.
    pub fn new(kind: ErrorKind, message: &str) -> (r: ClientError)
        ensures
            r.kind == kind,
            r.message@ == message@,
    {
        ClientError { kind, message: message.to_owned() }
    }
}

#[verifier::external_type_specification]
#[verifier::external_body]
pub struct ExIoError(std::io::Error);

/// Turns an I/O error into the library's transport error.
///
/// Relies on `std::io::Error`'s `Display` implementation (through
/// `ToString::to_string`) for the reason text.
#[verifier::external_body]
pub fn map_io(err: std::io::Error) -> (r: ClientError)
    ensures
        r.kind == ErrorKind::Transport,
{
    ClientError { kind: ErrorKind::Transport, message: err.to_string() }
}

} // verus!
