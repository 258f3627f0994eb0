//! DNS-tunneled transport session core.
//!
//! This library holds the verified logic of a tunnel that carries an
//! encrypted transport session inside DNS queries and responses: the
//! per-domain datagram size budget, the label-safe frame codec with its
//! round-trip guarantee, the certificate pinning validator, and the
//! session lifecycle state machine. Socket and timer plumbing lives
//! outside the library and drives it through plain values.

pub mod base32;
pub mod codec;
pub mod error;
pub mod forward;
pub mod mtu;
pub mod pinning;
pub mod session;
