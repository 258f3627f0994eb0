//! Per-domain datagram size budget.
//!
//! One DNS message carries at most [`DNS_MESSAGE_CEILING`] bytes of query
//! name; the bytes that the tunnel domain itself occupies are lost to the
//! carrier, and each payload byte expands to 8/5 label characters under
//! the label-safe encoding. The budget is computed once per domain at
//! session setup and is immutable for the session's lifetime.

use vstd::prelude::*;
use crate::error::{ClientError, ErrorKind};

verus! {

/// Query-name space, in bytes, that one DNS message offers the tunnel.
pub const DNS_MESSAGE_CEILING: usize = 240;

/// The largest datagram payload, in bytes, that fits in one DNS message
/// whose query name already spends `domain_len` bytes on the tunnel
/// domain. Each payload byte costs 8/5 (that is, 1.6) label characters,
/// so the budget is the floor of `(240 - domain_len) / 1.6`.
pub open spec fn mtu_budget(domain_len: int) -> int {
    (240 - domain_len) * 5 / 8
}

/// Derives the datagram budget for a tunnel domain of `domain_len` bytes,
/// or fails with a configuration error: a domain at or above the message
/// ceiling leaves no room for any payload, and a budget that floors to
/// zero would produce a non-functional session.
pub fn compute_mtu(domain_len: usize) -> (r: Result<u32, ClientError>)
    ensures
        domain_len >= 240 ==> r is Err && r->Err_0.kind == ErrorKind::Configuration
            && r->Err_0.message@ == "Domain name is too long for DNS transport"@,
        domain_len < 240 && mtu_budget(domain_len as int) == 0 ==> r is Err
            && r->Err_0.kind == ErrorKind::Configuration
            && r->Err_0.message@ == "MTU computed to zero; check domain length"@,
        domain_len < 240 && mtu_budget(domain_len as int) > 0 ==> r is Ok
            && r->Ok_0 == mtu_budget(domain_len as int),
        r is Ok <==> domain_len <= 238,
        r is Ok ==> r->Ok_0 > 0,
{
    if domain_len >= DNS_MESSAGE_CEILING {
        return Err(ClientError::new(
            ErrorKind::Configuration,
            "Domain name is too long for DNS transport",
        ));
    }
    let mtu: usize = (DNS_MESSAGE_CEILING - domain_len) * 5 / 8;
    if mtu == 0 {
        return Err(ClientError::new(
            ErrorKind::Configuration,
            "MTU computed to zero; check domain length",
        ));
    }
    Ok(mtu as u32)
}

} // verus!
