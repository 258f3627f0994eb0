//! Session lifecycle state machine.
//!
//! One `TunnelSession` coordinates one end-to-end transport connection
//! over the DNS carrier. The lifecycle is an explicit enumerated state
//! with a pure transition function: the driver that owns the sockets and
//! timers reports events and performs the returned actions, while every
//! decision — what the next state is, when the retry budget is spent,
//! whether a peer certificate may be trusted, which responses are stale —
//! is made and verified here.

use vstd::prelude::*;
use crate::base32::{decode_payload, spec_decode};
use crate::codec::{encode_frame, spec_query_name, DnsFrame, DnsResponse, TunnelDomain};
use crate::error::{ClientError, ErrorKind};
use crate::mtu::{compute_mtu, mtu_budget};
use crate::pinning::{validate, spec_validate, PinnedCertificateSet, RejectionReason, Verdict};

verus! {

/// The lifecycle states of a tunnel session. `CertVerifying` is the
/// phase between the peer certificate arriving and the pinning verdict;
/// `Failed` and `Closed` are terminal.
#[derive(Clone, Copy, Debug, PartialEq, Eq, Structural)]
pub enum SessionState {
    Idle,
    SocketBound,
    Handshaking,
    CertVerifying,
    Ready,
    Closing,
    Closed,
    Failed,
}

/// The states a session never leaves.
pub open spec fn is_terminal(st: SessionState) -> bool {
    st == SessionState::Closed || st == SessionState::Failed
}

/// What the driver reports to the session: socket and engine outcomes
/// and close triggers. The peer certificate travels through
/// [`TunnelSession::handle_peer_certificate`] instead, and inbound DNS
/// responses through [`TunnelSession::handle_response`].
#[derive(Clone, Copy, Debug, PartialEq, Eq, Structural)]
pub enum SessionEvent {
    BindSucceeded,
    BindFailed,
    HandshakeStarted,
    HandshakeTimedOut,
    TransportAnomalyObserved,
    ShutdownRequested,
    IdleTimedOut,
    PeerClosed,
    CloseCompleted,
}

/// What the driver must do after a transition: nothing, log the
/// "connection ready" milestone, abort the connection releasing the
/// socket and every forwarded stream, or finish an orderly close.
pub enum SessionAction {
    Proceed,
    EmitReady,
    Abort(ClientError),
    FinishClose,
}

/// How many transport anomalies a session survives before it fails
/// permanently.
pub const RETRY_BUDGET: u32 = 3;

/// One end-to-end tunnel connection: lifecycle state, the immutable MTU
/// budget derived from the tunnel domain at setup, the bounded retry
/// budget, the transaction identifiers of in-flight queries, and the
/// pinned certificate set.
#[derive(Debug)]
pub struct TunnelSession {
    pub state: SessionState,
    pub domain: TunnelDomain,
    pub mtu: u32,
    pub retries_left: u32,
    pub outstanding: Vec<u16>,
    pub pinned: PinnedCertificateSet,
}

/// The next lifecycle state: terminal states absorb every event, and
/// events that have no edge from the current state leave it unchanged.
pub open spec fn spec_next_state(st: SessionState, ev: SessionEvent, retries_left: u32) -> SessionState {
    if is_terminal(st) {
        st
    } else {
        match ev {
            SessionEvent::BindSucceeded => if st == SessionState::Idle {
                SessionState::SocketBound
            } else {
                st
            },
            SessionEvent::BindFailed => if st == SessionState::Idle {
                SessionState::Failed
            } else {
                st
            },
            SessionEvent::HandshakeStarted => if st == SessionState::SocketBound {
                SessionState::Handshaking
            } else {
                st
            },
            SessionEvent::HandshakeTimedOut => SessionState::Failed,
            SessionEvent::TransportAnomalyObserved => if retries_left > 0 {
                st
            } else {
                SessionState::Failed
            },
            SessionEvent::ShutdownRequested => if st == SessionState::Ready {
                SessionState::Closing
            } else {
                st
            },
            SessionEvent::IdleTimedOut => if st == SessionState::Ready {
                SessionState::Closing
            } else {
                st
            },
            SessionEvent::PeerClosed => if st == SessionState::Ready {
                SessionState::Closing
            } else {
                st
            },
            SessionEvent::CloseCompleted => if st == SessionState::Closing {
                SessionState::Closed
            } else {
                st
            },
        }
    }
}

/// The retry budget after an event: one transport anomaly spends one
/// retry; nothing else touches the budget.
pub open spec fn spec_next_retries(st: SessionState, ev: SessionEvent, retries_left: u32) -> u32 {
    if !is_terminal(st) && ev == SessionEvent::TransportAnomalyObserved && retries_left > 0 {
        (retries_left - 1) as u32
    } else {
        retries_left
    }
}

/// Terminal states absorb every event: in particular `Failed` is
/// absorbing, a failed session never comes back.
pub proof fn lemma_terminal_absorbing(st: SessionState, ev: SessionEvent, retries_left: u32)
    requires
        is_terminal(st),
    ensures
        spec_next_state(st, ev, retries_left) == st,
        spec_next_retries(st, ev, retries_left) == retries_left,
{
}

/// No lifecycle event alone makes a session `Ready`: the only door to
/// `Ready` is [`TunnelSession::handle_peer_certificate`], and it opens
/// only on an accepted certificate. Stream traffic is therefore never
/// forwarded on an unpinned certificate.
pub proof fn lemma_only_validation_readies(st: SessionState, ev: SessionEvent, retries_left: u32)
    ensures
        spec_next_state(st, ev, retries_left) == SessionState::Ready ==> st == SessionState::Ready,
{
}

impl TunnelSession {
    /// The session invariant: a validated domain, the MTU budget derived
    /// from it and positive, and no duplicated in-flight transaction
    /// identifier.
    pub open spec fn wf(&self) -> bool {
        &&& self.domain.wf()
        &&& self.mtu as int == mtu_budget(self.domain@.len() as int)
        &&& self.mtu > 0
        &&& self.outstanding@.no_duplicates()
    }

    /// Sets a session up from its configuration, before any socket is
    /// bound: derives the MTU budget once and fails fast on a domain
    /// whose budget floors to zero.
    pub fn configure(domain: TunnelDomain, pinned: PinnedCertificateSet) -> (r: Result<
        TunnelSession,
        ClientError,
    >)
        requires
            domain.wf(),
        ensures
            r is Ok <==> mtu_budget(domain@.len() as int) > 0,
            r is Ok ==> {
                let s = r->Ok_0;
                &&& s.wf()
                &&& s.state == SessionState::Idle
                &&& s.domain@ == domain@
                &&& s.mtu == mtu_budget(domain@.len() as int)
                &&& s.retries_left == RETRY_BUDGET
                &&& s.outstanding@ == Seq::<u16>::empty()
                &&& s.pinned@ == pinned@
            },
            r is Err ==> r->Err_0.kind == ErrorKind::Configuration,
    {
        let mtu = match compute_mtu(domain.len()) {
            Ok(m) => m,
            Err(e) => {
                return Err(e);
            },
        };
        let outstanding: Vec<u16> = Vec::new();
        proof {
            assert(outstanding@ =~= Seq::<u16>::empty());
        }
        Ok(TunnelSession {
            state: SessionState::Idle,
            domain,
            mtu,
            retries_left: RETRY_BUDGET,
            outstanding,
            pinned,
        })
    }

    /// Applies one lifecycle event and returns what the driver must do.
    /// The state moves exactly as [`spec_next_state`] says; the session
    /// aborts exactly when this event makes it enter `Failed`, and
    /// finishes closing exactly when it enters `Closed`.
    pub fn step(&mut self, ev: SessionEvent) -> (r: SessionAction)
        ensures
            final(self).state == spec_next_state(old(self).state, ev, old(self).retries_left),
            final(self).retries_left == spec_next_retries(
                old(self).state,
                ev,
                old(self).retries_left,
            ),
            final(self).domain@ == old(self).domain@,
            final(self).mtu == old(self).mtu,
            final(self).outstanding@ == old(self).outstanding@,
            final(self).pinned@ == old(self).pinned@,
            old(self).wf() ==> final(self).wf(),
            (final(self).state == SessionState::Failed && old(self).state != SessionState::Failed)
                <==> r is Abort,
            (final(self).state == SessionState::Closed && old(self).state != SessionState::Closed)
                <==> r is FinishClose,
            !(r is Abort) && !(r is FinishClose) ==> r is Proceed,
            r is Abort ==> r->Abort_0.kind == (if ev == SessionEvent::BindFailed {
                ErrorKind::Transport
            } else {
                ErrorKind::Handshake
            }),
            r is Abort && ev == SessionEvent::BindFailed ==> r->Abort_0.message@
                == "local socket bind failed"@,
            r is Abort && ev == SessionEvent::HandshakeTimedOut ==> r->Abort_0.message@
                == "handshake timed out"@,
            r is Abort && ev == SessionEvent::TransportAnomalyObserved ==> r->Abort_0.message@
                == "transport anomaly retry budget exhausted"@,
    {
        let st = self.state;
        if st == SessionState::Closed || st == SessionState::Failed {
            return SessionAction::Proceed;
        }
        match ev {
            SessionEvent::BindSucceeded => {
                if st == SessionState::Idle {
                    self.state = SessionState::SocketBound;
                }
                SessionAction::Proceed
            },
            SessionEvent::BindFailed => {
                if st == SessionState::Idle {
                    self.state = SessionState::Failed;
                    SessionAction::Abort(ClientError::new(
                        ErrorKind::Transport,
                        "local socket bind failed",
                    ))
                } else {
                    SessionAction::Proceed
                }
            },
            SessionEvent::HandshakeStarted => {
                if st == SessionState::SocketBound {
                    self.state = SessionState::Handshaking;
                }
                SessionAction::Proceed
            },
            SessionEvent::HandshakeTimedOut => {
                self.state = SessionState::Failed;
                SessionAction::Abort(ClientError::new(ErrorKind::Handshake, "handshake timed out"))
            },
            SessionEvent::TransportAnomalyObserved => {
                if self.retries_left > 0 {
                    self.retries_left = self.retries_left - 1;
                    SessionAction::Proceed
                } else {
                    self.state = SessionState::Failed;
                    SessionAction::Abort(ClientError::new(
                        ErrorKind::Handshake,
                        "transport anomaly retry budget exhausted",
                    ))
                }
            },
            SessionEvent::ShutdownRequested => {
                if st == SessionState::Ready {
                    self.state = SessionState::Closing;
                }
                SessionAction::Proceed
            },
            SessionEvent::IdleTimedOut => {
                if st == SessionState::Ready {
                    self.state = SessionState::Closing;
                }
                SessionAction::Proceed
            },
            SessionEvent::PeerClosed => {
                if st == SessionState::Ready {
                    self.state = SessionState::Closing;
                }
                SessionAction::Proceed
            },
            SessionEvent::CloseCompleted => {
                if st == SessionState::Closing {
                    self.state = SessionState::Closed;
                    SessionAction::FinishClose
                } else {
                    SessionAction::Proceed
                }
            },
        }
    }

    /// Judges the peer certificate the handshake produced. From
    /// `Handshaking` the session passes through `CertVerifying` and ends
    /// `Ready` exactly when the pinning validator accepts; any rejection
    /// is fatal, never downgraded to "trust anyway". In any other state
    /// the certificate is ignored.
    pub fn handle_peer_certificate(&mut self, cert: &Vec<u8>) -> (r: SessionAction)
        ensures
            final(self).domain@ == old(self).domain@,
            final(self).mtu == old(self).mtu,
            final(self).retries_left == old(self).retries_left,
            final(self).outstanding@ == old(self).outstanding@,
            final(self).pinned@ == old(self).pinned@,
            old(self).wf() ==> final(self).wf(),
            old(self).state != SessionState::Handshaking ==> *final(self) == *old(self)
                && r is Proceed,
            old(self).state == SessionState::Handshaking && spec_validate(cert@, old(self).pinned@)
                == Verdict::Accept ==> final(self).state == SessionState::Ready && r is EmitReady,
            old(self).state == SessionState::Handshaking && spec_validate(cert@, old(self).pinned@)
                != Verdict::Accept ==> final(self).state == SessionState::Failed && r is Abort
                && r->Abort_0.kind == ErrorKind::Pinning,
            old(self).state == SessionState::Handshaking && spec_validate(cert@, old(self).pinned@)
                == Verdict::Reject(RejectionReason::NoMatch) ==> r is Abort
                && r->Abort_0.message@ == "peer certificate matched no pinned certificate"@,
            old(self).state == SessionState::Handshaking && spec_validate(cert@, old(self).pinned@)
                == Verdict::Reject(RejectionReason::Unparsable) ==> r is Abort
                && r->Abort_0.message@ == "peer certificate could not be parsed"@,
            final(self).state == SessionState::Ready ==> old(self).state == SessionState::Ready
                || spec_validate(cert@, old(self).pinned@) == Verdict::Accept,
    {
        if !(self.state == SessionState::Handshaking) {
            return SessionAction::Proceed;
        }
        self.state = SessionState::CertVerifying;
        match validate(cert, &self.pinned) {
            Verdict::Accept => {
                self.state = SessionState::Ready;
                SessionAction::EmitReady
            },
            Verdict::Reject(RejectionReason::NoMatch) => {
                self.state = SessionState::Failed;
                SessionAction::Abort(ClientError::new(
                    ErrorKind::Pinning,
                    "peer certificate matched no pinned certificate",
                ))
            },
            Verdict::Reject(RejectionReason::Unparsable) => {
                self.state = SessionState::Failed;
                SessionAction::Abort(ClientError::new(
                    ErrorKind::Pinning,
                    "peer certificate could not be parsed",
                ))
            },
        }
    }

    /// Whether `txid` correlates an in-flight query.
    pub fn is_outstanding(&self, txid: u16) -> (r: bool)
        ensures
            r == self.outstanding@.contains(txid),
    {
        let n = self.outstanding.len();
        let mut i: usize = 0;
        while i < n
            invariant
                i <= n,
                n == self.outstanding@.len(),
                forall|j: int| 0 <= j < i ==> self.outstanding@[j] != txid,
            decreases n - i,
        {
            if self.outstanding[i] == txid {
                return true;
            }
            i = i + 1;
        }
        false
    }

    /// Builds the query frame for one outbound datagram and records its
    /// transaction identifier as in-flight. The caller must already
    /// bound the payload by the session's MTU budget, and may not reuse
    /// an identifier that is still in flight.
    pub fn prepare_query(&mut self, txid: u16, payload: &[u8]) -> (r: Result<DnsFrame, ClientError>)
        requires
            old(self).wf(),
            payload@.len() <= old(self).mtu,
            !is_terminal(old(self).state),
            old(self).state != SessionState::Idle,
        ensures
            final(self).wf(),
            final(self).state == old(self).state,
            final(self).domain@ == old(self).domain@,
            final(self).mtu == old(self).mtu,
            final(self).retries_left == old(self).retries_left,
            final(self).pinned@ == old(self).pinned@,
            old(self).outstanding@.contains(txid) ==> *final(self) == *old(self) && r is Err
                && r->Err_0.kind == ErrorKind::Transport,
            !old(self).outstanding@.contains(txid) ==> r is Ok && r->Ok_0.txid == txid
                && r->Ok_0.qname@ == spec_query_name(payload@, old(self).domain@)
                && final(self).outstanding@ == old(self).outstanding@.push(txid),
    {
        if self.is_outstanding(txid) {
            return Err(ClientError::new(
                ErrorKind::Transport,
                "transaction identifier is already in flight",
            ));
        }
        let frame = encode_frame(txid, payload, &self.domain);
        self.outstanding.push(txid);
        Ok(frame)
    }

    /// Takes one inbound DNS response. A transaction identifier that
    /// matches no outstanding query — stale, duplicated, or forged — is
    /// discarded with no session state change, so resubmission is
    /// idempotent. A matched response that decodes retires its query and
    /// delivers the datagram; one that does not decode is dropped as a
    /// transport anomaly, leaving the query in flight for a retry.
    pub fn handle_response(&mut self, resp: &DnsResponse) -> (r: ResponseDisposition)
        requires
            old(self).wf(),
        ensures
            final(self).wf(),
            final(self).state == old(self).state,
            final(self).domain@ == old(self).domain@,
            final(self).mtu == old(self).mtu,
            final(self).retries_left == old(self).retries_left,
            final(self).pinned@ == old(self).pinned@,
            !old(self).outstanding@.contains(resp.txid) ==> *final(self) == *old(self)
                && r is Unmatched,
            old(self).outstanding@.contains(resp.txid) ==> match spec_decode(resp.answer@) {
                Option::Some(p) => {
                    &&& r matches ResponseDisposition::Delivered(d) && d@ == p
                    &&& !final(self).outstanding@.contains(resp.txid)
                    &&& final(self).outstanding@.len() == old(self).outstanding@.len() - 1
                    &&& forall|t: u16|
                        t != resp.txid ==> (final(self).outstanding@.contains(t)
                            <==> old(self).outstanding@.contains(t))
                },
                Option::None => {
                    &&& *final(self) == *old(self)
                    &&& r matches ResponseDisposition::Malformed(e) && e.kind
                        == ErrorKind::Transport
                },
            },
    {
        let n = self.outstanding.len();
        let mut i: usize = 0;
        while i < n
            invariant
                i <= n,
                *self == *old(self),
                old(self).wf(),
                n == self.outstanding@.len(),
                forall|j: int| 0 <= j < i ==> self.outstanding@[j] != resp.txid,
            decreases n - i,
        {
            if self.outstanding[i] == resp.txid {
                match decode_payload(resp.answer.as_slice()) {
                    Ok(p) => {
                        proof {
                            lemma_remove_outstanding(self.outstanding@, i as int);
                        }
                        self.outstanding.remove(i);
                        return ResponseDisposition::Delivered(p);
                    },
                    Err(e) => {
                        return ResponseDisposition::Malformed(e);
                    },
                }
            }
            i = i + 1;
        }
        ResponseDisposition::Unmatched
    }
}

/// What [`TunnelSession::handle_response`] did with a response: carried
/// a datagram to deliver to the engine, matched nothing and was
/// discarded, or failed to decode and was dropped as an anomaly.
pub enum ResponseDisposition {
    Delivered(Vec<u8>),
    Unmatched,
    Malformed(ClientError),
}

/// Retiring the in-flight query at `idx` removes exactly its identifier:
/// duplicates are never registered, so no other position carries it.
proof fn lemma_remove_outstanding(s: Seq<u16>, idx: int)
    requires
        s.no_duplicates(),
        0 <= idx < s.len(),
    ensures
        s.remove(idx).no_duplicates(),
        !s.remove(idx).contains(s[idx]),
        forall|t: u16| t != s[idx] ==> (s.remove(idx).contains(t) <==> s.contains(t)),
{
    let rm = s.remove(idx);
    assert forall|t: u16| t != s[idx] && s.contains(t) implies rm.contains(t) by {
        let j = choose|j: int| 0 <= j < s.len() && s[j] == t;
        if j < idx {
            assert(rm[j] == t);
        } else {
            assert(rm[j - 1] == t);
        }
    }
    assert forall|t: u16| rm.contains(t) && t != s[idx] implies s.contains(t) by {
        let j = choose|j: int| 0 <= j < rm.len() && rm[j] == t;
        if j < idx {
            assert(s[j] == t);
        } else {
            assert(s[j + 1] == t);
        }
    }
    assert forall|j: int| 0 <= j < rm.len() implies rm[j] != s[idx] by {
        if j < idx {
            assert(rm[j] == s[j]);
        } else {
            assert(rm[j] == s[j + 1]);
        }
    }
    assert(!rm.contains(s[idx]));
}

/// The stable log line other tooling watches for a session that reached
/// `Ready`.
pub fn ready_milestone() -> (r: String)
    ensures
        r@ == "Connection ready"@,
{
    "Connection ready".to_owned()
}

} // verus!
