//! Certificate pinning validator.
//!
//! The sole trust anchor of the tunnel: the peer certificate produced
//! during the handshake is compared, byte for byte in its encoded form,
//! against the certificates pinned at configuration time. An empty
//! pinned set is an explicit opt-out that accepts any peer; a non-empty
//! set accepts exactly its members. Rejections distinguish a mismatch
//! from an unparsable certificate for diagnostics, but both are equally
//! fatal to the session.

use vstd::prelude::*;

verus! {

/// Why a certificate was rejected: it matched no pinned certificate, or
/// it was too malformed to consider at all.
#[derive(Clone, Copy, Debug, PartialEq, Eq, Structural)]
pub enum RejectionReason {
    NoMatch,
    Unparsable,
}

/// The validator's verdict on a peer certificate.
#[derive(Clone, Copy, Debug, PartialEq, Eq, Structural)]
pub enum Verdict {
    Accept,
    Reject(RejectionReason),
}

/// The certificates pinned at configuration time. Empty means pinning
/// is disabled by explicit choice, not a missing configuration.
#[derive(Debug)]
pub struct PinnedCertificateSet {
    certs: Vec<Vec<u8>>,
}

impl View for PinnedCertificateSet {
    type V = Seq<Seq<u8>>;

    closed spec fn view(&self) -> Seq<Seq<u8>> {
        self.certs@.map_values(|c: Vec<u8>| c@)
    }
}

impl PinnedCertificateSet {
    /// An empty set: pinning disabled.
    pub fn new() -> (r: PinnedCertificateSet)
        ensures
            r@ == Seq::<Seq<u8>>::empty(),
    {
        let r = PinnedCertificateSet { certs: Vec::new() };
        proof {
            assert(r@ =~= Seq::<Seq<u8>>::empty());
        }
        r
    }

    /// Pins one more certificate.
    pub fn add(&mut self, cert: Vec<u8>)
        ensures
            final(self)@ == old(self)@.push(cert@),
    {
        let ghost c = cert@;
        self.certs.push(cert);
        proof {
            assert(self@ =~= old(self)@.push(c));
        }
    }

    /// How many certificates are pinned.
    pub fn len(&self) -> (r: usize)
        ensures
            r == self@.len(),
    {
        self.certs.len()
    }
}

/// A certificate the validator can consider at all: pinning compares the
/// encoded certificate bytes, and an empty byte string encodes no
/// certificate.
pub open spec fn cert_parsable(cert: Seq<u8>) -> bool {
    cert.len() > 0
}

/// The validator's contract: an empty pinned set accepts; an unparsable
/// certificate is rejected; otherwise exactly the pinned certificates
/// are accepted, compared byte for byte.
pub open spec fn spec_validate(cert: Seq<u8>, pins: Seq<Seq<u8>>) -> Verdict {
    if pins.len() == 0 {
        Verdict::Accept
    } else if !cert_parsable(cert) {
        Verdict::Reject(RejectionReason::Unparsable)
    } else if pins.contains(cert) {
        Verdict::Accept
    } else {
        Verdict::Reject(RejectionReason::NoMatch)
    }
}

/// Byte-for-byte equality of two certificate encodings.
fn bytes_equal(a: &Vec<u8>, b: &Vec<u8>) -> (r: bool)
    ensures
        r == (a@ == b@),
{
    if a.len() != b.len() {
        proof {
            assert(a@ != b@);
        }
        return false;
    }
    let n = a.len();
    let mut i: usize = 0;
    while i < n
        invariant
            i <= n,
            n == a@.len(),
            n == b@.len(),
            forall|j: int| 0 <= j < i ==> a@[j] == b@[j],
        decreases n - i,
    {
        if a[i] != b[i] {
            proof {
                assert(a@ != b@) by {
                    assert(a@[i as int] != b@[i as int]);
                }
            }
            return false;
        }
        i = i + 1;
    }
    proof {
        assert(a@ =~= b@);
    }
    true
}

/// Decides whether the session may trust the peer certificate: Accept
/// when no certificate is pinned or when the certificate is pinned,
/// Reject otherwise, with the reason. This comparison, not any public
/// CA chain, decides the session's fate.
pub fn validate(cert: &Vec<u8>, pinned: &PinnedCertificateSet) -> (r: Verdict)
    ensures
        r == spec_validate(cert@, pinned@),
{
    let n = pinned.certs.len();
    if n == 0 {
        return Verdict::Accept;
    }
    if cert.len() == 0 {
        return Verdict::Reject(RejectionReason::Unparsable);
    }
    let mut i: usize = 0;
    while i < n
        invariant
            i <= n,
            n >= 1,
            cert@.len() > 0,
            n == pinned@.len(),
            n == pinned.certs@.len(),
            forall|j: int| 0 <= j < i ==> pinned@[j] != cert@,
        decreases n - i,
    {
        if bytes_equal(cert, &pinned.certs[i]) {
            proof {
                assert(pinned@[i as int] == cert@);
                assert(pinned@.contains(cert@));
            }
            return Verdict::Accept;
        }
        i = i + 1;
    }
    proof {
        assert(!pinned@.contains(cert@));
    }
    Verdict::Reject(RejectionReason::NoMatch)
}

/// Pinning law, first part: an empty pinned set accepts every
/// certificate, parsable or not.
pub proof fn lemma_pinning_empty_accepts(cert: Seq<u8>)
    ensures
        spec_validate(cert, Seq::<Seq<u8>>::empty()) == Verdict::Accept,
{
}

/// Pinning law, second part: a set that pins the peer certificate
/// itself accepts it.
pub proof fn lemma_pinning_self_accepts(cert: Seq<u8>)
    requires
        cert_parsable(cert),
    ensures
        spec_validate(cert, seq![cert]) == Verdict::Accept,
{
    assert(seq![cert][0] == cert);
    assert(seq![cert].contains(cert));
}

/// Pinning law, third part: a set that pins only a different
/// certificate rejects the peer certificate, whatever a public CA chain
/// would have said about it.
pub proof fn lemma_pinning_mismatch_rejects(cert: Seq<u8>, other: Seq<u8>)
    requires
        other != cert,
    ensures
        spec_validate(cert, seq![other]) is Reject,
{
    if cert_parsable(cert) {
        assert forall|i: int| 0 <= i < seq![other].len() implies seq![other][i] != cert by {
        }
        assert(!seq![other].contains(cert));
    }
}

} // verus!
