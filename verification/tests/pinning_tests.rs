use slipstream::pinning::{validate, PinnedCertificateSet, RejectionReason, Verdict};

fn set_of(certs: &[&[u8]]) -> PinnedCertificateSet {
    let mut s = PinnedCertificateSet::new();
    for c in certs {
        s.add(c.to_vec());
    }
    s
}

#[test]
fn empty_set_accepts_anything() {
    let pins = PinnedCertificateSet::new();
    assert_eq!(pins.len(), 0);
    assert_eq!(validate(&b"any cert".to_vec(), &pins), Verdict::Accept);
    assert_eq!(validate(&Vec::new(), &pins), Verdict::Accept);
}

#[test]
fn pinned_certificate_is_accepted() {
    let cert = b"server certificate bytes".to_vec();
    let pins = set_of(&[b"server certificate bytes"]);
    assert_eq!(validate(&cert, &pins), Verdict::Accept);
}

#[test]
fn mismatched_certificate_is_rejected() {
    let cert = b"a perfectly CA-valid certificate".to_vec();
    let pins = set_of(&[b"some other certificate"]);
    assert_eq!(
        validate(&cert, &pins),
        Verdict::Reject(RejectionReason::NoMatch)
    );
}

#[test]
fn any_member_of_the_set_matches() {
    let pins = set_of(&[b"first", b"second", b"third"]);
    assert_eq!(pins.len(), 3);
    assert_eq!(validate(&b"second".to_vec(), &pins), Verdict::Accept);
    assert_eq!(validate(&b"third".to_vec(), &pins), Verdict::Accept);
    assert_eq!(
        validate(&b"fourth".to_vec(), &pins),
        Verdict::Reject(RejectionReason::NoMatch)
    );
}

#[test]
fn unparsable_certificate_is_distinguished() {
    let pins = set_of(&[b"pinned"]);
    assert_eq!(
        validate(&Vec::new(), &pins),
        Verdict::Reject(RejectionReason::Unparsable)
    );
}

#[test]
fn near_miss_is_rejected() {
    let pins = set_of(&[b"certificate"]);
    assert_eq!(
        validate(&b"certificatE".to_vec(), &pins),
        Verdict::Reject(RejectionReason::NoMatch)
    );
    assert_eq!(
        validate(&b"certificat".to_vec(), &pins),
        Verdict::Reject(RejectionReason::NoMatch)
    );
}
