use slipstream::error::ErrorKind;
use slipstream::mtu::compute_mtu;

#[test]
fn budget_formula_exact_values() {
    assert_eq!(compute_mtu(0).unwrap(), 150);
    assert_eq!(compute_mtu(16).unwrap(), 140);
    assert_eq!(compute_mtu(100).unwrap(), 87);
    assert_eq!(compute_mtu(238).unwrap(), 1);
}

#[test]
fn budget_matches_floored_ratio_for_every_length() {
    for d in 0usize..239 {
        let expected = ((240.0 - d as f64) / 1.6).floor() as u32;
        if expected == 0 {
            assert!(compute_mtu(d).is_err(), "length {} should fail", d);
        } else {
            assert_eq!(compute_mtu(d).unwrap(), expected, "length {}", d);
        }
    }
}

#[test]
fn domain_too_long_is_configuration_error() {
    for d in [240usize, 241, 500, 10_000] {
        let e = compute_mtu(d).unwrap_err();
        assert_eq!(e.kind, ErrorKind::Configuration);
        assert_eq!(e.message, "Domain name is too long for DNS transport");
    }
}

#[test]
fn zero_budget_is_configuration_error() {
    let e = compute_mtu(239).unwrap_err();
    assert_eq!(e.kind, ErrorKind::Configuration);
    assert_eq!(e.message, "MTU computed to zero; check domain length");
}
