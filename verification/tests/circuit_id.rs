use foxyon::circuit::{get_circuit_id, parse_ipv6_groups};
use foxyon::solution::SolutionError;

#[test]
fn circuit_id_is_the_low_32_bits() {
    let r = get_circuit_id(Some(b"::1:0203:0405")).unwrap();
    assert_eq!(r, 0x0203_0405);
}

#[test]
fn tor_style_address_parses() {
    let r = get_circuit_id(Some(b"fc00:dead:beef:4dad::12d")).unwrap();
    assert_eq!(r, 0x12d);
    let g = parse_ipv6_groups(b"fc00:dead:beef:4dad::12d").unwrap();
    assert_eq!(g, vec![0xfc00, 0xdead, 0xbeef, 0x4dad, 0, 0, 0, 0x12d]);
}

#[test]
fn missing_header_is_an_error() {
    assert_eq!(get_circuit_id(None).unwrap_err(), SolutionError::CircuitIdError);
}

#[test]
fn invalid_addresses_are_errors() {
    for bad in [
        &b"not an address"[..],
        b"",
        b":",
        b"::1::2",
        b"1:2:3:4:5:6:7",
        b"1:2:3:4:5:6:7:8:9",
        b"1:2:3:4:5:6:7:8::",
        b"12345::",
        b"::1:02030405",
        b"1.2.3.4",
    ] {
        assert_eq!(
            get_circuit_id(Some(bad)).unwrap_err(),
            SolutionError::CircuitIdError,
            "{:?} should not parse",
            String::from_utf8_lossy(bad)
        );
    }
}

#[test]
fn full_and_elided_forms_agree() {
    let full = parse_ipv6_groups(b"0:0:0:0:0:0:0:1").unwrap();
    let elided = parse_ipv6_groups(b"::1").unwrap();
    assert_eq!(full, elided);
    assert_eq!(parse_ipv6_groups(b"::").unwrap(), vec![0u16; 8]);
    assert_eq!(parse_ipv6_groups(b"1::").unwrap(), vec![1, 0, 0, 0, 0, 0, 0, 0]);
}

#[test]
fn dotted_quad_tail_counts_as_two_groups() {
    let g = parse_ipv6_groups(b"::ffff:192.168.0.1").unwrap();
    assert_eq!(g, vec![0, 0, 0, 0, 0, 0xffff, 0xc0a8, 0x0001]);
    assert_eq!(get_circuit_id(Some(b"::ffff:192.168.0.1")).unwrap(), 0xc0a8_0001);
    // Leading zeros in an octet are rejected.
    assert!(parse_ipv6_groups(b"::ffff:192.168.00.1").is_none());
    // The quad may not sit anywhere but last.
    assert!(parse_ipv6_groups(b"::1.2.3.4:ffff").is_none());
}
