use std::collections::HashSet;

use scanpipe::ip::{format_ipv4, ip_from_octets, is_reserved, octets, parse_ipv4};
use scanpipe::ip_iter::{permute, IpChunkIterator};

#[test]
fn first_image_for_offset_two_is_fixed() {
    assert_eq!(permute(2, 0), 2529702884);
    let mut it = IpChunkIterator::from_parts(2, 0);
    let first = it.next().unwrap();
    assert_eq!(first, 2529702884);
    assert_eq!(format_ipv4(first), "150.200.51.228");
}

#[test]
fn sweep_is_reproducible_from_offset_and_cursor() {
    let mut a = IpChunkIterator::from_parts(77, 123);
    let mut b = IpChunkIterator::from_parts(77, 123);
    for _ in 0..100 {
        assert_eq!(a.next(), b.next());
    }
}

#[test]
fn no_emitted_address_is_reserved() {
    let mut it = IpChunkIterator::from_parts(999983, 0);
    for _ in 0..5000 {
        let ip = it.next().unwrap();
        assert!(!is_reserved(ip));
    }
}

#[test]
fn odd_offset_emits_no_duplicates() {
    let mut it = IpChunkIterator::from_parts(3, 0);
    let mut seen: HashSet<u32> = HashSet::new();
    for _ in 0..20000 {
        let ip = it.next().unwrap();
        assert!(seen.insert(ip));
    }
}

#[test]
fn regenerate_resets_cursor_and_changes_offset() {
    let mut it = IpChunkIterator::from_parts(500, 424242);
    let old_offset = it.offset();
    it.regenerate();
    assert_eq!(it.cursor(), 0);
    assert_ne!(it.offset(), old_offset);
    assert!(it.offset() >= 2 && it.offset() < 1000000);
}

#[test]
fn fresh_iterator_draws_offset_in_range() {
    for _ in 0..20 {
        let it = IpChunkIterator::new();
        assert!(it.offset() >= 2 && it.offset() < 1000000);
        assert_eq!(it.cursor(), 0);
    }
}

#[test]
fn reserved_ranges_are_exactly_the_listed_ones() {
    assert!(is_reserved(ip_from_octets(127, 1, 2, 3)));
    assert!(is_reserved(ip_from_octets(10, 0, 0, 1)));
    assert!(is_reserved(ip_from_octets(172, 16, 0, 1)));
    assert!(is_reserved(ip_from_octets(172, 31, 255, 255)));
    assert!(!is_reserved(ip_from_octets(172, 32, 0, 1)));
    assert!(is_reserved(ip_from_octets(192, 168, 4, 4)));
    assert!(is_reserved(ip_from_octets(169, 254, 9, 9)));
    assert!(is_reserved(ip_from_octets(224, 0, 0, 1)));
    assert!(is_reserved(ip_from_octets(239, 255, 255, 255)));
    assert!(is_reserved(ip_from_octets(255, 255, 255, 255)));
    assert!(is_reserved(ip_from_octets(192, 0, 2, 55)));
    assert!(is_reserved(ip_from_octets(198, 51, 100, 1)));
    assert!(is_reserved(ip_from_octets(203, 0, 113, 200)));
    assert!(!is_reserved(ip_from_octets(8, 8, 8, 8)));
    assert!(!is_reserved(ip_from_octets(1, 1, 1, 1)));
}

#[test]
fn octets_round_trip() {
    let ip = ip_from_octets(93, 184, 216, 34);
    assert_eq!(ip, 1572395042);
    assert_eq!(octets(ip), (93, 184, 216, 34));
}

#[test]
fn dotted_quad_formatting_and_parsing_round_trip() {
    for ip in [0u32, 1, 0x01020304, 0xffffffff, 1572395042, 2529702884] {
        let text = format_ipv4(ip);
        assert_eq!(parse_ipv4(text.as_str()), Some(ip));
    }
    assert_eq!(format_ipv4(ip_from_octets(1, 2, 3, 4)), "1.2.3.4");
    assert_eq!(format_ipv4(ip_from_octets(255, 0, 10, 100)), "255.0.10.100");
}

#[test]
fn dotted_quad_parser_rejects_malformed_text() {
    for bad in [
        "", "1.2.3", "1.2.3.4.5", "256.1.1.1", "01.2.3.4", "1.2.3.04", "1.2.3.4 ", "a.b.c.d",
        "1..2.3", "1.2.3.-4", "+1.2.3.4", "1.2.3.4x",
    ] {
        assert_eq!(parse_ipv4(bad), None, "accepted {:?}", bad);
    }
    assert_eq!(parse_ipv4("0.0.0.0"), Some(0));
    assert_eq!(parse_ipv4("255.255.255.255"), Some(0xffffffff));
}
