use actionkv::ethernet::MacAddress;

#[test]
fn macgen_test() {
    let mac = MacAddress::new();
    assert!(mac.is_local());
    assert!(mac.is_multicast());
    assert!(!mac.is_unicast());
}

#[test]
fn default_address_is_local_and_multicast() {
    let mac = MacAddress::default();
    assert!(mac.is_local());
    assert!(mac.is_multicast());
    assert!(!mac.is_unicast());
}

#[test]
fn new_addresses_differ() {
    let first = MacAddress::new().to_octets();
    let differs = (0..16).any(|_| MacAddress::new().to_octets() != first);
    assert!(differs);
}

#[test]
fn flags_are_read_from_the_first_octet() {
    let universal_unicast = MacAddress::from_octets([0x00, 0xff, 0xff, 0xff, 0xff, 0xff]);
    assert!(!universal_unicast.is_local());
    assert!(!universal_unicast.is_multicast());
    assert!(universal_unicast.is_unicast());

    let local_unicast = MacAddress::from_octets([0x02, 0, 0, 0, 0, 0]);
    assert!(local_unicast.is_local());
    assert!(!local_unicast.is_multicast());
    assert!(local_unicast.is_unicast());

    let universal_multicast = MacAddress::from_octets([0x01, 0, 0, 0, 0, 0]);
    assert!(!universal_multicast.is_local());
    assert!(universal_multicast.is_multicast());
    assert!(!universal_multicast.is_unicast());

    let other_bits = MacAddress::from_octets([0xfc, 0x03, 0x03, 0x03, 0x03, 0x03]);
    assert!(!other_bits.is_local());
    assert!(!other_bits.is_multicast());
    assert!(other_bits.is_unicast());
}

#[test]
fn octets_are_kept() {
    let octets = [0x03, 0x14, 0x15, 0x92, 0x65, 0x35];
    assert_eq!(MacAddress::from_octets(octets).to_octets(), octets);
}

#[test]
fn local_multicast_sets_the_two_lowest_bits_of_the_first_octet() {
    let mac = MacAddress::local_multicast([0x00, 1, 2, 3, 4, 5]);
    assert_eq!(mac.to_octets(), [0x03, 1, 2, 3, 4, 5]);
    let mac = MacAddress::local_multicast([0xfc, 0, 0, 0, 0, 0xff]);
    assert_eq!(mac.to_octets(), [0xff, 0, 0, 0, 0, 0xff]);
    let mac = MacAddress::local_multicast([0x5a, 9, 9, 9, 9, 9]);
    assert_eq!(mac.to_octets(), [0x5b, 9, 9, 9, 9, 9]);
    assert!(mac.is_local());
    assert!(mac.is_multicast());
}
