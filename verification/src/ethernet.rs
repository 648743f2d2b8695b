//! Ethernet hardware addresses.

use vstd::prelude::*;
use rand::RngCore;

verus! {

/// A MAC address of six octets.
pub struct MacAddress([u8; 6]);

/// Calls `rand::thread_rng` and `rand::RngCore::fill_bytes` on a buffer of
/// six octets. The octets are random: nothing is stated of them.
/// `thread_rng` panics on a system whose source of randomness cannot be
/// had; no argument decides that.
#[verifier::external_body]
fn random_octets() -> (octets: [u8; 6]) {
    let mut octets: [u8; 6] = [0; 6];
    rand::thread_rng().fill_bytes(&mut octets);
    octets
}

impl MacAddress {
    /// The six octets of the address, in the order of transmission.
    pub closed spec fn octets(&self) -> Seq<u8> {
        self.0@
    }

    /// Whether the address is locally administered: bit 1 of its first
    /// octet is set.
    pub open spec fn local(&self) -> bool {
        self.octets()[0] & 0b0000_0010 == 0b0000_0010
    }

    /// Whether the address is a group address: bit 0 of its first octet is
    /// set.
    pub open spec fn multicast(&self) -> bool {
        self.octets()[0] & 0b0000_0001 == 0b0000_0001
    }

    /// The address that holds `octets`.
    pub fn from_octets(octets: [u8; 6]) -> (mac: MacAddress)
        ensures
            mac.octets() == octets@,
    {
        MacAddress(octets)
    }

    /// The address that holds `octets` with the two lowest bits of the
    /// first octet set: locally administered and multicast.
    pub fn local_multicast(octets: [u8; 6]) -> (mac: MacAddress)
        ensures
            mac.octets() == octets@.update(0, octets@[0] | 0b0000_0011),
            mac.local(),
            mac.multicast(),
    {
        let mut octets = octets;
        let first: u8 = octets[0];
        let marked: u8 = first | 0b0000_0011;
        assert(marked & 0b0000_0010 == 0b0000_0010 && marked & 0b0000_0001 == 0b0000_0001)
            by (bit_vector)
            requires
                marked == first | 0b0000_0011,
        ;
        octets[0] = marked;
        MacAddress(octets)
    }

    /// A random address that is locally administered and multicast: six
    /// random octets, made so by `local_multicast`.
    pub fn new() -> (mac: MacAddress)
        ensures
            mac.octets().len() == 6,
            mac.local(),
            mac.multicast(),
    {
        MacAddress::local_multicast(random_octets())
    }

    /// A copy of the six octets.
    pub fn to_octets(&self) -> (octets: [u8; 6])
        ensures
            octets@ == self.octets(),
    {
        self.0
    }

    /// Whether the address is locally administered.
    pub fn is_local(&self) -> (local: bool)
        ensures
            local == self.local(),
    {
        self.0[0] & 0b0000_0010 == 0b0000_0010
    }

    /// Whether the address is a group address.
    pub fn is_multicast(&self) -> (multicast: bool)
        ensures
            multicast == self.multicast(),
    {
        self.0[0] & 0b0000_0001 == 0b0000_0001
    }

    /// Whether the address is that of a single station: no group address.
    pub fn is_unicast(&self) -> (unicast: bool)
        ensures
            unicast == !self.multicast(),
    {
        let first: u8 = self.0[0];
        assert((first & 1 == 0) == !(first & 0b0000_0001 == 0b0000_0001)) by (bit_vector);
        first & 1 == 0
    }
}

impl Default for MacAddress {
    fn default() -> (mac: MacAddress)
        ensures
            mac.local(),
            mac.multicast(),
    {
        MacAddress::new()
    }
}

} // verus!
