//! Address-class predicates: broadcast, multicast, unicast, and the
//! universal/local administration bit.

use vstd::prelude::*;

use crate::address::MacAddress;
use crate::model::is_broadcast_nibbles;
use crate::model::is_multicast_nibbles;
use crate::model::is_unicast_nibbles;
use crate::model::ul_bit;
use crate::model::valid_nibbles;

verus! {

impl MacAddress {
    /// True exactly of the broadcast address `ffffffffffff`.
    pub fn is_broadcast(&self) -> (r: bool)
        ensures
            r == is_broadcast_nibbles(self@),
    {
        let nibbles = self.eui48_vec();
        let mut k: usize = 0;
        while k < 12
            invariant
                k <= 12,
                nibbles@ == self@,
                valid_nibbles(nibbles@),
                forall|i: int| 0 <= i < k ==> self@[i] == 15,
            decreases 12 - k,
        {
            if nibbles[k] != 15 {
                return false;
            }
            k = k + 1;
        }
        true
    }

    /// True exactly of addresses whose OUI is the multicast prefix `01005e`.
    pub fn is_multicast(&self) -> (r: bool)
        ensures
            r == is_multicast_nibbles(self@),
    {
        let nibbles = self.eui48_vec();
        nibbles[0] == 0 && nibbles[1] == 1 && nibbles[2] == 0 && nibbles[3] == 0 && nibbles[4] == 5
            && nibbles[5] == 14
    }

    /// True exactly of addresses that are neither broadcast nor multicast.
    pub fn is_unicast(&self) -> (r: bool)
        ensures
            r == is_unicast_nibbles(self@),
    {
        !(self.is_broadcast() || self.is_multicast())
    }

    /// True when the universal/local bit — the second-least-significant bit
    /// of the first octet — is 0: the address is universally administered.
    pub fn is_universal(&self) -> (r: bool)
        ensures
            r == (ul_bit(self@) == 0),
    {
        let nibbles = self.eui48_vec();
        (nibbles[1] / 2) % 2 == 0
    }

    /// True when the universal/local bit is 1: the address is locally
    /// administered. Always the complement of [`Self::is_universal`].
    pub fn is_local(&self) -> (r: bool)
        ensures
            r == (ul_bit(self@) == 1),
    {
        let nibbles = self.eui48_vec();
        (nibbles[1] / 2) % 2 == 1
    }
}

} // verus!
