//! The state block the loader leaves in memory for freshly loaded code: the
//! network configuration the device already negotiated, so the new image
//! can recreate its network stack without joining the wireless network
//! again.

use vstd::prelude::*;

use crate::bytes::u32_le_bytes;

verus! {

/// A network address packed into a non-zero 32-bit word, least significant
/// byte first.
#[derive(Clone, Copy, Debug, PartialEq, Eq, Structural)]
pub struct Address {
    /// The packed address; zero never encodes an address, which lets an
    /// absent one be stored for free.
    pub raw: u32,
}

impl Address {
    /// A stored address is never the all-zero word.
    pub open spec fn wf(self) -> bool {
        self.raw != 0
    }

    /// Packs an address, refusing the zero word.
    pub fn new(raw: u32) -> (r: Option<Address>)
        ensures
            raw != 0 ==> r == Some(Address { raw }),
            raw == 0 ==> r is None,
    {
        if raw == 0 {
            None
        } else {
            Some(Address { raw })
        }
    }

    /// The four address octets, in the order they appear on the wire.
    pub fn octets(&self) -> (r: [u8; 4])
        ensures
            r@ == u32_le_bytes(self.raw),
    {
        let a = self.raw;
        let r: [u8; 4] = [
            (a % 0x100) as u8,
            ((a / 0x100) % 0x100) as u8,
            ((a / 0x10000) % 0x100) as u8,
            ((a / 0x1000000) % 0x100) as u8,
        ];
        assert(r@ =~= u32_le_bytes(self.raw));
        r
    }
}

/// Everything the loaded image needs to take over the running network
/// stack: entropy, addressing and the hardware address.
pub struct ChainloadState {
    /// Seed for the new image's network stack.
    pub seed: u64,
    /// Default gateway, when one was configured.
    pub gateway: Option<Address>,
    /// Up to three name servers.
    pub dns_servers: [Option<Address>; 3],
    /// The device's own address.
    pub ip: Address,
    /// Network prefix length of the address.
    pub prefix_len: u8,
    /// Hardware address of the wireless interface.
    pub mac: [u8; 6],
}

impl ChainloadState {
    /// Every stored address is a real one.
    pub open spec fn wf(self) -> bool {
        &&& self.ip.wf()
        &&& (self.gateway matches Some(a) ==> a.wf())
        &&& forall|i: int|
            0 <= i < 3 ==> (#[trigger] self.dns_servers@[i] matches Some(a) ==> a.wf())
    }
}

} // verus!
