//! Physical addresses: 64-bit values whose bits 52 to 63 are clear.

use vstd::prelude::*;

verus! {

/// One past the largest valid physical address (`1 << 52`).
pub const PHYS_ADDR_LIMIT: u64 = 0x10_0000_0000_0000;

/// Relies on `x86_64::PhysAddr::try_new`: it accepts an address exactly when bits 52 to 63
/// are clear, and then keeps its value.
#[verifier::external_body]
fn x86_checked_addr(addr: u64) -> (r: Option<u64>)
    ensures
        r == (if addr < PHYS_ADDR_LIMIT { Some(addr) } else { None::<u64> }),
{
    match x86_64::PhysAddr::try_new(addr) {
        Ok(p) => Some(p.as_u64()),
        Err(_) => None,
    }
}

/// Relies on `x86_64::PhysAddr + u64`: the sum of the address and the length, which panics
/// unless the sum is a valid physical address.
#[verifier::external_body]
fn x86_add_len(addr: u64, len: u64) -> (r: u64)
    requires
        addr + len < PHYS_ADDR_LIMIT,
    ensures
        r == addr + len,
{
    (x86_64::PhysAddr::new(addr) + len).as_u64()
}

/// A validated physical address.
#[derive(Clone, Copy, Debug, PartialEq, Eq, Structural)]
pub struct PhysAddr {
    addr: u64,
}

impl View for PhysAddr {
    type V = u64;

    closed spec fn view(&self) -> u64 {
        self.addr
    }
}

impl PhysAddr {
    #[verifier::type_invariant]
    spec fn valid(self) -> bool {
        self.addr < PHYS_ADDR_LIMIT
    }

    /// Two addresses with the same value are the same address.
    pub proof fn lemma_view_eq(a: PhysAddr, b: PhysAddr)
        requires
            a@ == b@,
        ensures
            a == b,
    {
    }

    /// The address `addr`, which must have bits 52 to 63 clear.
    pub fn new(addr: u64) -> (r: PhysAddr)
        requires
            addr < PHYS_ADDR_LIMIT,
        ensures
            r@ == addr,
    {
        PhysAddr { addr }
    }

    /// The address `addr` if it has bits 52 to 63 clear, else `None`.
    pub fn try_new(addr: u64) -> (r: Option<PhysAddr>)
        ensures
            r is Some <==> addr < PHYS_ADDR_LIMIT,
            r matches Some(a) ==> a@ == addr,
    {
        match x86_checked_addr(addr) {
            Some(a) => Some(PhysAddr { addr: a }),
            None => None,
        }
    }

    /// The address as a plain integer.
    pub fn as_u64(self) -> (r: u64)
        ensures
            r == self@,
            r < PHYS_ADDR_LIMIT,
    {
        proof {
            use_type_invariant(&self);
        }
        self.addr
    }

    /// The address `len` bytes above this one; the result must still be a valid address.
    pub fn add_len(self, len: u64) -> (r: PhysAddr)
        requires
            self@ + len < PHYS_ADDR_LIMIT,
        ensures
            r@ == self@ + len,
    {
        PhysAddr { addr: x86_add_len(self.addr, len) }
    }
}

} // verus!
