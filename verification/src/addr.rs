//! Addresses of actor groups and actors.

use vstd::prelude::*;

verus! {

/// Number of distinct values of the 32-bit local part.
pub const LOCAL_SPAN: u64 = 0x1_0000_0000;

/// Number of distinct values of the 16-bit generation and group slot parts.
pub const PART_SPAN: u64 = 0x1_0000;

/// Weight of the group slot part inside the packed bits.
pub const SLOT_SPAN: u64 = 0x1_0000_0000_0000;

/// The bits of the packed handle `(group_slot, generation, local)`:
/// the group slot in the top 16 bits, the generation in the next 16,
/// the local part in the low 32.
pub open spec fn pack(group_slot: u16, generation: u16, local: u32) -> u64 {
    ((group_slot as int * PART_SPAN as int + generation as int) * LOCAL_SPAN as int
        + local as int) as u64
}

/// A 64-bit handle to a group slot or to one spawned actor.
///
/// Addresses are plain values: holding one does not keep its referent alive.
/// The value with all bits zero is reserved and names nobody.
#[derive(Clone, Copy, PartialEq, Eq, Structural, Debug, Hash)]
pub struct Addr {
    bits: u64,
}

impl Addr {
    /// The packed bits of this address.
    pub closed spec fn bits(self) -> u64 {
        self.bits
    }

    pub open spec fn spec_group_slot(self) -> u16 {
        (self.bits() / SLOT_SPAN) as u16
    }

    pub open spec fn spec_generation(self) -> u16 {
        ((self.bits() / LOCAL_SPAN) % PART_SPAN) as u16
    }

    pub open spec fn spec_local(self) -> u32 {
        (self.bits() % LOCAL_SPAN) as u32
    }

    pub open spec fn spec_is_null(self) -> bool {
        self.bits() == 0
    }

    /// The address with the given packed bits.
    pub closed spec fn spec_from_bits(bits: u64) -> Addr {
        Addr { bits }
    }

    /// The reserved address that names nobody.
    pub open spec fn spec_null() -> Addr {
        Addr::spec_from_bits(0)
    }

    /// The reserved address that names nobody.
    #[verifier::when_used_as_spec(spec_null)]
    pub fn null() -> (addr: Addr)
        ensures
            addr == Addr::spec_null(),
            addr.bits() == 0,
            addr.spec_is_null(),
    {
        Addr { bits: 0 }
    }

    /// The address with the given three parts.
    pub open spec fn spec_from_parts(group_slot: u16, generation: u16, local: u32) -> Addr {
        Addr::spec_from_bits(pack(group_slot, generation, local))
    }

    /// Packs the three parts into one address.
    #[verifier::when_used_as_spec(spec_from_parts)]
    pub fn from_parts(group_slot: u16, generation: u16, local: u32) -> (addr: Addr)
        ensures
            addr == Addr::spec_from_parts(group_slot, generation, local),
            addr.bits() == pack(group_slot, generation, local),
            addr.spec_group_slot() == group_slot,
            addr.spec_generation() == generation,
            addr.spec_local() == local,
    {
        let head: u64 = group_slot as u64 * PART_SPAN + generation as u64;
        let bits: u64 = head * LOCAL_SPAN + local as u64;
        Addr { bits }
    }

    /// Rebuilds an address from its packed bits.
    #[verifier::when_used_as_spec(spec_from_bits)]
    pub fn from_bits(bits: u64) -> (addr: Addr)
        ensures
            addr == Addr::spec_from_bits(bits),
            addr.bits() == bits,
    {
        Addr { bits }
    }

    /// The packed bits.
    pub fn into_bits(self) -> (bits: u64)
        ensures
            bits == self.bits(),
    {
        self.bits
    }

    #[verifier::when_used_as_spec(spec_is_null)]
    pub fn is_null(self) -> (null: bool)
        ensures
            null == self.spec_is_null(),
    {
        self.bits == 0
    }

    #[verifier::when_used_as_spec(spec_group_slot)]
    pub fn group_slot(self) -> (slot: u16)
        ensures
            slot == self.spec_group_slot(),
    {
        (self.bits / SLOT_SPAN) as u16
    }

    #[verifier::when_used_as_spec(spec_generation)]
    pub fn generation(self) -> (generation: u16)
        ensures
            generation == self.spec_generation(),
    {
        ((self.bits / LOCAL_SPAN) % PART_SPAN) as u16
    }

    #[verifier::when_used_as_spec(spec_local)]
    pub fn local(self) -> (local: u32)
        ensures
            local == self.spec_local(),
    {
        (self.bits % LOCAL_SPAN) as u32
    }
}

/// An address is its bits: packing the bits of an address gives it back, and
/// the address made of some bits has those bits.
pub proof fn lemma_addr_is_its_bits(a: Addr, bits: u64)
    ensures
        Addr::spec_from_bits(a.bits()) == a,
        Addr::spec_from_bits(bits).bits() == bits,
{
}

/// An address is its three parts: unpacking and packing again gives it back.
pub proof fn lemma_addr_parts_determine(a: Addr)
    ensures
        a.bits() == pack(a.spec_group_slot(), a.spec_generation(), a.spec_local()),
{
}

/// Two addresses are equal exactly when all three parts agree.
pub proof fn lemma_addr_equal_iff_parts_equal(a: Addr, b: Addr)
    ensures
        a == b <==> (a.spec_group_slot() == b.spec_group_slot() && a.spec_generation()
            == b.spec_generation() && a.spec_local() == b.spec_local()),
{
    lemma_addr_parts_determine(a);
    lemma_addr_parts_determine(b);
}

/// The address made of three parts has those parts, and no other triple
/// makes the same address.
pub proof fn lemma_from_parts(group_slot: u16, generation: u16, local: u32)
    ensures
        Addr::spec_from_parts(group_slot, generation, local).spec_group_slot() == group_slot,
        Addr::spec_from_parts(group_slot, generation, local).spec_generation() == generation,
        Addr::spec_from_parts(group_slot, generation, local).spec_local() == local,
        Addr::spec_from_parts(group_slot, generation, local).spec_is_null() <==> (group_slot == 0
            && generation == 0 && local == 0),
{
}

/// Only the all-zero triple packs to the reserved null address.
pub proof fn lemma_null_iff_parts_zero(group_slot: u16, generation: u16, local: u32)
    ensures
        pack(group_slot, generation, local) == 0 <==> (group_slot == 0 && generation == 0 && local
            == 0),
{
}

} // verus!
