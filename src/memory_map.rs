//! The memory map: a fixed array of regions with a running count, its normalization,
//! and the conversion from the firmware's E820 records.

use crate::phys_addr::{PhysAddr, PHYS_ADDR_LIMIT};
use vstd::multiset::group_multiset_axioms;
use vstd::pervasive::unreached;
use vstd::prelude::*;
use vstd::seq_lib::{group_to_multiset_ensures, lemma_multiset_commutative};

verus! {

/// The number of slots in a memory map.
pub const MAX_REGIONS: usize = 32;

/// What a span of physical memory is used for.
#[derive(Clone, Copy, Debug, PartialEq, Eq, Structural)]
pub enum MemoryRegionType {
    /// free RAM
    Usable,
    /// used RAM
    InUse,
    /// unusable
    Reserved,
    /// ACPI reclaimable memory
    AcpiReclaimable,
    /// ACPI NVS memory
    AcpiNvs,
    /// Area containing bad memory
    BadMemory,
    /// kernel memory
    Kernel,
    /// memory used by page tables
    PageTable,
    /// memory used by the bootloader
    Bootloader,
    /// frame at address zero
    ///
    /// (shouldn't be used because it's easy to make mistakes related to null pointers)
    FrameZero,
}

/// One contiguous span of physical memory. A region of length zero marks an unused slot.
#[derive(Clone, Copy, Debug, PartialEq, Eq, Structural)]
pub struct MemoryRegion {
    pub start_addr: PhysAddr,
    pub len: u64,
    pub region_type: MemoryRegionType,
}

/// A memory region as the BIOS E820 call reports it.
#[derive(Clone, Copy, Debug, PartialEq, Eq, Structural)]
pub struct E820MemoryRegion {
    pub start_addr: u64,
    pub len: u64,
    pub region_type: u32,
    pub acpi_extended_attributes: u32,
}

/// The faults of building a memory map.
#[derive(Clone, Copy, Debug, PartialEq, Eq, Structural)]
pub enum MemoryMapError {
    /// All slots of the map are taken.
    CapacityExceeded,
    /// An E820 record carries a type code outside `1..=5`.
    UnknownRegionType(u32),
    /// An E820 record starts at an address with bits 52 to 63 set.
    InvalidAddress(u64),
}

/// The classification that an E820 type code stands for, if any.
pub open spec fn e820_region_type(code: u32) -> Option<MemoryRegionType> {
    if code == 1 {
        Some(MemoryRegionType::Usable)
    } else if code == 2 {
        Some(MemoryRegionType::Reserved)
    } else if code == 3 {
        Some(MemoryRegionType::AcpiReclaimable)
    } else if code == 4 {
        Some(MemoryRegionType::AcpiNvs)
    } else if code == 5 {
        Some(MemoryRegionType::BadMemory)
    } else {
        None
    }
}


/// `a` may stand before `b` in a normalized map: regions in use come first, by ascending
/// start address, and empty regions last.
pub open spec fn slot_le(a: MemoryRegion, b: MemoryRegion) -> bool {
    b.len == 0 || (a.len > 0 && a.start_addr@ <= b.start_addr@)
}

/// Every region of `s` is in use, and their start addresses ascend.
pub open spec fn ascending_in_use(s: Seq<MemoryRegion>) -> bool {
    &&& forall|i: int| 0 <= i < s.len() ==> #[trigger] s[i].len > 0
    &&& forall|i: int, j: int| 0 <= i < j < s.len() ==> s[i].start_addr@ <= s[j].start_addr@
}

/// The regions of `s` that are in use, in order.
pub open spec fn in_use(s: Seq<MemoryRegion>) -> Seq<MemoryRegion> {
    s.filter(|r: MemoryRegion| r.len > 0)
}

/// `post` is a view that normalizing a map with view `pre` may leave: the regions of `pre`
/// that are in use, each as often as there, in ascending order of start address. A view
/// that is already in that form stays as it is.
pub open spec fn normalizes_to(pre: Seq<MemoryRegion>, post: Seq<MemoryRegion>) -> bool {
    &&& ascending_in_use(post)
    &&& post.to_multiset() == in_use(pre).to_multiset()
    &&& ascending_in_use(pre) ==> post == pre
}

/// The slots of `s` from `lo` up to `hi` are in normalized order.
spec fn slots_sorted(s: Seq<MemoryRegion>, lo: int, hi: int) -> bool {
    forall|a: int, b: int| lo <= a < b < hi ==> slot_le(#[trigger] s[a], #[trigger] s[b])
}

/// `a` must stand before `b` in a normalized map.
fn precedes(a: &MemoryRegion, b: &MemoryRegion) -> (r: bool)
    ensures
        r == !slot_le(*b, *a),
{
    if a.len == 0 {
        false
    } else if b.len == 0 {
        true
    } else {
        a.start_addr.as_u64() < b.start_addr.as_u64()
    }
}

/// A region occurs in the in-use part of `s` as often as in `s` if it is in use, else never.
proof fn lemma_in_use_count(s: Seq<MemoryRegion>, r: MemoryRegion)
    ensures
        in_use(s).to_multiset().count(r) == if r.len > 0 { s.to_multiset().count(r) } else { 0 },
    decreases s.len(),
{
    broadcast use group_to_multiset_ensures, group_multiset_axioms;

    reveal(Seq::filter);
    if s.len() > 0 {
        let init = s.drop_last();
        lemma_in_use_count(init, r);
        assert(s =~= init.push(s.last()));
        assert(s.to_multiset() == init.to_multiset().insert(s.last()));
        if s.last().len > 0 {
            assert(in_use(s) == in_use(init).push(s.last()));
        } else {
            assert(in_use(s) == in_use(init));
        }
    } else {
        assert(in_use(s) =~= Seq::<MemoryRegion>::empty());
    }
}

/// Sorting the 32 slots of a map whose first `n` are its view, and cutting the result
/// before its first empty slot `k`, keeps exactly the regions in use of the view.
proof fn lemma_sorted_slots_keep_in_use(pre: Seq<MemoryRegion>, post: Seq<MemoryRegion>, n: int, k: int)
    requires
        pre.len() == MAX_REGIONS,
        post.len() == MAX_REGIONS,
        pre.to_multiset() == post.to_multiset(),
        0 <= n <= MAX_REGIONS,
        0 <= k <= MAX_REGIONS,
        forall|i: int| n <= i < MAX_REGIONS ==> #[trigger] pre[i].len == 0,
        forall|i: int| k <= i < MAX_REGIONS ==> #[trigger] post[i].len == 0,
        forall|i: int| 0 <= i < k ==> #[trigger] post[i].len > 0,
    ensures
        post.subrange(0, k).to_multiset() == in_use(pre.subrange(0, n)).to_multiset(),
{
    broadcast use group_to_multiset_ensures, group_multiset_axioms, lemma_multiset_commutative;

    let v = pre.subrange(0, n);
    let e = pre.subrange(n, MAX_REGIONS as int);
    let v2 = post.subrange(0, k);
    let e2 = post.subrange(k, MAX_REGIONS as int);
    assert(pre =~= v + e);
    assert(post =~= v2 + e2);
    assert forall|r: MemoryRegion| #[trigger] v2.to_multiset().count(r) == in_use(v).to_multiset().count(r) by {
        lemma_in_use_count(v, r);
        lemma_multiset_commutative(v, e);
        lemma_multiset_commutative(v2, e2);
        assert(pre.to_multiset().count(r) == v.to_multiset().count(r) + e.to_multiset().count(r));
        assert(post.to_multiset().count(r) == v2.to_multiset().count(r) + e2.to_multiset().count(r));
        if r.len > 0 {
            assert(!e.contains(r));
            assert(!e2.contains(r));
        } else {
            assert(!v2.contains(r));
        }
    }
    assert(v2.to_multiset() =~= in_use(v).to_multiset());
}

impl MemoryRegion {
    /// The unused-slot sentinel: address zero, length zero, reserved.
    pub fn empty() -> (r: MemoryRegion)
        ensures
            r.start_addr@ == 0,
            r.len == 0,
            r.region_type == MemoryRegionType::Reserved,
    {
        MemoryRegion { start_addr: PhysAddr::new(0), len: 0, region_type: MemoryRegionType::Reserved }
    }

    pub fn start_addr(&self) -> (r: PhysAddr)
        ensures
            r == self.start_addr,
    {
        self.start_addr
    }

    /// The first address past the region; it must still be a valid physical address.
    pub fn end_addr(&self) -> (r: PhysAddr)
        requires
            self.start_addr@ + self.len < PHYS_ADDR_LIMIT,
        ensures
            r@ == self.start_addr@ + self.len,
    {
        self.start_addr.add_len(self.len)
    }

    /// The region that an E820 record describes. The record must carry a type code in
    /// `1..=5` and a valid start address: anything else is a fault that the caller rules out.
    pub fn from(region: E820MemoryRegion) -> (r: MemoryRegion)
        requires
            e820_region_type(region.region_type) is Some,
            region.start_addr < PHYS_ADDR_LIMIT,
        ensures
            r.start_addr@ == region.start_addr,
            r.len == region.len,
            Some(r.region_type) == e820_region_type(region.region_type),
    {
        let region_type = match region.region_type {
            1 => MemoryRegionType::Usable,
            2 => MemoryRegionType::Reserved,
            3 => MemoryRegionType::AcpiReclaimable,
            4 => MemoryRegionType::AcpiNvs,
            5 => MemoryRegionType::BadMemory,
            _ => unreached(),
        };
        MemoryRegion { start_addr: PhysAddr::new(region.start_addr), len: region.len, region_type }
    }

    /// The region that an E820 record describes. A type code outside `1..=5` or an
    /// invalid start address is a fault, never a default.
    pub fn from_e820(region: E820MemoryRegion) -> (r: Result<MemoryRegion, MemoryMapError>)
        ensures
            r is Ok <==> e820_region_type(region.region_type) is Some && region.start_addr < PHYS_ADDR_LIMIT,
            r matches Ok(m) ==> m.start_addr@ == region.start_addr && m.len == region.len
                && Some(m.region_type) == e820_region_type(region.region_type),
            r == Err::<MemoryRegion, MemoryMapError>(MemoryMapError::UnknownRegionType(region.region_type))
                <==> e820_region_type(region.region_type) is None,
            r == Err::<MemoryRegion, MemoryMapError>(MemoryMapError::InvalidAddress(region.start_addr))
                <==> e820_region_type(region.region_type) is Some && region.start_addr >= PHYS_ADDR_LIMIT,
    {
        let region_type = match region.region_type {
            1 => MemoryRegionType::Usable,
            2 => MemoryRegionType::Reserved,
            3 => MemoryRegionType::AcpiReclaimable,
            4 => MemoryRegionType::AcpiNvs,
            5 => MemoryRegionType::BadMemory,
            t => return Err(MemoryMapError::UnknownRegionType(t)),
        };
        match PhysAddr::try_new(region.start_addr) {
            Some(start_addr) => Ok(MemoryRegion { start_addr, len: region.len, region_type }),
            None => Err(MemoryMapError::InvalidAddress(region.start_addr)),
        }
    }
}

/// A fixed array of regions and the count of those that are in use.
///
/// The regions in use are the first `next_entry_index` slots; every slot past them is
/// empty. The count is a `u64` so that the layout is the same on every target.
#[derive(Debug)]
pub struct MemoryMap {
    entries: [MemoryRegion; 32],
    next_entry_index: u64,
}

impl View for MemoryMap {
    type V = Seq<MemoryRegion>;

    /// The regions in use, in slot order.
    closed spec fn view(&self) -> Seq<MemoryRegion> {
        self.entries@.subrange(0, self.next_entry_index as int)
    }
}

impl MemoryMap {
    /// At most 32 regions are in use, and every slot past them is empty.
    pub closed spec fn well_formed(self) -> bool {
        &&& self.next_entry_index <= MAX_REGIONS
        &&& forall|i: int| self.next_entry_index <= i < MAX_REGIONS ==> #[trigger] self.entries@[i].len == 0
    }

    /// All 32 slots, in use or not.
    pub closed spec fn slots(self) -> Seq<MemoryRegion> {
        self.entries@
    }

    /// The view of a well-formed map is the first slots, and every slot past it is empty.
    pub proof fn lemma_view_is_prefix(m: MemoryMap)
        requires
            m.well_formed(),
        ensures
            m.slots().len() == MAX_REGIONS,
            m@.len() <= MAX_REGIONS,
            m@ == m.slots().subrange(0, m@.len() as int),
            forall|i: int| m@.len() <= i < MAX_REGIONS ==> #[trigger] m.slots()[i].len == 0,
    {
    }

    /// A map with every slot empty.
    pub fn new() -> (r: MemoryMap)
        ensures
            r.well_formed(),
            r@ == Seq::<MemoryRegion>::empty(),
            forall|i: int|
                0 <= i < MAX_REGIONS ==> {
                    let slot = #[trigger] r.slots()[i];
                    &&& slot.start_addr@ == 0
                    &&& slot.len == 0
                    &&& slot.region_type == MemoryRegionType::Reserved
                },
    {
        let r = MemoryMap { entries: [MemoryRegion::empty(); 32], next_entry_index: 0 };
        assert(r@ =~= Seq::<MemoryRegion>::empty());
        r
    }

    /// Puts `region` into the first free slot. The map must not be full.
    pub fn add_region(&mut self, region: MemoryRegion)
        requires
            old(self).well_formed(),
            old(self)@.len() < MAX_REGIONS,
        ensures
            final(self).well_formed(),
            final(self)@ == old(self)@.push(region),
            final(self).slots() == old(self).slots().update(old(self)@.len() as int, region),
    {
        let i = self.next_entry_index as usize;
        self.entries[i] = region;
        self.next_entry_index = self.next_entry_index + 1;
        assert(self@ =~= old(self)@.push(region));
    }

    /// Puts `region` into the first free slot, or, if the map is full, leaves it as it is
    /// and reports that.
    pub fn try_add_region(&mut self, region: MemoryRegion) -> (r: Result<(), MemoryMapError>)
        requires
            old(self).well_formed(),
        ensures
            final(self).well_formed(),
            old(self)@.len() < MAX_REGIONS ==> r is Ok && final(self)@ == old(self)@.push(region),
            old(self)@.len() >= MAX_REGIONS ==> r == Err::<(), MemoryMapError>(MemoryMapError::CapacityExceeded)
                && final(self)@ == old(self)@,
    {
        if self.next_entry_index < MAX_REGIONS as u64 {
            self.add_region(region);
            Ok(())
        } else {
            Err(MemoryMapError::CapacityExceeded)
        }
    }

    /// Reorders all 32 slots so that the regions in use come first, by ascending start
    /// address, and the empty ones last; the count becomes the index of the first empty slot,
    /// or 32 if there is none. Equal start addresses may end up in either order.
    pub fn sort(&mut self)
        requires
            old(self).well_formed(),
        ensures
            final(self).well_formed(),
            normalizes_to(old(self)@, final(self)@),
            final(self).slots().to_multiset() == old(self).slots().to_multiset(),
            forall|i: int| final(self)@.len() <= i < MAX_REGIONS ==> #[trigger] final(self).slots()[i].len == 0,
    {
        let ghost pre = self.entries@;
        let ghost n = self.next_entry_index as int;
        let mut i: usize = 1;
        while i < MAX_REGIONS
            invariant
                1 <= i <= MAX_REGIONS,
                self.next_entry_index == n,
                slots_sorted(self.entries@, 0, i as int),
                self.entries@.to_multiset() == pre.to_multiset(),
                slots_sorted(pre, 0, MAX_REGIONS as int) ==> self.entries@ == pre,
            decreases MAX_REGIONS - i,
        {
            let mut j: usize = i;
            while j > 0 && precedes(&self.entries[j], &self.entries[j - 1])
                invariant
                    0 <= j <= i < MAX_REGIONS,
                    self.next_entry_index == n,
                    forall|a: int, b: int|
                        0 <= a < b <= i && a != j && b != j ==> slot_le(
                            #[trigger] self.entries@[a],
                            #[trigger] self.entries@[b],
                        ),
                    forall|b: int| j < b <= i ==> slot_le(self.entries@[j as int], #[trigger] self.entries@[b]),
                    self.entries@.to_multiset() == pre.to_multiset(),
                    slots_sorted(pre, 0, MAX_REGIONS as int) ==> self.entries@ == pre && j == i,
                decreases j,
            {
                let x = self.entries[j];
                let y = self.entries[j - 1];
                proof {
                    broadcast use group_to_multiset_ensures, group_multiset_axioms;

                    let s = self.entries@;
                    assert(s.update(j - 1, x).update(j as int, y).to_multiset() =~= s.to_multiset());
                }
                self.entries[j - 1] = x;
                self.entries[j] = y;
                j = j - 1;
            }
            i = i + 1;
        }
        let ghost sorted = self.entries@;
        let mut k: usize = 0;
        while k < MAX_REGIONS && self.entries[k].len != 0
            invariant
                self.entries@ == sorted,
                slots_sorted(pre, 0, MAX_REGIONS as int) ==> sorted == pre,
                0 <= k <= MAX_REGIONS,
                self.next_entry_index == n,
                forall|a: int| 0 <= a < k ==> #[trigger] self.entries@[a].len > 0,
            decreases MAX_REGIONS - k,
        {
            k = k + 1;
        }
        self.next_entry_index = k as u64;
        proof {
            let post = self.entries@;
            assert forall|b: int| k <= b < MAX_REGIONS implies #[trigger] post[b].len == 0 by {
                if b > k {
                    assert(slot_le(post[k as int], post[b]));
                }
            }
            lemma_sorted_slots_keep_in_use(pre, post, n, k as int);
            if ascending_in_use(old(self)@) {
                assert forall|a: int, b: int| 0 <= a < b < MAX_REGIONS implies slot_le(
                    #[trigger] pre[a],
                    #[trigger] pre[b],
                ) by {
                    if b < n {
                        assert(pre[a] == old(self)@[a]);
                        assert(pre[b] == old(self)@[b]);
                    }
                }
                assert(post == pre);
                if k < n {
                    assert(old(self)@[k as int] == pre[k as int]);
                    assert(old(self)@[k as int].len > 0);
                    assert(post[k as int].len == 0);
                }
                if k > n {
                    assert(post[n].len > 0);
                    assert(old(self).entries@[n].len == 0);
                }
                assert(k == n);
                assert(self@ =~= old(self)@);
            }
        }
    }
}

/// Appending regions one by one to an empty map, up to its capacity, gives a view that holds
/// exactly those regions in the order of appending: `views[i]` is the view after `i` appends.
pub proof fn lemma_appends_keep_order(regions: Seq<MemoryRegion>, views: Seq<Seq<MemoryRegion>>)
    requires
        regions.len() <= MAX_REGIONS,
        views.len() == regions.len() + 1,
        views[0] == Seq::<MemoryRegion>::empty(),
        forall|i: int| 0 <= i < regions.len() ==> #[trigger] views[i + 1] == views[i].push(regions[i]),
    ensures
        views[regions.len() as int] == regions,
        views[regions.len() as int].len() == regions.len(),
    decreases regions.len(),
{
    if regions.len() > 0 {
        let n = regions.len() - 1;
        lemma_appends_keep_order(regions.subrange(0, n), views.subrange(0, n + 1));
        assert(views[n + 1] == views[n].push(regions[n]));
        assert(regions =~= regions.subrange(0, n).push(regions[n]));
    } else {
        assert(regions =~= Seq::<MemoryRegion>::empty());
    }
}

/// Normalizing twice in a row leaves the same view both times.
pub proof fn lemma_normalize_idempotent(v0: Seq<MemoryRegion>, v1: Seq<MemoryRegion>, v2: Seq<MemoryRegion>)
    requires
        normalizes_to(v0, v1),
        normalizes_to(v1, v2),
    ensures
        v2 == v1,
{
}

/// After normalization the view holds as many regions as the earlier view held regions in use.
pub proof fn lemma_normalized_len(pre: Seq<MemoryRegion>, post: Seq<MemoryRegion>)
    requires
        normalizes_to(pre, post),
    ensures
        post.len() == in_use(pre).len(),
{
    broadcast use group_to_multiset_ensures;

    assert(post.to_multiset().len() == in_use(pre).to_multiset().len());
}

/// After normalization no empty region is left in the view, whatever the slots held before.
pub proof fn lemma_normalized_excludes_empty(pre: Seq<MemoryRegion>, post: Seq<MemoryRegion>, r: MemoryRegion)
    requires
        normalizes_to(pre, post),
        r.len == 0,
    ensures
        !post.contains(r),
{
}

impl core::ops::Deref for MemoryMap {
    type Target = [MemoryRegion];

    /// The regions in use.
    fn deref(&self) -> (r: &[MemoryRegion])
        ensures
            self.well_formed() ==> r@ == self@,
    {
        let n = if self.next_entry_index <= MAX_REGIONS as u64 { self.next_entry_index as usize } else { MAX_REGIONS };
        &self.entries.as_slice()[0..n]
    }
}

impl core::ops::DerefMut for MemoryMap {
    /// The regions in use, editable one by one but not in number.
    fn deref_mut(&mut self) -> (r: &mut [MemoryRegion])
        ensures
            old(self).well_formed() ==> {
                &&& r@ == old(self)@
                &&& final(self).slots() == final(r)@ + old(self).slots().subrange(old(self)@.len() as int, MAX_REGIONS as int)
                &&& final(self)@ =~= final(r)@
                &&& final(self).well_formed()
            },
    {
        let n = if self.next_entry_index <= MAX_REGIONS as u64 { self.next_entry_index as usize } else { MAX_REGIONS };
        let all: &mut [MemoryRegion] = &mut self.entries;
        let (used, rest) = all.split_at_mut(n);
        used
    }
}

} // verus!
