//! Address arithmetic for 4096-byte pages and frames, and the page-table
//! indices that the four-level walk derives from a virtual address.
use vstd::prelude::*;

verus! {

/// One past the largest expressible physical address: the hardware limits
/// physical addresses to 52 bits.
pub const PHYS_ADDR_LIMIT: u64 = 0x10_0000_0000_0000;

/// A virtual address is canonical when bits 48..64 are copies of bit 47,
/// i.e. the address lies in the low or in the high half of the space.
pub open spec fn canonical(addr: u64) -> bool {
    addr < 0x0000_8000_0000_0000 || addr >= 0xffff_8000_0000_0000
}

/// An address on a page (frame) boundary.
pub open spec fn aligned(addr: u64) -> bool {
    addr % 4096 == 0
}

/// A virtual page: canonical and on a page boundary.
pub open spec fn page_valid(page: u64) -> bool {
    canonical(page) && aligned(page)
}

/// The greatest multiple of 4096 at or below `a`.
pub open spec fn align_down_4k(a: int) -> int {
    a / 4096 * 4096
}

/// Bits 39..48 of a virtual address: the slot in the level-4 table.
pub open spec fn l4_index(addr: u64) -> u64 {
    (addr >> 39) & 0x1ff
}

/// Bits 30..39 of a virtual address: the slot in a level-3 table.
pub open spec fn l3_index(addr: u64) -> u64 {
    (addr >> 30) & 0x1ff
}

/// Bits 21..30 of a virtual address: the slot in a level-2 table.
pub open spec fn l2_index(addr: u64) -> u64 {
    (addr >> 21) & 0x1ff
}

/// Bits 12..21 of a virtual address: the slot in a level-1 table.
pub open spec fn l1_index(addr: u64) -> u64 {
    (addr >> 12) & 0x1ff
}

/// Relies on `x86_64::VirtAddr::p4_index`: the 9-bit level-4 table index,
/// bits 39..48 of the address. `VirtAddr::new` accepts every canonical
/// address unchanged.
#[verifier::external_body]
pub(crate) fn p4_index_of(addr: u64) -> (r: usize)
    requires
        canonical(addr),
    ensures
        r < 512,
        r as u64 == l4_index(addr),
{
    usize::from(x86_64::VirtAddr::new(addr).p4_index())
}

/// Relies on `x86_64::VirtAddr::p3_index`: the 9-bit level-3 table index,
/// bits 30..39 of the address.
#[verifier::external_body]
pub(crate) fn p3_index_of(addr: u64) -> (r: usize)
    requires
        canonical(addr),
    ensures
        r < 512,
        r as u64 == l3_index(addr),
{
    usize::from(x86_64::VirtAddr::new(addr).p3_index())
}

/// Relies on `x86_64::VirtAddr::p2_index`: the 9-bit level-2 table index,
/// bits 21..30 of the address.
#[verifier::external_body]
pub(crate) fn p2_index_of(addr: u64) -> (r: usize)
    requires
        canonical(addr),
    ensures
        r < 512,
        r as u64 == l2_index(addr),
{
    usize::from(x86_64::VirtAddr::new(addr).p2_index())
}

/// Relies on `x86_64::VirtAddr::p1_index`: the 9-bit level-1 table index,
/// bits 12..21 of the address.
#[verifier::external_body]
pub(crate) fn p1_index_of(addr: u64) -> (r: usize)
    requires
        canonical(addr),
    ensures
        r < 512,
        r as u64 == l1_index(addr),
{
    usize::from(x86_64::VirtAddr::new(addr).p1_index())
}

/// Relies on `x86_64::structures::paging::PhysFrame::containing_address`:
/// the start of the 4096-byte frame that holds the given physical address,
/// i.e. the address rounded down to a frame boundary. `PhysAddr::new`
/// accepts every address below the 52-bit physical limit.
#[verifier::external_body]
pub(crate) fn frame_containing_address(addr: u64) -> (r: u64)
    requires
        addr < PHYS_ADDR_LIMIT,
    ensures
        r as int == align_down_4k(addr as int),
{
    let frame: x86_64::structures::paging::PhysFrame =
        x86_64::structures::paging::PhysFrame::containing_address(x86_64::PhysAddr::new(addr));
    frame.start_address().as_u64()
}

/// Every table index is a 9-bit value, so it names one of the 512 slots.
pub proof fn lemma_index_bounds(addr: u64)
    ensures
        l4_index(addr) < 512,
        l3_index(addr) < 512,
        l2_index(addr) < 512,
        l1_index(addr) < 512,
{
    assert(((addr >> 39) & 0x1ff) < 512 && ((addr >> 30) & 0x1ff) < 512
        && ((addr >> 21) & 0x1ff) < 512 && ((addr >> 12) & 0x1ff) < 512) by (bit_vector);
}

/// Two valid pages with the same four table indices are the same page: the
/// indices cover bits 12..48, alignment fixes bits 0..12 to zero, and
/// canonicality makes bits 48..64 a function of bit 47.
pub proof fn lemma_page_index_injective(p: u64, q: u64)
    requires
        page_valid(p),
        page_valid(q),
        l4_index(p) == l4_index(q),
        l3_index(p) == l3_index(q),
        l2_index(p) == l2_index(q),
        l1_index(p) == l1_index(q),
    ensures
        p == q,
{
    assert((p % 4096 == 0 && q % 4096 == 0
        && (p < 0x0000_8000_0000_0000 || p >= 0xffff_8000_0000_0000)
        && (q < 0x0000_8000_0000_0000 || q >= 0xffff_8000_0000_0000)
        && ((p >> 39) & 0x1ff) == ((q >> 39) & 0x1ff)
        && ((p >> 30) & 0x1ff) == ((q >> 30) & 0x1ff)
        && ((p >> 21) & 0x1ff) == ((q >> 21) & 0x1ff)
        && ((p >> 12) & 0x1ff) == ((q >> 12) & 0x1ff)) ==> p == q) by (bit_vector);
}

} // verus!
