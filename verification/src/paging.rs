//! Address arithmetic of the user page area, the virtual range whose pages the page fault
//! handler maps on demand.
use vstd::prelude::*;
use x86_64::VirtAddr;
use crate::frame_allocator::TOTAL_FRAMES;

verus! {

/// First virtual address of the user area.
pub const USER_AREA_START: u64 = 0x4000_0000_0000;

/// Number of 4 KiB pages in the user area.
pub const USER_AREA_PAGES: usize = 256;

/// Size of the user area in bytes.
pub const USER_AREA_BYTES: u64 = 1048576;

/// Bits 47 to 63 of `addr` are all clear, all set, or only bit 47 is set: the addresses
/// `VirtAddr::new` accepts.
pub open spec fn virt_addr_valid(addr: u64) -> bool {
    addr >> 47u64 == 0 || addr >> 47u64 == 1 || addr >> 47u64 == 0x1ffff
}

/// The canonical form of a valid address: bit 47 copied into bits 48 to 63.
pub open spec fn canonical(addr: u64) -> u64 {
    if addr >> 47u64 == 1 {
        addr | 0xffff_0000_0000_0000u64
    } else {
        addr
    }
}

/// `VirtAddr::new(addr).as_u64()`: a valid address in canonical form (bit 47 is sign
/// extended when bits 48 to 63 are clear and bit 47 is set; the address is kept as it is
/// when bits 47 to 63 are all clear or all set). `VirtAddr::new` panics on other addresses.
#[verifier::external_body]
fn canonical_virt_addr(addr: u64) -> (r: u64)
    requires
        virt_addr_valid(addr),
    ensures
        r == canonical(addr),
{
    VirtAddr::new(addr).as_u64()
}

/// The address lies in the user area.
pub fn is_user_addr(addr: u64) -> (r: bool)
    ensures
        r == (USER_AREA_START <= addr < USER_AREA_START + USER_AREA_BYTES),
{
    addr >= USER_AREA_START && addr < USER_AREA_START + (USER_AREA_PAGES * 4096) as u64
}

/// The user page number of an address at or above the user area's start.
pub fn addr_to_vpage(addr: u64) -> (r: u64)
    requires
        addr >= USER_AREA_START,
    ensures
        r == (addr - USER_AREA_START) / 4096,
{
    (addr - USER_AREA_START) / 4096
}

/// The address of user page `vpage`, in canonical form.
pub fn vpage_to_addr(vpage: u64) -> (r: u64)
    requires
        USER_AREA_START + vpage * 4096 <= u64::MAX,
        virt_addr_valid((USER_AREA_START + vpage * 4096) as u64),
    ensures
        r == canonical((USER_AREA_START + vpage * 4096) as u64),
{
    canonical_virt_addr(USER_AREA_START + vpage * 4096)
}

/// Every page of the user area maps to an address in the area that maps back to the page.
pub proof fn law_vpage_roundtrip(vpage: u64)
    requires
        vpage < USER_AREA_PAGES,
    ensures
        virt_addr_valid((USER_AREA_START + vpage * 4096) as u64),
        canonical((USER_AREA_START + vpage * 4096) as u64) == USER_AREA_START + vpage * 4096,
        USER_AREA_START <= USER_AREA_START + vpage * 4096 < USER_AREA_START + USER_AREA_BYTES,
        ((USER_AREA_START + vpage * 4096 - USER_AREA_START) / 4096) as u64 == vpage,
{
    let a = (USER_AREA_START + vpage * 4096) as u64;
    assert(a >> 47u64 == 0) by (bit_vector)
        requires
            a < 0x8000_0000_0000u64,
    ;
}


/// Which user page each frame of the pool is mapped at, if any.
pub struct FrameVpageMap {
    vpages: Vec<Option<u64>>,
}

impl FrameVpageMap {
    /// The user page recorded for each frame.
    pub closed spec fn view(&self) -> Seq<Option<u64>> {
        self.vpages@
    }

    /// One entry per frame.
    pub closed spec fn wf(&self) -> bool {
        self.vpages@.len() == TOTAL_FRAMES
    }

    /// No frame mapped.
    pub fn new() -> (r: Self)
        ensures
            r.wf(),
            r@ == Seq::new(TOTAL_FRAMES as nat, |i: int| None::<u64>),
    {
        let mut vpages: Vec<Option<u64>> = Vec::new();
        let mut i: usize = 0;
        while i < TOTAL_FRAMES
            invariant
                i <= TOTAL_FRAMES,
                vpages@.len() == i,
                forall|k: int| 0 <= k < i ==> vpages@[k] == None::<u64>,
            decreases TOTAL_FRAMES - i,
        {
            vpages.push(None);
            i = i + 1;
        }
        let r = FrameVpageMap { vpages };
        assert(r@ =~= Seq::new(TOTAL_FRAMES as nat, |i: int| None::<u64>));
        r
    }

    /// Records that `frame` is mapped at user page `vpage`.
    pub fn record(&mut self, frame: usize, vpage: u64)
        requires
            old(self).wf(),
            frame < TOTAL_FRAMES,
        ensures
            final(self).wf(),
            final(self)@ == old(self)@.update(frame as int, Some(vpage)),
    {
        self.vpages.set(frame, Some(vpage));
    }

    /// Records that `frame` is no longer mapped.
    pub fn clear(&mut self, frame: usize)
        requires
            old(self).wf(),
            frame < TOTAL_FRAMES,
        ensures
            final(self).wf(),
            final(self)@ == old(self)@.update(frame as int, None),
    {
        self.vpages.set(frame, None);
    }

    /// The user page that `frame` was last recorded at, if any.
    pub fn frame_to_vpage(&self, frame: usize) -> (r: Option<u64>)
        requires
            self.wf(),
            frame < TOTAL_FRAMES,
        ensures
            r == self@[frame as int],
    {
        self.vpages[frame]
    }
}

} // verus!
