//! PCI configuration-space addressing (legacy mechanism #1) and device
//! selection. The port reads themselves happen in the kernel; this module
//! forms the addresses, picks words out of dwords and chooses devices.
use vstd::prelude::*;

verus! {

/// virtio PCI vendor id, and the modern/transitional virtio-gpu device ids.
pub const VIRTIO_VENDOR: u16 = 0x1AF4;
pub const VIRTIO_GPU_MODERN: u16 = 0x1050;
pub const VIRTIO_GPU_LEGACY: u16 = 0x1010;

/// A located PCI function.
#[derive(Clone, Copy, PartialEq, Eq, Debug, Structural)]
pub struct PciDevice {
    pub bus: u8,
    pub slot: u8,
    pub func: u8,
    pub vendor: u16,
    pub device: u16,
}

/// The CONFIG_ADDRESS value selecting dword `offset` of `bus:slot.func`:
/// the enable bit, then bus, slot and function fields and the dword-aligned
/// register offset.
pub open spec fn address_spec(bus: u8, slot: u8, func: u8, offset: u8) -> u32 {
    0x8000_0000u32 | ((bus as u32) << 16u32) | ((slot as u32) << 11u32) | ((func as u32) << 8u32) | (
    offset as u32 & 0xFCu32)
}

pub fn address(bus: u8, slot: u8, func: u8, offset: u8) -> (a: u32)
    ensures
        a == address_spec(bus, slot, func, offset),
{
    0x8000_0000u32 | ((bus as u32) << 16u32) | ((slot as u32) << 11u32) | ((func as u32) << 8u32) | (offset as u32
        & 0xFCu32)
}

/// For a slot and function in range, the address is the plain sum of its
/// fields: nothing overlaps.
pub proof fn lemma_address_fields(bus: u8, slot: u8, func: u8, offset: u8)
    requires
        slot < 32,
        func < 8,
    ensures
        address_spec(bus, slot, func, offset) as int == 0x8000_0000 + bus * 0x10000 + slot * 0x800 + func * 0x100
            + (offset / 4) * 4,
{
    let a = address_spec(bus, slot, func, offset);
    assert(a == 0x8000_0000u32 + (bus as u32) * 0x10000u32 + (slot as u32) * 0x800u32 + (func as u32) * 0x100u32
        + ((offset as u32) / 4u32) * 4u32) by (bit_vector)
        requires
            slot < 32,
            func < 8,
            a == address_spec(bus, slot, func, offset),
    ;
}

/// The 16-bit word at byte `offset` within the config dword that holds it.
pub open spec fn word_spec(dword: u32, offset: u8) -> u16 {
    if (offset / 2) % 2 == 1 { (dword / 0x10000) as u16 } else { (dword % 0x10000) as u16 }
}

/// The 16-bit word at byte `offset` of config space, given the dword read at
/// `offset & 0xFC`.
pub fn config_word(dword: u32, offset: u8) -> (w: u16)
    ensures
        w == word_spec(dword, offset),
{
    assert((offset as u32 & 2) <= 2) by (bit_vector);
    let shift = (offset as u32 & 2) * 8;
    assert(shift == 0 || shift == 16) by (bit_vector)
        requires
            shift == (offset as u32 & 2) * 8,
    ;
    assert(((offset as u32 & 2) != 0) == ((offset / 2) % 2 == 1)) by (bit_vector);
    let w = (dword >> shift) & 0xFFFF;
    assert(shift == 16 ==> w == dword / 0x10000) by (bit_vector)
        requires
            w == (dword >> shift) & 0xFFFF,
    ;
    assert(shift == 0 ==> w == dword % 0x10000) by (bit_vector)
        requires
            w == (dword >> shift) & 0xFFFF,
    ;
    w as u16
}

/// Config-space offset of base address register `i`.
pub fn bar_offset(i: u8) -> (o: u8)
    requires
        i < 60,
    ensures
        o == 0x10 + i * 4,
{
    0x10 + i * 4
}

/// The command register with memory-space and bus-master enabled.
pub fn with_bus_master(cmd: u32) -> (c: u32)
    ensures
        c == cmd | 0x0006,
        c & 0x0006 == 0x0006,
        c & !0x0006u32 == cmd & !0x0006u32,
{
    assert((cmd | 0x0006) & 0x0006 == 0x0006) by (bit_vector);
    assert((cmd | 0x0006) & !0x0006u32 == cmd & !0x0006u32) by (bit_vector);
    cmd | 0x0006
}

/// The first capability offset, from the status register and the
/// capability-pointer register: none unless status bit 4 is set; the pointer
/// is dword aligned.
pub fn cap_pointer(status: u16, ptr: u16) -> (r: Option<u8>)
    ensures
        r == (if (status / 16) % 2 == 0 { None } else { Some(((ptr % 256) / 4 * 4) as u8) }),
{
    assert(((status & 0x10) == 0) == ((status / 16) % 2 == 0)) by (bit_vector);
    if status & 0x10 == 0 {
        return None;
    }
    let p = ptr & 0xFC;
    assert(p == (ptr % 256) / 4 * 4) by (bit_vector)
        requires
            p == ptr & 0xFC,
    ;
    Some(p as u8)
}

/// Index of the first device with this vendor and device id.
pub open spec fn first_match(devs: Seq<PciDevice>, vendor: u16, device: u16) -> Option<int>
    decreases devs.len(),
{
    if devs.len() == 0 {
        None
    } else if devs.last().vendor == vendor && devs.last().device == device {
        match first_match(devs.drop_last(), vendor, device) {
            Some(i) => Some(i),
            None => Some(devs.len() - 1),
        }
    } else {
        first_match(devs.drop_last(), vendor, device)
    }
}

proof fn lemma_first_match_step(devs: Seq<PciDevice>, i: int, vendor: u16, device: u16)
    requires
        0 <= i < devs.len(),
        first_match(devs.subrange(0, i), vendor, device) is None,
    ensures
        first_match(devs.subrange(0, i + 1), vendor, device) == if devs[i].vendor == vendor && devs[i].device
            == device {
            Some(i)
        } else {
            None::<int>
        },
{
    assert(devs.subrange(0, i + 1).drop_last() =~= devs.subrange(0, i));
}

/// The first of `devs` (in bus scan order) matching `vendor`/`device`.
pub fn find(devs: &[PciDevice], vendor: u16, device: u16) -> (r: Option<PciDevice>)
    ensures
        match first_match(devs@, vendor, device) {
            Some(i) => r == Some(devs@[i]),
            None => r is None,
        },
{
    let mut i: usize = 0;
    assert(devs@.subrange(0, 0) =~= Seq::<PciDevice>::empty());
    while i < devs.len()
        invariant
            i <= devs@.len(),
            first_match(devs@.subrange(0, i as int), vendor, device) is None,
        decreases devs@.len() - i,
    {
        proof {
            lemma_first_match_step(devs@, i as int, vendor, device);
        }
        if devs[i].vendor == vendor && devs[i].device == device {
            proof {
                lemma_first_match_prefix(devs@, i + 1, vendor, device);
            }
            return Some(devs[i]);
        }
        i += 1;
    }
    assert(devs@.subrange(0, devs@.len() as int) =~= devs@);
    None
}

proof fn lemma_first_match_prefix(devs: Seq<PciDevice>, k: int, vendor: u16, device: u16)
    requires
        0 <= k <= devs.len(),
        first_match(devs.subrange(0, k), vendor, device) is Some,
    ensures
        first_match(devs, vendor, device) == first_match(devs.subrange(0, k), vendor, device),
    decreases devs.len() - k,
{
    if k < devs.len() {
        let p = devs.subrange(0, k + 1);
        assert(p.drop_last() =~= devs.subrange(0, k));
        lemma_first_match_prefix(devs, k + 1, vendor, device);
    } else {
        assert(devs.subrange(0, k) =~= devs);
    }
}

/// The virtio-gpu device among `devs`: a modern one first, else a
/// transitional one.
pub fn find_virtio_gpu(devs: &[PciDevice]) -> (r: Option<PciDevice>)
    ensures
        match first_match(devs@, VIRTIO_VENDOR, VIRTIO_GPU_MODERN) {
            Some(i) => r == Some(devs@[i]),
            None => match first_match(devs@, VIRTIO_VENDOR, VIRTIO_GPU_LEGACY) {
                Some(j) => r == Some(devs@[j]),
                None => r is None,
            },
        },
{
    match find(devs, VIRTIO_VENDOR, VIRTIO_GPU_MODERN) {
        Some(d) => Some(d),
        None => find(devs, VIRTIO_VENDOR, VIRTIO_GPU_LEGACY),
    }
}

} // verus!
