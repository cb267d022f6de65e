//! virtio 1.0 modern PCI transport, discovery half: where a device's config
//! structures live. A virtio device advertises them through vendor-specific
//! PCI capabilities (`virtio_pci_cap`), each naming a BAR and an offset for
//! the common config, the notify region, the ISR byte and the device config.
//! The kernel reads the configuration space; this module walks it.
use vstd::prelude::*;

verus! {

/// Capability id of a vendor-specific capability carrying virtio config.
pub const VIRTIO_PCI_CAP: u32 = 0x09;

/// `cfg_type` values inside a virtio_pci_cap.
pub const CFG_COMMON: u32 = 1;
pub const CFG_NOTIFY: u32 = 2;
pub const CFG_ISR: u32 = 3;
pub const CFG_DEVICE: u32 = 4;

/// Capability lists are short; the walk is bounded to survive a corrupt loop.
pub const MAX_CAPS: u32 = 48;

/// Dwords in a PCI function's configuration space.
pub const CONFIG_DWORDS: usize = 64;

/// Location of one virtio config structure: which BAR, and the offset and
/// length within it.
#[derive(Clone, Copy, PartialEq, Eq, Debug, Structural)]
pub struct CapLoc {
    pub bar: u8,
    pub offset: u32,
    pub length: u32,
}

impl CapLoc {
    pub open spec fn none() -> CapLoc {
        CapLoc { bar: 0, offset: 0, length: 0 }
    }

    /// Whether this config structure was advertised.
    pub fn present(&self) -> (b: bool)
        ensures
            b == (self.length != 0),
    {
        self.length != 0
    }
}

impl Default for CapLoc {
    fn default() -> (c: Self)
        ensures
            c == CapLoc::none(),
    {
        CapLoc { bar: 0, offset: 0, length: 0 }
    }
}

/// The four virtio config structures plus the notify offset multiplier.
#[derive(Clone, Copy, PartialEq, Eq, Debug, Structural)]
pub struct VirtioCaps {
    pub common: CapLoc,
    pub notify: CapLoc,
    pub notify_off_mul: u32,
    pub isr: CapLoc,
    pub device: CapLoc,
}

impl VirtioCaps {
    pub open spec fn none() -> VirtioCaps {
        VirtioCaps {
            common: CapLoc::none(),
            notify: CapLoc::none(),
            notify_off_mul: 0,
            isr: CapLoc::none(),
            device: CapLoc::none(),
        }
    }
}

impl Default for VirtioCaps {
    fn default() -> (c: Self)
        ensures
            c == VirtioCaps::none(),
    {
        VirtioCaps {
            common: CapLoc::default(),
            notify: CapLoc::default(),
            notify_off_mul: 0,
            isr: CapLoc::default(),
            device: CapLoc::default(),
        }
    }
}

/// A memory BAR whose type bits (2:1) say 64-bit takes the next BAR slot as
/// its high half.
pub open spec fn is_64bit_spec(lo: u32) -> bool {
    (lo / 2) % 4 == 2
}

pub fn bar_is_64bit(lo: u32) -> (b: bool)
    ensures
        b == is_64bit_spec(lo),
{
    assert((lo & 0b110 == 0b100) == ((lo / 2) % 4 == 2)) by (bit_vector);
    lo & 0b110 == 0b100
}

/// Physical base address of a BAR from its raw value `lo` and, for a 64-bit
/// BAR, the next slot's value `hi`: the flag bits (3:0) are cleared.
pub fn bar_base(lo: u32, hi: u32) -> (a: u64)
    ensures
        a == (if is_64bit_spec(lo) {
            hi as int * 0x1_0000_0000 + lo / 16 * 16
        } else {
            lo / 16 * 16
        }),
{
    let low = (lo & !0xFu32) as u64;
    assert(lo & !0xFu32 == lo / 16 * 16) by (bit_vector);
    if bar_is_64bit(lo) {
        let h = hi as u64;
        assert((h << 32u64) | low == h * 0x1_0000_0000 + low) by (bit_vector)
            requires
                h < 0x1_0000_0000,
                low < 0x1_0000_0000,
        ;
        (h << 32u64) | low
    } else {
        low
    }
}

/// The config-space dword holding byte offset `off`.
pub open spec fn cfg(config: Seq<u32>, off: int) -> u32 {
    config[(off % 256) / 4]
}

/// The location a virtio capability at `off` describes.
pub open spec fn loc_at(config: Seq<u32>, off: int) -> CapLoc {
    CapLoc {
        bar: (cfg(config, off + 4) % 256) as u8,
        offset: cfg(config, off + 8),
        length: cfg(config, off + 12),
    }
}

/// Record the virtio capability at `off` whose header dword is `w0`; the
/// flag says whether a common config was seen.
pub open spec fn record_cap(config: Seq<u32>, off: int, w0: u32, caps: VirtioCaps, have: bool) -> (VirtioCaps, bool) {
    let loc = loc_at(config, off);
    let t = w0 / 0x100_0000;
    if t == CFG_COMMON {
        (VirtioCaps { common: loc, ..caps }, true)
    } else if t == CFG_NOTIFY {
        (VirtioCaps { notify: loc, notify_off_mul: cfg(config, off + 16), ..caps }, have)
    } else if t == CFG_ISR {
        (VirtioCaps { isr: loc, ..caps }, have)
    } else if t == CFG_DEVICE {
        (VirtioCaps { device: loc, ..caps }, have)
    } else {
        (caps, have)
    }
}

/// Walk at most `fuel` capabilities from offset `off` (0 ends the list),
/// recording the virtio ones. Offsets past the end of the 256-byte space
/// wrap around, as byte offsets do.
pub open spec fn walk_caps(config: Seq<u32>, off: u8, fuel: nat, caps: VirtioCaps, have: bool) -> (VirtioCaps, bool)
    decreases fuel,
{
    if fuel == 0 || off == 0 {
        (caps, have)
    } else {
        let w0 = cfg(config, off as int);
        let next = ((w0 / 0x100) % 256) / 4 * 4;
        let (c, h) = if w0 % 256 == VIRTIO_PCI_CAP {
            record_cap(config, off as int, w0, caps, have)
        } else {
            (caps, have)
        };
        walk_caps(config, next as u8, (fuel - 1) as nat, c, h)
    }
}

/// The virtio config locations of a device, given the start of its
/// capability list (`None`: the device has none) and its configuration space
/// as dwords. `None` unless a common-config capability is present.
pub open spec fn discover_spec(start: Option<u8>, config: Seq<u32>) -> Option<VirtioCaps> {
    match start {
        None => None,
        Some(off) => {
            let (caps, have) = walk_caps(config, off, MAX_CAPS as nat, VirtioCaps::none(), false);
            if have {
                Some(caps)
            } else {
                None
            }
        },
    }
}

/// The config dword holding byte offset `off` (wrapping past 255).
fn read_cfg(config: &[u32], off: u8, add: u8) -> (w: u32)
    requires
        config@.len() == CONFIG_DWORDS,
    ensures
        w == cfg(config@, off + add),
{
    let o = off.wrapping_add(add);
    assert(o as int == (off + add) % 256);
    config[(o / 4) as usize]
}

pub fn discover(start: Option<u8>, config: &[u32]) -> (r: Option<VirtioCaps>)
    requires
        config@.len() == CONFIG_DWORDS,
    ensures
        r == discover_spec(start, config@),
{
    let mut off = match start {
        Some(o) => o,
        None => return None,
    };
    let mut caps = VirtioCaps::default();
    let mut have_common = false;
    let mut n: u32 = 0;
    while n < MAX_CAPS && off != 0
        invariant
            config@.len() == CONFIG_DWORDS,
            n <= MAX_CAPS,
            walk_caps(config@, off, (MAX_CAPS - n) as nat, caps, have_common) == walk_caps(
                config@,
                start.unwrap(),
                MAX_CAPS as nat,
                VirtioCaps::none(),
                false,
            ),
            start is Some,
        decreases MAX_CAPS - n,
    {
        let w0 = read_cfg(config, off, 0);
        let id = w0 & 0xFF;
        let next = (((w0 >> 8u32) & 0xFF) & 0xFC) as u8;
        assert(id == w0 % 256) by (bit_vector)
            requires
                id == w0 & 0xFF,
        ;
        assert(((w0 >> 8u32) & 0xFF) & 0xFC == ((w0 / 0x100) % 256) / 4 * 4) by (bit_vector);
        if id == VIRTIO_PCI_CAP {
            assert(w0 >> 24u32 == w0 / 0x100_0000) by (bit_vector);
            let cfg_type = w0 >> 24u32;
            let loc = CapLoc {
                bar: (read_cfg(config, off, 4) & 0xFF) as u8,
                offset: read_cfg(config, off, 8),
                length: read_cfg(config, off, 12),
            };
            proof {
                let b = cfg(config@, off + 4);
                assert(b & 0xFF == b % 256) by (bit_vector);
            }
            if cfg_type == CFG_COMMON {
                caps.common = loc;
                have_common = true;
            } else if cfg_type == CFG_NOTIFY {
                caps.notify = loc;
                caps.notify_off_mul = read_cfg(config, off, 16);
            } else if cfg_type == CFG_ISR {
                caps.isr = loc;
            } else if cfg_type == CFG_DEVICE {
                caps.device = loc;
            }
        }
        off = next;
        n += 1;
    }
    if have_common {
        Some(caps)
    } else {
        None
    }
}

} // verus!
