//! ATA drive facts from `IDENTIFY DEVICE` data and the byte order of PIO
//! transfers. The port I/O is done by the kernel's driver.
use vstd::prelude::*;

verus! {

/// Bytes per sector.
pub const SECTOR: usize = 512;

/// What `IDENTIFY DEVICE` tells us about a drive.
#[derive(Clone, Copy)]
pub struct DiskInfo {
    /// ATA model string (ASCII, space-padded; `model_len` trims trailing spaces).
    pub model: [u8; 40],
    pub model_len: usize,
    /// Total addressable 512-byte sectors.
    pub sectors: u64,
    /// True when the drive reports a non-rotating medium (rotation rate == 1).
    pub ssd: bool,
    /// Nominal rotation rate in RPM, or 0 when not reported / SSD.
    pub rpm: u16,
}

/// Byte `k` of the model string: words 27..=46, high byte first.
pub open spec fn model_byte(id: Seq<u16>, k: int) -> u8 {
    let w = id[27 + k / 2];
    if k % 2 == 0 { (w / 256) as u8 } else { (w % 256) as u8 }
}

/// Length of `s` once trailing spaces and NULs are dropped.
pub open spec fn trimmed_len(s: Seq<u8>) -> nat
    decreases s.len(),
{
    if s.len() == 0 {
        0
    } else if s.last() == 0x20 || s.last() == 0 {
        trimmed_len(s.drop_last())
    } else {
        s.len()
    }
}

/// The 48-bit sector count (words 100..=103) when present, else the 28-bit
/// one (words 60/61).
pub open spec fn sectors_spec(id: Seq<u16>) -> int {
    let lba48 = id[100] + id[101] * 0x10000 + id[102] * 0x1_0000_0000 + id[103] * 0x1_0000_0000_0000;
    let lba28 = id[60] + id[61] * 0x10000;
    if lba48 != 0 { lba48 } else { lba28 }
}

/// Rotation rate in RPM from word 217: reported only for 0x0401..=0xFFFE.
pub open spec fn rpm_spec(rot: u16) -> u16 {
    if 0x0401 <= rot <= 0xFFFE { rot } else { 0 }
}

proof fn lemma_join4(a: u16, b: u16, c: u16, d: u16)
    ensures
        ((a as u64) | ((b as u64) << 16u64) | ((c as u64) << 32u64) | ((d as u64) << 48u64)) as int == a + b
            * 0x10000 + c * 0x1_0000_0000 + d * 0x1_0000_0000_0000,
        ((a as u64) | ((b as u64) << 16u64)) as int == a + b * 0x10000,
{
    assert(((a as u64) | ((b as u64) << 16u64) | ((c as u64) << 32u64) | ((d as u64) << 48u64)) == (a as u64) + (
    b as u64) * 0x10000u64 + (c as u64) * 0x1_0000_0000u64 + (d as u64) * 0x1_0000_0000_0000u64) by (bit_vector);
    assert(((a as u64) | ((b as u64) << 16u64)) == (a as u64) + (b as u64) * 0x10000u64) by (bit_vector);
}

/// Parse `IDENTIFY DEVICE` data into the drive's model, size and medium.
pub fn parse_identify(id: &[u16; 256]) -> (d: DiskInfo)
    ensures
        forall|k: int| 0 <= k < 40 ==> d.model@[k] == model_byte(id@, k),
        d.model_len == trimmed_len(d.model@),
        d.sectors == sectors_spec(id@),
        d.ssd == (id@[217] == 1),
        d.rpm == rpm_spec(id@[217]),
{
    let mut model: [u8; 40] = [0x20; 40];
    let mut i: usize = 0;
    while i < 20
        invariant
            i <= 20,
            model@.len() == 40,
            forall|k: int| 0 <= k < 2 * i ==> model@[k] == model_byte(id@, k),
        decreases 20 - i,
    {
        let w = id[27 + i];
        assert((w >> 8u16) == w / 256) by (bit_vector);
        assert((w & 0xFFu16) == w % 256) by (bit_vector);
        model[i * 2] = (w >> 8) as u8;
        model[i * 2 + 1] = (w & 0xFF) as u8;
        i += 1;
    }
    let mut n: usize = 40;
    assert(model@.subrange(0, 40) =~= model@);
    while n > 0 && (model[n - 1] == 0x20 || model[n - 1] == 0)
        invariant
            n <= 40,
            model@.len() == 40,
            trimmed_len(model@) == trimmed_len(model@.subrange(0, n as int)),
        decreases n,
    {
        assert(model@.subrange(0, n as int).drop_last() =~= model@.subrange(0, n - 1));
        n -= 1;
    }
    assert(n > 0 ==> model@.subrange(0, n as int).last() == model@[n - 1]);
    proof {
        lemma_join4(id@[100], id@[101], id@[102], id@[103]);
        lemma_join4(id@[60], id@[61], 0, 0);
    }
    let lba48 = (id[100] as u64) | ((id[101] as u64) << 16u64) | ((id[102] as u64) << 32u64) | ((id[103] as u64)
        << 48u64);
    let lba28 = (id[60] as u64) | ((id[61] as u64) << 16u64);
    let sectors = if lba48 != 0 { lba48 } else { lba28 };
    let rot = id[217];
    let ssd = rot == 1;
    let rpm = if 0x0401 <= rot && rot <= 0xFFFE { rot } else { 0 };
    assert(model@.subrange(0, 40) =~= model@);
    DiskInfo { model, model_len: n, sectors, ssd, rpm }
}

impl DiskInfo {
    /// Capacity in whole mebibytes.
    pub fn mib(&self) -> (m: u64)
        requires
            self.sectors <= u64::MAX / 512,
        ensures
            m == self.sectors * 512 / 1048576int,
    {
        self.sectors * (SECTOR as u64) / (1024 * 1024)
    }

    /// The drive's class for the boot log: solid state, spinning (a known
    /// rotation rate) or undetermined.
    pub fn kind_label(&self) -> (s: &'static str)
        ensures
            s@ == (if self.ssd {
                "SSD"@
            } else if self.rpm > 0 {
                "HD"@
            } else {
                "HD/desconhecido"@
            }),
    {
        if self.ssd {
            "SSD"
        } else if self.rpm > 0 {
            "HD"
        } else {
            "HD/desconhecido"
        }
    }
}

/// How many sectors a transfer buffer of `len` bytes spans, when a single
/// PIO command can move it (1 to 255 whole sectors).
pub fn image_sectors(len: usize) -> (r: Option<u8>)
    ensures
        r == (if len / 512 == 0 || len / 512 > 255 { None } else { Some((len / 512) as u8) }),
{
    let sectors = len / SECTOR;
    if sectors == 0 || sectors > 255 {
        None
    } else {
        Some(sectors as u8)
    }
}

/// The two bytes of a data-port word as they lie in memory: low byte first.
pub fn word_to_bytes(w: u16) -> (b: (u8, u8))
    ensures
        b.0 == w % 256,
        b.1 == w / 256,
{
    assert((w & 0xFFu16) == w % 256) by (bit_vector);
    assert((w >> 8u16) == w / 256) by (bit_vector);
    ((w & 0xFF) as u8, (w >> 8) as u8)
}

/// The data-port word holding bytes `lo`, `hi` of memory.
pub fn bytes_to_word(lo: u8, hi: u8) -> (w: u16)
    ensures
        w == lo + hi * 256,
{
    assert(((lo as u16) | ((hi as u16) << 8u16)) == (lo as u16) + (hi as u16) * 256) by (bit_vector);
    (lo as u16) | ((hi as u16) << 8u16)
}

/// Writing a buffer out and reading it back gives the same bytes: the two
/// byte orders are inverse.
pub proof fn lemma_word_bytes_roundtrip(lo: u8, hi: u8)
    ensures
        ((lo + hi * 256) % 256) == lo,
        ((lo + hi * 256) / 256) == hi,
{
}

// ---- IDENTIFY handshake ----

/// Status register: the drive is busy.
pub const SR_BSY: u8 = 0x80;
/// Status register: the drive has data to transfer.
pub const SR_DRQ: u8 = 0x08;
/// Status register: the last command failed.
pub const SR_ERR: u8 = 0x01;
/// Status reads allowed for each wait.
pub const SPIN: u32 = 1_000_000;

/// Where an IDENTIFY of one drive stands; each wait counts the status reads
/// it has made.
#[derive(Clone, Copy, PartialEq, Eq, Debug, Structural)]
pub enum IdPhase {
    /// Waiting for the channel to be idle before selecting the drive.
    Idle(u32),
    /// The command was issued; the next status says whether a drive is there.
    Issued,
    /// Waiting for the drive to finish the command.
    Busy(u32),
    /// Checking the low signature byte (non-zero: a packet device).
    SigLow,
    /// Checking the high signature byte.
    SigHigh,
    /// Waiting for the identify data.
    Drq(u32),
}

/// What the port side does next, then reports the byte it read.
#[derive(Clone, Copy, PartialEq, Eq, Debug, Structural)]
pub enum IdAction {
    /// Read the status register.
    ReadStatus,
    /// Select the drive, zero the count and address registers, issue
    /// IDENTIFY, then read the status register.
    Issue,
    /// Read the low signature byte.
    ReadSigLow,
    /// Read the high signature byte.
    ReadSigHigh,
    /// Read the 256 identify words: the drive is an ATA disk.
    ReadData,
    /// Stop: no ATA disk answers here.
    Absent,
}

/// Where a wait on `s` goes: on when the drive is ready, to `Absent` on a
/// floating bus or when the budget is spent, else one more read.
pub open spec fn wait_next(p: IdPhase, n: u32, s: u8, ready: (IdPhase, IdAction), again: IdPhase) -> (IdPhase, IdAction) {
    if s == 0xFF {
        (p, IdAction::Absent)
    } else if s & SR_BSY == 0 {
        ready
    } else if n + 1 < SPIN {
        (again, IdAction::ReadStatus)
    } else {
        (p, IdAction::Absent)
    }
}

/// One step of the IDENTIFY handshake: the phase and the byte just read give
/// the next phase and what to do.
pub open spec fn id_step_spec(p: IdPhase, b: u8) -> (IdPhase, IdAction) {
    match p {
        IdPhase::Idle(n) => wait_next(p, n, b, (IdPhase::Issued, IdAction::Issue), IdPhase::Idle((n + 1) as u32)),
        IdPhase::Issued => if b == 0 {
            (p, IdAction::Absent)
        } else {
            (IdPhase::Busy(0), IdAction::ReadStatus)
        },
        IdPhase::Busy(n) => wait_next(p, n, b, (IdPhase::SigLow, IdAction::ReadSigLow), IdPhase::Busy((n + 1) as u32)),
        IdPhase::SigLow => if b != 0 {
            (p, IdAction::Absent)
        } else {
            (IdPhase::SigHigh, IdAction::ReadSigHigh)
        },
        IdPhase::SigHigh => if b != 0 {
            (p, IdAction::Absent)
        } else {
            (IdPhase::Drq(0), IdAction::ReadStatus)
        },
        IdPhase::Drq(n) => if b & SR_ERR != 0 || b == 0xFF {
            (p, IdAction::Absent)
        } else if b & SR_DRQ != 0 {
            (p, IdAction::ReadData)
        } else if n + 1 < SPIN {
            (IdPhase::Drq((n + 1) as u32), IdAction::ReadStatus)
        } else {
            (p, IdAction::Absent)
        },
    }
}

/// The handshake's first phase and action: read the status of an idle channel.
pub fn id_start() -> (r: (IdPhase, IdAction))
    ensures
        r == (IdPhase::Idle(0), IdAction::ReadStatus),
{
    (IdPhase::Idle(0), IdAction::ReadStatus)
}

/// One step of the IDENTIFY handshake on the byte `b` just read.
pub fn id_step(p: IdPhase, b: u8) -> (r: (IdPhase, IdAction))
    requires
        p matches IdPhase::Idle(n) ==> n < SPIN,
        p matches IdPhase::Busy(n) ==> n < SPIN,
        p matches IdPhase::Drq(n) ==> n < SPIN,
    ensures
        r == id_step_spec(p, b),
        r.0 matches IdPhase::Idle(n) ==> n < SPIN,
        r.0 matches IdPhase::Busy(n) ==> n < SPIN,
        r.0 matches IdPhase::Drq(n) ==> n < SPIN,
{
    match p {
        IdPhase::Idle(n) => {
            if b == 0xFF {
                (p, IdAction::Absent)
            } else if b & SR_BSY == 0 {
                (IdPhase::Issued, IdAction::Issue)
            } else if n + 1 < SPIN {
                (IdPhase::Idle(n + 1), IdAction::ReadStatus)
            } else {
                (p, IdAction::Absent)
            }
        },
        IdPhase::Issued => {
            if b == 0 {
                (p, IdAction::Absent)
            } else {
                (IdPhase::Busy(0), IdAction::ReadStatus)
            }
        },
        IdPhase::Busy(n) => {
            if b == 0xFF {
                (p, IdAction::Absent)
            } else if b & SR_BSY == 0 {
                (IdPhase::SigLow, IdAction::ReadSigLow)
            } else if n + 1 < SPIN {
                (IdPhase::Busy(n + 1), IdAction::ReadStatus)
            } else {
                (p, IdAction::Absent)
            }
        },
        IdPhase::SigLow => {
            if b != 0 {
                (p, IdAction::Absent)
            } else {
                (IdPhase::SigHigh, IdAction::ReadSigHigh)
            }
        },
        IdPhase::SigHigh => {
            if b != 0 {
                (p, IdAction::Absent)
            } else {
                (IdPhase::Drq(0), IdAction::ReadStatus)
            }
        },
        IdPhase::Drq(n) => {
            if b & SR_ERR != 0 || b == 0xFF {
                (p, IdAction::Absent)
            } else if b & SR_DRQ != 0 {
                (p, IdAction::ReadData)
            } else if n + 1 < SPIN {
                (IdPhase::Drq(n + 1), IdAction::ReadStatus)
            } else {
                (p, IdAction::Absent)
            }
        },
    }
}

// ---- whole-image transfers ----

/// Where a transfer of `sectors` sectors from or to LBA 0 stands; each wait
/// counts the status reads it has made.
#[derive(Clone, Copy, PartialEq, Eq, Debug, Structural)]
pub enum XferPhase {
    /// Waiting for the drive to be idle before the command is programmed.
    Idle(u32),
    /// Waiting for the drive to ask for sector `s`.
    Drq(u8, u32),
    /// After the last written sector, waiting for the drive before the flush.
    Settle(u32),
    /// Waiting for the cache flush to finish.
    Flushing(u32),
}

/// What the port side does next; all but `Done` and `Finish` end with a
/// status read whose byte comes back.
#[derive(Clone, Copy, PartialEq, Eq, Debug, Structural)]
pub enum XferAction {
    /// Read the status register.
    ReadStatus,
    /// Select the drive, program LBA 0 and the sector count, issue the read
    /// or write command, then read the status register.
    Start,
    /// Move sector `s` through the data port, then read the status register.
    Move(u8),
    /// Move sector `s`, the last one read, and stop: the image is in.
    Finish(u8),
    /// Issue the cache flush, then read the status register.
    Flush,
    /// Stop, with whether the transfer succeeded.
    Done(bool),
}

/// A wait for the busy bit on status `b`: `ready` once it clears, a failure
/// on a floating bus or when the budget is spent, else one more read.
pub open spec fn busy_next(n: u32, b: u8, ready: (XferPhase, XferAction), again: XferPhase) -> (XferPhase, XferAction) {
    if b == 0xFF {
        (again, XferAction::Done(false))
    } else if b & SR_BSY == 0 {
        ready
    } else if n + 1 < SPIN {
        (again, XferAction::ReadStatus)
    } else {
        (again, XferAction::Done(false))
    }
}

/// One step of a transfer of `sectors` sectors (`write` for a write followed
/// by a cache flush): the phase and the status byte just read give the next
/// phase and what to do.
pub open spec fn xfer_step_spec(p: XferPhase, write: bool, sectors: u8, b: u8) -> (XferPhase, XferAction) {
    match p {
        XferPhase::Idle(n) => busy_next(n, b, (XferPhase::Drq(0, 0), XferAction::Start), if n + 1 < SPIN {
            XferPhase::Idle((n + 1) as u32)
        } else {
            p
        }),
        XferPhase::Drq(s, n) => if b == 0xFF || b & SR_ERR != 0 {
            (p, XferAction::Done(false))
        } else if b & SR_BSY == 0 && b & SR_DRQ != 0 {
            if s + 1 < sectors {
                (XferPhase::Drq((s + 1) as u8, 0), XferAction::Move(s))
            } else if write {
                (XferPhase::Settle(0), XferAction::Move(s))
            } else {
                (p, XferAction::Finish(s))
            }
        } else if n + 1 < SPIN {
            (XferPhase::Drq(s, (n + 1) as u32), XferAction::ReadStatus)
        } else {
            (p, XferAction::Done(false))
        },
        XferPhase::Settle(n) => busy_next(n, b, (XferPhase::Flushing(0), XferAction::Flush), if n + 1 < SPIN {
            XferPhase::Settle((n + 1) as u32)
        } else {
            p
        }),
        XferPhase::Flushing(n) => busy_next(n, b, (p, XferAction::Done(true)), if n + 1 < SPIN {
            XferPhase::Flushing((n + 1) as u32)
        } else {
            p
        }),
    }
}

/// The phase's wait counter is within the budget and its sector within the
/// transfer.
pub open spec fn xfer_ok(p: XferPhase, sectors: u8) -> bool {
    match p {
        XferPhase::Idle(n) => n < SPIN,
        XferPhase::Drq(s, n) => s < sectors && n < SPIN,
        XferPhase::Settle(n) => n < SPIN,
        XferPhase::Flushing(n) => n < SPIN,
    }
}

/// A transfer starts by reading the status of the idle drive.
pub fn xfer_start() -> (r: (XferPhase, XferAction))
    ensures
        r == (XferPhase::Idle(0), XferAction::ReadStatus),
{
    (XferPhase::Idle(0), XferAction::ReadStatus)
}

fn busy_step(n: u32, b: u8, ready: (XferPhase, XferAction), again: XferPhase) -> (r: (XferPhase, XferAction))
    ensures
        r == busy_next(n, b, ready, again),
{
    if b == 0xFF {
        (again, XferAction::Done(false))
    } else if b & SR_BSY == 0 {
        ready
    } else if n < SPIN - 1 {
        (again, XferAction::ReadStatus)
    } else {
        (again, XferAction::Done(false))
    }
}

/// One step of a transfer on the status byte `b` just read.
pub fn xfer_step(p: XferPhase, write: bool, sectors: u8, b: u8) -> (r: (XferPhase, XferAction))
    requires
        1 <= sectors,
        xfer_ok(p, sectors),
    ensures
        r == xfer_step_spec(p, write, sectors, b),
        xfer_ok(r.0, sectors),
{
    match p {
        XferPhase::Idle(n) => busy_step(n, b, (XferPhase::Drq(0, 0), XferAction::Start), if n + 1 < SPIN {
            XferPhase::Idle(n + 1)
        } else {
            p
        }),
        XferPhase::Drq(s, n) => {
            if b == 0xFF || b & SR_ERR != 0 {
                (p, XferAction::Done(false))
            } else if b & SR_BSY == 0 && b & SR_DRQ != 0 {
                if s + 1 < sectors {
                    (XferPhase::Drq(s + 1, 0), XferAction::Move(s))
                } else if write {
                    (XferPhase::Settle(0), XferAction::Move(s))
                } else {
                    (p, XferAction::Finish(s))
                }
            } else if n + 1 < SPIN {
                (XferPhase::Drq(s, n + 1), XferAction::ReadStatus)
            } else {
                (p, XferAction::Done(false))
            }
        },
        XferPhase::Settle(n) => busy_step(n, b, (XferPhase::Flushing(0), XferAction::Flush), if n + 1 < SPIN {
            XferPhase::Settle(n + 1)
        } else {
            p
        }),
        XferPhase::Flushing(n) => busy_step(n, b, (p, XferAction::Done(true)), if n + 1 < SPIN {
            XferPhase::Flushing(n + 1)
        } else {
            p
        }),
    }
}

} // verus!
