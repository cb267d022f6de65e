//! NE2000 (DP8390) receive-ring and transmit bookkeeping. The chip keeps
//! received frames in a ring of 256-byte pages; each entry starts with a
//! 4-byte header (status, next page, total length low and high). The kernel
//! moves the bytes over port I/O; this module decides what they mean.
use vstd::prelude::*;

verus! {

/// Transmit buffer page and the receive ring's page range.
pub const TX_PAGE: u8 = 0x40;
pub const RX_START: u8 = 0x46;
pub const RX_STOP: u8 = 0x80;

/// Ethernet frame limits: the minimum a frame is padded to, and the largest
/// frame (without the ring header).
pub const MIN_FRAME: usize = 60;
pub const MAX_FRAME: usize = 1518;

/// Bytes of ring header before each received frame.
pub const RX_HDR: usize = 4;

/// A received frame's place in the ring.
#[derive(Clone, Copy, PartialEq, Eq, Debug, Structural)]
pub struct RxEntry {
    /// Page where the next entry starts.
    pub next_page: u8,
    /// Length of the frame after the header.
    pub data_len: usize,
}

/// A header is sane when its total length covers at least the header and at
/// most a full frame, and its next page lies in the ring.
pub open spec fn rx_entry_spec(hdr: Seq<u8>) -> Option<RxEntry> {
    let total = hdr[2] + hdr[3] * 256;
    if RX_HDR <= total <= MAX_FRAME + RX_HDR && RX_START <= hdr[1] <= RX_STOP {
        Some(RxEntry { next_page: hdr[1], data_len: (total - RX_HDR) as usize })
    } else {
        None
    }
}

/// Decode a ring entry header; `None` for garbage (the caller then drops the
/// ring to resynchronise).
pub fn parse_rx_header(hdr: &[u8]) -> (r: Option<RxEntry>)
    requires
        hdr@.len() == RX_HDR,
    ensures
        r == rx_entry_spec(hdr@),
{
    let total = hdr[2] as usize + hdr[3] as usize * 256;
    if RX_HDR <= total && total <= MAX_FRAME + RX_HDR && RX_START <= hdr[1] && hdr[1] <= RX_STOP {
        Some(RxEntry { next_page: hdr[1], data_len: total - RX_HDR })
    } else {
        None
    }
}

/// The boundary register trails the read pointer by one page, wrapping to
/// the ring's last page.
pub fn boundary(page: u8) -> (b: u8)
    requires
        page >= 1,
    ensures
        b == (if page == RX_START {
            RX_STOP - 1
        } else {
            page - 1
        }),
{
    if page == RX_START {
        RX_STOP - 1
    } else {
        page - 1
    }
}

/// The bytes put on the wire for `frame`: the frame, zero-padded to the
/// Ethernet minimum.
pub fn padded_frame(frame: &[u8]) -> (out: Vec<u8>)
    ensures
        out@.len() == (if frame@.len() < MIN_FRAME {
            MIN_FRAME as int
        } else {
            frame@.len() as int
        }),
        forall|i: int| 0 <= i < out@.len() ==> #[trigger] out@[i] == (if i < frame@.len() {
            frame@[i]
        } else {
            0u8
        }),
{
    let n = if frame.len() < MIN_FRAME { MIN_FRAME } else { frame.len() };
    let mut out: Vec<u8> = Vec::new();
    let mut i: usize = 0;
    while i < n
        invariant
            n == (if frame@.len() < MIN_FRAME { MIN_FRAME as int } else { frame@.len() as int }),
            i <= n,
            out@.len() == i,
            forall|k: int| 0 <= k < i ==> #[trigger] out@[k] == (if k < frame@.len() {
                frame@[k]
            } else {
                0u8
            }),
        decreases n - i,
    {
        out.push(if i < frame.len() { frame[i] } else { 0 });
        i += 1;
    }
    out
}

} // verus!
