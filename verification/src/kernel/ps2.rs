//! PS/2 keyboard and mouse byte decoding. The controller's bytes arrive by
//! IRQ; [`Decoder`] turns scancodes and 3-byte mouse packets into [`Event`]s.
use vstd::prelude::*;

verus! {

/// One mouse movement report.
#[derive(Clone, Copy, PartialEq, Eq, Debug, Structural)]
pub struct Packet {
    pub dx: i32,
    pub dy: i32,
    pub left: bool,
    pub right: bool,
}

/// One key transition.
#[derive(Clone, Copy, PartialEq, Eq, Debug, Structural)]
pub struct KeyEvent {
    pub scan_code: u8,
    pub pressed: bool,
    /// Set when the scancode followed an `0xE0` prefix (arrows, Del, etc.).
    pub extended: bool,
}

#[derive(Clone, Copy, PartialEq, Eq, Debug, Structural)]
pub enum Event {
    Mouse(Packet),
    Key(KeyEvent),
}

/// Decoding state carried between bytes: a pending `0xE0` prefix and the
/// position within the current mouse packet with its bytes so far.
pub struct Decoder {
    pub key_extended: bool,
    pub mouse_cycle: u8,
    pub mouse_buf: [u8; 3],
}

/// The key event for scancode byte `data` (bit 7 set on release).
pub open spec fn key_event(data: u8, extended: bool) -> KeyEvent {
    KeyEvent { scan_code: (data % 128) as u8, pressed: data < 128, extended }
}

/// The movement encoded by a packet's flag byte and two delta bytes (the
/// deltas are 9-bit two's complement, their sign bits in the flag byte).
pub open spec fn packet_of(flags: u8, bx: u8, by: u8) -> Packet {
    Packet {
        dx: (bx - if (flags / 16) % 2 == 1 { 256int } else { 0 }) as i32,
        dy: (by - if (flags / 32) % 2 == 1 { 256int } else { 0 }) as i32,
        left: flags % 2 == 1,
        right: (flags / 2) % 2 == 1,
    }
}

/// Whether a byte can start a mouse packet (bit 3 is always set there).
pub open spec fn packet_start(b: u8) -> bool {
    (b / 8) % 2 == 1
}

proof fn lemma_flag_bits(v: u8)
    ensures
        (v & 0x7F) as int == v % 128,
        ((v & 0x80) == 0) == (v < 128),
        ((v & 0x08) == 0) == ((v / 8) % 2 == 0),
        ((v & 0x10) != 0) == ((v / 16) % 2 == 1),
        ((v & 0x20) != 0) == ((v / 32) % 2 == 1),
        ((v & 0x01) != 0) == (v % 2 == 1),
        ((v & 0x02) != 0) == ((v / 2) % 2 == 1),
{
    assert((v & 0x7F) == v % 128) by (bit_vector);
    assert(((v & 0x80) == 0) == (v < 128)) by (bit_vector);
    assert(((v & 0x08) == 0) == ((v / 8) % 2 == 0)) by (bit_vector);
    assert(((v & 0x10) != 0) == ((v / 16) % 2 == 1)) by (bit_vector);
    assert(((v & 0x20) != 0) == ((v / 32) % 2 == 1)) by (bit_vector);
    assert(((v & 0x01) != 0) == (v % 2 == 1)) by (bit_vector);
    assert(((v & 0x02) != 0) == ((v / 2) % 2 == 1)) by (bit_vector);
}

impl Decoder {
    pub fn new() -> (d: Self)
        ensures
            !d.key_extended,
            d.mouse_cycle == 0,
            d.mouse_buf@ == seq![0u8, 0u8, 0u8],
    {
        let d = Decoder { key_extended: false, mouse_cycle: 0, mouse_buf: [0, 0, 0] };
        assert(d.mouse_buf@ =~= seq![0u8, 0u8, 0u8]);
        d
    }

    /// Feed one keyboard byte. `0xE0` is a prefix and yields nothing; any
    /// other byte yields its key event, extended when a prefix preceded it.
    pub fn decode_keyboard(&mut self, data: u8) -> (e: Option<Event>)
        ensures
            final(self).mouse_cycle == old(self).mouse_cycle,
            final(self).mouse_buf == old(self).mouse_buf,
            data == 0xE0 ==> e is None && final(self).key_extended,
            data != 0xE0 ==> e == Some(Event::Key(key_event(data, old(self).key_extended)))
                && !final(self).key_extended,
    {
        proof {
            lemma_flag_bits(data);
        }
        if data == 0xE0 {
            self.key_extended = true;
            return None;
        }
        let extended = self.key_extended;
        self.key_extended = false;
        Some(Event::Key(KeyEvent { scan_code: data & 0x7F, pressed: data & 0x80 == 0, extended }))
    }

    /// Feed one mouse byte. Bytes gather into 3-byte packets; a first byte
    /// without bit 3 is dropped to regain sync. The third byte yields the
    /// packet.
    pub fn decode_mouse(&mut self, data: u8) -> (e: Option<Event>)
        ensures
            final(self).key_extended == old(self).key_extended,
            old(self).mouse_cycle == 0 ==> e is None && if packet_start(data) {
                final(self).mouse_cycle == 1 && final(self).mouse_buf@ == old(self).mouse_buf@.update(0, data)
            } else {
                final(self).mouse_cycle == 0 && final(self).mouse_buf == old(self).mouse_buf
            },
            old(self).mouse_cycle == 1 ==> e is None && final(self).mouse_cycle == 2 && final(self).mouse_buf@
                == old(self).mouse_buf@.update(1, data),
            old(self).mouse_cycle >= 2 ==> e == Some(Event::Mouse(packet_of(old(self).mouse_buf[0], old(self).mouse_buf[1], data)))
                && final(self).mouse_cycle == 0 && final(self).mouse_buf@ == old(self).mouse_buf@.update(2, data),
    {
        if self.mouse_cycle == 0 {
            proof {
                lemma_flag_bits(data);
            }
            if data & 0x08 == 0 {
                return None;
            }
            self.mouse_buf[0] = data;
            self.mouse_cycle = 1;
            None
        } else if self.mouse_cycle == 1 {
            self.mouse_buf[1] = data;
            self.mouse_cycle = 2;
            None
        } else {
            self.mouse_buf[2] = data;
            self.mouse_cycle = 0;
            let flags = self.mouse_buf[0];
            proof {
                lemma_flag_bits(flags);
            }
            let mut dx = self.mouse_buf[1] as i32;
            let mut dy = self.mouse_buf[2] as i32;
            if flags & 0x10 != 0 {
                dx -= 256;
            }
            if flags & 0x20 != 0 {
                dy -= 256;
            }
            Some(Event::Mouse(Packet { dx, dy, left: flags & 0x01 != 0, right: flags & 0x02 != 0 }))
        }
    }
}

impl Default for Decoder {
    fn default() -> (d: Self)
        ensures
            !d.key_extended,
            d.mouse_cycle == 0,
    {
        Self::new()
    }
}

/// Mouse decoding from a synchronized state, as plain values: the next
/// cycle and buffer, and the packet when one completes.
pub open spec fn mouse_step(cycle: int, buf: Seq<u8>, data: u8) -> (int, Seq<u8>, Option<Packet>) {
    if cycle == 0 {
        if packet_start(data) { (1, buf.update(0, data), None) } else { (0, buf, None) }
    } else if cycle == 1 {
        (2, buf.update(1, data), None)
    } else {
        (0, buf.update(2, data), Some(packet_of(buf[0], buf[1], data)))
    }
}

/// From a synchronized decoder, a packet whose first byte has bit 3 set is
/// reported on its third byte, exactly as its bytes encode it, and the
/// decoder is synchronized again afterwards.
pub proof fn lemma_packet_roundtrip(buf: Seq<u8>, b0: u8, b1: u8, b2: u8)
    requires
        buf.len() == 3,
        packet_start(b0),
    ensures
        ({
            let s1 = mouse_step(0, buf, b0);
            let s2 = mouse_step(s1.0, s1.1, b1);
            let s3 = mouse_step(s2.0, s2.1, b2);
            &&& s1.2 is None
            &&& s2.2 is None
            &&& s3.0 == 0
            &&& s3.2 == Some(packet_of(b0, b1, b2))
        }),
{
}

} // verus!
