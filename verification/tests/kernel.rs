use osjeff_core::kernel::ata::{id_start, id_step, xfer_start, xfer_step, IdAction, IdPhase, XferAction, XferPhase, SPIN};
use osjeff_core::kernel::ata::{bytes_to_word, image_sectors, parse_identify, word_to_bytes};
use osjeff_core::kernel::fb::{isqrt, Color};
use osjeff_core::kernel::ne2000::{boundary, padded_frame, parse_rx_header, RxEntry};
use osjeff_core::kernel::serial::crlf;
use osjeff_core::kernel::virtio::{bar_base, bar_is_64bit, discover, CapLoc};
use osjeff_core::kernel::pci::{
    address, bar_offset, cap_pointer, config_word, find, find_virtio_gpu, with_bus_master, PciDevice,
    VIRTIO_GPU_LEGACY, VIRTIO_GPU_MODERN, VIRTIO_VENDOR,
};
use osjeff_core::kernel::perf::{put, put_ms, put_u32, Perf};
use osjeff_core::kernel::ps2::{Decoder, Event, KeyEvent, Packet};
use osjeff_core::kernel::rtc::{convert, Time};
use osjeff_core::window::Rect;

#[test]
fn rtc_bcd_24h() {
    // 23:59:58 in BCD, 24-hour mode (reg B bit 1 set, bit 2 clear).
    assert_eq!(convert(0x58, 0x59, 0x23, 0x02), Time { h: 23, m: 59, s: 58 });
}

#[test]
fn rtc_binary_24h() {
    assert_eq!(convert(58, 59, 23, 0x06), Time { h: 23, m: 59, s: 58 });
}

#[test]
fn rtc_bcd_12h_pm_and_midnight() {
    // 3 PM in 12-hour BCD: PM flag in bit 7.
    assert_eq!(convert(0x00, 0x30, 0x83, 0x00).h, 15);
    // 12 AM is hour 0; 12 PM stays 12.
    assert_eq!(convert(0x00, 0x00, 0x12, 0x00).h, 0);
    assert_eq!(convert(0x00, 0x00, 0x92, 0x00).h, 12);
}

#[test]
fn ps2_key_press_release_and_extended() {
    let mut d = Decoder::new();
    assert_eq!(
        d.decode_keyboard(0x1E),
        Some(Event::Key(KeyEvent { scan_code: 0x1E, pressed: true, extended: false }))
    );
    assert_eq!(
        d.decode_keyboard(0x9E),
        Some(Event::Key(KeyEvent { scan_code: 0x1E, pressed: false, extended: false }))
    );
    assert_eq!(d.decode_keyboard(0xE0), None);
    assert_eq!(
        d.decode_keyboard(0x48),
        Some(Event::Key(KeyEvent { scan_code: 0x48, pressed: true, extended: true }))
    );
    // The prefix applies to one scancode only.
    assert_eq!(
        d.decode_keyboard(0x48),
        Some(Event::Key(KeyEvent { scan_code: 0x48, pressed: true, extended: false }))
    );
}

#[test]
fn ps2_mouse_packet_and_resync() {
    let mut d = Decoder::new();
    // A byte without bit 3 cannot start a packet: dropped.
    assert_eq!(d.decode_mouse(0x00), None);
    assert_eq!(d.mouse_cycle, 0);
    // flags: bit3 | left | x sign; dx = 0xF0 - 256 = -16, dy = 5.
    assert_eq!(d.decode_mouse(0x08 | 0x01 | 0x10), None);
    assert_eq!(d.decode_mouse(0xF0), None);
    assert_eq!(
        d.decode_mouse(0x05),
        Some(Event::Mouse(Packet { dx: -16, dy: 5, left: true, right: false }))
    );
    assert_eq!(d.mouse_cycle, 0);
}

#[test]
fn pci_address_and_words() {
    assert_eq!(address(0, 3, 1, 0x12), 0x8000_0000 | (3 << 11) | (1 << 8) | 0x10);
    assert_eq!(config_word(0x1234_5678, 0x00), 0x5678);
    assert_eq!(config_word(0x1234_5678, 0x02), 0x1234);
    assert_eq!(bar_offset(2), 0x18);
    assert_eq!(with_bus_master(0x0001), 0x0007);
    assert_eq!(cap_pointer(0x0000, 0x0041), None);
    assert_eq!(cap_pointer(0x0010, 0x0043), Some(0x40));
}

#[test]
fn pci_find_prefers_modern_gpu() {
    let dev = |slot: u8, vendor: u16, device: u16| PciDevice { bus: 0, slot, func: 0, vendor, device };
    let devs = [dev(1, 0x8086, 0x1237), dev(2, VIRTIO_VENDOR, VIRTIO_GPU_LEGACY), dev(3, VIRTIO_VENDOR, VIRTIO_GPU_MODERN)];
    assert_eq!(find(&devs, 0x8086, 0x1237).map(|d| d.slot), Some(1));
    assert_eq!(find(&devs, 0x1234, 0x1111), None);
    assert_eq!(find_virtio_gpu(&devs).map(|d| d.slot), Some(3));
    assert_eq!(find_virtio_gpu(&devs[..2]).map(|d| d.slot), Some(2));
    assert_eq!(find_virtio_gpu(&devs[..1]), None);
}

#[test]
fn ata_identify_parsing() {
    let mut id = [0u16; 256];
    // "QEMU HARDDISK" padded with spaces, high byte first.
    let model = b"QEMU HARDDISK                           ";
    for i in 0..20 {
        id[27 + i] = ((model[2 * i] as u16) << 8) | model[2 * i + 1] as u16;
    }
    id[60] = 0x0000;
    id[61] = 0x0002; // 28-bit count: 0x20000 sectors
    id[217] = 1; // SSD
    let d = parse_identify(&id);
    assert_eq!(&d.model[..d.model_len], b"QEMU HARDDISK");
    assert_eq!(d.sectors, 0x20000);
    assert!(d.ssd);
    assert_eq!(d.rpm, 0);
    assert_eq!(d.mib(), 64);
    // A 48-bit count wins when present; a rotation rate is reported.
    id[100] = 0x0000;
    id[101] = 0x0010;
    id[217] = 7200;
    let d = parse_identify(&id);
    assert_eq!(d.sectors, 0x10_0000);
    assert!(!d.ssd);
    assert_eq!(d.rpm, 7200);
}

#[test]
fn ata_transfer_byte_order() {
    assert_eq!(image_sectors(0), None);
    assert_eq!(image_sectors(512 * 34), Some(34));
    assert_eq!(image_sectors(512 * 256), None);
    let (lo, hi) = word_to_bytes(0xBEEF);
    assert_eq!((lo, hi), (0xEF, 0xBE));
    assert_eq!(bytes_to_word(lo, hi), 0xBEEF);
}

#[test]
fn perf_counters() {
    let mut p = Perf::new(0); // clamps to 1 kHz
    p.record(5); // 5 cycles at 1 cycle/ms = 5000 us
    assert_eq!(p.frame_us, 5000);
    assert_eq!(p.max_us, 5000);
    p.record(2);
    assert_eq!(p.frame_us, 2000);
    assert_eq!(p.max_us, 5000);
    p.second_tick();
    assert_eq!(p.fps, 2);
    assert_eq!(p.max_us, 2000);
    assert_eq!(Perf::rect(1280), Rect::new(1280 - 212 - 12, 12, 212, 60));
    let mut big = Perf::new(1000);
    big.record(u64::MAX);
    assert_eq!(big.frame_us, u64::MAX / 1000);
}

#[test]
fn perf_text_helpers() {
    let mut line = [0u8; 32];
    let mut n = put(&mut line, 0, b"FPS ");
    n = put_u32(&mut line, n, 60);
    n = put(&mut line, n, b"  ");
    n = put_ms(&mut line, n, 4250);
    assert_eq!(&line[..n], b"FPS 60  4.2ms");
    let mut tiny = [0u8; 3];
    let m = put_u32(&mut tiny, 0, 123456);
    assert_eq!(&tiny[..m], b"123");
    assert_eq!(put_u32(&mut line, 0, 0), 1);
    assert_eq!(line[0], b'0');
}

#[test]
fn color_blend_and_isqrt() {
    let a = Color::rgb(0, 100, 255);
    let b = Color::rgb(255, 0, 255);
    assert_eq!(a.lerp(b, 0), a);
    assert_eq!(a.lerp(b, 255), b);
    assert_eq!(a.lerp(b, 51), Color::rgb(51, 80, 255));
    assert_eq!(isqrt(0), 0);
    assert_eq!(isqrt(15), 3);
    assert_eq!(isqrt(16), 4);
    assert_eq!(isqrt(usize::MAX), 0xFFFF_FFFF);
}

#[test]
fn virtio_caps_walk() {
    // Config space: capability list at 0x40 -> 0x50 (common cfg) -> 0x64
    // (notify, multiplier 4) -> 0x80 (a non-virtio capability) -> end.
    let mut cfg = vec![0u32; 64];
    cfg[0x40 / 4] = 0x01_10_50_09; // virtio cap, next 0x50, type 1
    cfg[0x44 / 4] = 4; // BAR 4
    cfg[0x48 / 4] = 0x0000;
    cfg[0x4C / 4] = 0x1000;
    cfg[0x50 / 4] = 0x02_14_64_09; // next 0x64, type 2
    cfg[0x54 / 4] = 4;
    cfg[0x58 / 4] = 0x3000;
    cfg[0x5C / 4] = 0x1000;
    cfg[0x60 / 4] = 4;
    cfg[0x64 / 4] = 0x03_10_80_09; // next 0x80, type 3 (ISR)
    cfg[0x68 / 4] = 4;
    cfg[0x6C / 4] = 0x1000;
    cfg[0x70 / 4] = 0x1000;
    cfg[0x80 / 4] = 0x00_00_00_05; // MSI capability, end of list
    let caps = discover(Some(0x40), &cfg).expect("virtio caps");
    assert_eq!(caps.common, CapLoc { bar: 4, offset: 0, length: 0x1000 });
    assert_eq!(caps.notify, CapLoc { bar: 4, offset: 0x3000, length: 0x1000 });
    assert_eq!(caps.notify_off_mul, 4);
    assert_eq!(caps.isr, CapLoc { bar: 4, offset: 0x1000, length: 0x1000 });
    assert!(!caps.device.present());
    assert!(caps.common.present());
    // Without a common config the device is not usable.
    cfg[0x40 / 4] = 0x04_10_50_09;
    assert_eq!(discover(Some(0x40), &cfg), None);
    assert_eq!(discover(None, &cfg), None);
    // BAR bases: flag bits cleared; a 64-bit BAR takes the next slot as high half.
    assert!(bar_is_64bit(0xFE00_000C));
    assert!(!bar_is_64bit(0xFE00_0008));
    assert_eq!(bar_base(0xFE00_000C, 0x1), 0x1_FE00_0000);
    assert_eq!(bar_base(0xFE00_0008, 0x1), 0xFE00_0000);
}

#[test]
fn virtio_caps_cycle_is_bounded() {
    // A capability that points at itself: the walk stops after a bounded
    // number of steps instead of spinning.
    let mut cfg = vec![0u32; 64];
    cfg[0x40 / 4] = 0x01_10_40_09;
    cfg[0x4C / 4] = 0x20;
    let caps = discover(Some(0x40), &cfg).expect("common cfg");
    assert_eq!(caps.common.length, 0x20);
}

#[test]
fn ne2000_ring_headers() {
    assert_eq!(parse_rx_header(&[0x01, 0x50, 0x40, 0x00]), Some(RxEntry { next_page: 0x50, data_len: 60 }));
    assert_eq!(parse_rx_header(&[0x01, 0x50, 0x03, 0x00]), None);
    assert_eq!(parse_rx_header(&[0x01, 0x50, 0xF3, 0x05]), None);
    assert_eq!(parse_rx_header(&[0x01, 0x50, 0xF2, 0x05]), Some(RxEntry { next_page: 0x50, data_len: 1518 }));
    assert_eq!(parse_rx_header(&[0x01, 0x20, 0x40, 0x00]), None);
    assert_eq!(boundary(0x46), 0x7F);
    assert_eq!(boundary(0x50), 0x4F);
    let f = padded_frame(&[1, 2, 3]);
    assert_eq!(f.len(), 60);
    assert_eq!(&f[..4], &[1, 2, 3, 0]);
    assert_eq!(padded_frame(&[7u8; 70]).len(), 70);
}

#[test]
fn serial_line_endings() {
    assert_eq!(crlf(b"a\nb\n"), b"a\r\nb\r\n".to_vec());
    assert_eq!(crlf(b"no newline"), b"no newline".to_vec());
    assert_eq!(crlf(b""), Vec::<u8>::new());
}

#[test]
fn disk_kind_labels() {
    let mut id = [0u16; 256];
    id[217] = 1;
    assert_eq!(parse_identify(&id).kind_label(), "SSD");
    id[217] = 7200;
    assert_eq!(parse_identify(&id).kind_label(), "HD");
    id[217] = 0;
    assert_eq!(parse_identify(&id).kind_label(), "HD/desconhecido");
}

#[test]
fn identify_handshake_steps() {
    assert_eq!(id_start(), (IdPhase::Idle(0), IdAction::ReadStatus));
    // Waiting for an idle channel.
    assert_eq!(id_step(IdPhase::Idle(0), 0xFF), (IdPhase::Idle(0), IdAction::Absent));
    assert_eq!(id_step(IdPhase::Idle(0), 0x80), (IdPhase::Idle(1), IdAction::ReadStatus));
    assert_eq!(id_step(IdPhase::Idle(0), 0x50), (IdPhase::Issued, IdAction::Issue));
    assert_eq!(id_step(IdPhase::Idle(SPIN - 1), 0x80), (IdPhase::Idle(SPIN - 1), IdAction::Absent));
    // No drive answers the command.
    assert_eq!(id_step(IdPhase::Issued, 0), (IdPhase::Issued, IdAction::Absent));
    assert_eq!(id_step(IdPhase::Issued, 0x50), (IdPhase::Busy(0), IdAction::ReadStatus));
    assert_eq!(id_step(IdPhase::Busy(3), 0xD0), (IdPhase::Busy(4), IdAction::ReadStatus));
    assert_eq!(id_step(IdPhase::Busy(3), 0x58), (IdPhase::SigLow, IdAction::ReadSigLow));
    // A packet-device signature is not an ATA disk.
    assert_eq!(id_step(IdPhase::SigLow, 0x14), (IdPhase::SigLow, IdAction::Absent));
    assert_eq!(id_step(IdPhase::SigLow, 0), (IdPhase::SigHigh, IdAction::ReadSigHigh));
    assert_eq!(id_step(IdPhase::SigHigh, 0xEB), (IdPhase::SigHigh, IdAction::Absent));
    assert_eq!(id_step(IdPhase::SigHigh, 0), (IdPhase::Drq(0), IdAction::ReadStatus));
    // Data ready, an error, or still waiting.
    assert_eq!(id_step(IdPhase::Drq(0), 0x58), (IdPhase::Drq(0), IdAction::ReadData));
    assert_eq!(id_step(IdPhase::Drq(0), 0x51), (IdPhase::Drq(0), IdAction::Absent));
    assert_eq!(id_step(IdPhase::Drq(0), 0x50), (IdPhase::Drq(1), IdAction::ReadStatus));
    assert_eq!(id_step(IdPhase::Drq(SPIN - 1), 0x50), (IdPhase::Drq(SPIN - 1), IdAction::Absent));
}

#[test]
fn transfer_handshake_steps() {
    assert_eq!(xfer_start(), (XferPhase::Idle(0), XferAction::ReadStatus));
    // Idle wait: floating bus, busy, ready.
    assert_eq!(xfer_step(XferPhase::Idle(0), false, 2, 0xFF), (XferPhase::Idle(1), XferAction::Done(false)));
    assert_eq!(xfer_step(XferPhase::Idle(0), false, 2, 0x80), (XferPhase::Idle(1), XferAction::ReadStatus));
    assert_eq!(xfer_step(XferPhase::Idle(SPIN - 1), false, 2, 0x80), (XferPhase::Idle(SPIN - 1), XferAction::Done(false)));
    assert_eq!(xfer_step(XferPhase::Idle(5), false, 2, 0x50), (XferPhase::Drq(0, 0), XferAction::Start));
    // Sector requests: move each, finish a read on the last.
    assert_eq!(xfer_step(XferPhase::Drq(0, 0), false, 2, 0x58), (XferPhase::Drq(1, 0), XferAction::Move(0)));
    assert_eq!(xfer_step(XferPhase::Drq(1, 0), false, 2, 0x58), (XferPhase::Drq(1, 0), XferAction::Finish(1)));
    assert_eq!(xfer_step(XferPhase::Drq(1, 3), false, 2, 0xD8), (XferPhase::Drq(1, 4), XferAction::ReadStatus));
    assert_eq!(xfer_step(XferPhase::Drq(1, 3), false, 2, 0x51), (XferPhase::Drq(1, 3), XferAction::Done(false)));
    // A write moves its last sector, waits, flushes, waits again.
    assert_eq!(xfer_step(XferPhase::Drq(1, 0), true, 2, 0x58), (XferPhase::Settle(0), XferAction::Move(1)));
    assert_eq!(xfer_step(XferPhase::Settle(0), true, 2, 0x50), (XferPhase::Flushing(0), XferAction::Flush));
    assert_eq!(xfer_step(XferPhase::Flushing(0), true, 2, 0x80), (XferPhase::Flushing(1), XferAction::ReadStatus));
    assert_eq!(xfer_step(XferPhase::Flushing(1), true, 2, 0x50), (XferPhase::Flushing(1), XferAction::Done(true)));
}
