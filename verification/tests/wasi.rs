use osjeff_core::kernel::canvas::{Canvas, FbInfo, PixelFormat};
use osjeff_core::kernel::fb::Color;
use osjeff_core::kernel::wasi::{
    args_get, args_sizes_get, clock_time_get, environ_sizes_get, fd_close, fd_fdstat_get, fd_prestat_dir_name,
    fd_prestat_get, fd_read, fd_seek, fd_tell, fd_write, host_fill, is_wad_path, path_filestat_get, path_open,
    random_get, rd, rgb, ru32, wr, wu32, wu64, Ev, EventQueue, Surface, WasiState, BADF, EV_CAP, FT_CHAR, FT_DIR,
    FT_REG, INVAL, NOENT, OK, PREOPEN_FD, WAD_FD,
};

fn le32(m: &[u8], at: usize) -> u32 {
    u32::from_le_bytes([m[at], m[at + 1], m[at + 2], m[at + 3]])
}

fn le64(m: &[u8], at: usize) -> u64 {
    let mut b = [0u8; 8];
    b.copy_from_slice(&m[at..at + 8]);
    u64::from_le_bytes(b)
}

fn put_str(m: &mut [u8], at: usize, s: &[u8]) {
    m[at..at + s.len()].copy_from_slice(s);
}

fn opened(mem: &mut Vec<u8>) -> WasiState {
    let mut st = WasiState::new();
    put_str(mem, 200, b"/doom1.wad");
    assert_eq!(path_open(&mut st, 8, mem, 200, 10, 300), OK);
    st
}

#[test]
fn memory_access_fits_or_fails() {
    let mut mem = vec![0u8; 16];
    assert!(wr(&mut mem, 12, &[1, 2, 3, 4]));
    assert!(!wr(&mut mem, 13, &[9, 9, 9, 9]));
    assert_eq!(&mem[12..16], &[1, 2, 3, 4]);
    assert_eq!(ru32(&mem, 12), 0x0403_0201);
    assert_eq!(ru32(&mem, 13), 0);
    assert_eq!(rd(&mem, -5, 2), Some(vec![0, 0]));
    assert_eq!(rd(&mem, 15, 2), None);
    wu32(&mut mem, 0, 0xAABB_CCDD);
    assert_eq!(le32(&mem, 0), 0xAABB_CCDD);
    wu64(&mut mem, 4, 0x0102_0304_0506_0708);
    assert_eq!(le64(&mem, 4), 0x0102_0304_0506_0708);
    let before = mem.clone();
    wu64(&mut mem, 9, 1);
    assert_eq!(mem, before);
}

#[test]
fn wad_path_matches_basename_ignoring_case() {
    let mut mem = vec![0u8; 64];
    put_str(&mut mem, 0, b"/games/DOOM1.WAD");
    assert!(is_wad_path(&mem, 0, 16));
    put_str(&mut mem, 20, b"doom2.wad");
    assert!(!is_wad_path(&mem, 20, 9));
    assert!(!is_wad_path(&mem, 0, 5));
    assert!(!is_wad_path(&mem, 60, 16));
}

#[test]
fn open_read_seek_tell_close() {
    let wad = b"abcdefgh";
    let mut mem = vec![0u8; 512];
    let mut st = opened(&mut mem);
    assert_eq!(st.wad_fd, WAD_FD);
    assert_eq!(le32(&mem, 300), WAD_FD as u32);
    // Two iovecs: 3 bytes at 100, 10 bytes at 120.
    mem[0..4].copy_from_slice(&100u32.to_le_bytes());
    mem[4..8].copy_from_slice(&3u32.to_le_bytes());
    mem[8..12].copy_from_slice(&120u32.to_le_bytes());
    mem[12..16].copy_from_slice(&10u32.to_le_bytes());
    assert_eq!(fd_read(&mut st, wad, &mut mem, WAD_FD, 0, 2, 40), OK);
    assert_eq!(&mem[100..103], b"abc");
    assert_eq!(&mem[120..125], b"defgh");
    assert_eq!(le32(&mem, 40), 8);
    assert_eq!(st.wad_pos, 8);
    assert_eq!(fd_read(&mut st, wad, &mut mem, 4, 0, 2, 40), BADF);

    assert_eq!(fd_seek(&mut st, 8, &mut mem, WAD_FD, 2, 0, 48), OK);
    assert_eq!((st.wad_pos, le64(&mem, 48)), (2, 2));
    assert_eq!(fd_seek(&mut st, 8, &mut mem, WAD_FD, -5, 1, 48), OK);
    assert_eq!(st.wad_pos, 0);
    assert_eq!(fd_seek(&mut st, 8, &mut mem, WAD_FD, 10, 2, 48), OK);
    assert_eq!(st.wad_pos, 8);
    assert_eq!(fd_seek(&mut st, 8, &mut mem, WAD_FD, 0, 3, 48), INVAL);
    assert_eq!(fd_tell(&st, &mut mem, WAD_FD, 56), OK);
    assert_eq!(le64(&mem, 56), 8);
    assert_eq!(fd_tell(&st, &mut mem, 1, 56), BADF);

    assert_eq!(fd_close(&mut st, WAD_FD), OK);
    assert_eq!(st.wad_fd, -1);
    assert_eq!(fd_seek(&mut st, 8, &mut mem, WAD_FD, 0, 0, 48), BADF);
}

#[test]
fn open_refuses_other_paths_and_a_second_open() {
    let mut mem = vec![0u8; 512];
    let mut st = opened(&mut mem);
    assert_eq!(path_open(&mut st, 8, &mut mem, 200, 10, 300), NOENT);
    let mut fresh = WasiState::new();
    put_str(&mut mem, 220, b"doom.wad");
    assert_eq!(path_open(&mut fresh, 8, &mut mem, 220, 8, 300), NOENT);
    assert_eq!(path_open(&mut fresh, 0, &mut mem, 200, 10, 300), NOENT);
}

#[test]
fn file_types_and_preopen() {
    let mut mem = vec![0u8; 128];
    let st = opened(&mut vec![0u8; 512]);
    assert_eq!(fd_fdstat_get(&st, &mut mem, WAD_FD, 0), OK);
    assert_eq!(mem[0], FT_REG);
    assert_eq!(le64(&mem, 8), u64::MAX);
    assert_eq!(fd_fdstat_get(&st, &mut mem, PREOPEN_FD, 32), OK);
    assert_eq!(mem[32], FT_DIR);
    assert_eq!(fd_fdstat_get(&st, &mut mem, 1, 64), OK);
    assert_eq!(mem[64], FT_CHAR);
    assert_eq!(fd_fdstat_get(&st, &mut mem, 9, 96), BADF);
    assert_eq!(fd_prestat_get(&mut mem, PREOPEN_FD, 100), OK);
    assert_eq!((mem[100], le32(&mem, 104)), (0, 1));
    assert_eq!(fd_prestat_get(&mut mem, 4, 100), BADF);
    assert_eq!(fd_prestat_dir_name(&mut mem, PREOPEN_FD, 110, 1), OK);
    assert_eq!(mem[110], b'/');
    assert_eq!(fd_prestat_dir_name(&mut mem, PREOPEN_FD, 110, 0), BADF);
}

#[test]
fn filestat_of_the_game_data() {
    let mut mem = vec![0xEEu8; 256];
    put_str(&mut mem, 0, b"doom1.wad");
    assert_eq!(path_filestat_get(4096, &mut mem, 0, 9, 64), OK);
    assert_eq!(mem[64 + 16], FT_REG);
    assert_eq!(le64(&mem, 64 + 32), 4096);
    assert_eq!(le64(&mem, 64), 0);
    assert_eq!(le64(&mem, 64 + 56), 0);
    assert_eq!(path_filestat_get(4096, &mut mem, 0, 4, 64), NOENT);
}

#[test]
fn clock_args_environment() {
    let mut mem = vec![0u8; 64];
    assert_eq!(clock_time_get(&mut mem, 0, 2), OK);
    assert_eq!(le64(&mem, 0), 8_000_000);
    assert_eq!(args_sizes_get(&mut mem, 8, 12), OK);
    assert_eq!((le32(&mem, 8), le32(&mem, 12)), (1, 5));
    assert_eq!(args_get(&mut mem, 16, 32), OK);
    assert_eq!(&mem[32..37], b"doom\0");
    assert_eq!(le32(&mem, 16), 32);
    assert_eq!(environ_sizes_get(&mut mem, 40, 44), OK);
    assert_eq!((le32(&mem, 40), le32(&mem, 44)), (0, 0));
}

#[test]
fn random_bytes_follow_xorshift() {
    let mut mem = vec![0u8; 8];
    let mut st = WasiState::new();
    assert_eq!(random_get(&mut st, &mut mem, 0, 4, 6), OK);
    let mut x: u32 = 6 | 1;
    for i in 0..4 {
        x ^= x << 13;
        x ^= x >> 17;
        x ^= x << 5;
        assert_eq!(mem[i], x as u8);
    }
    assert_eq!(st.rng, x);
}

#[test]
fn stdout_writes_are_logged_and_counted() {
    let mut mem = vec![0u8; 128];
    put_str(&mut mem, 64, b"hi");
    mem[0..4].copy_from_slice(&64u32.to_le_bytes());
    mem[4..8].copy_from_slice(&2u32.to_le_bytes());
    let (e, out) = fd_write(&mut mem, 1, 0, 1, 16);
    assert_eq!(e, OK);
    assert_eq!(out, b"hi".to_vec());
    assert_eq!(le32(&mem, 16), 2);
    let (e, out) = fd_write(&mut mem, 7, 0, 1, 16);
    assert_eq!((e, out.len()), (OK, 0));
}

#[test]
fn packed_colours() {
    assert_eq!(rgb(0x12_34_56), Color::rgb(0x12, 0x34, 0x56));
}

#[test]
fn guest_fill_is_clipped_to_its_surface() {
    let info = FbInfo { width: 10, height: 10, stride: 10, bytes_per_pixel: 3, pixel_format: PixelFormat::Rgb };
    let mut c = Canvas::new(vec![0u8; 300], info);
    let s = Surface { ox: 2, oy: 2, cw: 4, ch: 4 };
    host_fill(&mut c, s, -5, -5, 100, 100, 0xFF_FF_FF);
    for y in 0..10usize {
        for x in 0..10usize {
            let inside = (2..6).contains(&x) && (2..6).contains(&y);
            let want = if inside { 0xFF } else { 0 };
            assert_eq!(c.buf[(y * 10 + x) * 3], want, "{} {}", x, y);
        }
    }
}

#[test]
fn input_queue_is_fifo_and_bounded() {
    let mut q = EventQueue::new();
    assert_eq!(q.pop(), None);
    let key = |a: i32| Ev { kind: 1, a, b: 0, c: 0 };
    for i in 0..(EV_CAP as i32 - 1) {
        assert!(q.push(key(i)));
    }
    assert!(!q.push(key(999)));
    for i in 0..(EV_CAP as i32 - 1) {
        assert_eq!(q.pop(), Some(key(i)));
    }
    assert_eq!(q.pop(), None);
    assert!(q.push(key(5)));
    assert_eq!(q.pop(), Some(key(5)));
}
