//! The host side of WebAssembly guests. The WASI subset a C guest such as
//! DOOM imports is served over the guest's linear memory: the embedded game
//! data as one read-only file in a single preopened directory, stdio
//! mirrored to the log, a clock, a pseudo-random source and one fixed
//! argument. Guest memory is a byte buffer; an access that does not fit in
//! it fails and changes nothing. Negative guest offsets count as 0. The
//! drawing call clips to the guest's surface, and input for the guest waits
//! in a bounded queue.
use crate::browser::starts_ci;
use crate::kernel::canvas::{clip_end, fill_bytes, painted, write_at, Canvas};
use crate::kernel::fb::Color;
use crate::web::dom::is_utf8;
use vstd::prelude::*;
use vstd::string::StringSliceAdditionalSpecFns;

verus! {

/// Success.
pub const OK: i32 = 0;
/// Bad file descriptor.
pub const BADF: i32 = 8;
/// Invalid argument.
pub const INVAL: i32 = 28;
/// No such file.
pub const NOENT: i32 = 44;
/// File type: character device.
pub const FT_CHAR: u8 = 2;
/// File type: directory.
pub const FT_DIR: u8 = 3;
/// File type: regular file.
pub const FT_REG: u8 = 4;
/// The preopened directory `/`.
pub const PREOPEN_FD: i32 = 3;
/// The descriptor handed out for the game data.
pub const WAD_FD: i32 = 5;

/// The guest offset an `i32` pointer denotes.
pub open spec fn at(off: i32) -> int {
    if off > 0 { off as int } else { 0 }
}

/// `n` bytes from `off` lie inside guest memory.
pub open spec fn fits(mem: Seq<u8>, off: i32, n: int) -> bool {
    at(off) + n <= mem.len()
}

/// Guest memory after writing `b` at `off`: unchanged when it does not fit.
pub open spec fn put(mem: Seq<u8>, off: i32, b: Seq<u8>) -> Seq<u8> {
    if fits(mem, off, b.len() as int) { write_at(mem, at(off), b) } else { mem }
}

/// The `n` bytes at `off`, when they fit.
pub open spec fn get(mem: Seq<u8>, off: i32, n: int) -> Option<Seq<u8>> {
    if fits(mem, off, n) { Some(mem.subrange(at(off), at(off) + n)) } else { None }
}

/// The little-endian bytes of `v`.
pub open spec fn le32(v: u32) -> Seq<u8> {
    seq![(v % 256) as u8, ((v / 256) % 256) as u8, ((v / 65536) % 256) as u8, (v / 16777216) as u8]
}

/// The little-endian bytes of `v`.
pub open spec fn le64(v: u64) -> Seq<u8> {
    le32((v % 0x1_0000_0000) as u32) + le32((v / 0x1_0000_0000) as u32)
}

/// The little-endian `u32` at `off`, or 0 when it does not fit.
pub open spec fn get32(mem: Seq<u8>, off: i32) -> u32 {
    if fits(mem, off, 4) {
        let o = at(off);
        (mem[o] + 256 * mem[o + 1] + 65536 * mem[o + 2] + 16777216 * mem[o + 3]) as u32
    } else {
        0
    }
}

/// Write `b` at `off`; `false`, changing nothing, when it does not fit.
pub fn wr(mem: &mut [u8], off: i32, b: &[u8]) -> (ok: bool)
    ensures
        ok == fits(old(mem)@, off, b@.len() as int),
        final(mem)@ == put(old(mem)@, off, b@),
{
    let o: usize = if off > 0 { off as usize } else { 0 };
    let n = mem.len();
    if o > n || b.len() > n - o {
        return false;
    }
    let mut k: usize = 0;
    while k < b.len()
        invariant
            n == mem@.len(),
            n == old(mem)@.len(),
            o == at(off),
            o + b@.len() <= n,
            k <= b@.len(),
            mem@ == write_at(old(mem)@, o as int, b@.subrange(0, k as int)),
        decreases b@.len() - k,
    {
        mem[o + k] = b[k];
        k += 1;
        assert(mem@ =~= write_at(old(mem)@, o as int, b@.subrange(0, k as int)));
    }
    assert(b@.subrange(0, b@.len() as int) =~= b@);
    true
}

/// Read `n` bytes at `off`; `None` when they do not fit.
pub fn rd(mem: &[u8], off: i32, n: usize) -> (r: Option<Vec<u8>>)
    ensures
        match r {
            Some(v) => get(mem@, off, n as int) == Some(v@),
            None => get(mem@, off, n as int) is None,
        },
{
    let o: usize = if off > 0 { off as usize } else { 0 };
    let len = mem.len();
    if o > len || n > len - o {
        return None;
    }
    let mut v: Vec<u8> = Vec::new();
    let mut k: usize = 0;
    while k < n
        invariant
            len == mem@.len(),
            o + n <= len,
            k <= n,
            v@ == mem@.subrange(o as int, o + k),
        decreases n - k,
    {
        v.push(mem[o + k]);
        k += 1;
        assert(v@ =~= mem@.subrange(o as int, o + k));
    }
    Some(v)
}

/// The little-endian `u32` at `off`, or 0 when it does not fit.
pub fn ru32(mem: &[u8], off: i32) -> (v: u32)
    ensures
        v == get32(mem@, off),
{
    match rd(mem, off, 4) {
        Some(b) => {
            proof {
                assert(b@ == mem@.subrange(at(off), at(off) + 4));
                assert(b@[0] == mem@[at(off)] && b@[1] == mem@[at(off) + 1] && b@[2] == mem@[at(off) + 2] && b@[3]
                    == mem@[at(off) + 3]);
            }
            b[0] as u32 + 256 * (b[1] as u32) + 65536 * (b[2] as u32) + 16777216 * (b[3] as u32)
        },
        None => 0,
    }
}

/// The little-endian bytes of `v`.
fn le32_vec(v: u32) -> (b: Vec<u8>)
    ensures
        b@ == le32(v),
{
    let mut b: Vec<u8> = Vec::new();
    b.push((v % 256) as u8);
    b.push(((v / 256) % 256) as u8);
    b.push(((v / 65536) % 256) as u8);
    b.push((v / 16777216) as u8);
    assert(b@ =~= le32(v));
    b
}

/// Store `v` little-endian at `off` (nothing when it does not fit).
pub fn wu32(mem: &mut [u8], off: i32, v: u32)
    ensures
        final(mem)@ == put(old(mem)@, off, le32(v)),
{
    let b = le32_vec(v);
    wr(mem, off, b.as_slice());
}

/// Store `v` little-endian at `off` (nothing when it does not fit).
pub fn wu64(mem: &mut [u8], off: i32, v: u64)
    ensures
        final(mem)@ == put(old(mem)@, off, le64(v)),
{
    let mut b = le32_vec((v % 0x1_0000_0000) as u32);
    let hi = le32_vec((v / 0x1_0000_0000) as u32);
    b.push(hi[0]);
    b.push(hi[1]);
    b.push(hi[2]);
    b.push(hi[3]);
    assert(b@ =~= le64(v));
    wr(mem, off, b.as_slice());
}

/// What the WASI layer keeps between calls: the descriptor of the open
/// game-data file (-1 when closed), its read position, and the state of the
/// pseudo-random source (0 until first used).
#[derive(Clone, Copy, PartialEq, Eq, Debug, Structural)]
pub struct WasiState {
    pub wad_fd: i32,
    pub wad_pos: usize,
    pub rng: u32,
}

impl WasiState {
    pub fn new() -> (s: Self)
        ensures
            s == (WasiState { wad_fd: -1i32, wad_pos: 0usize, rng: 0u32 }),
    {
        WasiState { wad_fd: -1, wad_pos: 0, rng: 0 }
    }
}

/// The up to 259 path bytes at `ptr` name the game data: they end in
/// `doom1.wad`, ignoring ASCII case. False when they do not fit in memory.
pub open spec fn wad_path_spec(mem: Seq<u8>, ptr: i32, len: i32) -> bool {
    let n = if len < 0 { 0 } else if len > 259 { 259 } else { len as int };
    match get(mem, ptr, n) {
        None => false,
        Some(p) => p.len() >= 9 && starts_ci(p.subrange(p.len() - 9, p.len() as int), "doom1.wad".spec_bytes()),
    }
}

pub fn is_wad_path(mem: &[u8], ptr: i32, len: i32) -> (b: bool)
    ensures
        b == wad_path_spec(mem@, ptr, len),
{
    let n: usize = if len < 0 { 0 } else if len > 259 { 259 } else { len as usize };
    match rd(mem, ptr, n) {
        None => false,
        Some(p) => {
            let k = p.len();
            if k < 9 {
                return false;
            }
            crate::browser::starts_with_ci(&p.as_slice()[k - 9..k], "doom1.wad".as_bytes())
        },
    }
}

/// The iovec reads from entry `i` on: each entry at `iovs + 8 i` names a
/// guest buffer and its length; it gets the next bytes of `wad` from `pos`,
/// as many as fit in both. Gives the memory, the new position and the count.
pub open spec fn read_iovs(mem: Seq<u8>, wad: Seq<u8>, pos: int, total: int, iovs: i32, i: int, n: int) -> (Seq<u8>, int, int)
    decreases n - i,
{
    if i >= n || i < 0 {
        (mem, pos, total)
    } else {
        let base = iovs + i * 8;
        let p = get32(mem, base as i32) as i32;
        let l = get32(mem, (base + 4) as i32) as int;
        let avail = if wad.len() > pos { wad.len() - pos } else { 0 };
        let take = if l < avail { l } else { avail };
        if take > 0 {
            read_iovs(put(mem, p, wad.subrange(pos, pos + take)), wad, pos + take, total + take, iovs, i + 1, n)
        } else {
            read_iovs(mem, wad, pos, total, iovs, i + 1, n)
        }
    }
}

/// The iovec table of `n` entries at `iovs` can be walked in `i32`.
pub open spec fn iovs_ok(iovs: i32, n: i32) -> bool {
    n <= 0 || ((n - 1) * 8 + 4 <= i32::MAX && i32::MIN <= iovs + (n - 1) * 8 + 4 <= i32::MAX)
}

proof fn lemma_read_iovs_pos(mem: Seq<u8>, wad: Seq<u8>, pos: int, total: int, iovs: i32, i: int, n: int)
    requires
        0 <= pos <= wad.len(),
        0 <= total,
    ensures
        ({
            let r = read_iovs(mem, wad, pos, total, iovs, i, n);
            pos <= r.1 <= wad.len() && r.2 - total == r.1 - pos
        }),
    decreases n - i,
{
    if !(i >= n || i < 0) {
        let base = iovs + i * 8;
        let p = get32(mem, base as i32) as i32;
        let l = get32(mem, (base + 4) as i32) as int;
        let avail = if wad.len() > pos { wad.len() - pos } else { 0 };
        let take = if l < avail { l } else { avail };
        if take > 0 {
            lemma_read_iovs_pos(put(mem, p, wad.subrange(pos, pos + take)), wad, pos + take, total + take, iovs, i + 1, n);
        } else {
            lemma_read_iovs_pos(mem, wad, pos, total, iovs, i + 1, n);
        }
    }
}

/// `fd_read`: fill the guest's iovecs from the open game data and store
/// the byte count at `nread`. `BADF`, changing nothing, for any other
/// descriptor.
pub fn fd_read(st: &mut WasiState, wad: &[u8], mem: &mut [u8], fd: i32, iovs: i32, n: i32, nread: i32) -> (e: i32)
    requires
        wad@.len() <= u32::MAX,
        old(st).wad_pos <= wad@.len(),
        iovs_ok(iovs, n),
    ensures
        fd != old(st).wad_fd ==> e == BADF && *final(st) == *old(st) && final(mem)@ == old(mem)@,
        fd == old(st).wad_fd ==> {
            let r = read_iovs(old(mem)@, wad@, old(st).wad_pos as int, 0, iovs, 0, n as int);
            &&& e == OK
            &&& *final(st) == (WasiState { wad_pos: r.1 as usize, ..*old(st) })
            &&& final(mem)@ == put(r.0, nread, le32(r.2 as u32))
        },
{
    if fd != st.wad_fd {
        return BADF;
    }
    let wlen = wad.len();
    let mut pos = st.wad_pos;
    let mut total: u32 = 0;
    let mut i: i32 = 0;
    let ghost goal = read_iovs(old(mem)@, wad@, old(st).wad_pos as int, 0, iovs, 0, n as int);
    proof {
        lemma_read_iovs_pos(old(mem)@, wad@, old(st).wad_pos as int, 0, iovs, 0, n as int);
    }
    while i < n
        invariant
            wlen == wad@.len(),
            wlen <= u32::MAX,
            iovs_ok(iovs, n),
            0 <= i,
            i < n ==> i <= n,
            n <= 0 ==> i == 0,
            st.wad_fd == old(st).wad_fd,
            *st == *old(st),
            old(st).wad_pos <= pos <= wlen,
            total as int == pos - old(st).wad_pos,
            goal == read_iovs(old(mem)@, wad@, old(st).wad_pos as int, 0, iovs, 0, n as int),
            goal == read_iovs(mem@, wad@, pos as int, total as int, iovs, i as int, n as int),
        decreases n - i,
    {
        proof {
            lemma_read_iovs_pos(mem@, wad@, pos as int, total as int, iovs, i as int, n as int);
            assert(i * 8 <= (n - 1) * 8) by (nonlinear_arith)
                requires
                    0 <= i < n,
            ;
        }
        let base = iovs + i * 8;
        let p = ru32(&*mem, base) as i32;
        let l = ru32(&*mem, base + 4) as usize;
        let avail = if wlen > pos { wlen - pos } else { 0 };
        let take = if l < avail { l } else { avail };
        if take > 0 {
            wr(mem, p, &wad[pos..pos + take]);
            pos += take;
            total += take as u32;
        }
        i += 1;
    }
    proof {
        assert(goal == (mem@, pos as int, total as int));
    }
    st.wad_pos = pos;
    wu32(mem, nread, total);
    OK
}

/// The log output and byte count of the iovec writes from entry `i` on:
/// every entry's length counts (wrapping at 2^32); for standard output and
/// error the first 512 bytes of its buffer are logged when they fit in
/// memory and are UTF-8.
pub open spec fn write_iovs(mem: Seq<u8>, fd: i32, iovs: i32, i: int, n: int, total: u32) -> (u32, Seq<u8>)
    decreases n - i,
{
    if i >= n || i < 0 {
        (total, Seq::empty())
    } else {
        let base = iovs + i * 8;
        let p = get32(mem, base as i32) as i32;
        let l = get32(mem, (base + 4) as i32);
        let take = if l < 512 { l as int } else { 512 };
        let chunk = if fd == 1 || fd == 2 {
            match get(mem, p, take) {
                Some(c) => if vstd::utf8::valid_utf8(c) { c } else { Seq::empty() },
                None => Seq::empty(),
            }
        } else {
            Seq::empty()
        };
        let rest = write_iovs(mem, fd, iovs, i + 1, n, total.wrapping_add(l));
        (rest.0, chunk + rest.1)
    }
}

/// `fd_write`: count the bytes of the guest's iovecs, store the count at
/// `nwritten`, and give back what goes to the log.
pub fn fd_write(mem: &mut [u8], fd: i32, iovs: i32, n: i32, nwritten: i32) -> (r: (i32, Vec<u8>))
    requires
        iovs_ok(iovs, n),
    ensures
        r.0 == OK,
        r.1@ == write_iovs(old(mem)@, fd, iovs, 0, n as int, 0).1,
        final(mem)@ == put(old(mem)@, nwritten, le32(write_iovs(old(mem)@, fd, iovs, 0, n as int, 0).0)),
{
    let mut total: u32 = 0;
    let mut out: Vec<u8> = Vec::new();
    let mut i: i32 = 0;
    let ghost goal = write_iovs(mem@, fd, iovs, 0, n as int, 0);
    while i < n
        invariant
            iovs_ok(iovs, n),
            0 <= i,
            n <= 0 ==> i == 0,
            i > 0 ==> i <= n,
            mem@ == old(mem)@,
            goal == write_iovs(old(mem)@, fd, iovs, 0, n as int, 0),
            goal.0 == write_iovs(mem@, fd, iovs, i as int, n as int, total).0,
            goal.1 == out@ + write_iovs(mem@, fd, iovs, i as int, n as int, total).1,
        decreases n - i,
    {
        proof {
            assert(i * 8 <= (n - 1) * 8) by (nonlinear_arith)
                requires
                    0 <= i < n,
            ;
        }
        let base = iovs + i * 8;
        let p = ru32(&*mem, base) as i32;
        let l = ru32(&*mem, base + 4);
        let ghost before = out@;
        total = total.wrapping_add(l);
        if fd == 1 || fd == 2 {
            let take: usize = if l < 512 { l as usize } else { 512 };
            match rd(&*mem, p, take) {
                Some(c) => {
                    if is_utf8(c.as_slice()) {
                        crate::bytes::push_all(&mut out, c.as_slice());
                    }
                },
                None => {},
            }
        }
        proof {
            let rest = write_iovs(mem@, fd, iovs, i + 1, n as int, total);
            assert(goal.1 =~= out@ + rest.1);
        }
        i += 1;
    }
    proof {
        assert(out@ + Seq::<u8>::empty() =~= out@);
    }
    wu32(mem, nwritten, total);
    (OK, out)
}

/// Where a seek from `base` by `offset` lands: clamped to `[0, len]`.
pub open spec fn seek_spec(base: int, offset: int, len: int) -> int {
    if base + offset < 0 { 0 } else if base + offset > len { len } else { base + offset }
}

/// The position a seek is relative to: the start, the current position or
/// the end; none for another `whence`.
pub open spec fn seek_base(whence: i32, cur: int, len: int) -> Option<int> {
    if whence == 0 { Some(0) } else if whence == 1 { Some(cur) } else if whence == 2 { Some(len) } else { None }
}

/// `fd_seek` on the game data: move the position and store it at `newoff`.
/// `BADF` for another descriptor and `INVAL` for an unknown `whence`, both
/// changing nothing.
pub fn fd_seek(st: &mut WasiState, wad_len: usize, mem: &mut [u8], fd: i32, offset: i64, whence: i32, newoff: i32) -> (e: i32)
    requires
        old(st).wad_pos <= wad_len <= i64::MAX,
        match seek_base(whence, old(st).wad_pos as int, wad_len as int) {
            Some(b) => i64::MIN <= b + offset <= i64::MAX,
            None => true,
        },
    ensures
        fd != old(st).wad_fd ==> e == BADF && *final(st) == *old(st) && final(mem)@ == old(mem)@,
        fd == old(st).wad_fd ==> match seek_base(whence, old(st).wad_pos as int, wad_len as int) {
            None => e == INVAL && *final(st) == *old(st) && final(mem)@ == old(mem)@,
            Some(b) => {
                let np = seek_spec(b, offset as int, wad_len as int);
                &&& e == OK
                &&& *final(st) == (WasiState { wad_pos: np as usize, ..*old(st) })
                &&& final(mem)@ == put(old(mem)@, newoff, le64(np as u64))
            },
        },
{
    if fd != st.wad_fd {
        return BADF;
    }
    let len = wad_len as i64;
    let cur = st.wad_pos as i64;
    let base: i64 = if whence == 0 {
        0
    } else if whence == 1 {
        cur
    } else if whence == 2 {
        len
    } else {
        return INVAL;
    };
    let t = base + offset;
    let np: i64 = if t < 0 { 0 } else if t > len { len } else { t };
    st.wad_pos = np as usize;
    wu64(mem, newoff, np as u64);
    OK
}

/// `fd_tell`: store the game data's position at `off`; `BADF`, changing
/// nothing, for another descriptor.
pub fn fd_tell(st: &WasiState, mem: &mut [u8], fd: i32, off: i32) -> (e: i32)
    ensures
        fd != st.wad_fd ==> e == BADF && final(mem)@ == old(mem)@,
        fd == st.wad_fd ==> e == OK && final(mem)@ == put(old(mem)@, off, le64(st.wad_pos as u64)),
{
    if fd != st.wad_fd {
        return BADF;
    }
    wu64(mem, off, st.wad_pos as u64);
    OK
}

/// `fd_close`: closing the game data's descriptor closes it; any other
/// descriptor is accepted as is.
pub fn fd_close(st: &mut WasiState, fd: i32) -> (e: i32)
    ensures
        e == OK,
        *final(st) == (if fd == old(st).wad_fd { WasiState { wad_fd: -1i32, ..*old(st) } } else { *old(st) }),
{
    if fd == st.wad_fd {
        st.wad_fd = -1;
    }
    OK
}

/// The file type `fd_fdstat_get` reports: the game data is a regular file,
/// the preopen a directory, stdio character devices; others are not open.
pub open spec fn file_type(st: WasiState, fd: i32) -> Option<u8> {
    if fd == st.wad_fd {
        Some(FT_REG)
    } else if fd == PREOPEN_FD {
        Some(FT_DIR)
    } else if 0 <= fd <= 2 {
        Some(FT_CHAR)
    } else {
        None
    }
}

/// `fd_fdstat_get`: the file type at `buf`, zero flags at `buf + 2` and
/// all rights at `buf + 8` and `buf + 16`; `BADF`, changing nothing, for a
/// descriptor that is not open.
pub fn fd_fdstat_get(st: &WasiState, mem: &mut [u8], fd: i32, buf: i32) -> (e: i32)
    requires
        file_type(*st, fd) is Some ==> buf <= i32::MAX - 16,
    ensures
        match file_type(*st, fd) {
            None => e == BADF && final(mem)@ == old(mem)@,
            Some(ft) => e == OK && final(mem)@ == put(
                put(put(put(old(mem)@, buf, seq![ft]), (buf + 2) as i32, le32(0)), (buf + 8) as i32, le64(u64::MAX)),
                (buf + 16) as i32,
                le64(u64::MAX),
            ),
        },
{
    let ft: u8 = if fd == st.wad_fd {
        FT_REG
    } else if fd == PREOPEN_FD {
        FT_DIR
    } else if 0 <= fd && fd <= 2 {
        FT_CHAR
    } else {
        return BADF;
    };
    let one: [u8; 1] = [ft];
    proof {
        assert(one@ =~= seq![ft]);
    }
    wr(mem, buf, &one);
    wu32(mem, buf + 2, 0);
    wu64(mem, buf + 8, u64::MAX);
    wu64(mem, buf + 16, u64::MAX);
    OK
}

/// `fd_prestat_get`: the preopen is a directory whose name is one byte
/// long; `BADF`, changing nothing, for any other descriptor.
pub fn fd_prestat_get(mem: &mut [u8], fd: i32, buf: i32) -> (e: i32)
    requires
        fd == PREOPEN_FD ==> buf <= i32::MAX - 4,
    ensures
        fd != PREOPEN_FD ==> e == BADF && final(mem)@ == old(mem)@,
        fd == PREOPEN_FD ==> e == OK && final(mem)@ == put(put(old(mem)@, buf, seq![0u8]), (buf + 4) as i32, le32(1)),
{
    if fd != PREOPEN_FD {
        return BADF;
    }
    let zero: [u8; 1] = [0u8];
    proof {
        assert(zero@ =~= seq![0u8]);
    }
    wr(mem, buf, &zero);
    wu32(mem, buf + 4, 1);
    OK
}

/// `fd_prestat_dir_name`: the preopen is `/`; `BADF`, changing nothing, for
/// another descriptor or no room.
pub fn fd_prestat_dir_name(mem: &mut [u8], fd: i32, path: i32, path_len: i32) -> (e: i32)
    ensures
        (fd != PREOPEN_FD || path_len < 1) ==> e == BADF && final(mem)@ == old(mem)@,
        !(fd != PREOPEN_FD || path_len < 1) ==> e == OK && final(mem)@ == put(old(mem)@, path, seq![0x2Fu8]),
{
    if fd != PREOPEN_FD || path_len < 1 {
        return BADF;
    }
    let slash: [u8; 1] = [0x2Fu8];
    proof {
        assert(slash@ =~= seq![0x2Fu8]);
    }
    wr(mem, path, &slash);
    OK
}

/// `path_open`: opening the game data, while it is not open already, hands
/// out [`WAD_FD`] at position 0 and stores it at `opened`; anything else
/// is `NOENT`, changing nothing.
pub fn path_open(st: &mut WasiState, wad_len: usize, mem: &mut [u8], path: i32, plen: i32, opened: i32) -> (e: i32)
    ensures
        ({
            let hit = wad_len > 0 && old(st).wad_fd < 0 && wad_path_spec(old(mem)@, path, plen);
            &&& hit ==> e == OK && *final(st) == (WasiState { wad_fd: WAD_FD, wad_pos: 0usize, ..*old(st) })
                && final(mem)@ == put(old(mem)@, opened, le32(WAD_FD as u32))
            &&& !hit ==> e == NOENT && *final(st) == *old(st) && final(mem)@ == old(mem)@
        }),
{
    if wad_len > 0 && st.wad_fd < 0 && is_wad_path(&*mem, path, plen) {
        st.wad_fd = WAD_FD;
        st.wad_pos = 0;
        wu32(mem, opened, WAD_FD as u32);
        OK
    } else {
        NOENT
    }
}

/// The guest memory after zeroing the eight 64-bit words from `buf`, from
/// word `k` on.
pub open spec fn zero_words(mem: Seq<u8>, buf: i32, k: int) -> Seq<u8>
    decreases 8 - k,
{
    if k >= 8 || k < 0 {
        mem
    } else {
        zero_words(put(mem, (buf + k * 8) as i32, le64(0)), buf, k + 1)
    }
}

/// `path_filestat_get` for the game data: a zeroed 64-byte record with the
/// regular-file type at `buf + 16` and the size at `buf + 32`; `NOENT`,
/// changing nothing, for any other path.
pub fn path_filestat_get(wad_len: usize, mem: &mut [u8], path: i32, plen: i32, buf: i32) -> (e: i32)
    requires
        wad_len > 0 && wad_path_spec(old(mem)@, path, plen) ==> buf <= i32::MAX - 56,
    ensures
        ({
            let hit = wad_len > 0 && wad_path_spec(old(mem)@, path, plen);
            &&& hit ==> e == OK && final(mem)@ == put(
                put(zero_words(old(mem)@, buf, 0), (buf + 16) as i32, seq![FT_REG]),
                (buf + 32) as i32,
                le64(wad_len as u64),
            )
            &&& !hit ==> e == NOENT && final(mem)@ == old(mem)@
        }),
{
    if wad_len > 0 && is_wad_path(&*mem, path, plen) {
        let ghost start = mem@;
        let mut k: i32 = 0;
        while k < 8
            invariant
                0 <= k <= 8,
                buf <= i32::MAX - 56,
                zero_words(start, buf, 0) == zero_words(mem@, buf, k as int),
            decreases 8 - k,
        {
            wu64(mem, buf + k * 8, 0);
            k += 1;
        }
        let ft: [u8; 1] = [FT_REG];
        proof {
            assert(ft@ =~= seq![FT_REG]);
        }
        wr(mem, buf + 16, &ft);
        wu64(mem, buf + 32, wad_len as u64);
        OK
    } else {
        NOENT
    }
}

/// `clock_time_get`: nanoseconds since boot, from the 4 ms timer ticks, at
/// `out`.
pub fn clock_time_get(mem: &mut [u8], out: i32, ticks: u64) -> (e: i32)
    requires
        ticks * 4 * 1_000_000 <= u64::MAX,
    ensures
        e == OK,
        final(mem)@ == put(old(mem)@, out, le64((ticks * 4 * 1_000_000) as u64)),
{
    let ns = (ticks * 4) * 1_000_000;
    wu64(mem, out, ns);
    OK
}

/// One step of the xorshift generator.
pub open spec fn xorshift(x: u32) -> u32 {
    let a = x ^ (x << 13u32);
    let b = a ^ (a >> 17u32);
    b ^ (b << 5u32)
}

/// Guest memory and generator state after filling bytes `i..len` from
/// `buf`, each the low byte of the next xorshift value.
pub open spec fn random_fill(mem: Seq<u8>, x: u32, buf: i32, i: int, len: int) -> (Seq<u8>, u32)
    decreases len - i,
{
    if i >= len || i < 0 {
        (mem, x)
    } else {
        let y = xorshift(x);
        random_fill(put(mem, (buf + i) as i32, seq![y as u8]), y, buf, i + 1, len)
    }
}

/// The generator's first state: its saved state, or, before first use, the
/// timer ticks with the low bit set.
pub open spec fn seed(rng: u32, ticks: u64) -> u32 {
    if rng == 0 { (ticks as u32) | 1u32 } else { rng }
}

/// `random_get`: fill `len` guest bytes from `buf` with the generator's
/// output and keep its state.
pub fn random_get(st: &mut WasiState, mem: &mut [u8], buf: i32, len: i32, ticks: u64) -> (e: i32)
    requires
        len <= 0 || buf + (len - 1) <= i32::MAX,
    ensures
        ({
            let r = random_fill(old(mem)@, seed(old(st).rng, ticks), buf, 0, len as int);
            &&& e == OK
            &&& final(mem)@ == r.0
            &&& *final(st) == (WasiState { rng: r.1, ..*old(st) })
        }),
{
    let mut x = st.rng;
    if x == 0 {
        x = (ticks as u32) | 1;
    }
    let ghost goal = random_fill(old(mem)@, seed(old(st).rng, ticks), buf, 0, len as int);
    let mut i: i32 = 0;
    while i < len
        invariant
            len <= 0 || buf + (len - 1) <= i32::MAX,
            0 <= i,
            len <= 0 ==> i == 0,
            i > 0 ==> i <= len,
            *st == *old(st),
            goal == random_fill(mem@, x, buf, i as int, len as int),
        decreases len - i,
    {
        x ^= x << 13u32;
        x ^= x >> 17u32;
        x ^= x << 5u32;
        let b: [u8; 1] = [x as u8];
        proof {
            assert(b@ =~= seq![x as u8]);
        }
        wr(mem, buf + i, &b);
        i += 1;
    }
    st.rng = x;
    OK
}

/// `args_sizes_get`: one argument, five bytes with its terminator.
pub fn args_sizes_get(mem: &mut [u8], argc: i32, buf_size: i32) -> (e: i32)
    ensures
        e == OK,
        final(mem)@ == put(put(old(mem)@, argc, le32(1)), buf_size, le32(5)),
{
    wu32(mem, argc, 1);
    wu32(mem, buf_size, 5);
    OK
}

/// `args_get`: the argument `doom` (NUL-terminated) at `argv_buf`, and its
/// address at `argv`.
pub fn args_get(mem: &mut [u8], argv: i32, argv_buf: i32) -> (e: i32)
    ensures
        e == OK,
        final(mem)@ == put(put(old(mem)@, argv_buf, "doom\0".spec_bytes()), argv, le32(argv_buf as u32)),
{
    wr(mem, argv_buf, "doom\0".as_bytes());
    wu32(mem, argv, argv_buf as u32);
    OK
}

/// `environ_sizes_get`: no environment.
pub fn environ_sizes_get(mem: &mut [u8], count: i32, buf_size: i32) -> (e: i32)
    ensures
        e == OK,
        final(mem)@ == put(put(old(mem)@, count, le32(0)), buf_size, le32(0)),
{
    wu32(mem, count, 0);
    wu32(mem, buf_size, 0);
    OK
}

// ---- drawing ----

/// The colour a packed `0xRRGGBB` value names.
pub open spec fn rgb_spec(packed: i32) -> Color {
    let p = packed as u32;
    Color { r: (p >> 16u32) as u8, g: (p >> 8u32) as u8, b: p as u8 }
}

pub fn rgb(packed: i32) -> (c: Color)
    ensures
        c == rgb_spec(packed),
{
    let p = packed as u32;
    Color::rgb((p >> 16u32) as u8, (p >> 8u32) as u8, p as u8)
}

/// Where a guest's drawing lands: its surface's origin on the screen and
/// the size it is clipped to.
#[derive(Clone, Copy, PartialEq, Eq, Debug, Structural)]
pub struct Surface {
    pub ox: i32,
    pub oy: i32,
    pub cw: i32,
    pub ch: i32,
}

/// The screen rectangle `(x, y, w, h)` a guest fill of `(x, y, w, h)`
/// paints: moved by the origin and cut to the surface; none when nothing
/// is left.
pub open spec fn fill_box(s: Surface, x: int, y: int, w: int, h: int) -> Option<(int, int, int, int)> {
    let x0 = if s.ox + x > s.ox { s.ox + x } else { s.ox as int };
    let y0 = if s.oy + y > s.oy { s.oy + y } else { s.oy as int };
    let x1 = if s.ox + x + w < s.ox + s.cw { s.ox + x + w } else { s.ox + s.cw };
    let y1 = if s.oy + y + h < s.oy + s.ch { s.oy + y + h } else { s.oy + s.ch };
    if x1 > x0 && y1 > y0 {
        Some((if x0 > 0 { x0 } else { 0 }, if y0 > 0 { y0 } else { 0 }, x1 - x0, y1 - y0))
    } else {
        None
    }
}

/// Every intermediate value of a guest fill is an `i32`.
pub open spec fn fill_ok(s: Surface, x: i32, y: i32, w: i32, h: i32) -> bool {
    &&& i32::MIN <= s.ox + x && s.ox + x + w <= i32::MAX && i32::MIN <= s.ox + x + w
    &&& s.ox + x <= i32::MAX
    &&& i32::MIN <= s.oy + y && s.oy + y + h <= i32::MAX && i32::MIN <= s.oy + y + h
    &&& s.oy + y <= i32::MAX
    &&& i32::MIN <= s.ox + s.cw <= i32::MAX
    &&& i32::MIN <= s.oy + s.ch <= i32::MAX
}

/// `host.fill_rect`: fill a guest rectangle in colour `color`, moved by the
/// surface origin and clipped to the surface.
pub fn host_fill(c: &mut Canvas, s: Surface, x: i32, y: i32, w: i32, h: i32, color: i32)
    requires
        old(c).wf(),
        fill_ok(s, x, y, w, h),
    ensures
        final(c).info == old(c).info,
        match fill_box(s, x as int, y as int, w as int, h as int) {
            None => final(c).buf@ == old(c).buf@,
            Some(b) => painted(
                old(c).info,
                old(c).buf@,
                final(c).buf@,
                b.0,
                clip_end(b.0, b.2, old(c).info.width as int),
                b.1,
                clip_end(b.1, b.3, old(c).info.height as int),
                fill_bytes(old(c).info.pixel_format, old(c).info.bytes_per_pixel as int, rgb_spec(color)),
            ),
        },
{
    let x0 = if s.ox + x > s.ox { s.ox + x } else { s.ox };
    let y0 = if s.oy + y > s.oy { s.oy + y } else { s.oy };
    let x1 = if s.ox + x + w < s.ox + s.cw { s.ox + x + w } else { s.ox + s.cw };
    let y1 = if s.oy + y + h < s.oy + s.ch { s.oy + y + h } else { s.oy + s.ch };
    if x1 > x0 && y1 > y0 {
        let px: usize = if x0 > 0 { x0 as usize } else { 0 };
        let py: usize = if y0 > 0 { y0 as usize } else { 0 };
        c.fill_rect(px, py, (x1 - x0) as usize, (y1 - y0) as usize, rgb(color));
    }
}

/// A guest on a surface placed on the screen cannot paint past it: the
/// rectangle a fill paints lies inside the surface.
pub proof fn lemma_fill_stays_in_surface(s: Surface, x: int, y: int, w: int, h: int)
    requires
        s.ox >= 0,
        s.oy >= 0,
        fill_box(s, x, y, w, h) is Some,
    ensures
        ({
            let b = fill_box(s, x, y, w, h).unwrap();
            &&& s.ox <= b.0 && b.0 + b.2 <= s.ox + s.cw
            &&& s.oy <= b.1 && b.1 + b.3 <= s.oy + s.ch
        }),
{
}

// ---- input queue ----

/// Slots of the guest input queue; it holds one event fewer.
pub const EV_CAP: usize = 128;

/// An input event for a guest: a key (`kind` 1, `a` the code) or a pointer
/// (`kind` 2, `a` and `b` the position, `c` the buttons).
#[derive(Clone, Copy, PartialEq, Eq, Debug, Structural)]
pub struct Ev {
    pub kind: u8,
    pub a: i32,
    pub b: i32,
    pub c: i32,
}

/// The guest's pending input, oldest first, in a ring of [`EV_CAP`] slots.
pub struct EventQueue {
    slots: Vec<Ev>,
    head: usize,
    tail: usize,
}

impl EventQueue {
    /// The ring is well formed: its slots and two indices in range.
    pub closed spec fn wf(&self) -> bool {
        &&& self.slots@.len() == EV_CAP
        &&& self.head < EV_CAP
        &&& self.tail < EV_CAP
    }

    /// Number of pending events.
    pub closed spec fn count(&self) -> int {
        if self.head >= self.tail { self.head - self.tail } else { self.head + EV_CAP - self.tail }
    }

    /// The pending events, oldest first.
    pub closed spec fn pending(&self) -> Seq<Ev> {
        Seq::new(self.count() as nat, |k: int| self.slots@[(self.tail + k) % (EV_CAP as int)])
    }

    pub fn new() -> (q: Self)
        ensures
            q.wf(),
            q.pending() == Seq::<Ev>::empty(),
    {
        let mut slots: Vec<Ev> = Vec::new();
        let mut k: usize = 0;
        while k < EV_CAP
            invariant
                k <= EV_CAP,
                slots@.len() == k,
            decreases EV_CAP - k,
        {
            slots.push(Ev { kind: 0, a: 0, b: 0, c: 0 });
            k += 1;
        }
        let q = EventQueue { slots, head: 0, tail: 0 };
        assert(q.pending() =~= Seq::<Ev>::empty());
        q
    }

    /// Queue `ev` behind the pending events; when [`EV_CAP`] − 1 are pending
    /// the event is dropped and `false` returned.
    pub fn push(&mut self, ev: Ev) -> (ok: bool)
        requires
            old(self).wf(),
        ensures
            final(self).wf(),
            ok == (old(self).pending().len() < EV_CAP - 1),
            ok ==> final(self).pending() == old(self).pending().push(ev),
            !ok ==> final(self).pending() == old(self).pending(),
    {
        let next = (self.head + 1) % EV_CAP;
        if next == self.tail {
            return false;
        }
        let ghost before = self.pending();
        self.slots.set(self.head, ev);
        self.head = next;
        proof {
            assert forall|k: int| 0 <= k < before.len() implies #[trigger] self.pending()[k] == before[k] by {
                let i = (self.tail + k) % (EV_CAP as int);
                assert(i != old(self).head as int);
            }
            assert(self.pending()[before.len() as int] == ev);
            assert(self.pending() =~= before.push(ev));
        }
        true
    }

    /// Take the oldest pending event, if any.
    pub fn pop(&mut self) -> (r: Option<Ev>)
        requires
            old(self).wf(),
        ensures
            final(self).wf(),
            old(self).pending().len() == 0 ==> r is None && final(self).pending() == old(self).pending(),
            old(self).pending().len() > 0 ==> r == Some(old(self).pending()[0]) && final(self).pending()
                == old(self).pending().drop_first(),
    {
        if self.tail == self.head {
            return None;
        }
        let ev = self.slots[self.tail];
        let ghost before = self.pending();
        assert(ev == before[0]);
        self.tail = (self.tail + 1) % EV_CAP;
        proof {
            assert forall|k: int| 0 <= k < before.len() - 1 implies #[trigger] self.pending()[k] == before[k + 1] by {
                let t = old(self).tail as int;
                assert((self.tail + k) % (EV_CAP as int) == (t + (k + 1)) % (EV_CAP as int)) by {
                    if t + 1 < EV_CAP {
                    } else {
                    }
                }
            }
            assert(self.pending() =~= before.drop_first());
        }
        Some(ev)
    }
}

/// The input queue is first in, first out: pushing `e1` and then `e2` onto
/// a queue holding `pending`, with room for both, leaves the earlier events
/// at the front, then `e1`, then `e2`; `pop` takes from the front.
pub proof fn lemma_queue_fifo(pending: Seq<Ev>, e1: Ev, e2: Ev)
    requires
        pending.len() + 2 < EV_CAP,
    ensures
        pending.push(e1).push(e2).subrange(pending.len() as int, pending.len() + 2int) == seq![e1, e2],
        pending.push(e1).push(e2).subrange(0, pending.len() as int) == pending,
{
    assert(pending.push(e1).push(e2).subrange(pending.len() as int, pending.len() + 2int) =~= seq![e1, e2]);
    assert(pending.push(e1).push(e2).subrange(0, pending.len() as int) =~= pending);
}

} // verus!
