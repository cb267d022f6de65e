//! OJFS: a tiny flat filesystem over a fixed byte image.
//!
//! The kernel owns the storage; this module is the format logic that reads and
//! edits the image in place. Layout: a 4-byte magic, then [`MAX_FILES`] fixed
//! records `[state:1][flags:1][parent:1][name_len:1][name:16][size:2 LE][data:1024]`.
//! `flags` bit 0 marks a directory; `parent` is the slot of the containing
//! directory ([`ROOT`] for the top level).
use vstd::prelude::*;
use crate::bytes::{copy_into, splice};

verus! {

/// Parent value for items at the top level (no containing directory).
pub const ROOT: u8 = 0xFF;
/// Maximum number of files.
pub const MAX_FILES: usize = 48;
/// Maximum file-name length in bytes.
pub const MAX_NAME: usize = 16;
/// Maximum file payload in bytes.
pub const MAX_FILE_SIZE: usize = 1024;

/// Record header: state, flags, parent, name length, name, size.
pub const HEADER: usize = 22;
pub const OFF_FLAGS: usize = 1;
pub const OFF_PARENT: usize = 2;
pub const OFF_NAMELEN: usize = 3;
pub const OFF_NAME: usize = 4;
pub const OFF_SIZE: usize = 20;
/// Bytes per record.
pub const REC_SIZE: usize = 1046;
/// Total image size in bytes. The backing store must be at least this big.
pub const IMAGE_SIZE: usize = 50212;

/// Record states (the record's first byte).
pub const ST_FREE: u8 = 0;
pub const ST_ACTIVE: u8 = 1;
pub const ST_TRASHED: u8 = 2;

/// Why a filesystem operation failed.
#[derive(Clone, Copy, PartialEq, Eq, Debug, Structural)]
pub enum FsError {
    NotFormatted,
    NameTooLong,
    EmptyName,
    TooBig,
    NoSpace,
    NotFound,
}

/// The magic `OJF2` marking a formatted image.
pub open spec fn magic() -> Seq<u8> {
    seq![0x4Fu8, 0x4Au8, 0x46u8, 0x32u8]
}

/// Byte offset of record `i`.
pub open spec fn off(i: int) -> int {
    4 + i * REC_SIZE
}

fn rec_off(i: usize) -> (o: usize)
    requires
        i < MAX_FILES,
    ensures
        o == off(i as int),
        o + REC_SIZE <= IMAGE_SIZE,
{
    4 + i * REC_SIZE
}

pub open spec fn formatted(img: Seq<u8>) -> bool {
    img.len() >= IMAGE_SIZE && img.subrange(0, 4) == magic()
}

pub open spec fn state(img: Seq<u8>, i: int) -> u8 {
    img[off(i)]
}

pub open spec fn used(img: Seq<u8>, i: int) -> bool {
    0 <= i < MAX_FILES && state(img, i) != ST_FREE
}

pub open spec fn active(img: Seq<u8>, i: int) -> bool {
    0 <= i < MAX_FILES && state(img, i) == ST_ACTIVE
}

pub open spec fn trashed(img: Seq<u8>, i: int) -> bool {
    0 <= i < MAX_FILES && state(img, i) == ST_TRASHED
}

pub open spec fn dir(img: Seq<u8>, i: int) -> bool {
    used(img, i) && img[off(i) + OFF_FLAGS] % 2 == 1
}

pub open spec fn parent(img: Seq<u8>, i: int) -> u8 {
    if used(img, i) { img[off(i) + OFF_PARENT] } else { ROOT }
}

pub open spec fn name(img: Seq<u8>, i: int) -> Seq<u8> {
    if used(img, i) {
        let len = img[off(i) + OFF_NAMELEN] as int;
        img.subrange(off(i) + OFF_NAME, off(i) + OFF_NAME + (if len < MAX_NAME { len } else { MAX_NAME as int }))
    } else {
        Seq::empty()
    }
}

pub open spec fn size(img: Seq<u8>, i: int) -> int {
    if used(img, i) { img[off(i) + OFF_SIZE] + 256 * img[off(i) + OFF_SIZE + 1] } else { 0 }
}

/// The payload of slot `i` (its first `size` data bytes).
pub open spec fn payload(img: Seq<u8>, i: int) -> Seq<u8> {
    img.subrange(off(i) + HEADER, off(i) + HEADER + size(img, i))
}

/// Slot `i`'s payload lies inside the image.
pub open spec fn payload_fits(img: Seq<u8>, i: int) -> bool {
    off(i) + HEADER + size(img, i) <= img.len()
}

/// Number of slots in `[from, MAX_FILES)` whose state byte satisfies `p`.
pub open spec fn count_from(img: Seq<u8>, from: int, p: spec_fn(u8) -> bool) -> nat
    decreases MAX_FILES - from,
{
    if from >= MAX_FILES || from < 0 {
        0
    } else {
        count_from(img, from + 1, p) + (if p(state(img, from)) { 1nat } else { 0nat })
    }
}

/// The first active slot at or after `from` named `nm` directly inside `par`.
pub open spec fn find_from(img: Seq<u8>, par: u8, nm: Seq<u8>, from: int) -> Option<int>
    decreases MAX_FILES - from,
{
    if from >= MAX_FILES || from < 0 {
        None
    } else if active(img, from) && parent(img, from) == par && name(img, from) == nm {
        Some(from)
    } else {
        find_from(img, par, nm, from + 1)
    }
}

/// The first free slot at or after `from`.
pub open spec fn free_from(img: Seq<u8>, from: int) -> Option<int>
    decreases MAX_FILES - from,
{
    if from >= MAX_FILES || from < 0 {
        None
    } else if !used(img, from) {
        Some(from)
    } else {
        free_from(img, from + 1)
    }
}

proof fn lemma_flag_bit(b: u8)
    ensures
        (b & 1u8 != 0) == (b % 2 == 1),
{
    assert((b & 1u8 != 0) == (b % 2 == 1)) by (bit_vector);
}

/// Write a fresh, empty filesystem into `img`.
pub fn format(img: &mut [u8])
    requires
        old(img)@.len() >= IMAGE_SIZE,
    ensures
        final(img)@.len() == old(img)@.len(),
        formatted(final(img)@),
        forall|i: int| 0 <= i < MAX_FILES ==> #[trigger] state(final(img)@, i) == ST_FREE,
        forall|k: int| 4 <= k < final(img)@.len() && !(exists|i: int| 0 <= i < MAX_FILES && k == off(i))
            ==> final(img)@[k] == old(img)@[k],
{
    img[0] = 0x4F;
    img[1] = 0x4A;
    img[2] = 0x46;
    img[3] = 0x32;
    let mut i: usize = 0;
    while i < MAX_FILES
        invariant
            img@.len() == old(img)@.len(),
            img@.len() >= IMAGE_SIZE,
            i <= MAX_FILES,
            img@.subrange(0, 4) == magic(),
            forall|j: int| 0 <= j < i ==> #[trigger] state(img@, j) == ST_FREE,
            forall|k: int| 4 <= k < img@.len() && !(exists|j: int| 0 <= j < MAX_FILES && k == off(j))
                ==> img@[k] == old(img)@[k],
        decreases MAX_FILES - i,
    {
        let o = rec_off(i);
        let ghost before = img@;
        img[o] = 0;
        assert(img@.subrange(0, 4) =~= magic());
        assert forall|j: int| 0 <= j < i + 1 implies #[trigger] state(img@, j) == ST_FREE by {
            if j < i {
                assert(state(before, j) == ST_FREE);
                assert(off(j) != off(i as int));
            }
        }
        i += 1;
    }
}

/// True if `img` holds a formatted filesystem.
pub fn is_formatted(img: &[u8]) -> (b: bool)
    ensures
        b == formatted(img@),
{
    if img.len() < IMAGE_SIZE {
        return false;
    }
    let b = img[0] == 0x4F && img[1] == 0x4A && img[2] == 0x46 && img[3] == 0x32;
    proof {
        if b {
            assert(img@.subrange(0, 4) =~= magic());
        } else {
            if img@.subrange(0, 4) == magic() {
                assert(img@.subrange(0, 4)[0] == img@[0]);
                assert(img@.subrange(0, 4)[1] == img@[1]);
                assert(img@.subrange(0, 4)[2] == img@[2]);
                assert(img@.subrange(0, 4)[3] == img@[3]);
            }
        }
    }
    b
}

/// True if record slot `i` holds a file.
pub fn is_used(img: &[u8], i: usize) -> (b: bool)
    requires
        img@.len() >= IMAGE_SIZE,
    ensures
        b == used(img@, i as int),
{
    i < MAX_FILES && img[rec_off(i)] != ST_FREE
}

/// True if slot `i` holds a live (non-trashed) file.
pub fn is_active(img: &[u8], i: usize) -> (b: bool)
    requires
        img@.len() >= IMAGE_SIZE,
    ensures
        b == active(img@, i as int),
{
    i < MAX_FILES && img[rec_off(i)] == ST_ACTIVE
}

/// True if slot `i` holds a file currently in the trash.
pub fn is_trashed(img: &[u8], i: usize) -> (b: bool)
    requires
        img@.len() >= IMAGE_SIZE,
    ensures
        b == trashed(img@, i as int),
{
    i < MAX_FILES && img[rec_off(i)] == ST_TRASHED
}

/// Name bytes of slot `i` (empty if unused / out of range).
pub fn name_at(img: &[u8], i: usize) -> (s: &[u8])
    requires
        img@.len() >= IMAGE_SIZE,
    ensures
        s@ == name(img@, i as int),
{
    if !is_used(img, i) {
        return &img[0..0];
    }
    let o = rec_off(i);
    let len = img[o + OFF_NAMELEN] as usize;
    let n = if len < MAX_NAME { len } else { MAX_NAME };
    &img[o + OFF_NAME..o + OFF_NAME + n]
}

/// Payload size of slot `i`.
pub fn size_at(img: &[u8], i: usize) -> (n: usize)
    requires
        img@.len() >= IMAGE_SIZE,
    ensures
        n == size(img@, i as int),
{
    if !is_used(img, i) {
        return 0;
    }
    let o = rec_off(i);
    img[o + OFF_SIZE] as usize + 256 * (img[o + OFF_SIZE + 1] as usize)
}

/// True if slot `i` is a directory.
pub fn is_dir(img: &[u8], i: usize) -> (b: bool)
    requires
        img@.len() >= IMAGE_SIZE,
    ensures
        b == dir(img@, i as int),
{
    if !is_used(img, i) {
        return false;
    }
    let f = img[rec_off(i) + OFF_FLAGS];
    proof {
        lemma_flag_bit(f);
    }
    f & 1 != 0
}

/// The slot of `i`'s parent directory ([`ROOT`] for a top-level item).
pub fn parent_at(img: &[u8], i: usize) -> (p: u8)
    requires
        img@.len() >= IMAGE_SIZE,
    ensures
        p == parent(img@, i as int),
{
    if is_used(img, i) {
        img[rec_off(i) + OFF_PARENT]
    } else {
        ROOT
    }
}

/// Number of records currently stored (files + dirs, any state).
pub open spec fn count_used(img: Seq<u8>) -> nat {
    count_from(img, 0, |b: u8| b != ST_FREE)
}

/// Number of live (non-trashed) records.
pub open spec fn count_active_spec(img: Seq<u8>) -> nat {
    count_from(img, 0, |b: u8| b == ST_ACTIVE)
}

/// Number of records in the trash.
pub open spec fn count_trashed_spec(img: Seq<u8>) -> nat {
    count_from(img, 0, |b: u8| b == ST_TRASHED)
}

proof fn lemma_count_bound(img: Seq<u8>, from: int, p: spec_fn(u8) -> bool)
    requires
        0 <= from <= MAX_FILES,
    ensures
        count_from(img, from, p) <= MAX_FILES - from,
    decreases MAX_FILES - from,
{
    if from < MAX_FILES {
        lemma_count_bound(img, from + 1, p);
    }
}

/// Number of slots whose state byte is `st` (`None`: any non-free state).
fn count_state(img: &[u8], st: Option<u8>) -> (n: usize)
    requires
        img@.len() >= IMAGE_SIZE,
    ensures
        st is None ==> n == count_used(img@),
        st == Some(ST_ACTIVE) ==> n == count_active_spec(img@),
        st == Some(ST_TRASHED) ==> n == count_trashed_spec(img@),
{
    let ghost p = match st {
        None => |b: u8| b != ST_FREE,
        Some(v) => |b: u8| b == v,
    };
    let mut n: usize = 0;
    let mut i: usize = 0;
    while i < MAX_FILES
        invariant
            img@.len() >= IMAGE_SIZE,
            i <= MAX_FILES,
            n <= i,
            n + count_from(img@, i as int, p) == count_from(img@, 0, p),
            p == (match st {
                None => |b: u8| b != ST_FREE,
                Some(v) => |b: u8| b == v,
            }),
        decreases MAX_FILES - i,
    {
        let b = img[rec_off(i)];
        let hit = match st {
            None => b != ST_FREE,
            Some(v) => b == v,
        };
        if hit {
            n += 1;
        }
        i += 1;
    }
    proof {
        if st is None {
            assert(p =~= |b: u8| b != ST_FREE);
        } else if st == Some(ST_ACTIVE) {
            assert(p =~= |b: u8| b == ST_ACTIVE);
        } else if st == Some(ST_TRASHED) {
            assert(p =~= |b: u8| b == ST_TRASHED);
        }
    }
    n
}

/// Number of records currently stored (files + dirs, any state).
pub fn count(img: &[u8]) -> (n: usize)
    requires
        img@.len() >= IMAGE_SIZE,
    ensures
        n == count_used(img@),
{
    count_state(img, None)
}

/// Number of live (non-trashed) files.
pub fn count_active(img: &[u8]) -> (n: usize)
    requires
        img@.len() >= IMAGE_SIZE,
    ensures
        n == count_active_spec(img@),
{
    count_state(img, Some(ST_ACTIVE))
}

/// Number of files in the trash.
pub fn count_trashed(img: &[u8]) -> (n: usize)
    requires
        img@.len() >= IMAGE_SIZE,
    ensures
        n == count_trashed_spec(img@),
{
    count_state(img, Some(ST_TRASHED))
}

/// Find an active item named `name` directly inside directory `parent`.
pub fn find_in(img: &[u8], parent: u8, name: &[u8]) -> (r: Option<usize>)
    requires
        img@.len() >= IMAGE_SIZE,
    ensures
        match r {
            Some(i) => find_from(img@, parent, name@, 0) == Some(i as int),
            None => find_from(img@, parent, name@, 0) is None,
        },
{
    let mut i: usize = 0;
    while i < MAX_FILES
        invariant
            img@.len() >= IMAGE_SIZE,
            i <= MAX_FILES,
            find_from(img@, parent, name@, 0) == find_from(img@, parent, name@, i as int),
        decreases MAX_FILES - i,
    {
        if is_active(img, i) && parent_at(img, i) == parent && crate::bytes::bytes_eq(name_at(img, i), name) {
            return Some(i);
        }
        i += 1;
    }
    None
}

/// Find an active top-level item named `name`.
pub fn find(img: &[u8], name: &[u8]) -> (r: Option<usize>)
    requires
        img@.len() >= IMAGE_SIZE,
    ensures
        match r {
            Some(i) => find_from(img@, ROOT, name@, 0) == Some(i as int),
            None => find_from(img@, ROOT, name@, 0) is None,
        },
{
    find_in(img, ROOT, name)
}

/// What reading slot `i` yields: its payload, unless it is a directory or unused.
pub open spec fn read_slot_spec(img: Seq<u8>, i: int) -> Option<Seq<u8>> {
    if !used(img, i) || dir(img, i) { None } else { Some(payload(img, i)) }
}

/// Read the contents of slot `i` (`None` for directories / unused).
pub fn read_slot(img: &[u8], i: usize) -> (r: Option<&[u8]>)
    requires
        img@.len() >= IMAGE_SIZE,
        used(img@, i as int) && !dir(img@, i as int) ==> payload_fits(img@, i as int),
    ensures
        match r {
            Some(d) => read_slot_spec(img@, i as int) == Some(d@),
            None => read_slot_spec(img@, i as int) is None,
        },
{
    if !is_used(img, i) || is_dir(img, i) {
        return None;
    }
    let o = rec_off(i);
    let s = size_at(img, i);
    Some(&img[o + HEADER..o + HEADER + s])
}

/// What reading top-level file `nm` yields.
pub open spec fn read_spec(img: Seq<u8>, nm: Seq<u8>) -> Option<Seq<u8>> {
    match find_from(img, ROOT, nm, 0) {
        Some(i) => read_slot_spec(img, i),
        None => None,
    }
}

/// Read the contents of a top-level file `name`.
pub fn read<'a>(img: &'a [u8], name: &[u8]) -> (r: Option<&'a [u8]>)
    requires
        img@.len() >= IMAGE_SIZE,
        forall|i: int| find_from(img@, ROOT, name@, 0) == Some(i) && !dir(img@, i) ==> payload_fits(img@, i),
    ensures
        match r {
            Some(d) => read_spec(img@, name@) == Some(d@),
            None => read_spec(img@, name@) is None,
        },
{
    match find(img, name) {
        Some(i) => read_slot(img, i),
        None => None,
    }
}

/// The image after writing a record header for `nm` inside `par` at `slot`.
pub open spec fn put_header(img: Seq<u8>, slot: int, par: u8, nm: Seq<u8>, is_dir: bool) -> Seq<u8> {
    let o = off(slot);
    splice(
        img.update(o, ST_ACTIVE).update(o + OFF_FLAGS, if is_dir { 1u8 } else { 0u8 }).update(
            o + OFF_PARENT,
            par,
        ).update(o + OFF_NAMELEN, nm.len() as u8),
        o + OFF_NAME,
        nm,
    )
}

/// The slot a new or rewritten item `nm` in `par` takes: the existing item
/// of that name, else the first free slot.
pub open spec fn target_slot(img: Seq<u8>, par: u8, nm: Seq<u8>) -> Option<int> {
    match find_from(img, par, nm, 0) {
        Some(i) => Some(i),
        None => free_from(img, 0),
    }
}

/// Outcome of allocating an active record for `nm` in `par`: its slot and the
/// image with its header written.
pub open spec fn alloc_spec(img: Seq<u8>, par: u8, nm: Seq<u8>, is_dir: bool) -> Result<(int, Seq<u8>), FsError> {
    if !formatted(img) {
        Err(FsError::NotFormatted)
    } else if nm.len() == 0 {
        Err(FsError::EmptyName)
    } else if nm.len() > MAX_NAME {
        Err(FsError::NameTooLong)
    } else {
        match target_slot(img, par, nm) {
            None => Err(FsError::NoSpace),
            Some(slot) => Ok((slot, put_header(img, slot, par, nm, is_dir))),
        }
    }
}

/// The image after setting slot `slot`'s size field to `n` (little endian).
pub open spec fn put_size(img: Seq<u8>, slot: int, n: int) -> Seq<u8> {
    img.update(off(slot) + OFF_SIZE, (n % 256) as u8).update(off(slot) + OFF_SIZE + 1, (n / 256) as u8)
}

/// Outcome of creating or overwriting file `nm` in `par` with `data`.
pub open spec fn write_in_spec(img: Seq<u8>, par: u8, nm: Seq<u8>, data: Seq<u8>) -> Result<Seq<u8>, FsError> {
    if data.len() > MAX_FILE_SIZE {
        Err(FsError::TooBig)
    } else {
        match alloc_spec(img, par, nm, false) {
            Err(e) => Err(e),
            Ok((slot, h)) => Ok(splice(put_size(h, slot, data.len() as int), off(slot) + HEADER, data)),
        }
    }
}

/// Outcome of creating directory `nm` in `par`: its slot and the new image.
pub open spec fn mkdir_spec(img: Seq<u8>, par: u8, nm: Seq<u8>) -> Result<(int, Seq<u8>), FsError> {
    match alloc_spec(img, par, nm, true) {
        Err(e) => Err(e),
        Ok((slot, h)) => Ok((slot, put_size(h, slot, 0))),
    }
}

fn first_free(img: &[u8]) -> (r: Option<usize>)
    requires
        img@.len() >= IMAGE_SIZE,
    ensures
        match r {
            Some(i) => free_from(img@, 0) == Some(i as int),
            None => free_from(img@, 0) is None,
        },
{
    let mut i: usize = 0;
    while i < MAX_FILES
        invariant
            img@.len() >= IMAGE_SIZE,
            i <= MAX_FILES,
            free_from(img@, 0) == free_from(img@, i as int),
        decreases MAX_FILES - i,
    {
        if !is_used(img, i) {
            return Some(i);
        }
        i += 1;
    }
    None
}

proof fn lemma_find_from_range(img: Seq<u8>, par: u8, nm: Seq<u8>, from: int)
    ensures
        find_from(img, par, nm, from) matches Some(i) ==> from <= i < MAX_FILES,
    decreases MAX_FILES - from,
{
    if 0 <= from < MAX_FILES {
        lemma_find_from_range(img, par, nm, from + 1);
    }
}

proof fn lemma_free_from_range(img: Seq<u8>, from: int)
    ensures
        free_from(img, from) matches Some(i) ==> from <= i < MAX_FILES,
    decreases MAX_FILES - from,
{
    if 0 <= from < MAX_FILES {
        lemma_free_from_range(img, from + 1);
    }
}

/// Allocate (or reuse a same-name) active record in `parent`, returning its
/// slot and writing its header. Shared by [`write_in`] and [`mkdir`].
fn alloc_record(img: &mut [u8], parent: u8, name: &[u8], is_dir: bool) -> (r: Result<usize, FsError>)
    ensures
        match r {
            Ok(slot) => alloc_spec(old(img)@, parent, name@, is_dir) == Ok::<(int, Seq<u8>), FsError>((slot as int, final(img)@)),
            Err(e) => alloc_spec(old(img)@, parent, name@, is_dir) == Err::<(int, Seq<u8>), FsError>(e)
                && final(img)@ == old(img)@,
        },
{
    if !is_formatted(img) {
        return Err(FsError::NotFormatted);
    }
    if name.len() == 0 {
        return Err(FsError::EmptyName);
    }
    if name.len() > MAX_NAME {
        return Err(FsError::NameTooLong);
    }
    let slot = match find_in(img, parent, name) {
        Some(i) => i,
        None => match first_free(img) {
            Some(i) => i,
            None => return Err(FsError::NoSpace),
        },
    };
    proof {
        lemma_find_from_range(img@, parent, name@, 0);
        lemma_free_from_range(img@, 0);
    }
    let o = rec_off(slot);
    img[o] = ST_ACTIVE;
    img[o + OFF_FLAGS] = if is_dir { 1 } else { 0 };
    img[o + OFF_PARENT] = parent;
    img[o + OFF_NAMELEN] = name.len() as u8;
    copy_into(img, o + OFF_NAME, name);
    Ok(slot)
}

/// Create or overwrite file `name` inside directory `parent`.
pub fn write_in(img: &mut [u8], parent: u8, name: &[u8], data: &[u8]) -> (r: Result<(), FsError>)
    ensures
        match r {
            Ok(()) => write_in_spec(old(img)@, parent, name@, data@) == Ok::<Seq<u8>, FsError>(final(img)@),
            Err(e) => write_in_spec(old(img)@, parent, name@, data@) == Err::<Seq<u8>, FsError>(e)
                && final(img)@ == old(img)@,
        },
{
    if data.len() > MAX_FILE_SIZE {
        return Err(FsError::TooBig);
    }
    let slot = match alloc_record(img, parent, name, false) {
        Ok(s) => s,
        Err(e) => return Err(e),
    };
    proof {
        lemma_find_from_range(old(img)@, parent, name@, 0);
        lemma_free_from_range(old(img)@, 0);
    }
    let o = rec_off(slot);
    let n = data.len();
    img[o + OFF_SIZE] = (n % 256) as u8;
    img[o + OFF_SIZE + 1] = (n / 256) as u8;
    copy_into(img, o + HEADER, data);
    Ok(())
}

/// Create or overwrite a top-level file.
pub fn write(img: &mut [u8], name: &[u8], data: &[u8]) -> (r: Result<(), FsError>)
    ensures
        match r {
            Ok(()) => write_in_spec(old(img)@, ROOT, name@, data@) == Ok::<Seq<u8>, FsError>(final(img)@),
            Err(e) => write_in_spec(old(img)@, ROOT, name@, data@) == Err::<Seq<u8>, FsError>(e)
                && final(img)@ == old(img)@,
        },
{
    write_in(img, ROOT, name, data)
}

/// Create directory `name` inside `parent`. Returns its slot.
pub fn mkdir(img: &mut [u8], parent: u8, name: &[u8]) -> (r: Result<usize, FsError>)
    ensures
        match r {
            Ok(slot) => mkdir_spec(old(img)@, parent, name@) == Ok::<(int, Seq<u8>), FsError>((slot as int, final(img)@)),
            Err(e) => mkdir_spec(old(img)@, parent, name@) == Err::<(int, Seq<u8>), FsError>(e)
                && final(img)@ == old(img)@,
        },
{
    let slot = match alloc_record(img, parent, name, true) {
        Ok(s) => s,
        Err(e) => return Err(e),
    };
    proof {
        lemma_find_from_range(old(img)@, parent, name@, 0);
        lemma_free_from_range(old(img)@, 0);
    }
    let o = rec_off(slot);
    img[o + OFF_SIZE] = 0;
    img[o + OFF_SIZE + 1] = 0;
    Ok(slot)
}

/// Record `j` reads the same in both images.
pub open spec fn rec_same(a: Seq<u8>, b: Seq<u8>, j: int) -> bool {
    a.subrange(off(j), off(j) + REC_SIZE) == b.subrange(off(j), off(j) + REC_SIZE)
}

/// Slot `j` is an active item named `nm` directly inside `par`.
pub open spec fn is_match(img: Seq<u8>, par: u8, nm: Seq<u8>, j: int) -> bool {
    active(img, j) && parent(img, j) == par && name(img, j) == nm
}

proof fn lemma_rec_same_fields(a: Seq<u8>, b: Seq<u8>, j: int)
    requires
        0 <= j < MAX_FILES,
        a.len() >= IMAGE_SIZE,
        b.len() >= IMAGE_SIZE,
        rec_same(a, b, j),
    ensures
        state(a, j) == state(b, j),
        used(a, j) == used(b, j),
        active(a, j) == active(b, j),
        trashed(a, j) == trashed(b, j),
        dir(a, j) == dir(b, j),
        parent(a, j) == parent(b, j),
        name(a, j) == name(b, j),
        size(a, j) == size(b, j),
{
    let o = off(j);
    assert(a[o] == a.subrange(o, o + REC_SIZE)[0]);
    assert(b[o] == b.subrange(o, o + REC_SIZE)[0]);
    assert(a[o + 1] == a.subrange(o, o + REC_SIZE)[1]);
    assert(b[o + 1] == b.subrange(o, o + REC_SIZE)[1]);
    assert(a[o + 2] == a.subrange(o, o + REC_SIZE)[2]);
    assert(b[o + 2] == b.subrange(o, o + REC_SIZE)[2]);
    assert(a[o + 3] == a.subrange(o, o + REC_SIZE)[3]);
    assert(b[o + 3] == b.subrange(o, o + REC_SIZE)[3]);
    assert(a[o + 20] == a.subrange(o, o + REC_SIZE)[20]);
    assert(b[o + 20] == b.subrange(o, o + REC_SIZE)[20]);
    assert(a[o + 21] == a.subrange(o, o + REC_SIZE)[21]);
    assert(b[o + 21] == b.subrange(o, o + REC_SIZE)[21]);
    let len = a[o + 3] as int;
    let n = if len < MAX_NAME { len } else { MAX_NAME as int };
    assert(a.subrange(o + 4, o + 4 + n) =~= a.subrange(o, o + REC_SIZE).subrange(4, 4 + n));
    assert(b.subrange(o + 4, o + 4 + n) =~= b.subrange(o, o + REC_SIZE).subrange(4, 4 + n));
}

/// Changing only bytes in `[lo, hi)` leaves every record outside that range as it was.
proof fn lemma_frame(a: Seq<u8>, b: Seq<u8>, lo: int, hi: int, j: int)
    requires
        a.len() == b.len(),
        a.len() >= IMAGE_SIZE,
        0 <= j < MAX_FILES,
        forall|k: int| 0 <= k < a.len() && !(lo <= k < hi) ==> a[k] == b[k],
        hi <= off(j) || off(j) + REC_SIZE <= lo,
    ensures
        rec_same(a, b, j),
{
    assert(a.subrange(off(j), off(j) + REC_SIZE) =~= b.subrange(off(j), off(j) + REC_SIZE));
}

proof fn lemma_find_none_before(img: Seq<u8>, par: u8, nm: Seq<u8>, from: int, s: int)
    requires
        0 <= from,
        find_from(img, par, nm, from) == Some(s),
    ensures
        forall|j: int| from <= j < s ==> !is_match(img, par, nm, j),
        is_match(img, par, nm, s),
    decreases MAX_FILES - from,
{
    if from < MAX_FILES && !is_match(img, par, nm, from) {
        lemma_find_none_before(img, par, nm, from + 1, s);
    }
}

proof fn lemma_find_none(img: Seq<u8>, par: u8, nm: Seq<u8>, from: int, j: int)
    requires
        0 <= from <= j,
        find_from(img, par, nm, from) is None,
    ensures
        !is_match(img, par, nm, j),
    decreases MAX_FILES - from,
{
    if from < MAX_FILES && from < j {
        lemma_find_none(img, par, nm, from + 1, j);
    }
}

proof fn lemma_find_first(img: Seq<u8>, par: u8, nm: Seq<u8>, from: int, s: int)
    requires
        0 <= from <= s < MAX_FILES,
        forall|j: int| from <= j < s ==> !is_match(img, par, nm, j),
        is_match(img, par, nm, s),
    ensures
        find_from(img, par, nm, from) == Some(s),
    decreases s - from,
{
    if from < s {
        assert(!is_match(img, par, nm, from));
        lemma_find_first(img, par, nm, from + 1, s);
    } else {
        assert(is_match(img, par, nm, from));
    }
}

/// Reading a file right after writing it gives back exactly the bytes written.
pub proof fn lemma_read_after_write(img: Seq<u8>, nm: Seq<u8>, data: Seq<u8>)
    requires
        write_in_spec(img, ROOT, nm, data) is Ok,
    ensures
        ({
            let img2 = write_in_spec(img, ROOT, nm, data)->Ok_0;
            &&& img2.len() == img.len()
            &&& read_spec(img2, nm) == Some(data)
            &&& forall|i: int| find_from(img2, ROOT, nm, 0) == Some(i) ==> payload_fits(img2, i)
        }),
{
    let img2 = write_in_spec(img, ROOT, nm, data)->Ok_0;
    let slot = target_slot(img, ROOT, nm)->Some_0;
    lemma_find_from_range(img, ROOT, nm, 0);
    lemma_free_from_range(img, 0);
    let o = off(slot);
    let h = put_header(img, slot, ROOT, nm, false);
    let n = data.len() as int;
    // The new record's fields.
    assert(img2.len() == img.len());
    assert(img2[o] == ST_ACTIVE);
    assert(img2[o + OFF_FLAGS] == 0);
    assert(img2[o + OFF_PARENT] == ROOT);
    assert(img2[o + OFF_NAMELEN] == nm.len() as u8);
    assert(img2.subrange(o + OFF_NAME, o + OFF_NAME + nm.len()) =~= nm);
    assert(img2[o + OFF_SIZE] == (n % 256) as u8);
    assert(img2[o + OFF_SIZE + 1] == (n / 256) as u8);
    assert(size(img2, slot) == n);
    assert(img2.subrange(o + HEADER, o + HEADER + n) =~= data);
    assert(is_match(img2, ROOT, nm, slot));
    assert forall|k: int| 0 <= k < img.len() && !(o <= k < o + REC_SIZE) implies img[k] == img2[k] by {
        let h1 = img.update(o, ST_ACTIVE).update(o + OFF_FLAGS, 0u8).update(o + OFF_PARENT, ROOT).update(
            o + OFF_NAMELEN,
            nm.len() as u8,
        );
        assert(h1[k] == img[k]);
        assert(h[k] == h1[k]);
        assert(put_size(h, slot, n)[k] == h[k]);
    }
    // Earlier records are untouched and did not match before.
    assert(formatted(img));
    assert forall|j: int| 0 <= j < slot implies !is_match(img2, ROOT, nm, j) by {
        assert(off(j) + REC_SIZE <= o);
        lemma_frame(img, img2, o, o + REC_SIZE, j);
        lemma_rec_same_fields(img, img2, j);
        assert(is_match(img2, ROOT, nm, j) == is_match(img, ROOT, nm, j));
        if find_from(img, ROOT, nm, 0) is None {
            lemma_find_none(img, ROOT, nm, 0, j);
        } else {
            lemma_find_none_before(img, ROOT, nm, 0, slot);
        }
    }
    lemma_find_first(img2, ROOT, nm, 0, slot);
}

// ---- trash / restore / permanent delete ----

/// Which subtree operation is being applied.
#[derive(Clone, Copy, PartialEq, Eq, Structural)]
pub enum TreeOp {
    /// Active items move to the trash.
    Trash,
    /// Trashed items become active again.
    Restore,
    /// Items in any state are freed.
    Purge,
}

/// The states an operation acts on.
pub open spec fn op_src(op: TreeOp, b: u8) -> bool {
    match op {
        TreeOp::Trash => b == ST_ACTIVE,
        TreeOp::Restore => b == ST_TRASHED,
        TreeOp::Purge => b != ST_FREE,
    }
}

/// The state an operation leaves behind.
pub open spec fn op_dst(op: TreeOp) -> u8 {
    match op {
        TreeOp::Trash => ST_TRASHED,
        TreeOp::Restore => ST_ACTIVE,
        TreeOp::Purge => ST_FREE,
    }
}

/// `k` is the state byte of some record.
pub open spec fn is_state_byte(k: int) -> bool {
    exists|j: int| 0 <= j < MAX_FILES && k == off(j)
}

/// `b` is `a` with some records moved by `op`: only state bytes change, and
/// each changed record went from a state `op` acts on to the state it leaves.
pub open spec fn op_step(a: Seq<u8>, b: Seq<u8>, op: TreeOp) -> bool {
    &&& a.len() == b.len()
    &&& forall|k: int| 0 <= k < a.len() && !is_state_byte(k) ==> a[k] == b[k]
    &&& forall|j: int| 0 <= j < MAX_FILES ==> #[trigger] state(b, j) == state(a, j)
        || (op_src(op, state(a, j)) && state(b, j) == op_dst(op))
}

pub open spec fn op_count(img: Seq<u8>, op: TreeOp) -> nat {
    count_from(img, 0, |b: u8| op_src(op, b))
}

proof fn lemma_op_step_count(a: Seq<u8>, b: Seq<u8>, op: TreeOp, from: int)
    requires
        op_step(a, b, op),
        a.len() >= IMAGE_SIZE,
        0 <= from <= MAX_FILES,
    ensures
        count_from(b, from, |x: u8| op_src(op, x)) <= count_from(a, from, |x: u8| op_src(op, x)),
    decreases MAX_FILES - from,
{
    if from < MAX_FILES {
        lemma_op_step_count(a, b, op, from + 1);
        assert(state(b, from) == state(a, from) || (op_src(op, state(a, from)) && state(b, from) == op_dst(op)));
    }
}

proof fn lemma_op_mark_count(a: Seq<u8>, op: TreeOp, i: int, from: int)
    requires
        a.len() >= IMAGE_SIZE,
        0 <= i < MAX_FILES,
        op_src(op, state(a, i)),
        0 <= from <= MAX_FILES,
    ensures
        ({
            let b = a.update(off(i), op_dst(op));
            &&& from <= i ==> count_from(b, from, |x: u8| op_src(op, x)) + 1 == count_from(
                a,
                from,
                |x: u8| op_src(op, x),
            )
            &&& from > i ==> count_from(b, from, |x: u8| op_src(op, x)) == count_from(a, from, |x: u8| op_src(op, x))
        }),
    decreases MAX_FILES - from,
{
    let b = a.update(off(i), op_dst(op));
    if from < MAX_FILES {
        lemma_op_mark_count(a, op, i, from + 1);
        if from != i {
            assert(off(from) != off(i));
            assert(state(b, from) == state(a, from));
        }
    }
}

proof fn lemma_op_step_trans(a: Seq<u8>, b: Seq<u8>, c: Seq<u8>, op: TreeOp)
    requires
        op_step(a, b, op),
        op_step(b, c, op),
        op != TreeOp::Purge ==> true,
    ensures
        op_step(a, c, op),
{
    assert forall|j: int| 0 <= j < MAX_FILES implies #[trigger] state(c, j) == state(a, j)
        || (op_src(op, state(a, j)) && state(c, j) == op_dst(op)) by {
        assert(state(b, j) == state(a, j) || (op_src(op, state(a, j)) && state(b, j) == op_dst(op)));
        assert(state(c, j) == state(b, j) || (op_src(op, state(b, j)) && state(c, j) == op_dst(op)));
    }
}

proof fn lemma_op_mark_step(a: Seq<u8>, op: TreeOp, i: int)
    requires
        a.len() >= IMAGE_SIZE,
        0 <= i < MAX_FILES,
        op_src(op, state(a, i)),
    ensures
        op_step(a, a.update(off(i), op_dst(op)), op),
{
    let b = a.update(off(i), op_dst(op));
    assert forall|k: int| 0 <= k < a.len() && !is_state_byte(k) implies a[k] == b[k] by {
        if k == off(i) {
            assert(is_state_byte(k));
        }
    }
    assert forall|j: int| 0 <= j < MAX_FILES implies #[trigger] state(b, j) == state(a, j)
        || (op_src(op, state(a, j)) && state(b, j) == op_dst(op)) by {
        if j != i {
            assert(off(j) != off(i));
        }
    }
}

/// Parent bytes and flags are not state bytes, so an `op_step` keeps them.
proof fn lemma_op_step_keeps(a: Seq<u8>, b: Seq<u8>, op: TreeOp, j: int)
    requires
        op_step(a, b, op),
        a.len() >= IMAGE_SIZE,
        0 <= j < MAX_FILES,
    ensures
        b[off(j) + OFF_FLAGS] == a[off(j) + OFF_FLAGS],
        b[off(j) + OFF_PARENT] == a[off(j) + OFF_PARENT],
{
    assert(!is_state_byte(off(j) + OFF_FLAGS)) by {
        if is_state_byte(off(j) + OFF_FLAGS) {
            let m = choose|m: int| 0 <= m < MAX_FILES && off(j) + OFF_FLAGS == off(m);
            assert(false);
        }
    }
    assert(!is_state_byte(off(j) + OFF_PARENT)) by {
        if is_state_byte(off(j) + OFF_PARENT) {
            let m = choose|m: int| 0 <= m < MAX_FILES && off(j) + OFF_PARENT == off(m);
            assert(false);
        }
    }
}

/// The directory flag of record `j`, whatever its state.
pub open spec fn dir_bit(img: Seq<u8>, j: int) -> bool {
    img[off(j) + OFF_FLAGS] % 2 == 1
}

/// The parent byte of record `j`, whatever its state.
pub open spec fn parent_byte(img: Seq<u8>, j: int) -> u8 {
    img[off(j) + OFF_PARENT]
}

/// Slot `j` changed state between `a` and `b`.
pub open spec fn moved(a: Seq<u8>, b: Seq<u8>, j: int) -> bool {
    state(b, j) != state(a, j)
}

/// Every directory that `op` moved has no child left in a state `op` acts
/// on.
pub open spec fn children_done(a: Seq<u8>, b: Seq<u8>, op: TreeOp) -> bool {
    forall|p: int, c: int|
        0 <= p < MAX_FILES && 0 <= c < MAX_FILES && #[trigger] moved(a, b, p) && dir_bit(a, p) && #[trigger] parent_byte(
            a,
            c,
        ) == p ==> !op_src(op, state(b, c))
}

/// Every slot that moved, other than `i`, is a child of a directory that
/// moved: the changes spread from `i` down the tree only.
pub open spec fn rooted_at(a: Seq<u8>, b: Seq<u8>, i: int) -> bool {
    forall|j: int|
        0 <= j < MAX_FILES && j != i && #[trigger] moved(a, b, j) ==> parent_byte(a, j) < MAX_FILES && moved(
            a,
            b,
            parent_byte(a, j) as int,
        ) && dir_bit(a, parent_byte(a, j) as int)
}

/// A slot `op` does not act on keeps its state through an `op_step`; in
/// particular one that `op` already moved.
proof fn lemma_step_keeps_done(x: Seq<u8>, y: Seq<u8>, op: TreeOp, j: int)
    requires
        op_step(x, y, op),
        0 <= j < MAX_FILES,
        !op_src(op, state(x, j)),
    ensures
        state(y, j) == state(x, j),
{
    assert(state(y, j) == state(x, j) || (op_src(op, state(x, j)) && state(y, j) == op_dst(op)));
}

/// The state an operation leaves is not one it acts on.
proof fn lemma_dst_not_src(op: TreeOp)
    ensures
        !op_src(op, op_dst(op)),
{
}

/// Moves compose: over two steps a slot moved iff it moved in one of them,
/// and a slot moved in the second step was untouched by the first.
proof fn lemma_moved_compose(a: Seq<u8>, b: Seq<u8>, c: Seq<u8>, op: TreeOp, j: int)
    requires
        op_step(a, b, op),
        op_step(b, c, op),
        0 <= j < MAX_FILES,
    ensures
        moved(b, c, j) ==> !moved(a, b, j) && moved(a, c, j),
        moved(a, b, j) ==> !moved(b, c, j) && moved(a, c, j),
        moved(a, c, j) ==> moved(a, b, j) || moved(b, c, j),
{
    lemma_dst_not_src(op);
    assert(state(b, j) == state(a, j) || (op_src(op, state(a, j)) && state(b, j) == op_dst(op)));
    assert(state(c, j) == state(b, j) || (op_src(op, state(b, j)) && state(c, j) == op_dst(op)));
}

/// `children_done` for every moved directory except `i`.
pub open spec fn children_done_but(a: Seq<u8>, b: Seq<u8>, op: TreeOp, i: int) -> bool {
    forall|p: int, c: int|
        0 <= p < MAX_FILES && p != i && 0 <= c < MAX_FILES && #[trigger] moved(a, b, p) && dir_bit(a, p)
            && #[trigger] parent_byte(a, c) == p ==> !op_src(op, state(b, c))
}

/// One child step of `apply_tree`: the subtree of child `c` of `i`, applied
/// to `before`, keeps the spreading and completion facts about `i`'s tree.
proof fn lemma_tree_step(a: Seq<u8>, before: Seq<u8>, after: Seq<u8>, op: TreeOp, i: int, c: int)
    requires
        a.len() >= IMAGE_SIZE,
        0 <= i < MAX_FILES,
        0 <= c < MAX_FILES,
        op_step(a, before, op),
        op_step(before, after, op),
        moved(a, before, i),
        dir_bit(a, i),
        parent_byte(a, c) == i,
        rooted_at(a, before, i),
        children_done_but(a, before, op, i),
        children_done(before, after, op),
        rooted_at(before, after, c),
    ensures
        rooted_at(a, after, i),
        children_done_but(a, after, op, i),
        moved(a, after, i),
{
    lemma_dst_not_src(op);
    lemma_moved_compose(a, before, after, op, i);
    assert forall|j: int| 0 <= j < MAX_FILES implies parent_byte(before, j) == parent_byte(a, j) && dir_bit(before, j)
        == dir_bit(a, j) by {
        lemma_op_step_keeps(a, before, op, j);
    }
    assert forall|j: int| 0 <= j < MAX_FILES && j != i && #[trigger] moved(a, after, j) implies parent_byte(a, j)
        < MAX_FILES && moved(a, after, parent_byte(a, j) as int) && dir_bit(a, parent_byte(a, j) as int) by {
        lemma_moved_compose(a, before, after, op, j);
        if moved(before, after, j) {
            if j != c {
                let q = parent_byte(before, j) as int;
                lemma_moved_compose(a, before, after, op, q);
            }
        } else {
            let q = parent_byte(a, j) as int;
            lemma_moved_compose(a, before, after, op, q);
        }
    }
    assert forall|p: int, k: int|
        0 <= p < MAX_FILES && p != i && 0 <= k < MAX_FILES && #[trigger] moved(a, after, p) && dir_bit(a, p)
            && #[trigger] parent_byte(a, k) == p implies !op_src(op, state(after, k)) by {
        lemma_moved_compose(a, before, after, op, p);
        if moved(before, after, p) {
            assert(parent_byte(before, k) == p);
        } else {
            assert(moved(a, before, p));
            assert(!op_src(op, state(before, k)));
            lemma_step_keeps_done(before, after, op, k);
        }
    }
}

/// Apply `op` to slot `i` and, for a directory, to every child it acts on,
/// recursively. The slot itself is marked before its children are visited, so
/// even a corrupted image whose parent links loop back cannot recurse forever.
fn apply_tree(img: &mut [u8], i: usize, op: TreeOp)
    requires
        old(img)@.len() >= IMAGE_SIZE,
        i < MAX_FILES,
    ensures
        op_step(old(img)@, final(img)@, op),
        op_src(op, state(old(img)@, i as int)) ==> state(final(img)@, i as int) == op_dst(op),
        !op_src(op, state(old(img)@, i as int)) ==> final(img)@ == old(img)@,
        children_done(old(img)@, final(img)@, op),
        rooted_at(old(img)@, final(img)@, i as int),
        forall|j: int| 0 <= j < MAX_FILES && #[trigger] moved(old(img)@, final(img)@, j) ==> reached(old(img)@, op, j, i as int),
    decreases op_count(old(img)@, op),
{
    let o = rec_off(i);
    let st = img[o];
    let hit = match op {
        TreeOp::Trash => st == ST_ACTIVE,
        TreeOp::Restore => st == ST_TRASHED,
        TreeOp::Purge => st != ST_FREE,
    };
    if !hit {
        return;
    }
    let flags = img[o + OFF_FLAGS];
    proof {
        lemma_flag_bit(flags);
    }
    let is_directory = flags & 1 != 0;
    let dst = match op {
        TreeOp::Trash => ST_TRASHED,
        TreeOp::Restore => ST_ACTIVE,
        TreeOp::Purge => ST_FREE,
    };
    img[o] = dst;
    proof {
        lemma_op_mark_step(old(img)@, op, i as int);
        lemma_op_mark_count(old(img)@, op, i as int, 0);
    }
    let ghost marked = img@;
    proof {
        lemma_dst_not_src(op);
        assert forall|j: int| 0 <= j < MAX_FILES && j != i implies #[trigger] state(marked, j) == state(old(img)@, j) by {
            assert(off(j) != off(i as int));
        }
        assert(dir_bit(old(img)@, i as int) == is_directory);
        assert(src_path(old(img)@, op, i as int, i as int, 0));
        assert forall|j: int| 0 <= j < MAX_FILES && #[trigger] moved(old(img)@, marked, j) implies reached(old(img)@, op, j, i as int) by {
            if j != i {
                assert(state(marked, j) == state(old(img)@, j));
            }
        }
    }
    if !is_directory {
        assert(children_done(old(img)@, img@, op));
        assert(rooted_at(old(img)@, img@, i as int));
        return;
    }
    let mut c: usize = 0;
    while c < MAX_FILES
        invariant
            img@.len() == old(img)@.len(),
            old(img)@.len() >= IMAGE_SIZE,
            i < MAX_FILES,
            c <= MAX_FILES,
            op_step(old(img)@, img@, op),
            op_step(marked, img@, op),
            op_src(op, state(old(img)@, i as int)),
            state(img@, i as int) == op_dst(op),
            dir_bit(old(img)@, i as int),
            op_count(img@, op) < op_count(old(img)@, op),
            marked == old(img)@.update(off(i as int), op_dst(op)),
            rooted_at(old(img)@, img@, i as int),
            children_done_but(old(img)@, img@, op, i as int),
            forall|k: int| 0 <= k < c && #[trigger] parent_byte(old(img)@, k) == i ==> !op_src(op, state(img@, k)),
            forall|j: int| 0 <= j < MAX_FILES && #[trigger] moved(old(img)@, img@, j) ==> reached(old(img)@, op, j, i as int),
        decreases MAX_FILES - c,
    {
        proof {
            lemma_op_step_keeps(old(img)@, img@, op, c as int);
        }
        let cs = img[rec_off(c)];
        let child_hit = match op {
            TreeOp::Trash => cs == ST_ACTIVE,
            TreeOp::Restore => cs == ST_TRASHED,
            TreeOp::Purge => cs != ST_FREE,
        };
        if child_hit && img[rec_off(c) + OFF_PARENT] == i as u8 {
            let ghost before = img@;
            apply_tree(img, c, op);
            proof {
                lemma_op_step_trans(old(img)@, before, img@, op);
                lemma_op_step_trans(marked, before, img@, op);
                lemma_op_step_count(before, img@, op, 0);
                lemma_step_keeps_done(before, img@, op, i as int);
                lemma_tree_step(old(img)@, before, img@, op, i as int, c as int);
                lemma_op_step_keeps(old(img)@, before, op, c as int);
                lemma_tree_reach(old(img)@, before, img@, op, i as int, c as int);
            }
        }
        c += 1;
    }
    assert(children_done(old(img)@, img@, op));
}

/// `d` hangs `k` levels below `i` through directories, and every record on
/// the way, `i` and `d` included, is in a state `op` acts on.
pub open spec fn src_path(img: Seq<u8>, op: TreeOp, d: int, i: int, k: nat) -> bool
    decreases k,
{
    &&& 0 <= d < MAX_FILES
    &&& op_src(op, state(img, d))
    &&& if k == 0 {
        d == i
    } else {
        let p = parent_byte(img, d) as int;
        p < MAX_FILES && dir_bit(img, p) && src_path(img, op, p, i, (k - 1) as nat)
    }
}

/// `d` hangs below `i` through a path of records `op` acts on.
pub open spec fn reached(img: Seq<u8>, op: TreeOp, d: int, i: int) -> bool {
    exists|k: nat| #[trigger] src_path(img, op, d, i, k)
}

/// A path in `b` of records `op` acts on was already such a path in `a`,
/// when `b` is an `op_step` from `a`.
proof fn lemma_path_transfer(a: Seq<u8>, b: Seq<u8>, op: TreeOp, d: int, i: int, k: nat)
    requires
        op_step(a, b, op),
        a.len() >= IMAGE_SIZE,
        src_path(b, op, d, i, k),
    ensures
        src_path(a, op, d, i, k),
    decreases k,
{
    lemma_dst_not_src(op);
    assert(state(b, d) == state(a, d) || (op_src(op, state(a, d)) && state(b, d) == op_dst(op)));
    if k > 0 {
        let p = parent_byte(b, d) as int;
        lemma_op_step_keeps(a, b, op, d);
        lemma_op_step_keeps(a, b, op, p);
        lemma_path_transfer(a, b, op, p, i, (k - 1) as nat);
    }
}

/// A path from `d` up to `c` followed by the one step from `c` to `i`.
proof fn lemma_path_append(img: Seq<u8>, op: TreeOp, d: int, c: int, i: int, k: nat)
    requires
        src_path(img, op, d, c, k),
        src_path(img, op, c, i, 1),
    ensures
        src_path(img, op, d, i, k + 1),
    decreases k,
{
    if k > 0 {
        let p = parent_byte(img, d) as int;
        lemma_path_append(img, op, p, c, i, (k - 1) as nat);
    }
}

/// One child step of `apply_tree` keeps every moved record reached from `i`.
proof fn lemma_tree_reach(a: Seq<u8>, before: Seq<u8>, after: Seq<u8>, op: TreeOp, i: int, c: int)
    requires
        a.len() >= IMAGE_SIZE,
        0 <= i < MAX_FILES,
        0 <= c < MAX_FILES,
        op_step(a, before, op),
        op_step(before, after, op),
        op_src(op, state(a, i)),
        op_src(op, state(before, c)),
        dir_bit(a, i),
        parent_byte(a, c) == i,
        forall|j: int| 0 <= j < MAX_FILES && #[trigger] moved(a, before, j) ==> reached(a, op, j, i),
        forall|j: int| 0 <= j < MAX_FILES && #[trigger] moved(before, after, j) ==> reached(before, op, j, c),
    ensures
        forall|j: int| 0 <= j < MAX_FILES && #[trigger] moved(a, after, j) ==> reached(a, op, j, i),
{
    lemma_dst_not_src(op);
    assert(state(before, c) == state(a, c) || (op_src(op, state(a, c)) && state(before, c) == op_dst(op)));
    assert(src_path(a, op, i, i, 0));
    assert(src_path(a, op, c, i, 1));
    assert forall|j: int| 0 <= j < MAX_FILES && #[trigger] moved(a, after, j) implies reached(a, op, j, i) by {
        lemma_moved_compose(a, before, after, op, j);
        if moved(before, after, j) {
            let k = choose|k: nat| #[trigger] src_path(before, op, j, c, k);
            lemma_path_transfer(a, before, op, j, c, k);
            lemma_path_append(a, op, j, c, i, k);
            assert(src_path(a, op, j, i, k + 1));
        }
    }
}

/// A path ends at a record `op` acts on.
proof fn lemma_path_root(img: Seq<u8>, op: TreeOp, d: int, i: int, k: nat)
    requires
        src_path(img, op, d, i, k),
    ensures
        0 <= i < MAX_FILES,
        op_src(op, state(img, i)),
    decreases k,
{
    if k > 0 {
        lemma_path_root(img, op, parent_byte(img, d) as int, i, (k - 1) as nat);
    }
}

/// Once `i` is moved and every moved directory has no child left to act on,
/// everything on a path of such records below `i` has moved too.
proof fn lemma_path_moved(a: Seq<u8>, b: Seq<u8>, op: TreeOp, d: int, i: int, k: nat)
    requires
        op_step(a, b, op),
        children_done(a, b, op),
        op_src(op, state(a, i)) ==> state(b, i) == op_dst(op),
        src_path(a, op, d, i, k),
    ensures
        state(b, d) == op_dst(op),
    decreases k,
{
    lemma_dst_not_src(op);
    if k > 0 {
        let p = parent_byte(a, d) as int;
        assert(src_path(a, op, p, i, (k - 1) as nat));
        assert(op_src(op, state(a, p)));
        lemma_path_moved(a, b, op, p, i, (k - 1) as nat);
        assert(moved(a, b, p));
        assert(!op_src(op, state(b, d)));
        assert(state(b, d) == state(a, d) || (op_src(op, state(a, d)) && state(b, d) == op_dst(op)));
    }
}

/// `b` is `a` after `op` was applied to the tree under slot `i`: only
/// records `op` acts on changed, each to the state `op` leaves; slot `i`
/// changed if `op` acts on it; every record hanging below `i` through records `op`
/// acts on changed; every change spread from `i` down through directories;
/// and every record that changed hangs below `i` through records `op` acts on.
pub open spec fn tree_applied(a: Seq<u8>, b: Seq<u8>, op: TreeOp, i: int) -> bool {
    &&& op_step(a, b, op)
    &&& 0 <= i < MAX_FILES && op_src(op, state(a, i)) ==> state(b, i) == op_dst(op)
    &&& forall|d: int, k: nat| #[trigger] src_path(a, op, d, i, k) ==> state(b, d) == op_dst(op)
    &&& children_done(a, b, op)
    &&& rooted_at(a, b, i)
    &&& forall|j: int| 0 <= j < MAX_FILES && #[trigger] moved(a, b, j) ==> reached(a, op, j, i)
}

/// A live path below `i` is, after trashing `i`, a trashed path.
proof fn lemma_trashed_path(a: Seq<u8>, b: Seq<u8>, i: int, d: int, k: nat)
    requires
        a.len() >= IMAGE_SIZE,
        tree_applied(a, b, TreeOp::Trash, i),
        src_path(a, TreeOp::Trash, d, i, k),
    ensures
        src_path(b, TreeOp::Restore, d, i, k),
    decreases k,
{
    lemma_op_step_keeps(a, b, TreeOp::Trash, d);
    if k > 0 {
        let p = parent_byte(a, d) as int;
        lemma_op_step_keeps(a, b, TreeOp::Trash, p);
        lemma_trashed_path(a, b, i, p, (k - 1) as nat);
    }
}

/// Restoring what was just trashed brings back every record the trash took:
/// `i` and everything that hung below it through live records is live again.
pub proof fn lemma_trash_restore(a: Seq<u8>, b: Seq<u8>, c: Seq<u8>, i: int)
    requires
        a.len() >= IMAGE_SIZE,
        tree_applied(a, b, TreeOp::Trash, i),
        tree_applied(b, c, TreeOp::Restore, i),
    ensures
        forall|d: int, k: nat| #[trigger] src_path(a, TreeOp::Trash, d, i, k) ==> active(c, d),
{
    assert forall|d: int, k: nat| #[trigger] src_path(a, TreeOp::Trash, d, i, k) implies active(c, d) by {
        lemma_trashed_path(a, b, i, d, k);
    }
}

/// `d` hangs `k` levels below `i` through directories, whatever the states.
pub open spec fn below(img: Seq<u8>, d: int, i: int, k: nat) -> bool
    decreases k,
{
    &&& 0 <= d < MAX_FILES
    &&& if k == 0 {
        d == i
    } else {
        let p = parent_byte(img, d) as int;
        p < MAX_FILES && dir_bit(img, p) && below(img, p, i, (k - 1) as nat)
    }
}

/// A path of records in some state is a path of records.
proof fn lemma_path_below(a: Seq<u8>, b: Seq<u8>, op: TreeOp, d: int, i: int, k: nat)
    requires
        a.len() >= IMAGE_SIZE,
        op_step(a, b, TreeOp::Trash),
        src_path(b, op, d, i, k),
    ensures
        below(a, d, i, k),
    decreases k,
{
    lemma_op_step_keeps(a, b, TreeOp::Trash, d);
    if k > 0 {
        let p = parent_byte(b, d) as int;
        lemma_op_step_keeps(a, b, TreeOp::Trash, p);
        lemma_path_below(a, b, op, p, i, (k - 1) as nat);
    }
}

/// Restoring what was just trashed gives back the image as it was, when
/// nothing at or below `i` was in the trash before: trashing moves exactly
/// the live records below `i`, and restoring moves exactly those back.
pub proof fn lemma_restore_undoes_trash(a: Seq<u8>, b: Seq<u8>, c: Seq<u8>, i: int)
    requires
        a.len() >= IMAGE_SIZE,
        tree_applied(a, b, TreeOp::Trash, i),
        tree_applied(b, c, TreeOp::Restore, i),
        forall|d: int, k: nat| #[trigger] below(a, d, i, k) ==> !trashed(a, d),
    ensures
        c == a,
{
    assert forall|j: int| 0 <= j < MAX_FILES implies #[trigger] state(c, j) == state(a, j) by {
        assert(state(b, j) == state(a, j) || (op_src(TreeOp::Trash, state(a, j)) && state(b, j) == ST_TRASHED));
        assert(state(c, j) == state(b, j) || (op_src(TreeOp::Restore, state(b, j)) && state(c, j) == ST_ACTIVE));
        if moved(a, b, j) {
            let k = choose|k: nat| #[trigger] src_path(a, TreeOp::Trash, j, i, k);
            lemma_trashed_path(a, b, i, j, k);
        } else if moved(b, c, j) {
            let k = choose|k: nat| #[trigger] src_path(b, TreeOp::Restore, j, i, k);
            lemma_path_below(a, b, TreeOp::Restore, j, i, k);
            assert(!trashed(a, j));
        }
    }
    assert forall|k: int| 0 <= k < a.len() implies c[k] == a[k] by {
        if is_state_byte(k) {
            let j = choose|j: int| 0 <= j < MAX_FILES && k == off(j);
            assert(state(c, j) == state(a, j));
        }
    }
    assert(c =~= a);
}

/// Slot `j` is a trashed top-level item named `nm`.
pub open spec fn trashed_match(img: Seq<u8>, nm: Seq<u8>, j: int) -> bool {
    trashed(img, j) && parent(img, j) == ROOT && name(img, j) == nm
}

proof fn lemma_trashed_none(img: Seq<u8>, nm: Seq<u8>, from: int, j: int)
    requires
        0 <= from <= j,
        find_trashed_from(img, nm, from) is None,
    ensures
        !trashed_match(img, nm, j),
    decreases MAX_FILES - from,
{
    if from < MAX_FILES && from < j {
        lemma_trashed_none(img, nm, from + 1, j);
    }
}

proof fn lemma_trashed_first(img: Seq<u8>, nm: Seq<u8>, from: int, s: int)
    requires
        0 <= from <= s < MAX_FILES,
        forall|j: int| from <= j < s ==> !#[trigger] trashed_match(img, nm, j),
        trashed_match(img, nm, s),
    ensures
        find_trashed_from(img, nm, from) == Some(s),
    decreases s - from,
{
    if from < s {
        assert(!trashed_match(img, nm, from));
        lemma_trashed_first(img, nm, from + 1, s);
    }
}

/// A record's name bytes are not state bytes, so an `op_step` keeps them.
proof fn lemma_op_step_keeps_name(a: Seq<u8>, b: Seq<u8>, op: TreeOp, j: int)
    requires
        op_step(a, b, op),
        a.len() >= IMAGE_SIZE,
        0 <= j < MAX_FILES,
    ensures
        b.subrange(off(j) + OFF_NAMELEN, off(j) + OFF_NAME + MAX_NAME) == a.subrange(
            off(j) + OFF_NAMELEN,
            off(j) + OFF_NAME + MAX_NAME,
        ),
{
    assert forall|k: int| off(j) + OFF_NAMELEN <= k < off(j) + OFF_NAME + MAX_NAME implies b[k] == a[k] by {
        if is_state_byte(k) {
            let m = choose|m: int| 0 <= m < MAX_FILES && k == off(m);
            assert(false);
        }
    }
    assert(b.subrange(off(j) + OFF_NAMELEN, off(j) + OFF_NAME + MAX_NAME) =~= a.subrange(
        off(j) + OFF_NAMELEN,
        off(j) + OFF_NAME + MAX_NAME,
    ));
}

/// A record used before and after an `op_step` keeps its parent and name.
proof fn lemma_op_step_same_entry(a: Seq<u8>, b: Seq<u8>, op: TreeOp, j: int)
    requires
        op_step(a, b, op),
        a.len() >= IMAGE_SIZE,
        used(a, j),
        used(b, j),
    ensures
        parent(b, j) == parent(a, j),
        name(b, j) == name(a, j),
{
    lemma_op_step_keeps(a, b, op, j);
    lemma_op_step_keeps_name(a, b, op, j);
    let lo = off(j) + OFF_NAMELEN;
    let hi = off(j) + OFF_NAME + MAX_NAME;
    assert(b[off(j) + OFF_NAMELEN] == b.subrange(lo, hi)[0]);
    assert(a[off(j) + OFF_NAMELEN] == a.subrange(lo, hi)[0]);
    let len = a[off(j) + OFF_NAMELEN] as int;
    let n = if len < MAX_NAME { len } else { MAX_NAME as int };
    assert(b.subrange(off(j) + OFF_NAME, off(j) + OFF_NAME + n) =~= a.subrange(off(j) + OFF_NAME, off(j) + OFF_NAME + n)) by {
        assert forall|k: int| off(j) + OFF_NAME <= k < off(j) + OFF_NAME + n implies #[trigger] b[k] == a[k] by {
            assert(b[k] == b.subrange(lo, hi)[k - lo]);
            assert(a[k] == a.subrange(lo, hi)[k - lo]);
        }
    }
}

/// After the live top-level item named `nm` went to the trash, restoring
/// `nm` finds that same item, when no top-level item named `nm` was in the
/// trash before.
pub proof fn lemma_restore_finds_trashed(a: Seq<u8>, b: Seq<u8>, nm: Seq<u8>, i: int)
    requires
        a.len() >= IMAGE_SIZE,
        find_from(a, ROOT, nm, 0) == Some(i),
        tree_applied(a, b, TreeOp::Trash, i),
        find_trashed_from(a, nm, 0) is None,
    ensures
        find_trashed_from(b, nm, 0) == Some(i),
{
    lemma_find_from_range(a, ROOT, nm, 0);
    lemma_find_none_before(a, ROOT, nm, 0, i);
    assert(active(a, i) && parent(a, i) == ROOT && name(a, i) == nm);
    assert(trashed(b, i));
    lemma_op_step_same_entry(a, b, TreeOp::Trash, i);
    assert forall|j: int| 0 <= j < i implies !#[trigger] trashed_match(b, nm, j) by {
        assert(state(b, j) == state(a, j) || (op_src(TreeOp::Trash, state(a, j)) && state(b, j) == ST_TRASHED));
        if trashed_match(b, nm, j) {
            if moved(a, b, j) {
                lemma_op_step_keeps(a, b, TreeOp::Trash, j);
                assert(parent_byte(a, j) < MAX_FILES);
                assert(parent(b, j) == parent_byte(b, j));
            } else {
                lemma_op_step_same_entry(a, b, TreeOp::Trash, j);
                lemma_trashed_none(a, nm, 0, j);
            }
        }
    }
    lemma_trashed_first(b, nm, 0, i);
}

/// Move slot `i` (and, for a directory, all its live descendants) to the trash.
pub fn trash_slot(img: &mut [u8], i: usize)
    requires
        old(img)@.len() >= IMAGE_SIZE,
    ensures
        op_step(old(img)@, final(img)@, TreeOp::Trash),
        active(old(img)@, i as int) ==> trashed(final(img)@, i as int),
        !active(old(img)@, i as int) ==> final(img)@ == old(img)@,
        tree_applied(old(img)@, final(img)@, TreeOp::Trash, i as int),
{
    if i < MAX_FILES {
        apply_tree(img, i, TreeOp::Trash);
        proof {
            assert forall|d: int, k: nat| #[trigger] src_path(old(img)@, TreeOp::Trash, d, i as int, k) implies state(img@, d)
                == op_dst(TreeOp::Trash) by {
                lemma_path_moved(old(img)@, img@, TreeOp::Trash, d, i as int, k);
            }
        }
    } else {
        assert(op_step(old(img)@, img@, TreeOp::Trash));
        assert forall|d: int, k: nat| #[trigger] src_path(old(img)@, TreeOp::Trash, d, i as int, k) implies state(img@, d)
            == op_dst(TreeOp::Trash) by {
            lemma_path_root(old(img)@, TreeOp::Trash, d, i as int, k);
        }
    }
}

/// Restore slot `i` (and its trashed descendants) from the trash.
pub fn restore_slot(img: &mut [u8], i: usize)
    requires
        old(img)@.len() >= IMAGE_SIZE,
    ensures
        op_step(old(img)@, final(img)@, TreeOp::Restore),
        trashed(old(img)@, i as int) ==> active(final(img)@, i as int),
        !trashed(old(img)@, i as int) ==> final(img)@ == old(img)@,
        tree_applied(old(img)@, final(img)@, TreeOp::Restore, i as int),
{
    if i < MAX_FILES {
        apply_tree(img, i, TreeOp::Restore);
        proof {
            assert forall|d: int, k: nat| #[trigger] src_path(old(img)@, TreeOp::Restore, d, i as int, k) implies state(img@, d)
                == op_dst(TreeOp::Restore) by {
                lemma_path_moved(old(img)@, img@, TreeOp::Restore, d, i as int, k);
            }
        }
    } else {
        assert(op_step(old(img)@, img@, TreeOp::Restore));
        assert forall|d: int, k: nat| #[trigger] src_path(old(img)@, TreeOp::Restore, d, i as int, k) implies state(img@, d)
            == op_dst(TreeOp::Restore) by {
            lemma_path_root(old(img)@, TreeOp::Restore, d, i as int, k);
        }
    }
}

/// Permanently delete slot `i` (and, for a directory, its whole subtree).
pub fn purge_slot(img: &mut [u8], i: usize)
    requires
        old(img)@.len() >= IMAGE_SIZE,
    ensures
        op_step(old(img)@, final(img)@, TreeOp::Purge),
        used(old(img)@, i as int) ==> !used(final(img)@, i as int),
        !used(old(img)@, i as int) ==> final(img)@ == old(img)@,
        tree_applied(old(img)@, final(img)@, TreeOp::Purge, i as int),
{
    if i < MAX_FILES {
        apply_tree(img, i, TreeOp::Purge);
        proof {
            assert forall|d: int, k: nat| #[trigger] src_path(old(img)@, TreeOp::Purge, d, i as int, k) implies state(img@, d)
                == op_dst(TreeOp::Purge) by {
                lemma_path_moved(old(img)@, img@, TreeOp::Purge, d, i as int, k);
            }
        }
    } else {
        assert(op_step(old(img)@, img@, TreeOp::Purge));
        assert forall|d: int, k: nat| #[trigger] src_path(old(img)@, TreeOp::Purge, d, i as int, k) implies state(img@, d)
            == op_dst(TreeOp::Purge) by {
            lemma_path_root(old(img)@, TreeOp::Purge, d, i as int, k);
        }
    }
}

/// Move a live top-level `name` to the trash (recursive). `NotFound` if absent.
pub fn trash(img: &mut [u8], name: &[u8]) -> (r: Result<(), FsError>)
    requires
        old(img)@.len() >= IMAGE_SIZE,
    ensures
        match find_from(old(img)@, ROOT, name@, 0) {
            None => r == Err::<(), FsError>(FsError::NotFound) && final(img)@ == old(img)@,
            Some(i) => r is Ok && tree_applied(old(img)@, final(img)@, TreeOp::Trash, i) && trashed(final(img)@, i),
        },
{
    let i = match find_in(img, ROOT, name) {
        Some(i) => i,
        None => return Err(FsError::NotFound),
    };
    proof {
        lemma_find_none_before(old(img)@, ROOT, name@, 0, i as int);
    }
    trash_slot(img, i);
    Ok(())
}

/// The first trashed top-level slot at or after `from` named `nm`.
pub open spec fn find_trashed_from(img: Seq<u8>, nm: Seq<u8>, from: int) -> Option<int>
    decreases MAX_FILES - from,
{
    if from >= MAX_FILES || from < 0 {
        None
    } else if trashed(img, from) && parent(img, from) == ROOT && name(img, from) == nm {
        Some(from)
    } else {
        find_trashed_from(img, nm, from + 1)
    }
}

/// The first top-level slot in any state at or after `from` named `nm`.
pub open spec fn find_used_from(img: Seq<u8>, nm: Seq<u8>, from: int) -> Option<int>
    decreases MAX_FILES - from,
{
    if from >= MAX_FILES || from < 0 {
        None
    } else if used(img, from) && parent(img, from) == ROOT && name(img, from) == nm {
        Some(from)
    } else {
        find_used_from(img, nm, from + 1)
    }
}

/// Restore a trashed top-level `name`. `NotFound` if not in the trash.
pub fn restore(img: &mut [u8], name: &[u8]) -> (r: Result<(), FsError>)
    requires
        old(img)@.len() >= IMAGE_SIZE,
    ensures
        match find_trashed_from(old(img)@, name@, 0) {
            None => r == Err::<(), FsError>(FsError::NotFound) && final(img)@ == old(img)@,
            Some(i) => r is Ok && tree_applied(old(img)@, final(img)@, TreeOp::Restore, i) && active(final(img)@, i),
        },
{
    let mut i: usize = 0;
    while i < MAX_FILES
        invariant
            img@ == old(img)@,
            img@.len() >= IMAGE_SIZE,
            i <= MAX_FILES,
            find_trashed_from(img@, name@, 0) == find_trashed_from(img@, name@, i as int),
        decreases MAX_FILES - i,
    {
        if is_trashed(img, i) && parent_at(img, i) == ROOT && crate::bytes::bytes_eq(name_at(img, i), name) {
            restore_slot(img, i);
            return Ok(());
        }
        i += 1;
    }
    Err(FsError::NotFound)
}

/// Permanently delete top-level `name`, in whatever state it is (recursive).
/// Unrecoverable. `NotFound` if absent.
pub fn purge(img: &mut [u8], name: &[u8]) -> (r: Result<(), FsError>)
    requires
        old(img)@.len() >= IMAGE_SIZE,
    ensures
        match find_used_from(old(img)@, name@, 0) {
            None => r == Err::<(), FsError>(FsError::NotFound) && final(img)@ == old(img)@,
            Some(i) => r is Ok && tree_applied(old(img)@, final(img)@, TreeOp::Purge, i) && !used(final(img)@, i),
        },
{
    let mut i: usize = 0;
    while i < MAX_FILES
        invariant
            img@ == old(img)@,
            img@.len() >= IMAGE_SIZE,
            i <= MAX_FILES,
            find_used_from(img@, name@, 0) == find_used_from(img@, name@, i as int),
        decreases MAX_FILES - i,
    {
        if is_used(img, i) && parent_at(img, i) == ROOT && crate::bytes::bytes_eq(name_at(img, i), name) {
            purge_slot(img, i);
            return Ok(());
        }
        i += 1;
    }
    Err(FsError::NotFound)
}

/// Permanently delete live top-level `name` (recursive). `NotFound` if absent.
pub fn remove(img: &mut [u8], name: &[u8]) -> (r: Result<(), FsError>)
    requires
        old(img)@.len() >= IMAGE_SIZE,
    ensures
        match find_from(old(img)@, ROOT, name@, 0) {
            None => r == Err::<(), FsError>(FsError::NotFound) && final(img)@ == old(img)@,
            Some(i) => r is Ok && tree_applied(old(img)@, final(img)@, TreeOp::Purge, i) && !used(final(img)@, i),
        },
{
    let i = match find_in(img, ROOT, name) {
        Some(i) => i,
        None => return Err(FsError::NotFound),
    };
    proof {
        lemma_find_none_before(old(img)@, ROOT, name@, 0, i as int);
    }
    purge_slot(img, i);
    Ok(())
}

/// Permanently delete every file in the trash.
pub fn empty_trash(img: &mut [u8])
    requires
        old(img)@.len() >= IMAGE_SIZE,
    ensures
        final(img)@.len() == old(img)@.len(),
        forall|k: int| 0 <= k < old(img)@.len() && !is_state_byte(k) ==> final(img)@[k] == old(img)@[k],
        forall|j: int| 0 <= j < MAX_FILES ==> #[trigger] state(final(img)@, j) == (if trashed(old(img)@, j) {
            ST_FREE
        } else {
            state(old(img)@, j)
        }),
{
    let mut i: usize = 0;
    while i < MAX_FILES
        invariant
            img@.len() == old(img)@.len(),
            old(img)@.len() >= IMAGE_SIZE,
            i <= MAX_FILES,
            forall|k: int| 0 <= k < old(img)@.len() && !is_state_byte(k) ==> img@[k] == old(img)@[k],
            forall|j: int| 0 <= j < i ==> #[trigger] state(img@, j) == (if trashed(old(img)@, j) {
                ST_FREE
            } else {
                state(old(img)@, j)
            }),
            forall|j: int| i <= j < MAX_FILES ==> #[trigger] state(img@, j) == state(old(img)@, j),
        decreases MAX_FILES - i,
    {
        let o = rec_off(i);
        let ghost before = img@;
        if img[o] == ST_TRASHED {
            img[o] = ST_FREE;
        }
        proof {
            assert forall|k: int| 0 <= k < old(img)@.len() && !is_state_byte(k) implies img@[k] == old(img)@[k] by {
                if k == o as int {
                    assert(is_state_byte(k));
                }
            }
            assert forall|j: int| 0 <= j < MAX_FILES && j != i implies #[trigger] state(img@, j) == state(before, j) by {
                assert(off(j) != off(i as int));
            }
            assert forall|j: int| 0 <= j < i + 1 implies #[trigger] state(img@, j) == (if trashed(old(img)@, j) {
                ST_FREE
            } else {
                state(old(img)@, j)
            }) by {
                if j < i {
                    assert(state(img@, j) == state(before, j));
                } else {
                    assert(state(before, i as int) == state(old(img)@, i as int));
                }
            }
        }
        i += 1;
    }
}

} // verus!
