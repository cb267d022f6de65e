//! Pure arithmetic for a linked-list heap allocator: alignment and
//! region-fit math. The kernel supplies the glue that threads free-list
//! nodes through memory.
use vstd::prelude::*;
use vstd::arithmetic::power2::pow2;

verus! {

/// `n` is a power of two that fits the machine word.
pub open spec fn is_pow2(n: usize) -> bool {
    exists|k: nat| k < usize::BITS && n == pow2(k)
}

/// The smallest multiple of `align` that is at least `addr`.
pub open spec fn align_up_spec(addr: int, align: int) -> int {
    ((addr + align - 1) / align) * align
}

/// A power of two is a single set bit, and masking off the bits below it
/// rounds down to a multiple of it.
proof fn lemma_pow2_bits(a: usize, x: usize)
    requires
        is_pow2(a),
    ensures
        a != 0,
        a & ((a - 1) as usize) == 0,
        x & !((a - 1) as usize) == x - x % a,
{
    let k = choose|k: nat| k < usize::BITS && a == pow2(k);
    vstd::bits::lemma_usize_pow2_no_overflow(k);
    vstd::bits::lemma_usize_shl_is_mul(1, k as usize);
    let kk = k as usize;
    assert(kk < usize::BITS ==> (1usize << kk) & (((1usize << kk) - 1) as usize) == 0) by (bit_vector);
    vstd::bits::lemma_usize_low_bits_mask_is_mod(x, k);
    let m = (a - 1) as usize;
    assert(x & !m == x - (x & m)) by (bit_vector);
}

/// A non-zero word with no two bits set is a power of two.
proof fn lemma_single_bit_is_pow2(n: usize)
    requires
        n != 0,
        n & ((n - 1) as usize) == 0,
    ensures
        is_pow2(n),
    decreases n,
{
    if n == 1 {
        vstd::arithmetic::power2::lemma2_to64();
    } else {
        assert(n != 0 && n & ((n - 1) as usize) == 0 && n != 1 ==> n % 2 == 0 && (n / 2) != 0
            && (n / 2) & ((n / 2 - 1) as usize) == 0) by (bit_vector);
        lemma_single_bit_is_pow2(n / 2);
        let k = choose|k: nat| k < usize::BITS && n / 2 == pow2(k);
        vstd::arithmetic::power2::lemma_pow2_unfold(k + 1);
        vstd::arithmetic::power2::lemma2_to64();
        assert(k + 1 < usize::BITS) by {
            if k + 1 >= usize::BITS {
                vstd::arithmetic::power2::lemma_pow2_strictly_increases(usize::BITS as nat, k + 1);
            }
        }
    }
}

/// Round `addr` up to a multiple of `align` (which must be a power of two).
pub fn align_up(addr: usize, align: usize) -> (r: usize)
    requires
        is_pow2(align),
        addr + align - 1 <= usize::MAX,
    ensures
        r == align_up_spec(addr as int, align as int),
        r % align == 0,
        addr <= r < addr + align,
{
    proof {
        lemma_pow2_bits(align, (addr + (align - 1)) as usize);
        let x: int = addr + align - 1;
        let a: int = align as int;
        vstd::arithmetic::div_mod::lemma_fundamental_div_mod(x, a);
        vstd::arithmetic::div_mod::lemma_mod_bound(x, a);
        vstd::arithmetic::mul::lemma_mul_is_commutative(a, x / a);
        vstd::arithmetic::div_mod::lemma_mod_multiples_basic(x / a, a);
    }
    (addr + (align - 1)) & !(align - 1)
}

/// True when `align` is a non-zero power of two.
pub fn is_power_of_two(align: usize) -> (b: bool)
    ensures
        b == is_pow2(align),
{
    let b = align != 0 && (align & (align - 1)) == 0;
    proof {
        if b {
            lemma_single_bit_is_pow2(align);
        } else if is_pow2(align) {
            lemma_pow2_bits(align, 0);
        }
    }
    b
}

/// Where an allocation of `size` bytes aligned to `align` lands inside the free
/// region `[region_start, region_start + region_size)`, as `(start, excess)`.
/// No fit when it runs past the end (or past the address space), or when the
/// leftover tail is non-zero yet smaller than `min_block` (a stranded scrap).
pub open spec fn fit_region_spec(
    region_start: int,
    region_size: int,
    size: int,
    align: int,
    min_block: int,
) -> Option<(int, int)> {
    let start = align_up_spec(region_start, align);
    let end = start + size;
    let region_end = region_start + region_size;
    if end > usize::MAX || region_end > usize::MAX || end > region_end {
        None
    } else if region_end - end > 0 && region_end - end < min_block {
        None
    } else {
        Some((start, region_end - end))
    }
}

/// Try to place an allocation of `size` bytes aligned to `align` inside the
/// free region `[region_start, region_start + region_size)`.
///
/// Returns `(alloc_start, excess)` where `excess` is the leftover tail after
/// the allocation. The fit is rejected when it doesn't physically fit, or when
/// the leftover is non-zero but too small to hold a free-list node
/// (`min_block`).
pub fn fit_region(
    region_start: usize,
    region_size: usize,
    size: usize,
    align: usize,
    min_block: usize,
) -> (r: Option<(usize, usize)>)
    requires
        is_pow2(align),
        region_start + align - 1 <= usize::MAX,
    ensures
        match r {
            Some((s, e)) => fit_region_spec(
                region_start as int,
                region_size as int,
                size as int,
                align as int,
                min_block as int,
            ) == Some((s as int, e as int)),
            None => fit_region_spec(
                region_start as int,
                region_size as int,
                size as int,
                align as int,
                min_block as int,
            ) is None,
        },
{
    let alloc_start = align_up(region_start, align);
    let alloc_end = match alloc_start.checked_add(size) {
        Some(e) => e,
        None => return None,
    };
    let region_end = match region_start.checked_add(region_size) {
        Some(e) => e,
        None => return None,
    };
    if alloc_end > region_end {
        return None;
    }
    let excess = region_end - alloc_end;
    if excess > 0 && excess < min_block {
        return None;
    }
    Some((alloc_start, excess))
}

/// Normalize a requested `(size, align)` so every allocation is at least large
/// enough, and aligned enough, to host a free-list node once freed.
pub fn adjust_request(size: usize, align: usize, node_size: usize, node_align: usize) -> (r: (
    usize,
    usize,
))
    requires
        is_pow2(node_align),
        (if size > node_size { size } else { node_size }) + node_align - 1 <= usize::MAX,
    ensures
        r.0 == align_up_spec(if size > node_size { size as int } else { node_size as int }, node_align as int),
        r.1 == (if align > node_align { align } else { node_align }),
{
    let a = if align > node_align { align } else { node_align };
    let s = if size > node_size { size } else { node_size };
    (align_up(s, node_align), a)
}

} // verus!
