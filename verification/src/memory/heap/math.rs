use vstd::prelude::*;
use vstd::arithmetic::power2::*;
use vstd::arithmetic::div_mod::*;
use vstd::bits::*;
use vstd::std_specs::bits::*;

verus! {

/// The bits below position `k`.
pub open spec fn low_mask(k: usize) -> usize {
    ((1usize << k) - 1) as usize
}

/// The least `k` such that `2^k >= x`.
pub open spec fn ceil_log2(x: nat) -> nat
    decreases x,
{
    if x <= 1 {
        0
    } else {
        1 + ceil_log2(((x + 1) / 2) as nat)
    }
}

/// Whether `addr` is a multiple of `2^class`.
pub open spec fn block_aligned(addr: usize, class: nat) -> bool {
    addr as nat % pow2(class) == 0
}

/// Whether a block of `2^class` bytes at `addr` lies within the address space.
pub open spec fn block_fits(addr: usize, class: nat) -> bool {
    addr as nat + pow2(class) <= usize::MAX as nat + 1
}

pub proof fn lemma_shl_is_pow2(k: usize)
    requires
        k < usize::BITS,
    ensures
        (1usize << k) as nat == pow2(k as nat),
{
    lemma_usize_pow2_no_overflow(k as nat);
    lemma_usize_shl_is_mul(1, k);
}

pub proof fn lemma_mask_is_mod(p: usize, k: usize)
    requires
        k < usize::BITS,
    ensures
        p & low_mask(k) == p as nat % pow2(k as nat),
{
    lemma_shl_is_pow2(k);
    lemma_usize_pow2_no_overflow(k as nat);
    lemma_usize_low_bits_mask_is_mod(p, k as nat);
}

pub proof fn lemma_buddy_bits(p: usize, c: usize)
    requires
        c + 1 < usize::BITS,
        p & low_mask(c) == 0,
    ensures
        (p ^ (1usize << c)) & low_mask(c) == 0,
        p & (1usize << c) == 0 ==> (p ^ (1usize << c)) == p + (1usize << c),
        p & (1usize << c) != 0 ==> (p ^ (1usize << c)) == p - (1usize << c),
        p & (1usize << c) == 0 ==> p & low_mask((c + 1) as usize) == 0,
        p & (1usize << c) != 0 ==> ((p - (1usize << c)) as usize) & low_mask((c + 1) as usize)
            == 0,
        (p ^ (1usize << c)) != p,
{
    assert((p ^ (1usize << c)) & low_mask(c) == 0) by (bit_vector)
        requires
            c + 1 < usize::BITS,
            p & low_mask(c) == 0,
    ;
    assert(p & (1usize << c) == 0 ==> (p ^ (1usize << c)) == p + (1usize << c)) by (bit_vector)
        requires
            c + 1 < usize::BITS,
    ;
    assert(p & (1usize << c) != 0 ==> (p ^ (1usize << c)) == p - (1usize << c)) by (bit_vector)
        requires
            c + 1 < usize::BITS,
    ;
    assert(p & (1usize << c) == 0 ==> p & low_mask((c + 1) as usize) == 0) by (bit_vector)
        requires
            c + 1 < usize::BITS,
            p & low_mask(c) == 0,
    ;
    assert(p & (1usize << c) != 0 ==> ((p - (1usize << c)) as usize) & low_mask((c + 1) as usize)
        == 0) by (bit_vector)
        requires
            c + 1 < usize::BITS,
            p & low_mask(c) == 0,
    ;
    assert((p ^ (1usize << c)) != p) by (bit_vector)
        requires
            c + 1 < usize::BITS,
    ;
}

/// `isize::MAX + 1` and `usize::MAX + 1` are the powers of two of the word width.
pub proof fn lemma_word_limits()
    ensures
        isize::MAX as nat + 1 == pow2((usize::BITS - 1) as nat),
        usize::MAX as nat + 1 == pow2(usize::BITS as nat),
        usize::BITS == 32 || usize::BITS == 64,
        usize::BITS / 8 == pow2(if usize::BITS == 64 { 3nat } else { 2nat }),
{
    lemma2_to64();
    lemma2_to64_rest();
}

/// Every power of two below `2^usize::BITS` has an exponent below `usize::BITS`.
pub proof fn lemma_pow2_exponent_bound(k: nat)
    requires
        pow2(k) <= usize::MAX,
    ensures
        k < usize::BITS,
{
    lemma_word_limits();
    if k >= usize::BITS {
        if k > usize::BITS {
            lemma_pow2_strictly_increases(usize::BITS as nat, k);
        }
    }
}

/// Powers of two are ordered as their exponents.
pub proof fn lemma_pow2_order(a: nat, b: nat)
    ensures
        a < b <==> pow2(a) < pow2(b),
        a == b <==> pow2(a) == pow2(b),
{
    if a < b {
        lemma_pow2_strictly_increases(a, b);
    } else if b < a {
        lemma_pow2_strictly_increases(b, a);
    }
}

/// `a` rounded up to a multiple of `w`.
pub open spec fn round_up(a: int, w: int) -> int {
    (a + w - 1) / w * w
}

/// `a` rounded down to a multiple of `w`.
pub open spec fn round_down(a: int, w: int) -> int {
    a / w * w
}

/// The lowest set bit of a nonzero word is a power of two that divides it.
pub proof fn lemma_low_bit(x: usize)
    requires
        x != 0,
    ensures
        !x < usize::MAX,
        ({
            let lb = x & ((!x + 1) as usize);
            &&& lb <= x
            &&& exists|j: nat| j < usize::BITS && pow2(j) == lb
            &&& x as nat % lb as nat == 0
        }),
{
    assert(!x < !0usize) by (bit_vector)
        requires
            x != 0,
    ;
    let m: usize = usize::MAX;
    assert(m <= !0usize) by (bit_vector);
    let lb = x & ((!x + 1) as usize);
    assert(lb != 0 && lb & ((lb - 1) as usize) == 0 && x & ((lb - 1) as usize) == 0 && lb <= x)
        by (bit_vector)
        requires
            x != 0,
            lb == x & ((!x + 1) as usize),
    ;
    let y = lb as u64;
    axiom_u64_trailing_zeros(y);
    let t = u64_trailing_zeros(y) as u64;
    assert(y != 0 && y & ((y - 1) as u64) == 0) by (bit_vector)
        requires
            y == lb as u64,
            lb != 0,
            lb & ((lb - 1) as usize) == 0,
    ;
    assert(y == 1u64 << t) by (bit_vector)
        requires
            y != 0,
            y & ((y - 1) as u64) == 0,
            t < 64,
            (y >> t) & 1u64 == 1u64,
    ;
    assert(t < usize::BITS) by (bit_vector)
        requires
            y == lb as u64,
            y == 1u64 << t,
            t < 64,
    ;
    let tu = t as usize;
    assert(lb == 1usize << tu) by (bit_vector)
        requires
            y == lb as u64,
            y == 1u64 << t,
            tu == t,
            tu < usize::BITS,
    ;
    lemma_shl_is_pow2(tu);
    lemma_mask_is_mod(x, tu);
    assert(low_mask(tu) == (lb - 1) as usize);
}

/// `k` is the least exponent whose power of two reaches `x`.
pub proof fn lemma_ceil_log2_unique(x: nat, k: nat)
    requires
        pow2(k) >= x,
        k == 0 || pow2((k - 1) as nat) < x,
    ensures
        ceil_log2(x) == k,
    decreases x,
{
    lemma_pow2_pos(k);
    if x <= 1 {
        if k > 0 {
            lemma_pow2_pos((k - 1) as nat);
        }
    } else {
        assert(k > 0) by {
            lemma2_to64();
        }
        let y = ((x + 1) / 2) as nat;
        lemma_pow2_unfold(k);
        if k >= 2 {
            lemma_pow2_unfold((k - 1) as nat);
        }
        lemma_ceil_log2_unique(y, (k - 1) as nat);
    }
}

/// `2^ceil_log2(x)` reaches `x`.
pub proof fn lemma_ceil_log2_reaches(x: nat)
    ensures
        pow2(ceil_log2(x)) >= x,
        ceil_log2(x) == 0 || pow2((ceil_log2(x) - 1) as nat) < x,
    decreases x,
{
    if x <= 1 {
        lemma2_to64();
    } else {
        let y = ((x + 1) / 2) as nat;
        lemma_ceil_log2_reaches(y);
        lemma_pow2_unfold(ceil_log2(x));
        if ceil_log2(y) > 0 {
            lemma_pow2_unfold(ceil_log2(y));
        } else {
            lemma2_to64();
        }
    }
}

pub proof fn lemma_ceil_log2_of_pow2(k: nat)
    ensures
        ceil_log2(pow2(k)) == k,
{
    if k > 0 {
        lemma_pow2_strictly_increases((k - 1) as nat, k);
    }
    lemma_ceil_log2_unique(pow2(k), k);
}

/// The least power of two that is at least `x`; 1 for 0.
pub fn next_power_of_two(x: usize) -> (p: usize)
    requires
        x as nat <= pow2((usize::BITS - 1) as nat),
    ensures
        p as nat == pow2(ceil_log2(x as nat)),
        ceil_log2(x as nat) < usize::BITS,
{
    let mut p: usize = 1;
    let ghost mut k: nat = 0;
    proof {
        lemma2_to64();
        lemma_usize_pow2_no_overflow((usize::BITS - 1) as nat);
    }
    while p < x
        invariant
            p as nat == pow2(k),
            k < usize::BITS,
            k == 0 || pow2((k - 1) as nat) < x,
            x as nat <= pow2((usize::BITS - 1) as nat),
        decreases usize::MAX - p,
    {
        proof {
            lemma_pow2_unfold(k + 1);
            if k + 1 >= usize::BITS {
                lemma_pow2_strictly_increases(k, (usize::BITS - 1) as nat);
            }
            lemma_usize_pow2_no_overflow(k + 1);
        }
        p = p * 2;
        proof {
            k = k + 1;
        }
    }
    proof {
        lemma_ceil_log2_unique(x as nat, k);
    }
    p
}

/// The largest power of two that is at most `x`.
pub fn prev_power_of_two(x: usize) -> (p: usize)
    requires
        x != 0,
    ensures
        p <= x,
        x < 2 * p,
        exists|j: nat| j < usize::BITS && pow2(j) == p,
{
    let mut p: usize = 1;
    let ghost mut k: nat = 0;
    proof {
        lemma2_to64();
    }
    while p <= x / 2
        invariant
            1 <= p <= x,
            p as nat == pow2(k),
        decreases x - p,
    {
        proof {
            lemma_pow2_unfold(k + 1);
        }
        p = p * 2;
        proof {
            k = k + 1;
        }
    }
    proof {
        lemma_pow2_exponent_bound(k);
    }
    p
}

/// `address` rounded up to a multiple of `alignment`, a word size.
pub fn align_up(address: usize, alignment: usize) -> (r: usize)
    requires
        alignment == 4 || alignment == 8,
        address + alignment <= usize::MAX,
    ensures
        r == round_up(address as int, alignment as int),
{
    let m: usize = usize::MAX;
    if alignment == 8 {
        assert(((address + 7) as usize) & !7usize == round_up(address as int, 8)) by (bit_vector)
            requires
                address + 7 <= m,
        ;
    } else {
        assert(((address + 3) as usize) & !3usize == round_up(address as int, 4)) by (bit_vector)
            requires
                address + 3 <= m,
        ;
    }
    (address + alignment - 1) & !(alignment - 1)
}

/// `address` rounded down to a multiple of `alignment`, a word size.
pub fn align_down(address: usize, alignment: usize) -> (r: usize)
    requires
        alignment == 4 || alignment == 8,
    ensures
        r == round_down(address as int, alignment as int),
{
    if alignment == 8 {
        assert(address & !7usize == round_down(address as int, 8)) by (bit_vector);
    } else {
        assert(address & !3usize == round_down(address as int, 4)) by (bit_vector);
    }
    address & !(alignment - 1)
}

/// The exponent of a power of two.
pub fn log2_of_power(p: usize) -> (k: usize)
    requires
        exists|j: nat| j < usize::BITS && pow2(j) == p,
    ensures
        k < usize::BITS,
        pow2(k as nat) == p,
        p == 1usize << k,
{
    let ghost j = choose|j: nat| j < usize::BITS && pow2(j) == p;
    proof {
        lemma_shl_is_pow2(j as usize);
        lemma_tz_of_shift(j as u64);
        let ju = j as usize;
        assert((1usize << ju) as u64 == 1u64 << (ju as u64)) by (bit_vector)
            requires
                ju < usize::BITS,
        ;
    }
    (p as u64).trailing_zeros() as usize
}

proof fn lemma_tz_of_shift(k: u64)
    requires
        k < 64,
    ensures
        u64_trailing_zeros(1u64 << k) == k,
{
    let x = 1u64 << k;
    axiom_u64_trailing_zeros(x);
    assert(x != 0) by (bit_vector)
        requires
            x == 1u64 << k,
            k < 64,
    ;
    let t = u64_trailing_zeros(x) as u64;
    assert((x >> k) & 1u64 == 1u64) by (bit_vector)
        requires
            x == 1u64 << k,
            k < 64,
    ;
    assert(t != k ==> (x >> t) & 1u64 == 0u64) by (bit_vector)
        requires
            x == 1u64 << k,
            k < 64,
            t < 64,
    ;
    if t < k {
    } else if t > k {
        assert((x >> k) & 1u64 == 0u64);
    }
}

/// A multiple of `2^i` is a multiple of every smaller power of two, and
/// adding `2^k` keeps it a multiple of `2^k`.
pub proof fn lemma_aligned_down(b: nat, i: nat, k: nat)
    requires
        k <= i,
        b % pow2(i) == 0,
    ensures
        b % pow2(k) == 0,
        (b + pow2(k)) % pow2(k) == 0,
        pow2(k) <= pow2(i),
{
    lemma_pow2_pos(k);
    lemma_pow2_pos(i);
    lemma_pow2_adds(k, (i - k) as nat);
    assert(pow2(i) == pow2((i - k) as nat) * pow2(k));
    lemma_pow2_pos((i - k) as nat);
    let q = b / pow2(i);
    lemma_fundamental_div_mod(b as int, pow2(i) as int);
    assert(b == q * pow2(i));
    assert(b == (q * pow2((i - k) as nat)) * pow2(k)) by (nonlinear_arith)
        requires
            b == q * pow2(i),
            pow2(i) == pow2((i - k) as nat) * pow2(k),
    ;
    lemma_mod_multiples_basic((q * pow2((i - k) as nat)) as int, pow2(k) as int);
    lemma_mod_add_multiples_vanish(b as int, pow2(k) as int);
    assert(pow2(k) <= pow2(i)) by (nonlinear_arith)
        requires
            pow2(i) == pow2((i - k) as nat) * pow2(k),
            pow2((i - k) as nat) > 0,
            pow2(k) > 0,
    ;
}

} // verus!
