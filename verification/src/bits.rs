//! Bit-level facts about 64-bit words used as sets of squares.
use vstd::prelude::*;
use vstd::std_specs::bits::{u64_trailing_zeros, axiom_u64_trailing_zeros};

verus! {

/// Whether bit `i` of `x` is set.
pub open spec fn bit(x: u64, i: int) -> bool {
    0 <= i < 64 && (x >> (i as u64)) & 1u64 == 1u64
}

/// Number of set bits.
pub open spec fn popcount(x: u64) -> nat
    decreases x,
{
    if x == 0 {
        0
    } else {
        (x % 2) as nat + popcount(x / 2)
    }
}

pub proof fn lemma_bit_single(i: u64, j: u64)
    by (bit_vector)
    requires
        i < 64,
        j < 64,
    ensures
        ((1u64 << i) >> j) & 1u64 == 1u64 <==> i == j,
{
}

pub proof fn lemma_bit_or(x: u64, y: u64, j: u64)
    by (bit_vector)
    requires
        j < 64,
    ensures
        ((x | y) >> j) & 1u64 == 1u64 <==> ((x >> j) & 1u64 == 1u64 || (y >> j) & 1u64 == 1u64),
{
}

pub proof fn lemma_bit_and(x: u64, y: u64, j: u64)
    by (bit_vector)
    requires
        j < 64,
    ensures
        ((x & y) >> j) & 1u64 == 1u64 <==> ((x >> j) & 1u64 == 1u64 && (y >> j) & 1u64 == 1u64),
{
}

pub proof fn lemma_bit_xor(x: u64, y: u64, j: u64)
    by (bit_vector)
    requires
        j < 64,
    ensures
        ((x ^ y) >> j) & 1u64 == 1u64 <==> ((x >> j) & 1u64 == 1u64) != ((y >> j) & 1u64 == 1u64),
{
}

pub proof fn lemma_bit_not(x: u64, j: u64)
    by (bit_vector)
    requires
        j < 64,
    ensures
        ((!x) >> j) & 1u64 == 1u64 <==> !((x >> j) & 1u64 == 1u64),
{
}

pub proof fn lemma_bit_zero(j: u64)
    by (bit_vector)
    ensures
        !((0u64 >> j) & 1u64 == 1u64),
{
}

/// Exclusive or is associative, commutative, has 0 as unit and cancels.
pub proof fn lemma_xor_facts(a: u64, b: u64, c: u64)
    by (bit_vector)
    ensures
        a ^ 0u64 == a,
        (a ^ b) ^ c == a ^ (b ^ c),
        a ^ b == b ^ a,
        a ^ a == 0u64,
{
}

/// `x | y` holds exactly the bits of `x` and of `y`.
pub proof fn lemma_or(x: u64, y: u64)
    ensures
        forall|i: int| #[trigger] bit(x | y, i) <==> bit(x, i) || bit(y, i),
{
    assert forall|i: int| #[trigger] bit(x | y, i) <==> bit(x, i) || bit(y, i) by {
        if 0 <= i < 64 {
            lemma_bit_or(x, y, i as u64);
        }
    }
}

pub proof fn lemma_and(x: u64, y: u64)
    ensures
        forall|i: int| #[trigger] bit(x & y, i) <==> bit(x, i) && bit(y, i),
{
    assert forall|i: int| #[trigger] bit(x & y, i) <==> bit(x, i) && bit(y, i) by {
        if 0 <= i < 64 {
            lemma_bit_and(x, y, i as u64);
        }
    }
}

pub proof fn lemma_xor(x: u64, y: u64)
    ensures
        forall|i: int| #[trigger] bit(x ^ y, i) <==> (bit(x, i) != bit(y, i)),
{
    assert forall|i: int| #[trigger] bit(x ^ y, i) <==> (bit(x, i) != bit(y, i)) by {
        if 0 <= i < 64 {
            lemma_bit_xor(x, y, i as u64);
        }
    }
}

pub proof fn lemma_not(x: u64)
    ensures
        forall|i: int| 0 <= i < 64 ==> (#[trigger] bit(!x, i) <==> !bit(x, i)),
{
    assert forall|i: int| 0 <= i < 64 implies (#[trigger] bit(!x, i) <==> !bit(x, i)) by {
        lemma_bit_not(x, i as u64);
    }
}

/// The word with only bit `i` set.
pub proof fn lemma_single(i: u64)
    requires
        i < 64,
    ensures
        forall|j: int| #[trigger] bit(1u64 << i, j) <==> j == i,
{
    assert forall|j: int| #[trigger] bit(1u64 << i, j) <==> j == i by {
        if 0 <= j < 64 {
            lemma_bit_single(i, j as u64);
        }
    }
}

pub proof fn lemma_zero()
    ensures
        forall|j: int| !#[trigger] bit(0u64, j),
{
    assert forall|j: int| !#[trigger] bit(0u64, j) by {
        if 0 <= j < 64 {
            lemma_bit_zero(j as u64);
        }
    }
}

/// A word is zero exactly when it has no set bit; otherwise its lowest set
/// bit is the count of its trailing zeros.
pub proof fn lemma_nonzero(x: u64)
    ensures
        x != 0 ==> u64_trailing_zeros(x) < 64 && bit(x, u64_trailing_zeros(x) as int),
        x != 0 ==> forall|j: int| 0 <= j < u64_trailing_zeros(x) ==> !#[trigger] bit(x, j),
        x == 0 ==> forall|j: int| !#[trigger] bit(x, j),
        x == 0 ==> u64_trailing_zeros(x) == 64,
{
    axiom_u64_trailing_zeros(x);
    lemma_zero();
    if x != 0 {
        let t = u64_trailing_zeros(x);
        assert forall|j: int| 0 <= j < t implies !#[trigger] bit(x, j) by {
            assert((x >> (j as u64)) & 1u64 == 0u64);
        }
    }
}

pub proof fn lemma_zero_iff(x: u64)
    ensures
        x == 0 <==> forall|j: int| 0 <= j < 64 ==> !#[trigger] bit(x, j),
{
    lemma_nonzero(x);
}

proof fn lemma_xor_zero(x: u64, y: u64)
    by (bit_vector)
    requires
        x ^ y == 0,
    ensures
        x == y,
{
}

/// Two words with the same bits are equal.
pub proof fn lemma_ext(x: u64, y: u64)
    requires
        forall|j: int| 0 <= j < 64 ==> bit(x, j) == bit(y, j),
    ensures
        x == y,
{
    lemma_xor(x, y);
    lemma_zero_iff(x ^ y);
    lemma_xor_zero(x, y);
}

} // verus!
