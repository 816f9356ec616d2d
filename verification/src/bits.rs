//! Single bits of a 32-bit presence mask.
use vstd::prelude::*;
use vstd::std_specs::bits::{axiom_u32_trailing_zeros, u32_trailing_zeros};

verus! {

/// Whether bit `i` of `mask` is set.
pub open spec fn bit(mask: u32, i: int) -> bool {
    (mask >> (i as u32)) & 1u32 == 1u32
}

/// A mask is zero exactly when none of its bits is set.
pub proof fn lemma_zero_mask(mask: u32)
    ensures
        mask == 0 <==> (forall|i: int| 0 <= i < 32 ==> !bit(mask, i)),
{
    if mask == 0 {
        assert forall|i: int| 0 <= i < 32 implies !bit(mask, i) by {
            let k = i as u32;
            assert((0u32 >> k) & 1u32 != 1u32) by (bit_vector);
        }
    } else {
        axiom_u32_trailing_zeros(mask);
        assert(bit(mask, u32_trailing_zeros(mask) as int));
    }
}

/// Returns `mask` with bit `i` set.
pub(crate) fn with_bit(mask: u32, i: usize) -> (r: u32)
    requires
        i < 32,
    ensures
        forall|j: int| 0 <= j < 32 ==> #[trigger] bit(r, j) == (j == i || bit(mask, j)),
{
    let k: u32 = i as u32;
    let r: u32 = mask | (1u32 << k);
    proof {
        assert forall|j: int| 0 <= j < 32 implies #[trigger] bit(r, j) == (j == i || bit(
            mask,
            j,
        )) by {
            let l = j as u32;
            assert(l < 32 && k < 32 ==> (((mask | (1u32 << k)) >> l) & 1u32 == 1u32) == (l == k
                || (mask >> l) & 1u32 == 1u32)) by (bit_vector);
        }
    }
    r
}

/// Returns `mask` with bit `i` cleared.
pub(crate) fn without_bit(mask: u32, i: usize) -> (r: u32)
    requires
        i < 32,
    ensures
        forall|j: int| 0 <= j < 32 ==> #[trigger] bit(r, j) == (j != i && bit(mask, j)),
{
    let k: u32 = i as u32;
    let r: u32 = mask & !(1u32 << k);
    proof {
        assert forall|j: int| 0 <= j < 32 implies #[trigger] bit(r, j) == (j != i && bit(
            mask,
            j,
        )) by {
            let l = j as u32;
            assert(l < 32 && k < 32 ==> (((mask & !(1u32 << k)) >> l) & 1u32 == 1u32) == (l != k
                && (mask >> l) & 1u32 == 1u32)) by (bit_vector);
        }
    }
    r
}

/// Whether bit `i` of `mask` is set.
pub(crate) fn has_bit(mask: u32, i: usize) -> (r: bool)
    requires
        i < 32,
    ensures
        r == bit(mask, i as int),
{
    let k: u32 = i as u32;
    proof {
        assert(k < 32 ==> (mask & (1u32 << k) != 0) == ((mask >> k) & 1u32 == 1u32))
            by (bit_vector);
    }
    mask & (1u32 << k) != 0
}

/// Index of the lowest set bit of a non-zero mask.
pub(crate) fn lowest_bit(mask: u32) -> (r: usize)
    requires
        mask != 0,
    ensures
        r < 32,
        bit(mask, r as int),
        forall|j: int| 0 <= j < r ==> !bit(mask, j),
{
    let r: u32 = mask.trailing_zeros();
    proof {
        axiom_u32_trailing_zeros(mask);
        assert forall|j: int| 0 <= j < r implies !bit(mask, j) by {
            let l = j as u32;
            assert((mask >> l) & 1u32 == 0u32);
        }
    }
    r as usize
}

} // verus!
