//! What rounding up does to shapes, and how many elements a shape holds.

use crate::arith::{
    lemma_power_of_two_above, lemma_product_append, padded, paddable, power_of_two_above, product,
};
use crate::shape::{shapeable, shaped, PaddingMode};
use vstd::arithmetic::power2::pow2;
use vstd::prelude::*;

verus! {

/// A shape without dimensions holds one element, and another dimension multiplies the
/// number of elements by its size.
pub proof fn law_elements_multiply(dims: Seq<usize>, size: usize)
    ensures
        product(Seq::<usize>::empty()) == 1,
        product(dims.push(size)) == product(dims) * size,
        product(seq![size]) == size,
        product(seq![size] + dims) == size * product(dims),
{
    assert(dims.push(size).drop_last() =~= dims);
    assert(seq![size].drop_last() =~= Seq::<usize>::empty());
    assert(product(Seq::<usize>::empty()) == 1);
    assert(product(seq![size]) == 1 * size as nat);
    lemma_product_append(seq![size], dims);
}

/// Rounding up gives the least power of two that is no smaller: nothing between it and the
/// number is a power of two, half of it is too small, and a power of two stays as it is.
pub proof fn law_rounding_up_is_tight(n: nat, k: nat)
    ensures
        n <= power_of_two_above(n),
        exists|j: nat| power_of_two_above(n) == #[trigger] pow2(j),
        n <= pow2(k) ==> power_of_two_above(n) <= pow2(k),
        n > 1 ==> power_of_two_above(n) < 2 * n,
        power_of_two_above(pow2(k)) == pow2(k),
{
    lemma_power_of_two_above(n);
    lemma_power_of_two_above(pow2(k));
    lemma_rounds_below_double(n);
}

proof fn lemma_rounds_below_double(n: nat)
    ensures
        n > 1 ==> power_of_two_above(n) < 2 * n,
    decreases n,
{
    if n > 1 {
        let half: nat = ((n + 1) / 2) as nat;
        if half > 1 {
            lemma_rounds_below_double(half);
            lemma_power_of_two_above(half);
            let k: nat = choose|k: nat| power_of_two_above(half) == #[trigger] pow2(k);
            if power_of_two_above(n) >= 2 * n {
                assert(pow2(k) >= n);
                if k == 0 {
                    vstd::arithmetic::power2::lemma2_to64();
                } else {
                    vstd::arithmetic::power2::lemma_pow2_unfold(k);
                    assert(pow2((k - 1) as nat) >= half);
                    assert(power_of_two_above(half) <= pow2((k - 1) as nat));
                    vstd::arithmetic::power2::lemma_pow2_pos((k - 1) as nat);
                }
            }
        }
    }
}

/// Under padding, every dimension becomes the least power of two that is no smaller; without
/// it, nothing changes. The number of dimensions stays either way.
pub proof fn law_padding_rounds_every_dimension(dims: Seq<usize>, i: int, k: nat)
    requires
        0 <= i < dims.len(),
        shapeable(dims, PaddingMode::Padding),
    ensures
        shaped(dims, PaddingMode::NoPadding) == dims,
        shaped(dims, PaddingMode::Padding) == padded(dims),
        padded(dims).len() == dims.len(),
        dims[i] <= padded(dims)[i],
        exists|j: nat| padded(dims)[i] == #[trigger] pow2(j),
        dims[i] <= pow2(k) ==> padded(dims)[i] <= pow2(k),
{
    assert(paddable(dims));
    assert(power_of_two_above(dims[i] as nat) <= usize::MAX);
    lemma_power_of_two_above(dims[i] as nat);
    let j: nat = choose|j: nat| power_of_two_above(dims[i] as nat) == #[trigger] pow2(j);
    assert(padded(dims)[i] == pow2(j));
}

/// A shape can be padded where no dimension is beyond the largest power of two that a word
/// holds.
pub proof fn law_shapes_within_a_power_can_be_padded(dims: Seq<usize>, k: nat, mode: PaddingMode)
    requires
        pow2(k) <= usize::MAX,
        forall|i: int| 0 <= i < dims.len() ==> #[trigger] dims[i] <= pow2(k),
    ensures
        shapeable(dims, mode),
        shapeable(dims, PaddingMode::NoPadding),
{
    assert forall|i: int| 0 <= i < dims.len() implies power_of_two_above(#[trigger] dims[i] as nat) <= usize::MAX by {
        lemma_power_of_two_above(dims[i] as nat);
    }
}

} // verus!
