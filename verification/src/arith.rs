//! Products of dimensions and rounding up to powers of two.

use vstd::arithmetic::power2::pow2;
use vstd::prelude::*;

verus! {

/// The product of a sequence of dimensions; the empty product is one.
pub open spec fn product(dims: Seq<usize>) -> nat
    decreases dims.len(),
{
    if dims.len() == 0 {
        1
    } else {
        product(dims.drop_last()) * dims.last() as nat
    }
}

/// The least power of two that is at least `n`.
pub open spec fn power_of_two_above(n: nat) -> nat
    decreases n,
{
    if n <= 1 {
        1
    } else {
        2 * power_of_two_above(((n + 1) / 2) as nat)
    }
}

/// Every dimension rounded up to a power of two.
pub open spec fn padded(dims: Seq<usize>) -> Seq<usize> {
    Seq::new(dims.len(), |i: int| power_of_two_above(dims[i] as nat) as usize)
}

/// Whether every dimension can be rounded up to a power of two within a machine word.
pub open spec fn paddable(dims: Seq<usize>) -> bool {
    forall|i: int| 0 <= i < dims.len() ==> power_of_two_above(#[trigger] dims[i] as nat) <= usize::MAX
}

/// The product of a concatenation is the product of the products.
pub proof fn lemma_product_append(front: Seq<usize>, back: Seq<usize>)
    ensures
        product(front + back) == product(front) * product(back),
    decreases back.len(),
{
    if back.len() == 0 {
        assert(front + back =~= front);
        assert(product(front) * 1 == product(front));
    } else {
        assert((front + back).last() == back.last());
        assert((front + back).drop_last() =~= front + back.drop_last());
        lemma_product_append(front, back.drop_last());
        let f: int = product(front) as int;
        let b: int = product(back.drop_last()) as int;
        let l: int = back.last() as int;
        assert((f * b) * l == f * (b * l)) by (nonlinear_arith);
    }
}

/// A product splits around any one of its dimensions.
pub proof fn lemma_product_split(dims: Seq<usize>, dim: int)
    requires
        0 <= dim < dims.len(),
    ensures
        product(dims.skip(dim)) == dims[dim] * product(dims.skip(dim + 1)),
        product(dims) == product(dims.take(dim)) * product(dims.skip(dim)),
{
    let one: Seq<usize> = seq![dims[dim]];
    assert(dims.skip(dim) =~= one + dims.skip(dim + 1));
    lemma_product_append(one, dims.skip(dim + 1));
    assert(one.drop_last() =~= Seq::<usize>::empty());
    assert(product(Seq::<usize>::empty()) == 1);
    assert(product(one) == 1 * dims[dim] as nat);
    assert(dims =~= dims.take(dim) + dims.skip(dim));
    lemma_product_append(dims.take(dim), dims.skip(dim));
}

/// A product is zero exactly when one of its dimensions is.
pub proof fn lemma_product_zero(dims: Seq<usize>)
    ensures
        product(dims) == 0 <==> exists|i: int| 0 <= i < dims.len() && dims[i] == 0,
    decreases dims.len(),
{
    if dims.len() > 0 {
        let init: Seq<usize> = dims.drop_last();
        lemma_product_zero(init);
        let p: int = product(init) as int;
        let l: int = dims.last() as int;
        assert(p * l == 0 <==> p == 0 || l == 0) by (nonlinear_arith);
        if p == 0 {
            let i: int = choose|i: int| 0 <= i < init.len() && init[i] == 0;
            assert(dims[i] == 0);
        }
        if l == 0 {
            assert(dims[dims.len() - 1] == 0);
        }
        if exists|i: int| 0 <= i < dims.len() && dims[i] == 0 {
            let i: int = choose|i: int| 0 <= i < dims.len() && dims[i] == 0;
            if i < init.len() {
                assert(init[i] == 0);
            }
        }
    }
}

/// A leading part of a product without zeros is no larger than the whole.
pub proof fn lemma_product_take(dims: Seq<usize>, len: int)
    requires
        0 <= len <= dims.len(),
        product(dims) > 0,
    ensures
        0 < product(dims.take(len)) <= product(dims),
{
    assert(dims =~= dims.take(len) + dims.skip(len));
    lemma_product_append(dims.take(len), dims.skip(len));
    let a: int = product(dims.take(len)) as int;
    let b: int = product(dims.skip(len)) as int;
    assert(a > 0 && a <= a * b) by (nonlinear_arith)
        requires
            a >= 0,
            b >= 0,
            a * b > 0,
    ;
}

/// A trailing part of a product without zeros is no larger than the whole.
pub proof fn lemma_product_skip(dims: Seq<usize>, len: int)
    requires
        0 <= len <= dims.len(),
        product(dims) > 0,
    ensures
        0 < product(dims.skip(len)) <= product(dims),
{
    assert(dims =~= dims.take(len) + dims.skip(len));
    lemma_product_append(dims.take(len), dims.skip(len));
    let a: int = product(dims.take(len)) as int;
    let b: int = product(dims.skip(len)) as int;
    assert(b > 0 && b <= a * b) by (nonlinear_arith)
        requires
            a >= 0,
            b >= 0,
            a * b > 0,
    ;
}

/// Rounding up gives the least power of two that is at least the argument.
pub proof fn lemma_power_of_two_above(n: nat)
    ensures
        n <= power_of_two_above(n),
        exists|k: nat| power_of_two_above(n) == #[trigger] pow2(k),
        forall|k: nat| n <= #[trigger] pow2(k) ==> power_of_two_above(n) <= pow2(k),
    decreases n,
{
    vstd::arithmetic::power2::lemma2_to64();
    if n <= 1 {
        assert(power_of_two_above(n) == pow2(0));
        assert forall|k: nat| n <= #[trigger] pow2(k) implies power_of_two_above(n) <= pow2(k) by {
            vstd::arithmetic::power2::lemma_pow2_pos(k);
        }
    } else {
        let half: nat = ((n + 1) / 2) as nat;
        lemma_power_of_two_above(half);
        let j: nat = choose|k: nat| power_of_two_above(half) == #[trigger] pow2(k);
        vstd::arithmetic::power2::lemma_pow2_unfold((j + 1) as nat);
        assert(power_of_two_above(n) == pow2((j + 1) as nat));
        assert forall|k: nat| n <= #[trigger] pow2(k) implies power_of_two_above(n) <= pow2(k) by {
            if k > 0 {
                vstd::arithmetic::power2::lemma_pow2_unfold(k);
                assert(half <= pow2((k - 1) as nat));
            }
        }
    }
}

/// Rounding a rounded number up again changes nothing.
pub proof fn lemma_power_of_two_above_idempotent(n: nat)
    ensures
        power_of_two_above(power_of_two_above(n)) == power_of_two_above(n),
{
    lemma_power_of_two_above(n);
    lemma_power_of_two_above(power_of_two_above(n));
    let k: nat = choose|k: nat| power_of_two_above(n) == #[trigger] pow2(k);
    assert(power_of_two_above(n) <= pow2(k));
}

/// Padding a padded shape again changes nothing.
pub proof fn law_padding_is_idempotent(dims: Seq<usize>)
    requires
        paddable(dims),
    ensures
        paddable(padded(dims)),
        padded(padded(dims)) == padded(dims),
{
    assert forall|i: int| 0 <= i < dims.len() implies {
        &&& power_of_two_above(#[trigger] padded(dims)[i] as nat) <= usize::MAX
        &&& padded(padded(dims))[i] == padded(dims)[i]
    } by {
        assert(power_of_two_above(dims[i] as nat) <= usize::MAX);
        lemma_power_of_two_above_idempotent(dims[i] as nat);
    }
    assert(padded(padded(dims)) =~= padded(dims));
}

/// The least power of two that is at least `n`.
pub fn next_power_of_two(n: usize) -> (power: usize)
    requires
        power_of_two_above(n as nat) <= usize::MAX,
    ensures
        power == power_of_two_above(n as nat),
{
    let mut power: usize = 1;
    let mut rest: usize = n;
    while rest > 1
        invariant
            power >= 1,
            power_of_two_above(n as nat) <= usize::MAX,
            power_of_two_above(n as nat) == power * power_of_two_above(rest as nat),
        decreases rest,
    {
        let half: usize = rest / 2 + rest % 2;
        proof {
            let above: nat = power_of_two_above(half as nat);
            assert(half == (rest + 1) / 2);
            assert(power_of_two_above(rest as nat) == 2 * above);
            lemma_power_of_two_above(half as nat);
            assert(power * (2 * above) == (power * 2) * above) by (nonlinear_arith);
            assert(power * 2 <= (power * 2) * above) by (nonlinear_arith)
                requires
                    above >= 1,
                    power >= 0,
            ;
        }
        power = power * 2;
        rest = half;
    }
    proof {
        assert(power_of_two_above(rest as nat) == 1);
        assert(power * 1 == power);
    }
    power
}

/// The product of the dimensions from `low` up to, but not including, `high`.
pub fn range_product(dims: &Vec<usize>, low: usize, high: usize) -> (total: usize)
    requires
        low <= high <= dims.len(),
        0 < product(dims@.subrange(low as int, high as int)) <= usize::MAX,
    ensures
        total == product(dims@.subrange(low as int, high as int)),
{
    let ghost all: Seq<usize> = dims@.subrange(low as int, high as int);
    let mut total: usize = 1;
    let mut i: usize = low;
    proof {
        assert(all.take(0) =~= Seq::<usize>::empty());
    }
    while i < high
        invariant
            low <= i <= high <= dims.len(),
            all == dims@.subrange(low as int, high as int),
            0 < product(all) <= usize::MAX,
            total == product(all.take(i - low)),
        decreases high - i,
    {
        proof {
            lemma_product_take(all, i + 1 - low);
            assert(all.take(i + 1 - low).drop_last() =~= all.take(i - low));
        }
        total = total * dims[i];
        i = i + 1;
    }
    proof {
        assert(all.take(high - low) =~= all);
    }
    total
}

/// Whether the product of all dimensions is exactly `len`.
pub fn product_is(dims: &Vec<usize>, len: usize) -> (same: bool)
    ensures
        same == (product(dims@) == len),
{
    let mut zero: bool = false;
    let mut i: usize = 0;
    while i < dims.len()
        invariant
            i <= dims.len(),
            zero == exists|j: int| 0 <= j < i && dims@[j] == 0,
        decreases dims.len() - i,
    {
        if dims[i] == 0 {
            zero = true;
        }
        i = i + 1;
    }
    proof {
        lemma_product_zero(dims@);
    }
    if zero {
        return len == 0;
    }
    let mut total: usize = 1;
    let mut k: usize = 0;
    proof {
        assert(dims@.take(0) =~= Seq::<usize>::empty());
    }
    while k < dims.len()
        invariant
            k <= dims.len(),
            product(dims@) > 0,
            total == product(dims@.take(k as int)),
            total <= len || k == 0,
            total >= 1,
        decreases dims.len() - k,
    {
        proof {
            let limit: int = usize::MAX as int;
            let factor: int = dims@[k as int] as int;
            assert(total * factor <= limit * limit) by (nonlinear_arith)
                requires
                    0 <= total <= limit,
                    0 <= factor <= limit,
            ;
            assert(limit * limit <= u128::MAX) by (nonlinear_arith)
                requires
                    0 <= limit <= 0xffff_ffff_ffff_ffff,
            ;
        }
        let wide: u128 = total as u128 * dims[k] as u128;
        proof {
            assert(dims@.take(k + 1).drop_last() =~= dims@.take(k as int));
            lemma_product_take(dims@, k + 1);
        }
        if wide > len as u128 {
            return false;
        }
        total = wide as usize;
        k = k + 1;
    }
    proof {
        assert(dims@.take(k as int) =~= dims@);
    }
    total == len
}

} // verus!
