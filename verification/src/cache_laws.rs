//! What holds of a concatenation cache over several calls.

use crate::cache::{concatenation_dim, CacheView, CachingInfo};
use crate::shape::PaddingMode;
use crate::tensor::{cat, joinable, lemma_cat_wf, TensorView};
use crate::tensor_laws::{law_cat_commutes_with_elementwise, law_cat_is_associative};
use vstd::prelude::*;

verus! {

/// The cache after every tensor of `history` was handed to it, the first one first.
pub open spec fn after_all<N>(cache: CacheView<N>, history: Seq<TensorView<N>>) -> CacheView<N>
    decreases history.len(),
{
    if history.len() == 0 {
        cache
    } else {
        after_all(cache, history.drop_last()).after(history.last())
    }
}

/// Every tensor of `history` has `f` applied to its elements.
pub open spec fn mapped_all<N, M>(history: Seq<TensorView<N>>, f: spec_fn(N) -> M) -> Seq<TensorView<M>> {
    history.map_values(|tensor: TensorView<N>| tensor.mapped(f))
}

/// A cache keeps its rank, its dimension and its switch, whatever is handed to it, and
/// stays well formed.
pub proof fn law_concatenation_keeps_configuration<N>(cache: CacheView<N>, new: TensorView<N>)
    requires
        cache.wf(),
        new.wf(),
    ensures
        cache.after(new).wf(),
        cache.after(new).info == cache.info,
        cache.after(new).disabled == cache.disabled,
{
    if let Some(cached) = cache.cached {
        if let Some(dim) = concatenation_dim(cache.info, new.rank() as int) {
            if joinable(cached.shape, new.shape, dim) {
                lemma_cat_wf(cached, new, dim);
            }
        }
    }
}

/// What concatenation returns is what the cache holds from then on, as long as the cache
/// is in use.
pub proof fn law_concatenation_is_cached<N>(cache: CacheView<N>, new: TensorView<N>)
    requires
        cache.wf(),
        new.wf(),
        !cache.disabled,
        cache.joined(new) is Ok,
    ensures
        cache.after(new).cached == Some(cache.joined(new)->Ok_0),
{
}

/// `next_shape` foretells the shape that concatenation returns.
pub proof fn law_next_shape_foretells_concatenation<N>(cache: CacheView<N>, new: TensorView<N>)
    requires
        cache.wf(),
        new.wf(),
        cache.joined(new) is Ok,
        !cache.disabled ==> concatenation_dim(cache.info, new.rank() as int)->0 < new.rank(),
    ensures
        cache.has_next_shape(new.shape, PaddingMode::NoPadding),
        cache.next_shape(new.shape, PaddingMode::NoPadding) == Ok::<Seq<usize>, crate::cache::CacheError>(
            cache.joined(new)->Ok_0.shape,
        ),
{
    if !cache.disabled {
        let dim: int = concatenation_dim(cache.info, new.rank() as int)->0;
        if let Some(cached) = cache.cached {
            assert(cached.rank() == new.rank());
            assert(cache.grown(new.shape) =~= cat(cached, new, dim).shape) by {
                assert forall|i: int| 0 <= i < new.shape.len() && i != dim implies new.shape[i]
                    == #[trigger] cached.shape[i] by {}
            }
        } else {
            assert(cache.grown(new.shape) =~= new.shape);
        }
    }
}

/// Each tensor that is joined lengthens the cached sequence by its own length.
pub proof fn law_sequence_grows_by_what_is_joined<N>(cache: CacheView<N>, new: TensorView<N>)
    requires
        cache.wf(),
        new.wf(),
        !cache.disabled,
        cache.joined(new) is Ok,
        concatenation_dim(cache.info, new.rank() as int)->0 < new.rank(),
    ensures
        cache.after(new).measurable(),
        cache.after(new).sequence_length() == cache.sequence_length() + new.shape[concatenation_dim(
            cache.info,
            new.rank() as int,
        )->0],
{
}

/// A bypassed cache hands every tensor back unchanged, holds nothing, leaves every shape
/// as it is, and is, once in use again, the cache as it was set up.
pub proof fn law_bypass_is_transparent<N>(cache: CacheView<N>, new: TensorView<N>, mode: PaddingMode)
    ensures
        cache.switched(true).joined(new) == Ok::<TensorView<N>, crate::cache::CacheError>(new),
        cache.switched(true).after(new) == cache.switched(true),
        cache.switched(true).cached is None,
        cache.switched(true).next_shape(new.shape, mode) == Ok::<Seq<usize>, crate::cache::CacheError>(
            crate::shape::shaped(new.shape, mode),
        ),
        cache.switched(true).after(new).switched(false) == CacheView::<N>::fresh(cache.info),
{
}

/// It does not matter in how many slices a history arrives: two slices one after the
/// other leave the cache as their concatenation would.
pub proof fn law_slices_can_be_merged<N>(cache: CacheView<N>, first: TensorView<N>, second: TensorView<N>, dim: int)
    requires
        cache.wf(),
        first.wf(),
        second.wf(),
        !cache.disabled,
        concatenation_dim(cache.info, first.rank() as int) == Some(dim),
        joinable(first.shape, second.shape, dim),
        cache.joined(first) is Ok,
        cache.after(first).joined(second) is Ok,
    ensures
        cache.after(first).after(second) == cache.after(cat(first, second, dim)),
        cache.after(first).joined(second) == cache.joined(cat(first, second, dim)),
{
    assert(second.rank() == first.rank());
    assert(cat(first, second, dim).rank() == first.rank());
    if let Some(cached) = cache.cached {
        law_cat_is_associative(cached, first, second, dim);
    }
}

/// One step of a cache of requantised tensors mirrors the same step of the cache of the
/// tensors before requantisation.
pub proof fn law_cache_commutes_with_elementwise<N, M>(
    cache: CacheView<N>,
    new: TensorView<N>,
    f: spec_fn(N) -> M,
)
    requires
        cache.wf(),
        new.wf(),
    ensures
        cache.mapped(f).after(new.mapped(f)) == cache.after(new).mapped(f),
        match cache.joined(new) {
            Ok(tensor) => cache.mapped(f).joined(new.mapped(f)) == Ok::<TensorView<M>, crate::cache::CacheError>(
                tensor.mapped(f),
            ),
            Err(error) => cache.mapped(f).joined(new.mapped(f)) == Err::<TensorView<M>, crate::cache::CacheError>(
                error,
            ),
        },
{
    if let Some(cached) = cache.cached {
        if let Some(dim) = concatenation_dim(cache.info, new.rank() as int) {
            if joinable(cached.shape, new.shape, dim) {
                law_cat_commutes_with_elementwise(cached, new, dim, f);
            }
        }
    }
}

/// Caching tensors that are requantised one by one gives, bit for bit, the requantised
/// cache of the whole history.
pub proof fn law_requantised_history<N, M>(
    cache: CacheView<N>,
    history: Seq<TensorView<N>>,
    f: spec_fn(N) -> M,
)
    requires
        cache.wf(),
        forall|i: int| 0 <= i < history.len() ==> (#[trigger] history[i]).wf(),
    ensures
        after_all(cache, history).wf(),
        after_all(cache.mapped(f), mapped_all(history, f)) == after_all(cache, history).mapped(f),
    decreases history.len(),
{
    if history.len() > 0 {
        let init: Seq<TensorView<N>> = history.drop_last();
        assert forall|i: int| 0 <= i < init.len() implies (#[trigger] init[i]).wf() by {
            assert(history[i].wf());
        }
        assert(history[history.len() - 1].wf());
        law_requantised_history(cache, init, f);
        assert(mapped_all(history, f).drop_last() =~= mapped_all(init, f));
        assert(mapped_all(history, f).last() == history.last().mapped(f));
        law_concatenation_keeps_configuration(after_all(cache, init), history.last());
        law_cache_commutes_with_elementwise(after_all(cache, init), history.last(), f);
    }
}

/// A history that arrives slice by slice is cached as one tensor: the sequence is as long
/// as all slices together.
pub proof fn law_history_length<N>(info: CachingInfo, history: Seq<TensorView<N>>, rank: int, dim: int)
    requires
        0 <= dim < rank,
        concatenation_dim(info, rank) == Some(dim),
        forall|i: int| 0 <= i < history.len() ==> (#[trigger] history[i]).wf() && history[i].rank() == rank,
        forall|i: int|
            0 <= i < history.len() ==> after_all(CacheView::<N>::fresh(info), #[trigger] history.take(i)).joined(
                history[i],
            ) is Ok,
    ensures
        after_all(CacheView::<N>::fresh(info), history).sequence_length() == history.fold_left(
            0int,
            |length: int, tensor: TensorView<N>| length + tensor.shape[dim],
        ),
    decreases history.len(),
{
    let start: CacheView<N> = CacheView::<N>::fresh(info);
    let f = |length: int, tensor: TensorView<N>| length + tensor.shape[dim];
    if history.len() > 0 {
        let init: Seq<TensorView<N>> = history.drop_last();
        let before: CacheView<N> = after_all(start, init);
        lemma_after_all_configuration(start, history);
        lemma_after_all_configuration(start, init);
        assert(history.take(init.len() as int) =~= init);
        assert(before.joined(history.last()) is Ok) by {
            assert(after_all(start, history.take(init.len() as int)).joined(history[init.len() as int]) is Ok);
        }
        assert forall|i: int| 0 <= i < init.len() implies (#[trigger] init[i]).wf() && init[i].rank() == rank by {
            assert(history[i].wf());
        }
        assert forall|i: int| 0 <= i < init.len() implies after_all(start, #[trigger] init.take(i)).joined(
            init[i],
        ) is Ok by {
            assert(init.take(i) =~= history.take(i));
        }
        if init.len() > 0 {
            let k: int = init.len() - 1;
            assert(init.take(k) =~= init.drop_last());
            assert(after_all(start, init.take(k)).joined(init[k]) is Ok);
            lemma_after_all_configuration(start, init.drop_last());
        }
        law_history_length(info, init, rank, dim);
        assert(history[history.len() - 1].wf());
        law_sequence_grows_by_what_is_joined(before, history.last());
    }
}

/// A whole history keeps the rank, the dimension and the switch of a cache.
pub proof fn lemma_after_all_configuration<N>(cache: CacheView<N>, history: Seq<TensorView<N>>)
    requires
        cache.wf(),
        forall|i: int| 0 <= i < history.len() ==> (#[trigger] history[i]).wf(),
    ensures
        after_all(cache, history).wf(),
        after_all(cache, history).info == cache.info,
        after_all(cache, history).disabled == cache.disabled,
    decreases history.len(),
{
    if history.len() > 0 {
        let init: Seq<TensorView<N>> = history.drop_last();
        assert forall|i: int| 0 <= i < init.len() implies (#[trigger] init[i]).wf() by {
            assert(history[i].wf());
        }
        assert(history[history.len() - 1].wf());
        lemma_after_all_configuration(cache, init);
        law_concatenation_keeps_configuration(after_all(cache, init), history.last());
    }
}

/// A negative dimension counts from the last: for a tensor of rank `rank`, the dimension is
/// `rank + dim`, so that minus one is the last, and there is none exactly where that is
/// below zero. A dimension that is not negative is itself, where the tensor has it. A cache
/// for tensors of a known rank always has the dimension it was set up with.
pub proof fn law_dimensions_count_from_either_end(dim: isize, rank: int, known: usize, fixed: usize)
    ensures
        dim < 0 && rank + dim >= 0 ==> concatenation_dim(CachingInfo::Dynamic(dim), rank) == Some(rank + dim),
        dim < 0 && rank + dim < 0 ==> concatenation_dim(CachingInfo::Dynamic(dim), rank) is None,
        0 <= dim < rank ==> concatenation_dim(CachingInfo::Dynamic(dim), rank) == Some(dim as int),
        0 <= dim && rank <= dim ==> concatenation_dim(CachingInfo::Dynamic(dim), rank) is None,
        rank > 0 ==> concatenation_dim(CachingInfo::Dynamic((-1) as isize), rank) == Some(rank - 1),
        concatenation_dim(CachingInfo::Static { rank: known, concatenation_dim: fixed }, rank) == Some(fixed as int),
{
}

/// A dimension can be named from either end: where a tensor has the dimension, counting it
/// from the front and counting it from the last give the same one.
pub proof fn law_both_ends_name_the_same_dimension(front: isize, back: isize, rank: int)
    requires
        0 <= front < rank,
        back == front - rank,
    ensures
        concatenation_dim(CachingInfo::Dynamic(front), rank) is Some,
        concatenation_dim(CachingInfo::Dynamic(front), rank) == concatenation_dim(CachingInfo::Dynamic(back), rank),
{
}

/// The error for a tensor without the dimension names the tensor's rank and the dimension.
pub proof fn law_rank_errors_name_the_dimension(dim: isize, rank: usize)
    ensures
        crate::cache::rank_error(CachingInfo::Dynamic(dim), rank as int) == (
        crate::cache::CacheError::RankTooSmall { rank, concatenation_dim: dim }),
{
}

/// A cache in use that holds nothing takes a tensor as it is, hands it back and holds it
/// from then on.
pub proof fn law_first_tensor_is_taken_as_it_is<N>(cache: CacheView<N>, new: TensorView<N>, dim: int)
    requires
        !cache.disabled,
        cache.cached is None,
        concatenation_dim(cache.info, new.shape.len() as int) == Some(dim),
    ensures
        cache.joined(new) == Ok::<TensorView<N>, crate::cache::CacheError>(new),
        cache.after(new).cached == Some(new),
{
}

/// A cache in use joins a tensor behind what it holds: the result is, along the dimension,
/// as long as both together, and keeps all else; its first elements along the dimension are
/// those that were held, and behind them stand those of the new tensor. The result is held
/// from then on.
pub proof fn law_cache_joins_behind_what_it_holds<N>(
    cache: CacheView<N>,
    new: TensorView<N>,
    dim: int,
    index: Seq<int>,
)
    requires
        cache.wf(),
        new.wf(),
        !cache.disabled,
        cache.cached is Some,
        concatenation_dim(cache.info, new.shape.len() as int) == Some(dim),
        0 <= dim < new.shape.len(),
        cache.cached->0.shape.len() == new.shape.len(),
        forall|i: int| 0 <= i < new.shape.len() && i != dim ==> #[trigger] cache.cached->0.shape[i] == new.shape[i],
        cache.cached->0.shape[dim] + new.shape[dim] <= usize::MAX,
        index.len() == new.shape.len(),
        forall|i: int|
            0 <= i < new.shape.len() ==> 0 <= #[trigger] index[i] < if i == dim {
                cache.cached->0.shape[dim] + new.shape[dim]
            } else {
                new.shape[i] as int
            },
    ensures
        cache.joined(new) matches Ok(joined) && {
            &&& cache.after(new).cached == Some(joined)
            &&& joined.shape == cache.cached->0.shape.update(
                dim,
                (cache.cached->0.shape[dim] + new.shape[dim]) as usize,
            )
            &&& index[dim] < cache.cached->0.shape[dim] ==> joined.at(index) == cache.cached->0.at(index)
            &&& index[dim] >= cache.cached->0.shape[dim] ==> joined.at(index) == new.at(
                index.update(dim, index[dim] - cache.cached->0.shape[dim]),
            )
        },
{
    let cached: TensorView<N> = cache.cached->0;
    assert(joinable(cached.shape, new.shape, dim));
    assert forall|i: int| 0 <= i < cat(cached, new, dim).shape.len() implies 0 <= #[trigger] index[i] < cat(
        cached,
        new,
        dim,
    ).shape[i] by {
        if i != dim {
            assert(cached.shape[i] == new.shape[i]);
        }
    }
    crate::tensor_laws::law_cat_places_every_element(cached, new, dim, index);
}

/// A tensor that does not fit what a cache in use holds is refused, and the cache is emptied;
/// one without the dimension to join along is refused, and the cache keeps what it holds.
pub proof fn law_misfits_empty_the_cache<N>(cache: CacheView<N>, new: TensorView<N>)
    requires
        !cache.disabled,
    ensures
        concatenation_dim(cache.info, new.shape.len() as int) is None ==> {
            &&& cache.joined(new) is Err
            &&& cache.after(new) == cache
        },
        concatenation_dim(cache.info, new.shape.len() as int) matches Some(dim) ==> (
        cache.cached matches Some(cached) ==> {
            let refused: bool = cached.shape.len() != new.shape.len() || dim >= cached.shape.len() || !(forall|i: int|
                0 <= i < cached.shape.len() && i != dim ==> #[trigger] cached.shape[i] == new.shape[i])
                || cached.shape[dim] + new.shape[dim] > usize::MAX;
            &&& refused <==> cache.joined(new) is Err
            &&& refused ==> cache.after(new).cached is None
        }),
        cache.after(new).info == cache.info,
        cache.after(new).disabled == cache.disabled,
{
}

/// The errors of a cache: the rank where the tensor has no dimension to join along, and what
/// joining was refused for otherwise.
pub proof fn law_cache_errors<N>(cache: CacheView<N>, new: TensorView<N>)
    requires
        cache.joined(new) is Err,
    ensures
        !cache.disabled,
        match concatenation_dim(cache.info, new.shape.len() as int) {
            None => cache.joined(new) == Err::<TensorView<N>, crate::cache::CacheError>(
                crate::cache::rank_error(cache.info, new.shape.len() as int),
            ),
            Some(dim) => cache.cached matches Some(cached) && (crate::tensor::cat_error(
                cached.shape,
                new.shape,
                dim,
            ) matches Some(error) && cache.joined(new) == Err::<TensorView<N>, crate::cache::CacheError>(
                crate::cache::CacheError::Tensor(error),
            )),
        },
{
}

/// The cached sequence is as long as the cached tensor along the dimension it was joined
/// along, and of length zero where nothing is cached.
pub proof fn law_sequence_length_is_read_off_the_tensor<N>(cache: CacheView<N>, dim: int)
    ensures
        cache.cached is None ==> cache.sequence_length() == 0,
        cache.cached matches Some(tensor) ==> (concatenation_dim(cache.info, tensor.shape.len() as int) == Some(dim)
            ==> cache.sequence_length() == tensor.shape[dim]),
{
}

/// The foretold shape is the given one, longer along one dimension by what is cached, and
/// rounded up under padding. A bypassed cache foretells the given shape.
pub proof fn law_next_shape_is_longer_by_what_is_cached<N>(cache: CacheView<N>, dims: Seq<usize>, dim: int)
    requires
        concatenation_dim(cache.info, dims.len() as int) == Some(dim),
        0 <= dim < dims.len(),
        dims[dim] + cache.sequence_length() <= usize::MAX,
    ensures
        !cache.disabled ==> {
            let next: Seq<usize> = dims.update(dim, (dims[dim] + cache.sequence_length()) as usize);
            &&& cache.next_shape(dims, PaddingMode::NoPadding) == Ok::<Seq<usize>, crate::cache::CacheError>(next)
            &&& cache.next_shape(dims, PaddingMode::Padding) == Ok::<Seq<usize>, crate::cache::CacheError>(
                crate::arith::padded(next),
            )
        },
        cache.disabled ==> {
            &&& cache.next_shape(dims, PaddingMode::NoPadding) == Ok::<Seq<usize>, crate::cache::CacheError>(dims)
            &&& cache.next_shape(dims, PaddingMode::Padding) == Ok::<Seq<usize>, crate::cache::CacheError>(
                crate::arith::padded(dims),
            )
        },
{
}

/// A shape without the dimension has no next one; a bypassed cache does not ask for it.
pub proof fn law_next_shape_needs_the_dimension<N>(cache: CacheView<N>, dims: Seq<usize>, mode: PaddingMode)
    requires
        concatenation_dim(cache.info, dims.len() as int) is None,
    ensures
        cache.next_shape(dims, mode) is Err <==> !cache.disabled,
        !cache.disabled ==> cache.next_shape(dims, mode) == Err::<Seq<usize>, crate::cache::CacheError>(
            crate::cache::rank_error(cache.info, dims.len() as int),
        ),
{
}

/// What setting up, emptying and switching a cache leave of it.
pub proof fn law_switches_and_resets<N>(cache: CacheView<N>, info: CachingInfo, disabled: bool)
    ensures
        CacheView::<N>::fresh(info).cached is None,
        CacheView::<N>::fresh(info).info == info,
        !CacheView::<N>::fresh(info).disabled,
        cache.emptied().cached is None,
        cache.emptied().info == cache.info,
        cache.emptied().disabled == cache.disabled,
        cache.switched(disabled).disabled == disabled,
        cache.switched(disabled).info == cache.info,
        disabled ==> cache.switched(disabled).cached is None,
        !disabled ==> cache.switched(disabled).cached == cache.cached,
{
}

/// A history of several tensors is joined one after the other.
pub proof fn law_history_is_joined_in_order<N>(cache: CacheView<N>, history: Seq<TensorView<N>>, new: TensorView<N>)
    ensures
        after_all(cache, Seq::<TensorView<N>>::empty()) == cache,
        after_all(cache, history.push(new)) == after_all(cache, history).after(new),
{
    assert(history.push(new).drop_last() =~= history);
}

} // verus!
