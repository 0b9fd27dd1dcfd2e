//! Which shape every input of an einsum layer has, and what the layer makes of them.

use crate::axis_shapes::{has_size, lemma_axis_size};
use crate::cache::CacheError;
use crate::einsum::{absent, full_dims, input_dims, present, shapes_given, EinSumView};
use crate::shape::{shapeable, PaddingMode};
use vstd::prelude::*;

verus! {

proof fn lemma_present_step<T>(values: Seq<Option<T>>, len: int)
    requires
        0 <= len < values.len(),
    ensures
        present(values.take(len + 1)) == present(values.take(len)) + if values[len] is Some {
            1nat
        } else {
            0nat
        },
{
    assert(values.take(len + 1).drop_last() =~= values.take(len));
}

/// How many values are there is how many are left when those that are not are taken out.
pub proof fn law_present_values_are_counted<T>(values: Seq<Option<T>>, value: T)
    ensures
        present(values) == values.filter(|value: Option<T>| value is Some).len(),
        present(Seq::<Option<T>>::empty()) == 0,
        present(values.push(Some(value))) == present(values) + 1,
        present(values.push(None)) == present(values),
    decreases values.len(),
{
    reveal(Seq::filter);
    assert(values.push(Some(value)).drop_last() =~= values);
    assert(values.push(None).drop_last() =~= values);
    if values.len() > 0 {
        law_present_values_are_counted(values.drop_last(), value);
    }
}

/// The places that are kept, from left to right, have the given shapes from the first one on.
pub proof fn lemma_taken_in_order(
    constants: Seq<Option<Seq<usize>>>,
    given: Seq<Seq<usize>>,
    keep: spec_fn(int) -> bool,
    places: Seq<int>,
    count: int,
)
    requires
        1 <= count <= constants.len() + 1,
        forall|i: int|
            0 <= i <= constants.len() ==> (#[trigger] keep(i) <==> i == 0 || constants[i - 1] is None),
        places == Seq::new(count as nat, |i: int| i).filter(keep),
    ensures
        places.len() == 1 + absent(constants, count - 1),
        forall|j: int|
            0 <= j < places.len() ==> 0 <= #[trigger] places[j] < count && input_dims(constants, given, places[j])
                == given[j],
    decreases count,
{
    reveal(Seq::filter);
    let all: Seq<int> = Seq::new(count as nat, |i: int| i);
    let before: Seq<int> = Seq::new((count - 1) as nat, |i: int| i);
    assert(all.drop_last() =~= before);
    assert(all.last() == count - 1);
    if count == 1 {
        assert(keep(0));
        assert(before =~= Seq::<int>::empty());
        assert(before.filter(keep) =~= Seq::<int>::empty());
        assert(places =~= seq![0int]);
        assert(constants.take(0) =~= Seq::<Option<Seq<usize>>>::empty());
    } else {
        let earlier: Seq<int> = before.filter(keep);
        lemma_taken_in_order(constants, given, keep, earlier, count - 1);
        lemma_present_step(constants, count - 2);
        if keep(count - 1) {
            assert(places == earlier.push(count - 1));
            assert(input_dims(constants, given, count - 1) == given[earlier.len() as int]);
        } else {
            assert(places == earlier);
        }
    }
}

/// The given shapes are used up in order, each once: the first input and the inputs that are
/// not constant, from left to right, have the given shapes from the first one on.
pub proof fn law_given_shapes_are_used_up_in_order(constants: Seq<Option<Seq<usize>>>, given: Seq<Seq<usize>>)
    ensures
        ({
            let places: Seq<int> = Seq::new(constants.len() + 1, |i: int| i).filter(
                |i: int| i == 0 || constants[i - 1] is None,
            );
            let full: Seq<Seq<usize>> = full_dims(constants, given, PaddingMode::NoPadding);
            &&& shapes_given(constants, given, PaddingMode::NoPadding) <==> places.len() <= given.len()
            &&& places.len() <= given.len() ==> places.map_values(|i: int| full[i]) == given.take(places.len() as int)
        }),
{
    let keep: spec_fn(int) -> bool = |i: int| i == 0 || constants[i - 1] is None;
    let places: Seq<int> = Seq::new(constants.len() + 1, |i: int| i).filter(keep);
    let full: Seq<Seq<usize>> = full_dims(constants, given, PaddingMode::NoPadding);
    lemma_taken_in_order(constants, given, keep, places, (constants.len() + 1) as int);
    if places.len() <= given.len() {
        assert(places.map_values(|i: int| full[i]) =~= given.take(places.len() as int));
    }
}

/// A constant input has the shape of its constant, and the first input the first given shape.
pub proof fn law_constants_keep_their_shapes(
    constants: Seq<Option<Seq<usize>>>,
    given: Seq<Seq<usize>>,
    mode: PaddingMode,
    i: int,
)
    ensures
        full_dims(constants, given, mode).len() == constants.len() + 1,
        full_dims(constants, given, PaddingMode::NoPadding)[0] == given[0],
        0 <= i < constants.len() && constants[i] is Some ==> full_dims(
            constants,
            given,
            PaddingMode::NoPadding,
        )[i + 1] == constants[i]->0,
        0 <= i <= constants.len() ==> full_dims(constants, given, PaddingMode::Padding)[i] == crate::arith::padded(
            full_dims(constants, given, PaddingMode::NoPadding)[i],
        ),
{
}

proof fn lemma_none_present<T>(values: Seq<Option<T>>)
    requires
        forall|i: int| 0 <= i < values.len() ==> #[trigger] values[i] is None,
    ensures
        present(values) == 0,
    decreases values.len(),
{
    if values.len() > 0 {
        assert forall|i: int| 0 <= i < values.drop_last().len() implies #[trigger] values.drop_last()[i] is None by {
            assert(values[i] is None);
        }
        lemma_none_present(values.drop_last());
    }
}

/// Where no input is constant, every input has the given shape of its own place.
pub proof fn law_without_constants_every_shape_is_given(constants: Seq<Option<Seq<usize>>>, given: Seq<Seq<usize>>)
    requires
        forall|i: int| 0 <= i < constants.len() ==> #[trigger] constants[i] is None,
    ensures
        shapes_given(constants, given, PaddingMode::NoPadding) <==> given.len() >= constants.len() + 1,
        forall|i: int|
            0 <= i <= constants.len() ==> #[trigger] full_dims(constants, given, PaddingMode::NoPadding)[i] == given[i],
{
    assert forall|n: int| 0 <= n <= constants.len() implies #[trigger] absent(constants, n) == n by {
        let front: Seq<Option<Seq<usize>>> = constants.take(n);
        assert forall|i: int| 0 <= i < front.len() implies #[trigger] front[i] is None by {
            assert(constants[i] is None);
        }
        lemma_none_present(front);
    }
    assert(absent(constants, constants.len() as int) == constants.len());
    assert forall|i: int| 0 <= i <= constants.len() implies #[trigger] full_dims(
        constants,
        given,
        PaddingMode::NoPadding,
    )[i] == given[i] by {
        if i > 0 {
            assert(constants[i - 1] is None);
            assert(absent(constants, i - 1) == i - 1);
        }
    }
}

/// Where every input but the first is constant, one given shape is enough, and shapes behind
/// the first make no difference.
pub proof fn law_with_constants_only_one_shape_is_needed(
    constants: Seq<Option<Seq<usize>>>,
    given: Seq<Seq<usize>>,
    other: Seq<Seq<usize>>,
    mode: PaddingMode,
)
    requires
        forall|i: int| 0 <= i < constants.len() ==> #[trigger] constants[i] is Some,
        given.len() >= 1,
        other.len() >= 1,
        given[0] == other[0],
    ensures
        shapes_given(constants, given, PaddingMode::NoPadding),
        full_dims(constants, given, mode) == full_dims(constants, other, mode),
{
    law_given_shapes_are_used_up_in_order(constants, given);
    let keep: spec_fn(int) -> bool = |i: int| i == 0 || constants[i - 1] is None;
    let all: Seq<int> = Seq::new(constants.len() + 1, |i: int| i);
    lemma_taken_in_order(constants, given, keep, all.filter(keep), (constants.len() + 1) as int);
    assert(present(constants) == constants.len()) by {
        lemma_all_present(constants);
    }
    assert(constants.take(constants.len() as int) =~= constants);
    assert(full_dims(constants, given, mode) =~= full_dims(constants, other, mode));
}

proof fn lemma_all_present<T>(values: Seq<Option<T>>)
    requires
        forall|i: int| 0 <= i < values.len() ==> #[trigger] values[i] is Some,
    ensures
        present(values) == values.len(),
    decreases values.len(),
{
    if values.len() > 0 {
        assert forall|i: int| 0 <= i < values.drop_last().len() implies #[trigger] values.drop_last()[i] is Some by {
            assert(values[i] is Some);
        }
        lemma_all_present(values.drop_last());
    }
}

/// Shapes that are given under padding need no more shapes, only sizes that can be rounded up.
pub proof fn law_padded_shapes_need_room(constants: Seq<Option<Seq<usize>>>, given: Seq<Seq<usize>>)
    ensures
        shapes_given(constants, given, PaddingMode::Padding) <==> {
            &&& shapes_given(constants, given, PaddingMode::NoPadding)
            &&& forall|i: int|
                0 <= i <= constants.len() ==> crate::arith::paddable(
                    #[trigger] full_dims(constants, given, PaddingMode::NoPadding)[i],
                )
        },
{
    let full: Seq<Seq<usize>> = full_dims(constants, given, PaddingMode::NoPadding);
    assert forall|i: int| 0 <= i <= constants.len() implies #[trigger] full[i] == input_dims(constants, given, i) by {}
    if shapes_given(constants, given, PaddingMode::Padding) {
        assert forall|i: int| 0 <= i <= constants.len() implies crate::arith::paddable(#[trigger] full[i]) by {
            assert(shapeable(input_dims(constants, given, i), PaddingMode::Padding));
        }
    }
    if forall|i: int| 0 <= i <= constants.len() ==> crate::arith::paddable(#[trigger] full[i]) {
        assert forall|i: int| 0 <= i <= constants.len() implies shapeable(
            #[trigger] input_dims(constants, given, i),
            PaddingMode::Padding,
        ) by {
            assert(crate::arith::paddable(full[i]));
        }
    }
}

/// There is an output shape for every output of the equation. Where an output has no cache,
/// or one that is bypassed or empty, each of its sizes is that of the same axis in the input
/// that has it. A cache adds the length of what it holds along the dimension that it joins.
pub proof fn law_output_sizes_are_those_of_the_inputs<T>(
    layer: EinSumView<T>,
    given: Seq<Seq<usize>>,
    output: int,
    position: int,
    input: int,
    at: int,
)
    requires
        layer.wf(),
        layer.mapping.shape_error(full_dims(layer.constant_shapes, given, PaddingMode::NoPadding)) is None,
        0 <= output < layer.mapping.outputs.len(),
        0 <= position < layer.mapping.outputs[output].axes.len(),
        0 <= input < layer.mapping.inputs.len(),
        0 <= at < layer.mapping.inputs[input].axes.len(),
        layer.mapping.outputs[output].axes[position] == layer.mapping.inputs[input].axes[at],
    ensures
        ({
            let size: usize = full_dims(layer.constant_shapes, given, PaddingMode::NoPadding)[input][at];
            let dims: Seq<Seq<usize>> = layer.output_dims(given, PaddingMode::NoPadding);
            &&& dims.len() == layer.mapping.outputs.len()
            &&& layer.caches[output] is None ==> dims[output].len() == layer.mapping.outputs[output].axes.len()
                && dims[output][position] == size
            &&& layer.caches[output] matches Some(cache) ==> {
                &&& dims[output].len() == layer.mapping.outputs[output].axes.len()
                &&& cache.disabled || cache.cached is None ==> dims[output][position] == size
                &&& !cache.disabled && cache.cached is Some && position != cache.info->concatenation_dim
                    ==> dims[output][position] == size
                &&& !cache.disabled && cache.cached is Some && position == cache.info->concatenation_dim && size
                    + cache.cached->0.shape[position] <= usize::MAX ==> dims[output][position] == size
                    + cache.cached->0.shape[position]
            }
        }),
{
    let full: Seq<Seq<usize>> = full_dims(layer.constant_shapes, given, PaddingMode::NoPadding);
    let axis: char = layer.mapping.inputs[input].axes[at];
    assert(layer.cache_wf(output));
    assert(has_size(layer.mapping.inputs, full, axis, full[input][at]));
    lemma_axis_size(layer.mapping.inputs, full, axis, full[input][at]);
}

/// The shape of an output is the one that the equation gives, and where the output has a
/// cache, the one that the cache foretells for it, padded or not.
pub proof fn law_output_shapes_are_foretold_by_the_caches<T>(
    layer: EinSumView<T>,
    given: Seq<Seq<usize>>,
    mode: PaddingMode,
    output: int,
)
    requires
        layer.wf(),
        0 <= output < layer.mapping.outputs.len(),
    ensures
        ({
            let dims: Seq<usize> = layer.mapping.output_dims(full_dims(layer.constant_shapes, given, mode))[output];
            &&& layer.caches[output] is None ==> layer.output_dims(given, mode)[output] == dims
            &&& layer.caches[output] matches Some(cache) ==> cache.next_shape(dims, mode) == Ok::<
                Seq<usize>,
                CacheError,
            >(layer.output_dims(given, mode)[output])
        }),
{
    assert(layer.cache_wf(output));
}

} // verus!
