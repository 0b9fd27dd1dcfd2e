//! When an einsum layer can be built and given caches, and what it then consists of.

use crate::axis::{equation_error, ShapeError};
use crate::cache::{CacheView, CachingInfo};
use crate::einsum::{
    bias_misfit, cache_misfit, caches_error, fresh_caches, handle_keys, handle_shapes, layer_error, present,
    EinSum, EinSumError, EinSumView, HandleView, TensorHandle,
};
use crate::einsum_context::EinSumContext;
use crate::einsum_input_laws::law_present_values_are_counted;
use crate::equation::{read_equation, MappingView, TermView};
use crate::equation_laws::{law_biases_are_listed_in_order, law_biases_that_fit, law_spread_biases_keep_their_sizes};
use vstd::prelude::*;

verus! {

/// The shapes and keys of handles are those of the tensors that are there, place by place.
pub proof fn law_handles_are_read_place_by_place<T>(handles: Seq<Option<HandleView<T>>>, i: int)
    requires
        0 <= i < handles.len(),
    ensures
        handle_shapes(handles).len() == handles.len(),
        handle_keys(handles).len() == handles.len(),
        handles[i] is None ==> handle_shapes(handles)[i] is None && handle_keys(handles)[i] is None,
        handles[i] matches Some(handle) ==> handle_shapes(handles)[i] == Some(handle.tensor.shape) && handle_keys(
            handles,
        )[i] == Some(handle.key),
{
}

proof fn lemma_first_misfit<T>(mapping: MappingView, biases: Seq<Option<HandleView<T>>>, len: int)
    requires
        0 <= len,
    ensures
        bias_misfit(mapping, biases, len) is None <==> forall|k: int|
            0 <= k < len && #[trigger] biases[k] is Some ==> mapping.bias_error(
                k,
                present(biases.take(k)) as int,
                biases[k]->0.tensor.shape,
            ) is None,
        bias_misfit(mapping, biases, len) matches Some(error) ==> exists|k: int|
            0 <= k < len && #[trigger] biases[k] is Some && mapping.bias_error(
                k,
                present(biases.take(k)) as int,
                biases[k]->0.tensor.shape,
            ) == Some(error) && bias_misfit(mapping, biases, k) is None,
    decreases len,
{
    if len > 0 {
        lemma_first_misfit(mapping, biases, len - 1);
        if bias_misfit(mapping, biases, len - 1) is None && bias_misfit(mapping, biases, len) is Some {
            assert(biases[len - 1] is Some);
        }
        if bias_misfit(mapping, biases, len - 1) is Some {
            let error: ShapeError = bias_misfit(mapping, biases, len - 1)->0;
            let k: int = choose|k: int|
                0 <= k < len - 1 && #[trigger] biases[k] is Some && mapping.bias_error(
                    k,
                    present(biases.take(k)) as int,
                    biases[k]->0.tensor.shape,
                ) == Some(error) && bias_misfit(mapping, biases, k) is None;
            assert(biases[k] is Some);
        }
    }
}

/// A text that is no sensible equation builds no layer, whatever the constants and biases.
pub proof fn law_layers_need_an_equation<T>(
    text: Seq<char>,
    constants: Seq<Option<HandleView<T>>>,
    biases: Seq<Option<HandleView<T>>>,
)
    ensures
        equation_error(text) matches Some(error) ==> layer_error(text, constants, biases) == Some(
            EinSumError::Equation(error),
        ),
{
}

/// A layer needs an entry for every input but the first, then one for every output, then as
/// many biases as outputs have one in the equation, then an output for every input but the
/// first, and at most four inputs: the first of these that does not hold is the answer.
pub proof fn law_layers_are_refused_for_a_reason<T>(
    text: Seq<char>,
    mapping: MappingView,
    constants: Seq<Option<HandleView<T>>>,
    biases: Seq<Option<HandleView<T>>>,
)
    requires
        read_equation(text) == Some(mapping),
        mapping.error() is None,
        mapping.inputs.len() <= usize::MAX,
        mapping.outputs.len() <= usize::MAX,
        constants.len() <= usize::MAX,
        biases.len() <= usize::MAX,
    ensures
        ({
            let inputs: int = mapping.inputs.len() as int;
            let outputs: int = mapping.outputs.len() as int;
            let given: int = biases.filter(|bias: Option<HandleView<T>>| bias is Some).len() as int;
            let expected: int = mapping.outputs.filter_map(|term: TermView| term.bias).len() as int;
            let answer: Option<EinSumError> = layer_error(text, constants, biases);
            if constants.len() != inputs - 1 {
                &&& answer matches Some(EinSumError::ConstantCount { given: g, expected: e })
                &&& g == constants.len()
                &&& inputs >= 1 ==> e == inputs - 1
            } else if biases.len() != outputs {
                answer matches Some(EinSumError::BiasCount { given: g, expected: e }) && g == biases.len() && e
                    == outputs
            } else if given != expected {
                answer matches Some(EinSumError::MissingBiases { given: g, expected: e }) && g == given && e == expected
            } else if outputs != inputs - 1 {
                answer matches Some(EinSumError::OutputCount { inputs: i, outputs: o }) && i == inputs && o == outputs
            } else if inputs > 4 {
                answer matches Some(EinSumError::TooManyInputs { inputs: i }) && i == inputs
            } else {
                answer is None || answer matches Some(EinSumError::Shape(_))
            }
        }),
{
    if biases.len() == 0 {
        assert(biases.filter(|bias: Option<HandleView<T>>| bias is Some).len() == present(biases)) by {
            reveal(Seq::filter);
        }
    } else {
        law_present_values_are_counted(biases, arbitrary_handle(biases));
    }
    law_biases_are_listed_in_order(mapping.outputs, mapping.inputs[0]);
    lemma_present_most(biases);
    lemma_biases_most(mapping.outputs);
}

spec fn arbitrary_handle<T>(biases: Seq<Option<HandleView<T>>>) -> HandleView<T> {
    biases[0]->0
}

proof fn lemma_present_most<T>(values: Seq<Option<T>>)
    ensures
        present(values) <= values.len(),
    decreases values.len(),
{
    if values.len() > 0 {
        lemma_present_most(values.drop_last());
    }
}

proof fn lemma_biases_most(outputs: Seq<TermView>)
    ensures
        crate::axis::biases_of(outputs).len() <= outputs.len(),
    decreases outputs.len(),
{
    if outputs.len() > 0 {
        lemma_biases_most(outputs.drop_last());
    }
}

/// A layer of the right counts can be built exactly where every bias that is there has a
/// dimension for each axis of the bias of the same number in the equation, and these axes
/// are axes of the output.
pub proof fn law_layers_of_the_right_counts_need_biases_that_fit<T>(
    text: Seq<char>,
    mapping: MappingView,
    constants: Seq<Option<HandleView<T>>>,
    biases: Seq<Option<HandleView<T>>>,
)
    requires
        read_equation(text) == Some(mapping),
        mapping.error() is None,
        constants.len() == mapping.inputs.len() - 1,
        biases.len() == mapping.outputs.len(),
        biases.filter(|bias: Option<HandleView<T>>| bias is Some).len() == mapping.outputs.filter_map(
            |term: TermView| term.bias,
        ).len(),
        mapping.outputs.len() == mapping.inputs.len() - 1,
        mapping.inputs.len() <= 4,
    ensures
        layer_error(text, constants, biases) is None <==> forall|k: int|
            0 <= k < biases.len() && #[trigger] biases[k] is Some ==> {
                let axes: Seq<char> = mapping.outputs.filter_map(|term: TermView| term.bias)[present(
                    biases.take(k),
                ) as int];
                &&& biases[k]->0.tensor.shape.len() == axes.len()
                &&& forall|p: int| 0 <= p < axes.len() ==> mapping.outputs[k].axes.contains(#[trigger] axes[p])
            },
{
    if biases.len() == 0 {
        assert(biases.filter(|bias: Option<HandleView<T>>| bias is Some).len() == present(biases)) by {
            reveal(Seq::filter);
        }
    } else {
        law_present_values_are_counted(biases, arbitrary_handle(biases));
    }
    law_biases_are_listed_in_order(mapping.outputs, mapping.inputs[0]);
    lemma_first_misfit(mapping, biases, mapping.outputs.len() as int);
    assert forall|k: int| 0 <= k < biases.len() && #[trigger] biases[k] is Some implies {
        let axes: Seq<char> = mapping.outputs.filter_map(|term: TermView| term.bias)[present(biases.take(k)) as int];
        mapping.bias_error(k, present(biases.take(k)) as int, biases[k]->0.tensor.shape) is None <==> {
            &&& biases[k]->0.tensor.shape.len() == axes.len()
            &&& forall|p: int| 0 <= p < axes.len() ==> mapping.outputs[k].axes.contains(#[trigger] axes[p])
        }
    } by {
        law_biases_that_fit(mapping, k, present(biases.take(k)) as int, biases[k]->0.tensor.shape);
    }
}

/// The first bias that does not fit is what a layer is refused for.
pub proof fn law_first_misfit_is_named<T>(
    text: Seq<char>,
    constants: Seq<Option<HandleView<T>>>,
    biases: Seq<Option<HandleView<T>>>,
    error: ShapeError,
)
    requires
        layer_error(text, constants, biases) == Some(EinSumError::Shape(error)),
    ensures
        exists|k: int|
            #![trigger biases[k]]
            0 <= k < biases.len() && biases[k] is Some && read_equation(text)->0.bias_error(
                k,
                present(biases.take(k)) as int,
                biases[k]->0.tensor.shape,
            ) == Some(error) && forall|j: int|
                0 <= j < k && #[trigger] biases[j] is Some ==> read_equation(text)->0.bias_error(
                    j,
                    present(biases.take(j)) as int,
                    biases[j]->0.tensor.shape,
                ) is None,
{
    let mapping: MappingView = read_equation(text)->0;
    let len: int = mapping.outputs.len() as int;
    lemma_first_misfit(mapping, biases, len);
    let k: int = choose|k: int|
        0 <= k < len && #[trigger] biases[k] is Some && mapping.bias_error(
            k,
            present(biases.take(k)) as int,
            biases[k]->0.tensor.shape,
        ) == Some(error) && bias_misfit(mapping, biases, k) is None;
    lemma_first_misfit(mapping, biases, k);
    assert(biases[k] is Some);
}

/// A new layer holds what it is built from, has no name and no caches, and is followed by a
/// requantisation step.
pub proof fn law_new_layers_hold_what_they_are_built_from<T>(
    text: Seq<char>,
    mapping: MappingView,
    constants: Seq<Option<HandleView<T>>>,
    biases: Seq<Option<HandleView<T>>>,
    k: int,
)
    requires
        read_equation(text) == Some(mapping),
        biases.len() == mapping.outputs.len(),
        constants.len() == mapping.outputs.len(),
        0 <= k < mapping.outputs.len(),
    ensures
        ({
            let layer: EinSumView<T> = EinSumView::built(text, constants, biases);
            &&& layer.equation == text
            &&& layer.mapping == mapping
            &&& layer.name is None
            &&& layer.requantise
            &&& layer.constants == constants
            &&& layer.constant_shapes.len() == constants.len()
            &&& constants[k] is None ==> layer.constant_shapes[k] is None
            &&& constants[k] matches Some(constant) ==> layer.constant_shapes[k] == Some(constant.tensor.shape)
            &&& layer.caches.len() == mapping.outputs.len()
            &&& layer.caches[k] is None
            &&& layer.biases.len() == biases.len()
            &&& layer.bias_shapes.len() == biases.len()
            &&& biases[k] is None ==> layer.biases[k] is None && layer.bias_shapes[k] is None
            &&& biases[k] matches Some(bias) ==> {
                &&& layer.biases[k] is Some
                &&& layer.biases[k]->0.key == bias.key
                &&& layer.biases[k]->0.tensor.data == bias.tensor.data
                &&& layer.bias_shapes[k] == Some(layer.biases[k]->0.tensor.shape)
            }
        }),
{
}

/// The bias of a new layer has the rank of its output: its own size along each of its axes,
/// and one along all others.
pub proof fn law_biases_of_new_layers_are_spread<T>(
    text: Seq<char>,
    mapping: MappingView,
    constants: Seq<Option<HandleView<T>>>,
    biases: Seq<Option<HandleView<T>>>,
    k: int,
    position: int,
    at: int,
)
    requires
        read_equation(text) == Some(mapping),
        biases.len() == mapping.outputs.len(),
        0 <= k < mapping.outputs.len(),
        biases[k] is Some,
        mapping.outputs.filter_map(|term: TermView| term.bias)[present(biases.take(k)) as int].no_duplicates(),
        0 <= position < mapping.outputs[k].axes.len(),
    ensures
        ({
            let shape: Seq<usize> = EinSumView::built(text, constants, biases).biases[k]->0.tensor.shape;
            let axes: Seq<char> = mapping.outputs.filter_map(|term: TermView| term.bias)[present(
                biases.take(k),
            ) as int];
            &&& shape.len() == mapping.outputs[k].axes.len()
            &&& 0 <= at < axes.len() && axes[at] == mapping.outputs[k].axes[position] ==> shape[position]
                == biases[k]->0.tensor.shape[at]
            &&& !axes.contains(mapping.outputs[k].axes[position]) ==> shape[position] == 1
        }),
{
    let axes: Seq<char> = mapping.outputs.filter_map(|term: TermView| term.bias)[present(biases.take(k)) as int];
    law_biases_that_fit(mapping, k, present(biases.take(k)) as int, biases[k]->0.tensor.shape);
    law_spread_biases_keep_their_sizes(mapping.outputs[k].axes, axes, biases[k]->0.tensor.shape, position, at);
    if !axes.contains(mapping.outputs[k].axes[position]) {
        assert forall|i: int| 0 <= i < axes.len() implies #[trigger] axes[i] != mapping.outputs[k].axes[position] by {
            assert(axes.contains(axes[i]));
        }
    }
}

proof fn lemma_first_cache_misfit(mapping: MappingView, dims: Seq<Option<usize>>, len: int)
    requires
        0 <= len,
    ensures
        cache_misfit(mapping, dims, len) is None <==> forall|k: int|
            0 <= k < len && #[trigger] dims[k] is Some ==> dims[k]->0 < mapping.outputs[k].axes.len(),
        cache_misfit(mapping, dims, len) matches Some(k) ==> {
            &&& 0 <= k < len
            &&& dims[k] is Some
            &&& dims[k]->0 >= mapping.outputs[k].axes.len()
            &&& forall|j: int| 0 <= j < k && #[trigger] dims[j] is Some ==> dims[j]->0 < mapping.outputs[j].axes.len()
        },
    decreases len,
{
    if len > 0 {
        lemma_first_cache_misfit(mapping, dims, len - 1);
        if cache_misfit(mapping, dims, len) is Some && cache_misfit(mapping, dims, len - 1) is None {
            assert(dims[len - 1] is Some);
        }
    }
}

/// Caches can be set up exactly where there is an entry for every output and every dimension
/// is one of its output.
pub proof fn law_caches_need_dimensions_of_the_outputs(mapping: MappingView, dims: Seq<Option<usize>>)
    requires
        dims.len() <= usize::MAX,
        mapping.outputs.len() <= usize::MAX,
        forall|k: int| 0 <= k < mapping.outputs.len() ==> (#[trigger] mapping.outputs[k]).axes.len() <= usize::MAX,
    ensures
        caches_error(mapping, dims) is None <==> dims.len() == mapping.outputs.len() && forall|k: int|
            0 <= k < dims.len() && #[trigger] dims[k] is Some ==> dims[k]->0 < mapping.outputs[k].axes.len(),
        dims.len() != mapping.outputs.len() ==> (caches_error(mapping, dims) matches Some(
            EinSumError::CacheCount { given, expected },
        ) && given == dims.len() && expected == mapping.outputs.len()),
        dims.len() == mapping.outputs.len() && caches_error(mapping, dims) is Some ==> exists|k: int|
            #![trigger dims[k]]
            0 <= k < dims.len() && dims[k] is Some && (caches_error(mapping, dims) matches Some(
                EinSumError::CacheDimension { dim, rank },
            ) && dim == dims[k]->0 && rank == mapping.outputs[k].axes.len() && dim >= rank) && forall|j: int|
                0 <= j < k && #[trigger] dims[j] is Some ==> dims[j]->0 < mapping.outputs[j].axes.len(),
{
    lemma_first_cache_misfit(mapping, dims, dims.len() as int);
    if dims.len() == mapping.outputs.len() && caches_error(mapping, dims) is Some {
        let k: int = cache_misfit(mapping, dims, dims.len() as int)->0;
        assert(dims[k] is Some);
        assert(mapping.outputs[k].axes.len() <= usize::MAX);
    }
}

/// An output with a dimension gets an empty cache that is in use and joins along it; every
/// other output gets none.
pub proof fn law_new_caches_are_empty<T>(mapping: MappingView, dims: Seq<Option<usize>>, k: int)
    requires
        0 <= k < dims.len(),
        mapping.outputs[k].axes.len() <= usize::MAX,
    ensures
        fresh_caches::<T>(mapping, dims).len() == dims.len(),
        dims[k] is None ==> fresh_caches::<T>(mapping, dims)[k] is None,
        dims[k] is Some ==> {
            &&& fresh_caches::<T>(mapping, dims)[k] is Some
            &&& fresh_caches::<T>(mapping, dims)[k]->0.cached is None
            &&& !fresh_caches::<T>(mapping, dims)[k]->0.disabled
            &&& fresh_caches::<T>(mapping, dims)[k]->0.info matches CachingInfo::Static { rank, concatenation_dim }
            &&& rank == mapping.outputs[k].axes.len()
            &&& concatenation_dim == dims[k]->0
        },
{
}

/// What is done to the caches is done to each that is there, and to nothing else.
pub proof fn law_each_cache_is_changed<T>(layer: EinSumView<T>, f: spec_fn(CacheView<T>) -> CacheView<T>, k: int)
    requires
        0 <= k < layer.caches.len(),
    ensures
        ({
            let changed: EinSumView<T> = layer.with_each_cache(f);
            &&& changed.caches.len() == layer.caches.len()
            &&& layer.caches[k] is None ==> changed.caches[k] is None
            &&& layer.caches[k] matches Some(cache) ==> changed.caches[k] == Some(f(cache))
            &&& changed.equation == layer.equation
            &&& changed.name == layer.name
            &&& changed.mapping == layer.mapping
            &&& changed.constants == layer.constants
            &&& changed.constant_shapes == layer.constant_shapes
            &&& changed.biases == layer.biases
            &&& changed.bias_shapes == layer.bias_shapes
            &&& changed.requantise == layer.requantise
        }),
{
}

/// What a layer is said to consist of are its fields, place by place.
pub proof fn law_layers_are_their_fields<T>(layer: EinSum<T>, handle: TensorHandle<T>, i: int)
    ensures
        handle@.key == handle.key@,
        handle@.tensor == handle.tensor@,
        layer@.equation == layer.equation@,
        layer@.mapping == layer.mapping@,
        layer@.requantise == layer.requantise,
        layer.name is None ==> layer@.name is None,
        layer.name matches Some(name) ==> layer@.name == Some(name@),
        layer@.constants.len() == layer.constant_tensors@.len(),
        layer@.biases.len() == layer.biases@.len(),
        layer@.caches.len() == layer.caches@.len(),
        layer@.constant_shapes.len() == layer.constant_unpadded_shapes@.len(),
        layer@.bias_shapes.len() == layer.bias_unpadded_shapes@.len(),
        0 <= i < layer.constant_tensors@.len() ==> match layer.constant_tensors@[i] {
            None => layer@.constants[i] is None,
            Some(handle) => layer@.constants[i] == Some(handle@),
        },
        0 <= i < layer.biases@.len() ==> match layer.biases@[i] {
            None => layer@.biases[i] is None,
            Some(handle) => layer@.biases[i] == Some(handle@),
        },
        0 <= i < layer.caches@.len() ==> match layer.caches@[i] {
            None => layer@.caches[i] is None,
            Some(cache) => layer@.caches[i] == Some(cache@),
        },
        0 <= i < layer.constant_unpadded_shapes@.len() ==> match layer.constant_unpadded_shapes@[i] {
            None => layer@.constant_shapes[i] is None,
            Some(shape) => layer@.constant_shapes[i] == Some(shape@),
        },
        0 <= i < layer.bias_unpadded_shapes@.len() ==> match layer.bias_unpadded_shapes@[i] {
            None => layer@.bias_shapes[i] is None,
            Some(shape) => layer@.bias_shapes[i] == Some(shape@),
        },
{
}

/// What a context is said to consist of are its fields, place by place.
pub proof fn law_contexts_are_their_fields(context: EinSumContext, i: int)
    ensures
        context@.equation == context.equation@,
        context@.mapping == context.mapping@,
        context@.splittable == context.is_splittable,
        context@.constant_keys.len() == context.constant_keys@.len(),
        context@.bias_keys.len() == context.bias_keys@.len(),
        context@.constant_shapes.len() == context.constant_unpadded_shapes@.len(),
        context@.bias_shapes.len() == context.bias_unpadded_shapes@.len(),
        0 <= i < context.constant_keys@.len() ==> match context.constant_keys@[i] {
            None => context@.constant_keys[i] is None,
            Some(key) => context@.constant_keys[i] == Some(key@),
        },
        0 <= i < context.bias_keys@.len() ==> match context.bias_keys@[i] {
            None => context@.bias_keys[i] is None,
            Some(key) => context@.bias_keys[i] == Some(key@),
        },
        0 <= i < context.constant_unpadded_shapes@.len() ==> match context.constant_unpadded_shapes@[i] {
            None => context@.constant_shapes[i] is None,
            Some(shape) => context@.constant_shapes[i] == Some(shape@),
        },
        0 <= i < context.bias_unpadded_shapes@.len() ==> match context.bias_unpadded_shapes@[i] {
            None => context@.bias_shapes[i] is None,
            Some(shape) => context@.bias_shapes[i] == Some(shape@),
        },
{
}

/// The context of a layer names the keys and shapes of its constants and biases, each in its
/// own place.
pub proof fn law_contexts_name_what_is_committed<T>(
    layer: EinSum<T>,
    is_splittable: bool,
    context: EinSumContext,
    k: int,
)
    requires
        call_ensures(EinSum::<T>::to_context, (&layer, is_splittable), context),
        layer.wf(),
        0 <= k < layer@.mapping.outputs.len(),
    ensures
        context@.equation == layer@.equation,
        context@.mapping == layer@.mapping,
        context@.splittable == is_splittable,
        layer@.constants[k] is None ==> context@.constant_keys[k] is None && context@.constant_shapes[k] is None,
        layer@.constants[k] matches Some(constant) ==> context@.constant_keys[k] == Some(constant.key)
            && context@.constant_shapes[k] == Some(constant.tensor.shape),
        layer@.biases[k] is None ==> context@.bias_keys[k] is None && context@.bias_shapes[k] is None,
        layer@.biases[k] matches Some(bias) ==> context@.bias_keys[k] == Some(bias.key) && context@.bias_shapes[k]
            == Some(bias.tensor.shape),
{
}

} // verus!
