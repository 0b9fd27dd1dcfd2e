//! Laws of the einsum layer and its caches.

use crate::arith::{lemma_power_of_two_above_idempotent, padded, power_of_two_above};
use crate::axis_shapes::{has_size, lemma_axis_size};
use crate::cache::CacheView;
use crate::einsum::{full_dims, input_dims, shapes_given, EinSumView};
use crate::equation::MappingView;
use crate::shape::{shapeable, PaddingMode};
use vstd::prelude::*;

verus! {

/// The layer with its caches bypassed, or put in use again.
pub open spec fn switched_layer<T>(layer: EinSumView<T>, disabled: bool) -> EinSumView<T> {
    layer.with_each_cache(|cache: CacheView<T>| cache.switched(disabled))
}

/// The layer with its caches emptied.
pub open spec fn emptied_layer<T>(layer: EinSumView<T>) -> EinSumView<T> {
    layer.with_each_cache(|cache: CacheView<T>| cache.emptied())
}

/// The layer without caches.
pub open spec fn uncached_layer<T>(layer: EinSumView<T>) -> EinSumView<T> {
    EinSumView { caches: Seq::new(layer.caches.len(), |k: int| None), ..layer }
}

/// Bypassing the caches and putting them in use again leaves a layer that was in use as
/// emptying them does: every rank and dimension is kept, nothing else of the layer
/// changes.
pub proof fn law_bypass_keeps_configuration<T>(layer: EinSumView<T>)
    requires
        forall|k: int|
            0 <= k < layer.caches.len() && #[trigger] layer.caches[k] is Some ==> !layer.caches[k]->0.disabled,
    ensures
        switched_layer(switched_layer(layer, true), false) == emptied_layer(layer),
{
    let back: EinSumView<T> = switched_layer(switched_layer(layer, true), false);
    let emptied: EinSumView<T> = emptied_layer(layer);
    assert forall|k: int| 0 <= k < layer.caches.len() implies #[trigger] back.caches[k] == emptied.caches[k] by {
        if layer.caches[k] is Some {
            let cache: CacheView<T> = layer.caches[k]->0;
            assert(cache.switched(true).switched(false) =~= cache.emptied());
        }
    }
    assert(back.caches =~= emptied.caches);
}

/// Emptying the caches twice is emptying them once.
pub proof fn law_reset_is_idempotent<T>(layer: EinSumView<T>)
    ensures
        emptied_layer(emptied_layer(layer)) == emptied_layer(layer),
{
    assert(emptied_layer(emptied_layer(layer)).caches =~= emptied_layer(layer).caches);
}

proof fn lemma_output_size_is_power(mapping: MappingView, full: Seq<Seq<usize>>, output: int, p: int)
    requires
        mapping.valid(),
        mapping.shape_error(full) is None,
        0 <= output < mapping.outputs.len(),
        0 <= p < mapping.outputs[output].axes.len(),
        forall|i: int, p: int|
            0 <= i < full.len() && 0 <= p < full[i].len() ==> power_of_two_above((#[trigger] full[i][p]) as nat)
                == full[i][p],
    ensures
        power_of_two_above(mapping.output_dims(full)[output][p] as nat) == mapping.output_dims(full)[output][p],
{
    let axes: Seq<char> = mapping.outputs[output].axes;
    crate::axis::lemma_output_axes_are_input_axes(mapping, output);
    assert(crate::axis::is_input_axis(mapping.inputs, axes[p]));
    let i: int = choose|i: int|
        0 <= i < mapping.inputs.len() && (#[trigger] mapping.inputs[i]).axes.contains(axes[p]);
    let q: int = mapping.inputs[i].axes.index_of(axes[p]);
    assert(mapping.inputs[i].axes[q] == axes[p]);
    assert(has_size(mapping.inputs, full, axes[p], full[i][q]));
    lemma_axis_size(mapping.inputs, full, axes[p], full[i][q]);
    assert(full[i].len() == mapping.inputs[i].axes.len());
}

proof fn lemma_output_sizes_are_padded(mapping: MappingView, full: Seq<Seq<usize>>, output: int)
    requires
        mapping.valid(),
        mapping.shape_error(full) is None,
        0 <= output < mapping.outputs.len(),
        forall|i: int, p: int|
            0 <= i < full.len() && 0 <= p < full[i].len() ==> power_of_two_above((#[trigger] full[i][p]) as nat)
                == full[i][p],
    ensures
        padded(mapping.output_dims(full)[output]) == mapping.output_dims(full)[output],
{
    let dims: Seq<usize> = mapping.output_dims(full)[output];
    assert forall|p: int| 0 <= p < dims.len() implies power_of_two_above((#[trigger] dims[p]) as nat) == dims[p] by {
        lemma_output_size_is_power(mapping, full, output, p);
    }
    assert(padded(dims) =~= dims);
}

/// A layer whose caches are bypassed has the output shapes that the equation alone gives,
/// which are those that a layer without caches has.
pub proof fn law_bypassed_layer_has_uncached_shapes<T>(layer: EinSumView<T>, given: Seq<Seq<usize>>, mode: PaddingMode)
    requires
        layer.wf(),
        shapes_given(layer.constant_shapes, given, mode),
        layer.mapping.shape_error(full_dims(layer.constant_shapes, given, mode)) is None,
    ensures
        switched_layer(layer, true).output_dims(given, mode) == layer.mapping.output_dims(
            full_dims(layer.constant_shapes, given, mode),
        ),
        uncached_layer(layer).output_dims(given, mode) == layer.mapping.output_dims(
            full_dims(layer.constant_shapes, given, mode),
        ),
{
    let full: Seq<Seq<usize>> = full_dims(layer.constant_shapes, given, mode);
    let bypassed: EinSumView<T> = switched_layer(layer, true);
    let dims: Seq<Seq<usize>> = layer.mapping.output_dims(full);
    if mode is Padding {
        assert forall|i: int, p: int| 0 <= i < full.len() && 0 <= p < full[i].len() implies power_of_two_above(
            (#[trigger] full[i][p]) as nat,
        ) == full[i][p] by {
            let raw: Seq<usize> = input_dims(layer.constant_shapes, given, i);
            assert(shapeable(raw, mode));
            assert(power_of_two_above(raw[p] as nat) <= usize::MAX);
            assert(full[i] == padded(raw));
            lemma_power_of_two_above_idempotent(raw[p] as nat);
        }
    }
    assert forall|k: int| 0 <= k < dims.len() implies #[trigger] bypassed.output_dims(given, mode)[k] == dims[k] by {
        if mode is Padding {
            lemma_output_sizes_are_padded(layer.mapping, full, k);
        }
    }
    assert(bypassed.output_dims(given, mode) =~= dims);
    assert(uncached_layer(layer).output_dims(given, mode) =~= dims);
}

/// No cache holds anything.
pub open spec fn caches_empty<T>(layer: EinSumView<T>) -> bool {
    forall|k: int|
        0 <= k < layer.caches.len() && #[trigger] layer.caches[k] is Some ==> layer.caches[k]->0.cached is None
}

/// Padding the inputs pads the outputs: where no cache holds anything and the inputs fit the
/// equation, the padded inputs fit it too, and the output shapes for them are those for
/// the inputs as they are, with every size rounded up to a power of two.
pub proof fn law_padding_commutes_with_output_shapes<T>(layer: EinSumView<T>, given: Seq<Seq<usize>>)
    requires
        layer.wf(),
        caches_empty(layer),
        shapes_given(layer.constant_shapes, given, PaddingMode::Padding),
        layer.mapping.shape_error(full_dims(layer.constant_shapes, given, PaddingMode::NoPadding)) is None,
    ensures
        shapes_given(layer.constant_shapes, given, PaddingMode::NoPadding),
        layer.outputs_fit(given, PaddingMode::NoPadding),
        layer.mapping.shape_error(full_dims(layer.constant_shapes, given, PaddingMode::Padding)) is None,
        layer.outputs_fit(given, PaddingMode::Padding),
        layer.output_dims(given, PaddingMode::Padding).len() == layer.output_dims(given, PaddingMode::NoPadding).len(),
        forall|k: int|
            0 <= k < layer.output_dims(given, PaddingMode::Padding).len() ==> #[trigger] layer.output_dims(
                given,
                PaddingMode::Padding,
            )[k] == padded(layer.output_dims(given, PaddingMode::NoPadding)[k]),
{
    let raw: Seq<Seq<usize>> = full_dims(layer.constant_shapes, given, PaddingMode::NoPadding);
    let full: Seq<Seq<usize>> = full_dims(layer.constant_shapes, given, PaddingMode::Padding);
    let mapping: MappingView = layer.mapping;
    assert forall|i: int| 0 <= i < full.len() implies #[trigger] full[i] == padded(raw[i]) by {}
    assert(mapping.shape_error(full) is None) by {
        assert forall|i: int| 0 <= i < mapping.inputs.len() implies (#[trigger] full[i]).len()
            == mapping.inputs[i].axes.len() by {
            assert(raw[i].len() == mapping.inputs[i].axes.len());
        }
        assert forall|i: int, p: int, j: int, q: int|
            0 <= i < mapping.inputs.len() && 0 <= p < mapping.inputs[i].axes.len() && 0 <= j < mapping.inputs.len()
                && 0 <= q < mapping.inputs[j].axes.len() && #[trigger] mapping.inputs[i].axes[p]
                == #[trigger] mapping.inputs[j].axes[q] implies full[i][p] == full[j][q] by {
            assert(raw[i].len() == mapping.inputs[i].axes.len());
            assert(raw[j].len() == mapping.inputs[j].axes.len());
            assert(full[i] == padded(raw[i]) && full[j] == padded(raw[j]));
            assert(raw[i][p] == raw[j][q]);
        }
    }
    assert forall|i: int, p: int| 0 <= i < full.len() && 0 <= p < full[i].len() implies power_of_two_above(
        (#[trigger] full[i][p]) as nat,
    ) == full[i][p] by {
        assert(full[i] == padded(raw[i]));
        assert(shapeable(input_dims(layer.constant_shapes, given, i), PaddingMode::Padding));
        assert(raw[i] == input_dims(layer.constant_shapes, given, i));
        assert(power_of_two_above(raw[i][p] as nat) <= usize::MAX);
        lemma_power_of_two_above_idempotent(raw[i][p] as nat);
    }
    assert forall|k: int| 0 <= k < mapping.outputs.len() implies #[trigger] mapping.output_dims(full)[k] == padded(
        mapping.output_dims(raw)[k],
    ) && padded(mapping.output_dims(full)[k]) == mapping.output_dims(full)[k] by {
        lemma_output_sizes_are_padded(mapping, full, k);
        let axes: Seq<char> = mapping.outputs[k].axes;
        assert forall|p: int| 0 <= p < axes.len() implies mapping.output_dims(full)[k][p] == padded(
            mapping.output_dims(raw)[k],
        )[p] by {
            crate::axis::lemma_output_axes_are_input_axes(mapping, k);
            assert(crate::axis::is_input_axis(mapping.inputs, axes[p]));
            let i: int = choose|i: int|
                0 <= i < mapping.inputs.len() && (#[trigger] mapping.inputs[i]).axes.contains(axes[p]);
            let q: int = mapping.inputs[i].axes.index_of(axes[p]);
            assert(mapping.inputs[i].axes[q] == axes[p]);
            assert(raw[i].len() == mapping.inputs[i].axes.len());
            assert(full[i] == padded(raw[i]));
            assert(has_size(mapping.inputs, raw, axes[p], raw[i][q]));
            assert(has_size(mapping.inputs, full, axes[p], full[i][q]));
            lemma_axis_size(mapping.inputs, raw, axes[p], raw[i][q]);
            lemma_axis_size(mapping.inputs, full, axes[p], full[i][q]);
        }
        assert(mapping.output_dims(full)[k] =~= padded(mapping.output_dims(raw)[k]));
    }
    assert forall|k: int| 0 <= k < layer.caches.len() && #[trigger] layer.caches[k] is Some implies {
        let cache: CacheView<T> = layer.caches[k]->0;
        &&& cache.grown(mapping.output_dims(raw)[k]) == mapping.output_dims(raw)[k]
        &&& cache.grown(mapping.output_dims(full)[k]) == mapping.output_dims(full)[k]
        &&& cache.has_next_shape(mapping.output_dims(raw)[k], PaddingMode::NoPadding)
        &&& cache.has_next_shape(mapping.output_dims(full)[k], PaddingMode::Padding)
    } by {
        assert(layer.cache_wf(k));
        let cache: CacheView<T> = layer.caches[k]->0;
        assert(cache.grown(mapping.output_dims(raw)[k]) =~= mapping.output_dims(raw)[k]);
        assert(cache.grown(mapping.output_dims(full)[k]) =~= mapping.output_dims(full)[k]);
        let dims: Seq<usize> = mapping.output_dims(full)[k];
        assert(padded(dims) == dims);
        assert(crate::arith::paddable(dims)) by {
            assert forall|p: int| 0 <= p < dims.len() implies power_of_two_above((#[trigger] dims[p]) as nat)
                <= usize::MAX by {
                lemma_output_size_is_power(mapping, full, k, p);
            }
        }
    }
    assert forall|k: int|
        0 <= k < layer.output_dims(given, PaddingMode::Padding).len() implies #[trigger] layer.output_dims(
        given,
        PaddingMode::Padding,
    )[k] == padded(layer.output_dims(given, PaddingMode::NoPadding)[k]) by {
        assert(mapping.output_dims(full)[k] == padded(mapping.output_dims(raw)[k]));
    }
}

} // verus!
