//! The final projection of the GPT-2 family can always be built.

use crate::axis::{axes_distinct, axes_known, bias_known, biases_of, contraction_ordered, is_input_axis, reserved_name};
use crate::einsum::{bias_misfit, layer_error, present, HandleView};
use crate::equation::{law_reading_inverts_spelling, list_spelling, MappingView, TermView};
use crate::gpt2::{projection_constants, projection_equation};
use vstd::prelude::*;

verus! {

/// What the equation of the final projection says.
pub open spec fn projection_mapping(biased: bool) -> MappingView {
    MappingView {
        inputs: seq![
            TermView { name: seq!['X'], axes: seq!['s', 'e'], bias: None },
            TermView { name: seq!['W', 'E'], axes: seq!['v', 'e'], bias: None },
        ],
        outputs: seq![
            TermView {
                name: seq!['O'],
                axes: seq!['s', 'v'],
                bias: if biased {
                    Some(seq!['v'])
                } else {
                    None
                },
            },
        ],
    }
}

/// The equation of the final projection spells out what it says.
pub proof fn lemma_projection_spelling(biased: bool)
    ensures
        projection_mapping(biased).spelling() == projection_equation(biased),
{
    let mapping: MappingView = projection_mapping(biased);
    reveal_strlit("X(se)@WE(ve)->O(sv)+BIAS(v)");
    reveal_strlit("X(se)@WE(ve)->O(sv)");
    assert(mapping.inputs.skip(1) =~= seq![mapping.inputs[1]]);
    assert(list_spelling(mapping.inputs.skip(1)) == mapping.inputs[1].spelling());
    assert(list_spelling(mapping.outputs) == mapping.outputs[0].spelling());
    assert(mapping.spelling() =~= projection_equation(biased));
}

/// The equation of the final projection makes sense, and has a bias where it should.
pub proof fn lemma_projection_is_valid(biased: bool)
    ensures
        projection_mapping(biased).valid(),
        biases_of(projection_mapping(biased).outputs) == if biased {
            seq![seq!['v']]
        } else {
            Seq::<Seq<char>>::empty()
        },
{
    let mapping: MappingView = projection_mapping(biased);
    let terms: Seq<TermView> = mapping.terms();
    assert(terms.len() == 3);
    assert(terms[0] == mapping.inputs[0] && terms[1] == mapping.inputs[1] && terms[2] == mapping.outputs[0]);
    assert forall|i: int| 0 <= i < terms.len() implies (#[trigger] terms[i]).name != reserved_name() by {
        assert(terms[i].name.len() != reserved_name().len());
    }
    assert forall|i: int, j: int| 0 <= i < j < terms.len() implies (#[trigger] terms[i]).name != (
    #[trigger] terms[j]).name by {
        if i == 0 && j == 2 {
            assert(terms[0].name[0] != terms[2].name[0]);
        } else {
            assert(terms[i].name.len() != terms[j].name.len());
        }
    }
    assert forall|i: int| 0 <= i < terms.len() implies axes_distinct(#[trigger] terms[i]) by {}
    let output: TermView = mapping.outputs[0];
    assert forall|p: int| 0 <= p < output.axes.len() implies is_input_axis(
        mapping.inputs,
        #[trigger] output.axes[p],
    ) by {
        assert(mapping.inputs[0].axes[0] == 's');
        assert(mapping.inputs[1].axes[0] == 'v');
        assert(mapping.inputs[p].axes.contains(output.axes[p]));
    }
    assert(mapping.sources(0) =~= mapping.inputs);
    assert(axes_known(mapping.sources(0), output));
    assert(bias_known(output)) by {
        assert(output.axes[1] == 'v');
    }
    assert(contraction_ordered(mapping.inputs[0].axes, mapping.inputs[1].axes, output.axes)) by {
        assert(output.axes[0] == 's');
    }
    assert(mapping.outputs.drop_last() =~= Seq::<TermView>::empty());
    assert(biases_of(Seq::<TermView>::empty()) =~= Seq::<Seq<char>>::empty());
    if biased {
        assert(biases_of(mapping.outputs) =~= seq![seq!['v']]);
    }
}

/// The final projection can be built from any embeddings, with a bias of one dimension or
/// with none.
pub proof fn law_projection_can_be_built<T>(embeddings: HandleView<T>, bias: Option<HandleView<T>>)
    requires
        bias matches Some(bias) ==> bias.tensor.shape.len() == 1,
    ensures
        layer_error(projection_equation(bias is Some), projection_constants(embeddings), seq![bias]) is None,
{
    let biased: bool = bias is Some;
    let mapping: MappingView = projection_mapping(biased);
    let biases: Seq<Option<HandleView<T>>> = seq![bias];
    lemma_projection_spelling(biased);
    lemma_projection_is_valid(biased);
    law_reading_inverts_spelling(projection_equation(biased), mapping);
    assert(biases.drop_last() =~= Seq::<Option<HandleView<T>>>::empty());
    assert(present(biases) == present(biases.drop_last()) + if bias is Some {
        1nat
    } else {
        0nat
    });
    assert(biases.take(0) =~= Seq::<Option<HandleView<T>>>::empty());
    assert(bias_misfit(mapping, biases, 0) is None);
    assert(bias_misfit(mapping, biases, 1) is None) by {
        if biased {
            assert(biases_of(mapping.outputs)[0] == seq!['v']);
            assert(mapping.outputs[0].axes[1] == 'v');
            assert(mapping.bias_error(0, 0, bias->0.tensor.shape) is None);
        }
    }
}

} // verus!
