//! How equations are written, letter by letter, which of them make sense, and the shapes
//! that they give.

use crate::axis::{biases_of, equation_error, reserved_name, EquationError, ShapeError};
use crate::axis_shapes::{has_size, lemma_axis_size, spread};
use crate::equation::{bias_mark, is_letter, list_spelling, read_equation, MappingView, TermView};
use vstd::prelude::*;

verus! {

/// Names are made of the letters from A to Z, axes of those from a to z, and both have at
/// least one.
pub proof fn law_letters_are_those_of_the_alphabet(c: char, word: Seq<char>)
    ensures
        is_letter(c, true) <==> 65 <= c as int <= 90,
        is_letter(c, false) <==> 97 <= c as int <= 122,
        crate::equation::is_word(word, true) <==> word.len() > 0 && forall|i: int|
            0 <= i < word.len() ==> 65 <= (#[trigger] word[i]) as int <= 90,
        crate::equation::is_word(word, false) <==> word.len() > 0 && forall|i: int|
            0 <= i < word.len() ==> 97 <= (#[trigger] word[i]) as int <= 122,
{
    if crate::equation::is_word(word, true) {
        assert forall|i: int| 0 <= i < word.len() implies 65 <= (#[trigger] word[i]) as int <= 90 by {
            assert(is_letter(word[i], true));
        }
    }
    if crate::equation::is_word(word, false) {
        assert forall|i: int| 0 <= i < word.len() implies 97 <= (#[trigger] word[i]) as int <= 122 by {
            assert(is_letter(word[i], false));
        }
    }
}

/// A tensor is written as its name with its axes in round brackets; a bias follows it behind
/// a plus sign, under the reserved name.
pub proof fn law_terms_are_written_with_brackets(term: TermView)
    ensures
        term.bias is None ==> term.spelling() == term.name + "("@ + term.axes + ")"@,
        term.bias matches Some(axes) ==> term.spelling() == term.name + "("@ + term.axes + ")+BIAS("@ + axes + ")"@,
        reserved_name() == "BIAS"@,
{
    reveal_strlit("(");
    reveal_strlit(")");
    reveal_strlit(")+BIAS(");
    reveal_strlit("BIAS");
    assert(seq!['('] =~= "("@);
    assert(seq![')'] =~= ")"@);
    assert(seq![')'] + bias_mark() =~= ")+BIAS("@);
    assert(reserved_name() =~= "BIAS"@);
    if let Some(axes) = term.bias {
        assert(term.spelling() =~= term.name + "("@ + term.axes + ")+BIAS("@ + axes + ")"@);
    } else {
        assert(term.spelling() =~= term.name + "("@ + term.axes + ")"@);
    }
}

/// The first input stands before an at sign, the others behind it with colons between them;
/// the outputs stand behind an arrow, with colons between them.
pub proof fn law_equations_are_written_with_an_arrow(mapping: MappingView, term: TermView, rest: Seq<TermView>)
    ensures
        mapping.spelling() == mapping.inputs[0].spelling() + "@"@ + list_spelling(mapping.inputs.skip(1)) + "->"@
            + list_spelling(mapping.outputs),
        list_spelling(seq![term]) == term.spelling(),
        rest.len() > 0 ==> list_spelling(seq![term] + rest) == term.spelling() + ":"@ + list_spelling(rest),
{
    reveal_strlit("@");
    reveal_strlit("->");
    reveal_strlit(":");
    assert(seq!['@'] =~= "@"@);
    assert(seq!['-', '>'] =~= "->"@);
    assert(seq![':'] =~= ":"@);
    assert((seq![term] + rest).skip(1) =~= rest);
}

/// An equation can be written where it has a first input, another one and an output, all
/// with letters of the right case, and only outputs have a bias.
pub proof fn law_spellable_equations(mapping: MappingView)
    ensures
        mapping.spellable() <==> {
            &&& mapping.inputs.len() >= 2
            &&& mapping.outputs.len() >= 1
            &&& forall|i: int|
                0 <= i < mapping.inputs.len() ==> {
                    &&& crate::equation::is_word((#[trigger] mapping.inputs[i]).name, true)
                    &&& crate::equation::is_word(mapping.inputs[i].axes, false)
                    &&& mapping.inputs[i].bias is None
                }
            &&& forall|k: int|
                0 <= k < mapping.outputs.len() ==> {
                    &&& crate::equation::is_word((#[trigger] mapping.outputs[k]).name, true)
                    &&& crate::equation::is_word(mapping.outputs[k].axes, false)
                    &&& mapping.outputs[k].bias matches Some(axes) ==> crate::equation::is_word(axes, false)
                }
        },
{
    if mapping.spellable() {
        assert forall|i: int| 0 <= i < mapping.inputs.len() implies {
            &&& crate::equation::is_word((#[trigger] mapping.inputs[i]).name, true)
            &&& crate::equation::is_word(mapping.inputs[i].axes, false)
            &&& mapping.inputs[i].bias is None
        } by {
            assert(mapping.inputs[i].spellable(false));
        }
        assert forall|k: int| 0 <= k < mapping.outputs.len() implies {
            &&& crate::equation::is_word((#[trigger] mapping.outputs[k]).name, true)
            &&& crate::equation::is_word(mapping.outputs[k].axes, false)
            &&& mapping.outputs[k].bias matches Some(axes) ==> crate::equation::is_word(axes, false)
        } by {
            assert(mapping.outputs[k].spellable(true));
        }
    }
}

/// A text that is no equation is refused for its syntax; one that is, for what it says.
pub proof fn law_texts_are_refused_for_syntax_first(text: Seq<char>)
    ensures
        read_equation(text) is None <==> equation_error(text) == Some(EquationError::Syntax),
        read_equation(text) matches Some(mapping) ==> equation_error(text) == mapping.error(),
{
}

/// Each of the rules on names, axes and biases by itself.
pub proof fn law_names_axes_and_biases(mapping: MappingView)
    ensures
        mapping.names_free() <==> {
            &&& forall|i: int| 0 <= i < mapping.inputs.len() ==> (#[trigger] mapping.inputs[i]).name != reserved_name()
            &&& forall|k: int| 0 <= k < mapping.outputs.len() ==> (#[trigger] mapping.outputs[k]).name != reserved_name()
        },
        mapping.names_distinct() <==> {
            &&& forall|i: int, j: int|
                0 <= i < j < mapping.inputs.len() ==> (#[trigger] mapping.inputs[i]).name != (
                #[trigger] mapping.inputs[j]).name
            &&& forall|i: int, k: int|
                0 <= i < mapping.inputs.len() && 0 <= k < mapping.outputs.len() ==> (#[trigger] mapping.inputs[i]).name
                    != (#[trigger] mapping.outputs[k]).name
            &&& forall|k: int, l: int|
                0 <= k < l < mapping.outputs.len() ==> (#[trigger] mapping.outputs[k]).name != (
                #[trigger] mapping.outputs[l]).name
        },
        mapping.all_axes_distinct() <==> {
            &&& forall|i: int|
                0 <= i < mapping.inputs.len() ==> {
                    &&& (#[trigger] mapping.inputs[i]).axes.no_duplicates()
                    &&& mapping.inputs[i].bias matches Some(axes) ==> axes.no_duplicates()
                }
            &&& forall|k: int|
                0 <= k < mapping.outputs.len() ==> {
                    &&& (#[trigger] mapping.outputs[k]).axes.no_duplicates()
                    &&& mapping.outputs[k].bias matches Some(axes) ==> axes.no_duplicates()
                }
        },
        mapping.all_biases_known() <==> forall|k: int, p: int|
            0 <= k < mapping.outputs.len() && mapping.outputs[k].bias is Some && 0 <= p
                < mapping.outputs[k].bias->0.len() ==> mapping.outputs[k].axes.contains(
                #[trigger] mapping.outputs[k].bias->0[p],
            ),
{
    let n: int = mapping.inputs.len() as int;
    let m: int = mapping.outputs.len() as int;
    let terms: Seq<TermView> = mapping.terms();
    assert forall|i: int| 0 <= i < n implies #[trigger] mapping.inputs[i] == terms[i] by {}
    assert forall|k: int| 0 <= k < m implies #[trigger] mapping.outputs[k] == terms[n + k] by {}
    assert forall|i: int| n <= i < n + m implies #[trigger] terms[i] == mapping.outputs[i - n] by {}
    assert forall|i: int| 0 <= i < n implies #[trigger] terms[i] == mapping.inputs[i] by {}
    assert(terms.len() == n + m);
    let names_free: bool = (forall|i: int| 0 <= i < n ==> (#[trigger] mapping.inputs[i]).name != reserved_name())
        && (forall|k: int| 0 <= k < m ==> (#[trigger] mapping.outputs[k]).name != reserved_name());
    assert(names_free <==> mapping.names_free());
    let names_distinct: bool = {
        &&& forall|i: int, j: int|
            0 <= i < j < n ==> (#[trigger] mapping.inputs[i]).name != (#[trigger] mapping.inputs[j]).name
        &&& forall|i: int, k: int|
            0 <= i < n && 0 <= k < m ==> (#[trigger] mapping.inputs[i]).name != (#[trigger] mapping.outputs[k]).name
        &&& forall|k: int, l: int|
            0 <= k < l < m ==> (#[trigger] mapping.outputs[k]).name != (#[trigger] mapping.outputs[l]).name
    };
    assert(names_distinct <==> mapping.names_distinct());
    let axes_distinct: bool = (forall|i: int|
        0 <= i < n ==> {
            &&& (#[trigger] mapping.inputs[i]).axes.no_duplicates()
            &&& mapping.inputs[i].bias matches Some(axes) ==> axes.no_duplicates()
        }) && (forall|k: int|
        0 <= k < m ==> {
            &&& (#[trigger] mapping.outputs[k]).axes.no_duplicates()
            &&& mapping.outputs[k].bias matches Some(axes) ==> axes.no_duplicates()
        });
    assert(axes_distinct <==> mapping.all_axes_distinct()) by {
        if axes_distinct {
            assert forall|i: int| 0 <= i < terms.len() implies crate::axis::axes_distinct(#[trigger] terms[i]) by {
                if i < n {
                    assert(mapping.inputs[i].axes.no_duplicates());
                } else {
                    assert(mapping.outputs[i - n].axes.no_duplicates());
                }
            }
        }
        if mapping.all_axes_distinct() {
            assert forall|i: int| 0 <= i < n implies {
                &&& (#[trigger] mapping.inputs[i]).axes.no_duplicates()
                &&& mapping.inputs[i].bias matches Some(axes) ==> axes.no_duplicates()
            } by {
                assert(crate::axis::axes_distinct(terms[i]));
            }
            assert forall|k: int| 0 <= k < m implies {
                &&& (#[trigger] mapping.outputs[k]).axes.no_duplicates()
                &&& mapping.outputs[k].bias matches Some(axes) ==> axes.no_duplicates()
            } by {
                assert(crate::axis::axes_distinct(terms[n + k]));
            }
        }
    }
    let biases: bool = forall|k: int, p: int|
        0 <= k < m && mapping.outputs[k].bias is Some && 0 <= p < mapping.outputs[k].bias->0.len()
            ==> mapping.outputs[k].axes.contains(#[trigger] mapping.outputs[k].bias->0[p]);
    assert(biases <==> mapping.all_biases_known()) by {
        if mapping.all_biases_known() {
            assert forall|k: int, p: int|
                0 <= k < m && mapping.outputs[k].bias is Some && 0 <= p
                    < mapping.outputs[k].bias->0.len() implies mapping.outputs[k].axes.contains(
                #[trigger] mapping.outputs[k].bias->0[p],
            ) by {
                assert(crate::axis::bias_known(mapping.outputs[k]));
            }
        }
    }
}

/// An equation makes sense exactly where no tensor has the reserved name, no two tensors
/// share a name, no axis occurs twice in one tensor or bias, every axis of an output is one
/// of the first input or of the input that the output is paired with, every axis of a bias is
/// one of its output, and contracted axes stand in the same order in both inputs.
pub proof fn law_equations_that_make_sense(mapping: MappingView)
    requires
        mapping.outputs.len() == mapping.inputs.len() - 1,
    ensures
        mapping.error() is None <==> {
            &&& forall|i: int| 0 <= i < mapping.inputs.len() ==> (#[trigger] mapping.inputs[i]).name != reserved_name()
            &&& forall|k: int| 0 <= k < mapping.outputs.len() ==> (#[trigger] mapping.outputs[k]).name != reserved_name()
            &&& forall|i: int, j: int|
                0 <= i < j < mapping.inputs.len() ==> (#[trigger] mapping.inputs[i]).name != (
                #[trigger] mapping.inputs[j]).name
            &&& forall|i: int, k: int|
                0 <= i < mapping.inputs.len() && 0 <= k < mapping.outputs.len() ==> (#[trigger] mapping.inputs[i]).name
                    != (#[trigger] mapping.outputs[k]).name
            &&& forall|k: int, l: int|
                0 <= k < l < mapping.outputs.len() ==> (#[trigger] mapping.outputs[k]).name != (
                #[trigger] mapping.outputs[l]).name
            &&& forall|i: int|
                0 <= i < mapping.inputs.len() ==> {
                    &&& (#[trigger] mapping.inputs[i]).axes.no_duplicates()
                    &&& mapping.inputs[i].bias matches Some(axes) ==> axes.no_duplicates()
                }
            &&& forall|k: int|
                0 <= k < mapping.outputs.len() ==> {
                    &&& (#[trigger] mapping.outputs[k]).axes.no_duplicates()
                    &&& mapping.outputs[k].bias matches Some(axes) ==> axes.no_duplicates()
                }
            &&& forall|k: int, p: int|
                0 <= k < mapping.outputs.len() && 0 <= p < mapping.outputs[k].axes.len()
                    ==> mapping.inputs[0].axes.contains(#[trigger] mapping.outputs[k].axes[p])
                    || mapping.inputs[k + 1].axes.contains(mapping.outputs[k].axes[p])
            &&& forall|k: int, p: int|
                0 <= k < mapping.outputs.len() && mapping.outputs[k].bias is Some && 0 <= p
                    < mapping.outputs[k].bias->0.len() ==> mapping.outputs[k].axes.contains(
                    #[trigger] mapping.outputs[k].bias->0[p],
                )
            &&& forall|k: int, i: int, j: int, p: int, q: int|
                #![trigger mapping.outputs[k], mapping.inputs[0].axes[i], mapping.inputs[0].axes[j], mapping.inputs[k + 1].axes[p], mapping.inputs[k + 1].axes[q]]
                0 <= k < mapping.outputs.len() && 0 <= i < j < mapping.inputs[0].axes.len() && 0 <= p
                    < mapping.inputs[k + 1].axes.len() && 0 <= q < mapping.inputs[k + 1].axes.len()
                    && mapping.inputs[0].axes[i] == mapping.inputs[k + 1].axes[p] && mapping.inputs[0].axes[j]
                    == mapping.inputs[k + 1].axes[q] && !mapping.outputs[k].axes.contains(mapping.inputs[0].axes[i])
                    && !mapping.outputs[k].axes.contains(mapping.inputs[0].axes[j]) ==> p < q
        },
{
    law_names_axes_and_biases(mapping);
    law_known_axes(mapping);
    law_ordered_contractions(mapping);
}

/// The axes of the outputs are known exactly where each is an axis of the first input or of
/// the input that its output is paired with.
pub proof fn law_known_axes(mapping: MappingView)
    requires
        mapping.outputs.len() == mapping.inputs.len() - 1,
    ensures
        mapping.all_axes_known() <==> forall|k: int, p: int|
            0 <= k < mapping.outputs.len() && 0 <= p < mapping.outputs[k].axes.len()
                ==> mapping.inputs[0].axes.contains(#[trigger] mapping.outputs[k].axes[p])
                || mapping.inputs[k + 1].axes.contains(mapping.outputs[k].axes[p]),
{
    let direct: bool = forall|k: int, p: int|
        0 <= k < mapping.outputs.len() && 0 <= p < mapping.outputs[k].axes.len() ==> mapping.inputs[0].axes.contains(
            #[trigger] mapping.outputs[k].axes[p],
        ) || mapping.inputs[k + 1].axes.contains(mapping.outputs[k].axes[p]);
    if direct {
        assert forall|k: int| 0 <= k < mapping.outputs.len() implies crate::axis::axes_known(
            mapping.sources(k),
            #[trigger] mapping.outputs[k],
        ) by {
            let sources: Seq<TermView> = mapping.sources(k);
            assert forall|p: int| 0 <= p < mapping.outputs[k].axes.len() implies crate::axis::is_input_axis(
                sources,
                #[trigger] mapping.outputs[k].axes[p],
            ) by {
                if mapping.inputs[0].axes.contains(mapping.outputs[k].axes[p]) {
                    assert(sources[0].axes.contains(mapping.outputs[k].axes[p]));
                } else {
                    assert(sources[1].axes.contains(mapping.outputs[k].axes[p]));
                }
            }
        }
    }
    if mapping.all_axes_known() {
        assert forall|k: int, p: int|
            0 <= k < mapping.outputs.len() && 0 <= p
                < mapping.outputs[k].axes.len() implies mapping.inputs[0].axes.contains(
            #[trigger] mapping.outputs[k].axes[p],
        ) || mapping.inputs[k + 1].axes.contains(mapping.outputs[k].axes[p]) by {
            let sources: Seq<TermView> = mapping.sources(k);
            assert(crate::axis::axes_known(sources, mapping.outputs[k]));
            assert(crate::axis::is_input_axis(sources, mapping.outputs[k].axes[p]));
            let i: int = choose|i: int|
                0 <= i < sources.len() && (#[trigger] sources[i]).axes.contains(mapping.outputs[k].axes[p]);
            assert(sources.len() == 2);
            assert(sources[0] == mapping.inputs[0] && sources[1] == mapping.inputs[k + 1]);
        }
    }
}

/// An output that no input is paired with may have the axes of any input, and of no other.
pub proof fn law_unpaired_outputs_have_axes_of_the_inputs(mapping: MappingView, output: int, position: int, axis: char)
    requires
        0 <= output < mapping.outputs.len(),
        output + 1 >= mapping.inputs.len(),
        0 <= position < mapping.outputs[output].axes.len(),
    ensures
        crate::axis::is_input_axis(mapping.sources(output), axis) <==> exists|i: int|
            0 <= i < mapping.inputs.len() && (#[trigger] mapping.inputs[i]).axes.contains(axis),
        mapping.all_axes_known() ==> exists|i: int|
            0 <= i < mapping.inputs.len() && (#[trigger] mapping.inputs[i]).axes.contains(
                mapping.outputs[output].axes[position],
            ),
{
    if mapping.all_axes_known() {
        assert(crate::axis::axes_known(mapping.sources(output), mapping.outputs[output]));
        assert(crate::axis::is_input_axis(mapping.sources(output), mapping.outputs[output].axes[position]));
    }
}

/// Contracted axes are in order exactly where two axes that the first input shares with
/// another one, and that the output leaves out, stand in the same order in both.
pub proof fn law_ordered_contractions(mapping: MappingView)
    requires
        mapping.outputs.len() == mapping.inputs.len() - 1,
    ensures
        mapping.all_contractions_ordered() <==> forall|k: int, i: int, j: int, p: int, q: int|
            #![trigger mapping.outputs[k], mapping.inputs[0].axes[i], mapping.inputs[0].axes[j], mapping.inputs[k + 1].axes[p], mapping.inputs[k + 1].axes[q]]
            0 <= k < mapping.outputs.len() && 0 <= i < j < mapping.inputs[0].axes.len() && 0 <= p < mapping.inputs[k
                + 1].axes.len() && 0 <= q < mapping.inputs[k + 1].axes.len() && mapping.inputs[0].axes[i]
                == mapping.inputs[k + 1].axes[p] && mapping.inputs[0].axes[j] == mapping.inputs[k + 1].axes[q]
                && !mapping.outputs[k].axes.contains(mapping.inputs[0].axes[i]) && !mapping.outputs[k].axes.contains(
                mapping.inputs[0].axes[j],
            ) ==> p < q,
{
    let direct: bool = forall|k: int, i: int, j: int, p: int, q: int|
        #![trigger mapping.outputs[k], mapping.inputs[0].axes[i], mapping.inputs[0].axes[j], mapping.inputs[k + 1].axes[p], mapping.inputs[k + 1].axes[q]]
        0 <= k < mapping.outputs.len() && 0 <= i < j < mapping.inputs[0].axes.len() && 0 <= p < mapping.inputs[k
            + 1].axes.len() && 0 <= q < mapping.inputs[k + 1].axes.len() && mapping.inputs[0].axes[i]
            == mapping.inputs[k + 1].axes[p] && mapping.inputs[0].axes[j] == mapping.inputs[k + 1].axes[q]
            && !mapping.outputs[k].axes.contains(mapping.inputs[0].axes[i]) && !mapping.outputs[k].axes.contains(
            mapping.inputs[0].axes[j],
        ) ==> p < q;
    if mapping.all_contractions_ordered() {
        assert forall|k: int, i: int, j: int, p: int, q: int|
            #![trigger mapping.outputs[k], mapping.inputs[0].axes[i], mapping.inputs[0].axes[j], mapping.inputs[k + 1].axes[p], mapping.inputs[k + 1].axes[q]]
            0 <= k < mapping.outputs.len() && 0 <= i < j < mapping.inputs[0].axes.len() && 0 <= p < mapping.inputs[k
                + 1].axes.len() && 0 <= q < mapping.inputs[k + 1].axes.len() && mapping.inputs[0].axes[i]
                == mapping.inputs[k + 1].axes[p] && mapping.inputs[0].axes[j] == mapping.inputs[k + 1].axes[q]
                && !mapping.outputs[k].axes.contains(mapping.inputs[0].axes[i]) && !mapping.outputs[k].axes.contains(
                mapping.inputs[0].axes[j],
            ) implies p < q by {
            assert(crate::axis::contraction_ordered(
                mapping.inputs[0].axes,
                mapping.inputs[k + 1].axes,
                mapping.outputs[k].axes,
            ));
        }
    }
    if direct {
        assert forall|k: int| 0 <= k < mapping.outputs.len() && k + 1 < mapping.inputs.len() implies
            crate::axis::contraction_ordered(
            mapping.inputs[0].axes,
            mapping.inputs[k + 1].axes,
            (#[trigger] mapping.outputs[k]).axes,
        ) by {}
    }
}

/// The reasons for which an equation makes no sense come in this order.
pub proof fn law_equation_errors_come_in_order(mapping: MappingView)
    ensures
        !mapping.names_free() ==> mapping.error() == Some(EquationError::ReservedName),
        mapping.names_free() && !mapping.names_distinct() ==> mapping.error() == Some(EquationError::RepeatedName),
        mapping.names_free() && mapping.names_distinct() && !mapping.all_axes_distinct() ==> mapping.error() == Some(
            EquationError::RepeatedAxis,
        ),
        mapping.names_free() && mapping.names_distinct() && mapping.all_axes_distinct() && !mapping.all_axes_known()
            ==> mapping.error() == Some(EquationError::UnknownAxis),
        mapping.names_free() && mapping.names_distinct() && mapping.all_axes_distinct() && mapping.all_axes_known()
            && !mapping.all_biases_known() ==> mapping.error() == Some(EquationError::BiasAxis),
        mapping.names_free() && mapping.names_distinct() && mapping.all_axes_distinct() && mapping.all_axes_known()
            && mapping.all_biases_known() && !mapping.all_contractions_ordered() ==> mapping.error() == Some(
            EquationError::ContractionOrder,
        ),
{
}

/// The biases are those of the outputs that have one, in order.
pub proof fn law_biases_are_listed_in_order(outputs: Seq<TermView>, term: TermView)
    ensures
        biases_of(Seq::<TermView>::empty()).len() == 0,
        term.bias is None ==> biases_of(outputs.push(term)) == biases_of(outputs),
        term.bias matches Some(axes) ==> biases_of(outputs.push(term)) == biases_of(outputs).push(axes),
        biases_of(outputs) == outputs.filter_map(|term: TermView| term.bias),
        (MappingView { inputs: outputs, outputs }).bias_count() == outputs.filter_map(|term: TermView| term.bias).len(),
    decreases outputs.len(),
{
    assert(outputs.push(term).drop_last() =~= outputs);
    if outputs.len() > 0 {
        law_biases_are_listed_in_order(outputs.drop_last(), term);
        if let Some(axes) = outputs.last().bias {
            assert(biases_of(outputs) =~= outputs.filter_map(|term: TermView| term.bias));
        }
    }
}

/// Shapes fit an equation exactly where there is one for every input, each has as many
/// dimensions as its tensor has axes, and an axis has one size wherever it occurs.
pub proof fn law_shapes_that_fit(mapping: MappingView, dims: Seq<Seq<usize>>)
    ensures
        mapping.shape_error(dims) is None <==> {
            &&& dims.len() == mapping.inputs.len()
            &&& forall|i: int| 0 <= i < dims.len() ==> (#[trigger] dims[i]).len() == mapping.inputs[i].axes.len()
            &&& forall|i: int, p: int, j: int, q: int|
                0 <= i < dims.len() && 0 <= p < mapping.inputs[i].axes.len() && 0 <= j < dims.len() && 0 <= q
                    < mapping.inputs[j].axes.len() && #[trigger] mapping.inputs[i].axes[p]
                    == #[trigger] mapping.inputs[j].axes[q] ==> dims[i][p] == dims[j][q]
        },
        dims.len() != mapping.inputs.len() ==> mapping.shape_error(dims) == Some(ShapeError::InputCount),
        dims.len() == mapping.inputs.len() && !(forall|i: int|
            0 <= i < dims.len() ==> (#[trigger] dims[i]).len() == mapping.inputs[i].axes.len())
            ==> mapping.shape_error(dims) == Some(ShapeError::RankMismatch),
        mapping.shape_error(dims) == Some(ShapeError::AxisMismatch) ==> dims.len() == mapping.inputs.len() && (
        forall|i: int| 0 <= i < dims.len() ==> (#[trigger] dims[i]).len() == mapping.inputs[i].axes.len()),
        mapping.shape_error(dims) is Some && dims.len() == mapping.inputs.len() && (forall|i: int|
            0 <= i < dims.len() ==> (#[trigger] dims[i]).len() == mapping.inputs[i].axes.len())
            ==> mapping.shape_error(dims) == Some(ShapeError::AxisMismatch),
        mapping.shape_error(dims) != Some(ShapeError::BiasAxis),
{
}

/// There is a shape for every output, with a dimension for every axis, and each is the size
/// that the axis has in any input.
pub proof fn law_every_output_has_a_shape(
    mapping: MappingView,
    dims: Seq<Seq<usize>>,
    output: int,
    position: int,
    input: int,
    at: int,
)
    requires
        mapping.shape_error(dims) is None,
        0 <= output < mapping.outputs.len(),
        0 <= position < mapping.outputs[output].axes.len(),
        0 <= input < mapping.inputs.len(),
        0 <= at < mapping.inputs[input].axes.len(),
    ensures
        mapping.output_dims(dims).len() == mapping.outputs.len(),
        mapping.output_dims(dims)[output].len() == mapping.outputs[output].axes.len(),
        mapping.outputs[output].axes[position] == mapping.inputs[input].axes[at] ==> mapping.output_dims(
            dims,
        )[output][position] == dims[input][at],
{
    let axis: char = mapping.inputs[input].axes[at];
    if mapping.outputs[output].axes[position] == axis {
        assert(has_size(mapping.inputs, dims, axis, dims[input][at]));
        lemma_axis_size(mapping.inputs, dims, axis, dims[input][at]);
    }
}

/// A bias that is spread over an output has the output's number of dimensions: its own size
/// along each of its axes, and one along all others.
pub proof fn law_spread_biases_keep_their_sizes(
    out: Seq<char>,
    bias: Seq<char>,
    dims: Seq<usize>,
    position: int,
    at: int,
)
    requires
        bias.no_duplicates(),
        0 <= position < out.len(),
    ensures
        spread(out, bias, dims).len() == out.len(),
        0 <= at < bias.len() && bias[at] == out[position] ==> spread(out, bias, dims)[position] == dims[at],
        (forall|i: int| 0 <= i < bias.len() ==> #[trigger] bias[i] != out[position]) ==> spread(
            out,
            bias,
            dims,
        )[position] == 1,
{
    if 0 <= at < bias.len() && bias[at] == out[position] {
        assert(bias.contains(out[position]));
        let found: int = bias.index_of(out[position]);
        assert(0 <= found < bias.len() && bias[found] == out[position]);
        assert(found == at);
    }
}

/// A bias fits an output exactly where it has a dimension for each of its axes and each of
/// these is an axis of the output.
pub proof fn law_biases_that_fit(mapping: MappingView, output: int, bias: int, dims: Seq<usize>)
    ensures
        ({
            let axes: Seq<char> = mapping.outputs.filter_map(|term: TermView| term.bias)[bias];
            let out: Seq<char> = mapping.outputs[output].axes;
            let within: bool = forall|p: int| 0 <= p < axes.len() ==> out.contains(#[trigger] axes[p]);
            &&& mapping.bias_error(output, bias, dims) is None <==> dims.len() == axes.len() && within
            &&& dims.len() != axes.len() ==> mapping.bias_error(output, bias, dims) == Some(ShapeError::RankMismatch)
            &&& dims.len() == axes.len() && !within ==> mapping.bias_error(output, bias, dims) == Some(
                ShapeError::BiasAxis,
            )
            &&& mapping.bias_dims(output, bias, dims) == spread(out, axes, dims)
        }),
{
    law_biases_are_listed_in_order(mapping.outputs, mapping.outputs[0]);
}

} // verus!
