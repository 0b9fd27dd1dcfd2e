//! The shapes that an einsum equation gives for the shapes that go in.

use crate::arith::{lemma_product_append, lemma_product_split, product};
use crate::axis::{axes_within, biases_of, is_input_axis, AxesMapping, ShapeError};
use crate::equation::{term_views, AxisTerm, MappingView, TermView};
use crate::shape::Shape;
use vstd::prelude::*;

verus! {

/// The dimensions of a sequence of shapes.
pub open spec fn shape_views(shapes: Seq<Shape>) -> Seq<Seq<usize>> {
    shapes.map_values(|shape: Shape| shape@)
}

/// Every shape has as many dimensions as its tensor has axes.
pub open spec fn ranks_fit(inputs: Seq<TermView>, dims: Seq<Seq<usize>>) -> bool {
    forall|i: int| 0 <= i < inputs.len() ==> (#[trigger] dims[i]).len() == inputs[i].axes.len()
}

/// Somewhere in the inputs the axis has this size.
pub open spec fn has_size(inputs: Seq<TermView>, dims: Seq<Seq<usize>>, axis: char, size: usize) -> bool {
    exists|i: int, p: int|
        0 <= i < inputs.len() && 0 <= p < inputs[i].axes.len() && #[trigger] inputs[i].axes[p] == axis && dims[i][p]
            == size
}

/// An axis has the same size wherever it occurs.
pub open spec fn sizes_agree(inputs: Seq<TermView>, dims: Seq<Seq<usize>>) -> bool {
    forall|i: int, p: int, j: int, q: int|
        0 <= i < inputs.len() && 0 <= p < inputs[i].axes.len() && 0 <= j < inputs.len() && 0 <= q
            < inputs[j].axes.len() && #[trigger] inputs[i].axes[p] == #[trigger] inputs[j].axes[q] ==> dims[i][p]
            == dims[j][q]
}

/// The size of an axis.
pub open spec fn axis_size(inputs: Seq<TermView>, dims: Seq<Seq<usize>>, axis: char) -> usize {
    choose|size: usize| has_size(inputs, dims, axis, size)
}

/// The dimensions of a tensor with the given axes.
pub open spec fn sizes_of(inputs: Seq<TermView>, dims: Seq<Seq<usize>>, axes: Seq<char>) -> Seq<usize> {
    Seq::new(axes.len(), |p: int| axis_size(inputs, dims, axes[p]))
}

/// The dimensions of a bias with axes `bias` and dimensions `dims`, spread over the axes
/// of its output: one wherever the bias lacks the axis.
pub open spec fn spread(out: Seq<char>, bias: Seq<char>, dims: Seq<usize>) -> Seq<usize> {
    Seq::new(
        out.len(),
        |p: int|
            if bias.contains(out[p]) {
                dims[bias.index_of(out[p])]
            } else {
                1usize
            },
    )
}

impl MappingView {
    /// Why shapes do not fit the equation, if they do not.
    pub open spec fn shape_error(self, dims: Seq<Seq<usize>>) -> Option<ShapeError> {
        if dims.len() != self.inputs.len() {
            Some(ShapeError::InputCount)
        } else if !ranks_fit(self.inputs, dims) {
            Some(ShapeError::RankMismatch)
        } else if !sizes_agree(self.inputs, dims) {
            Some(ShapeError::AxisMismatch)
        } else {
            None
        }
    }

    /// The dimensions of every output.
    pub open spec fn output_dims(self, dims: Seq<Seq<usize>>) -> Seq<Seq<usize>> {
        Seq::new(self.outputs.len(), |k: int| sizes_of(self.inputs, dims, self.outputs[k].axes))
    }

    /// Why the bias with number `bias_id` does not fit an output, if it does not.
    pub open spec fn bias_error(self, output_id: int, bias_id: int, dims: Seq<usize>) -> Option<ShapeError> {
        if dims.len() != biases_of(self.outputs)[bias_id].len() {
            Some(ShapeError::RankMismatch)
        } else if !axes_within(biases_of(self.outputs)[bias_id], self.outputs[output_id].axes) {
            Some(ShapeError::BiasAxis)
        } else {
            None
        }
    }

    /// The dimensions of the bias with number `bias_id`, spread over an output.
    pub open spec fn bias_dims(self, output_id: int, bias_id: int, dims: Seq<usize>) -> Seq<usize> {
        spread(self.outputs[output_id].axes, biases_of(self.outputs)[bias_id], dims)
    }
}

/// Where sizes agree, any size of an axis is its size.
pub proof fn lemma_axis_size(inputs: Seq<TermView>, dims: Seq<Seq<usize>>, axis: char, size: usize)
    requires
        sizes_agree(inputs, dims),
        has_size(inputs, dims, axis, size),
    ensures
        axis_size(inputs, dims, axis) == size,
{
    assert(has_size(inputs, dims, axis, axis_size(inputs, dims, axis)));
}

/// Every axis of every output has, in the shape that is computed, the size that it has in
/// every input where it occurs.
pub proof fn law_output_sizes_are_input_sizes(
    mapping: MappingView,
    dims: Seq<Seq<usize>>,
    output: int,
    position: int,
    input: int,
    at: int,
)
    requires
        mapping.shape_error(dims) is None,
        0 <= output < mapping.outputs.len(),
        0 <= position < mapping.outputs[output].axes.len(),
        0 <= input < mapping.inputs.len(),
        0 <= at < mapping.inputs[input].axes.len(),
        mapping.outputs[output].axes[position] == mapping.inputs[input].axes[at],
    ensures
        mapping.output_dims(dims)[output].len() == mapping.outputs[output].axes.len(),
        mapping.output_dims(dims)[output][position] == dims[input][at],
{
    let axis: char = mapping.inputs[input].axes[at];
    assert(has_size(mapping.inputs, dims, axis, dims[input][at]));
    lemma_axis_size(mapping.inputs, dims, axis, dims[input][at]);
}

proof fn lemma_index_of(axes: Seq<char>, at: int)
    requires
        axes.no_duplicates(),
        0 <= at < axes.len(),
    ensures
        axes.index_of(axes[at]) == at,
        axes.contains(axes[at]),
{
    let found: int = axes.index_of(axes[at]);
    assert(0 <= found < axes.len() && axes[found] == axes[at]);
}

/// Spreading a bias over its output keeps the number of its elements.
pub proof fn law_spreading_keeps_elements(out: Seq<char>, bias: Seq<char>, dims: Seq<usize>)
    requires
        out.no_duplicates(),
        bias.no_duplicates(),
        bias.len() == dims.len(),
        axes_within(bias, out),
    ensures
        product(spread(out, bias, dims)) == product(dims),
    decreases out.len(),
{
    if out.len() == 0 {
        if bias.len() > 0 {
            assert(out.contains(bias[0]));
        }
        assert(spread(out, bias, dims) =~= dims);
    } else {
        let init: Seq<char> = out.drop_last();
        let last: char = out.last();
        assert(init.no_duplicates());
        if bias.contains(last) {
            let at: int = bias.index_of(last);
            assert(0 <= at < bias.len() && bias[at] == last);
            let fewer: Seq<char> = bias.remove(at);
            let sizes: Seq<usize> = dims.remove(at);
            assert forall|x: int, y: int| 0 <= x < fewer.len() && 0 <= y < fewer.len() && x != y implies fewer[x]
                != fewer[y] by {
                let bx: int = if x < at {
                    x
                } else {
                    x + 1
                };
                let by_: int = if y < at {
                    y
                } else {
                    y + 1
                };
                assert(fewer[x] == bias[bx] && fewer[y] == bias[by_]);
            }
            assert forall|p: int| 0 <= p < fewer.len() implies init.contains(#[trigger] fewer[p]) by {
                let b: int = if p < at {
                    p
                } else {
                    p + 1
                };
                assert(fewer[p] == bias[b]);
                assert(out.contains(bias[b]));
                let o: int = out.index_of(bias[b]);
                assert(bias[b] != bias[at]);
                assert(init[o] == bias[b]);
            }
            law_spreading_keeps_elements(init, fewer, sizes);
            assert(spread(out, bias, dims).drop_last() =~= spread(init, fewer, sizes)) by {
                assert forall|p: int| 0 <= p < init.len() implies #[trigger] spread(out, bias, dims)[p] == spread(
                    init,
                    fewer,
                    sizes,
                )[p] by {
                    let c: char = out[p];
                    assert(init[p] == c);
                    assert(c != last);
                    if bias.contains(c) {
                        let b: int = bias.index_of(c);
                        let f: int = if b < at {
                            b
                        } else {
                            b - 1
                        };
                        assert(b != at);
                        assert(fewer[f] == c && sizes[f] == dims[b]);
                        lemma_index_of(fewer, f);
                    } else if fewer.contains(c) {
                        let f: int = fewer.index_of(c);
                        let b: int = if f < at {
                            f
                        } else {
                            f + 1
                        };
                        assert(bias[b] == c);
                    }
                }
            }
            assert(spread(out, bias, dims).last() == dims[at]);
            let front: Seq<usize> = dims.take(at);
            let back: Seq<usize> = dims.skip(at + 1);
            lemma_product_split(dims, at);
            assert(sizes =~= front + back);
            lemma_product_append(front, back);
            let a: int = product(front) as int;
            let b: int = product(back) as int;
            let d: int = dims[at] as int;
            assert(a * (d * b) == (a * b) * d) by (nonlinear_arith);
        } else {
            assert forall|p: int| 0 <= p < bias.len() implies init.contains(#[trigger] bias[p]) by {
                assert(out.contains(bias[p]));
                let o: int = out.index_of(bias[p]);
                assert(bias.contains(bias[p]));
                assert(init[o] == bias[p]);
            }
            law_spreading_keeps_elements(init, bias, dims);
            assert(spread(out, bias, dims).drop_last() =~= spread(init, bias, dims));
            assert(spread(out, bias, dims).last() == 1);
            let p: int = product(dims) as int;
            assert(p * 1 == p);
        }
    }
}

proof fn lemma_bias_comes_from(outputs: Seq<TermView>, bias_id: int) -> (output: int)
    requires
        0 <= bias_id < biases_of(outputs).len(),
    ensures
        0 <= output < outputs.len(),
        outputs[output].bias == Some(biases_of(outputs)[bias_id]),
    decreases outputs.len(),
{
    let init: Seq<TermView> = outputs.drop_last();
    if bias_id < biases_of(init).len() {
        lemma_bias_comes_from(init, bias_id)
    } else {
        outputs.len() - 1
    }
}

fn find_size(inputs: &Vec<AxisTerm>, shapes: &Vec<Shape>, axis: char) -> (result: Option<usize>)
    requires
        inputs.len() == shapes.len(),
        ranks_fit(term_views(inputs@), shape_views(shapes@)),
    ensures
        match result {
            Some(size) => has_size(term_views(inputs@), shape_views(shapes@), axis, size),
            None => !is_input_axis(term_views(inputs@), axis),
        },
{
    let ghost terms: Seq<TermView> = term_views(inputs@);
    let ghost dims: Seq<Seq<usize>> = shape_views(shapes@);
    let mut i: usize = 0;
    while i < inputs.len()
        invariant
            i <= inputs.len(),
            inputs.len() == shapes.len(),
            terms == term_views(inputs@),
            dims == shape_views(shapes@),
            ranks_fit(terms, dims),
            forall|j: int| 0 <= j < i ==> !(#[trigger] terms[j]).axes.contains(axis),
        decreases inputs.len() - i,
    {
        assert(dims[i as int].len() == terms[i as int].axes.len());
        let mut p: usize = 0;
        while p < inputs[i].axes.len()
            invariant
                i < inputs.len(),
                inputs.len() == shapes.len(),
                p <= inputs@[i as int].axes.len(),
                terms == term_views(inputs@),
                dims == shape_views(shapes@),
                dims[i as int].len() == terms[i as int].axes.len(),
                forall|q: int| 0 <= q < p ==> terms[i as int].axes[q] != axis,
            decreases inputs@[i as int].axes.len() - p,
        {
            if inputs[i].axes[p] == axis {
                assert(terms[i as int].axes[p as int] == axis);
                assert(dims[i as int][p as int] == shapes@[i as int].dims@[p as int]);
                return Some(shapes[i].dim(p));
            }
            p = p + 1;
        }
        i = i + 1;
    }
    None
}

/// Whether the axis has the given size wherever it occurs.
fn size_everywhere(inputs: &Vec<AxisTerm>, shapes: &Vec<Shape>, axis: char, size: usize) -> (is: bool)
    requires
        inputs.len() == shapes.len(),
        ranks_fit(term_views(inputs@), shape_views(shapes@)),
    ensures
        is == forall|j: int, q: int|
            0 <= j < inputs.len() && 0 <= q < term_views(inputs@)[j].axes.len() && #[trigger] term_views(
                inputs@,
            )[j].axes[q] == axis ==> shape_views(shapes@)[j][q] == size,
{
    let ghost terms: Seq<TermView> = term_views(inputs@);
    let ghost dims: Seq<Seq<usize>> = shape_views(shapes@);
    let mut i: usize = 0;
    while i < inputs.len()
        invariant
            i <= inputs.len(),
            inputs.len() == shapes.len(),
            terms == term_views(inputs@),
            dims == shape_views(shapes@),
            ranks_fit(terms, dims),
            forall|j: int, q: int|
                0 <= j < i && 0 <= q < terms[j].axes.len() && #[trigger] terms[j].axes[q] == axis ==> dims[j][q]
                    == size,
        decreases inputs.len() - i,
    {
        assert(dims[i as int].len() == terms[i as int].axes.len());
        let mut p: usize = 0;
        while p < inputs[i].axes.len()
            invariant
                i < inputs.len(),
                inputs.len() == shapes.len(),
                p <= inputs@[i as int].axes.len(),
                terms == term_views(inputs@),
                dims == shape_views(shapes@),
                dims[i as int].len() == terms[i as int].axes.len(),
                forall|q: int| 0 <= q < p && #[trigger] terms[i as int].axes[q] == axis ==> dims[i as int][q] == size,
            decreases inputs@[i as int].axes.len() - p,
        {
            assert(dims[i as int][p as int] == shapes@[i as int].dims@[p as int]);
            if inputs[i].axes[p] == axis && shapes[i].dim(p) != size {
                assert(terms[i as int].axes[p as int] == axis);
                return false;
            }
            p = p + 1;
        }
        i = i + 1;
    }
    true
}

fn all_sizes_agree(inputs: &Vec<AxisTerm>, shapes: &Vec<Shape>) -> (is: bool)
    requires
        inputs.len() == shapes.len(),
        ranks_fit(term_views(inputs@), shape_views(shapes@)),
    ensures
        is == sizes_agree(term_views(inputs@), shape_views(shapes@)),
{
    let ghost terms: Seq<TermView> = term_views(inputs@);
    let ghost dims: Seq<Seq<usize>> = shape_views(shapes@);
    let mut i: usize = 0;
    while i < inputs.len()
        invariant
            i <= inputs.len(),
            inputs.len() == shapes.len(),
            terms == term_views(inputs@),
            dims == shape_views(shapes@),
            ranks_fit(terms, dims),
            forall|x: int, p: int, j: int, q: int|
                0 <= x < i && 0 <= p < terms[x].axes.len() && 0 <= j < terms.len() && 0 <= q < terms[j].axes.len()
                    && #[trigger] terms[x].axes[p] == #[trigger] terms[j].axes[q] ==> dims[x][p] == dims[j][q],
        decreases inputs.len() - i,
    {
        assert(dims[i as int].len() == terms[i as int].axes.len());
        let mut p: usize = 0;
        while p < inputs[i].axes.len()
            invariant
                i < inputs.len(),
                inputs.len() == shapes.len(),
                p <= inputs@[i as int].axes.len(),
                terms == term_views(inputs@),
                dims == shape_views(shapes@),
                ranks_fit(terms, dims),
                dims[i as int].len() == terms[i as int].axes.len(),
                forall|x: int, j: int, q: int|
                    0 <= x < p && 0 <= j < terms.len() && 0 <= q < terms[j].axes.len()
                        && #[trigger] terms[i as int].axes[x] == #[trigger] terms[j].axes[q] ==> dims[i as int][x]
                        == dims[j][q],
            decreases inputs@[i as int].axes.len() - p,
        {
            assert(dims[i as int][p as int] == shapes@[i as int].dims@[p as int]);
            let axis: char = inputs[i].axes[p];
            assert(terms[i as int].axes[p as int] == axis);
            if !size_everywhere(inputs, shapes, axis, shapes[i].dim(p)) {
                return false;
            }
            p = p + 1;
        }
        i = i + 1;
    }
    true
}

impl AxesMapping {
    /// The shapes of the outputs for the shapes of all inputs.
    pub fn output_shapes(&self, shapes: &Vec<Shape>) -> (result: Result<Vec<Shape>, ShapeError>)
        requires
            self@.valid(),
        ensures
            match (result, self@.shape_error(shape_views(shapes@))) {
                (Ok(outputs), None) => shape_views(outputs@) == self@.output_dims(shape_views(shapes@)),
                (Err(error), Some(reason)) => error == reason,
                _ => false,
            },
    {
        let ghost dims: Seq<Seq<usize>> = shape_views(shapes@);
        if shapes.len() != self.inputs.len() {
            return Err(ShapeError::InputCount);
        }
        let mut i: usize = 0;
        while i < self.inputs.len()
            invariant
                i <= self.inputs.len(),
                shapes.len() == self.inputs.len(),
                dims == shape_views(shapes@),
                forall|j: int| 0 <= j < i ==> (#[trigger] dims[j]).len() == self@.inputs[j].axes.len(),
            decreases self.inputs.len() - i,
        {
            if shapes[i].rank() != self.inputs[i].axes.len() {
                assert(dims[i as int].len() != self@.inputs[i as int].axes.len());
                return Err(ShapeError::RankMismatch);
            }
            i = i + 1;
        }
        if !all_sizes_agree(&self.inputs, shapes) {
            return Err(ShapeError::AxisMismatch);
        }
        let mut outputs: Vec<Shape> = Vec::new();
        let mut k: usize = 0;
        while k < self.outputs.len()
            invariant
                k <= self.outputs.len(),
                self@.valid(),
                shapes.len() == self.inputs.len(),
                dims == shape_views(shapes@),
                ranks_fit(self@.inputs, dims),
                sizes_agree(self@.inputs, dims),
                shape_views(outputs@) == self@.output_dims(dims).take(k as int),
            decreases self.outputs.len() - k,
        {
            let mut sizes: Vec<usize> = Vec::new();
            let mut p: usize = 0;
            let ghost axes: Seq<char> = self@.outputs[k as int].axes;
            while p < self.outputs[k].axes.len()
                invariant
                    k < self.outputs.len(),
                    axes == self@.outputs[k as int].axes,
                    p <= self.outputs@[k as int].axes.len(),
                    self@.valid(),
                    shapes.len() == self.inputs.len(),
                    dims == shape_views(shapes@),
                    ranks_fit(self@.inputs, dims),
                    sizes_agree(self@.inputs, dims),
                    sizes@ == sizes_of(self@.inputs, dims, axes).take(p as int),
                decreases self.outputs@[k as int].axes.len() - p,
            {
                let axis: char = self.outputs[k].axes[p];
                proof {
                    crate::axis::lemma_output_axes_are_input_axes(self@, k as int);
                    assert(is_input_axis(self@.inputs, axes[p as int]));
                }
                match find_size(&self.inputs, shapes, axis) {
                    Some(size) => {
                        proof {
                            lemma_axis_size(self@.inputs, dims, axis, size);
                        }
                        sizes.push(size);
                        assert(sizes@ =~= sizes_of(self@.inputs, dims, axes).take(p + 1));
                    },
                    None => vstd::pervasive::unreached(),
                }
                p = p + 1;
            }
            let ghost sofar: Seq<Shape> = outputs@;
            let shape: Shape = Shape::new(sizes);
            assert(shape@ =~= self@.output_dims(dims)[k as int]);
            outputs.push(shape);
            assert(shape_views(outputs@) =~= shape_views(sofar).push(shape@));
            assert(shape_views(outputs@) =~= self@.output_dims(dims).take(k + 1));
            k = k + 1;
        }
        assert(self@.output_dims(dims).take(k as int) =~= self@.output_dims(dims));
        Ok(outputs)
    }

    /// The axes of the bias with the given number.
    fn bias_axes(&self, bias_id: usize) -> (axes: &Vec<char>)
        requires
            bias_id < self@.bias_count(),
        ensures
            axes@ == biases_of(self@.outputs)[bias_id as int],
    {
        let mut seen: usize = 0;
        let mut i: usize = 0;
        assert(self@.outputs.take(0) =~= Seq::<TermView>::empty());
        while i < self.outputs.len()
            invariant
                i <= self.outputs.len(),
                bias_id < biases_of(self@.outputs).len(),
                seen <= i,
                seen == biases_of(self@.outputs.take(i as int)).len(),
                seen <= bias_id,
            decreases self.outputs.len() - i,
        {
            proof {
                let next: Seq<TermView> = self@.outputs.take(i + 1);
                assert(next.drop_last() =~= self@.outputs.take(i as int));
                assert(next.last() == self.outputs@[i as int]@);
                lemma_biases_prefix(self@.outputs, i + 1);
            }
            if let Some(axes) = &self.outputs[i].bias {
                if seen == bias_id {
                    proof {
                        let next: Seq<TermView> = self@.outputs.take(i + 1);
                        assert(biases_of(next) == biases_of(next.drop_last()).push(axes@));
                        assert(biases_of(next)[bias_id as int] == axes@);
                    }
                    return axes;
                }
                seen = seen + 1;
            }
            i = i + 1;
        }
        proof {
            assert(self@.outputs.take(i as int) =~= self@.outputs);
        }
        vstd::pervasive::unreached()
    }

    /// The shape that spreads the bias with number `bias_id` over an output.
    pub fn compute_new_bias_shape(&self, output_id: usize, bias_id: usize, shape: &Shape) -> (result: Result<
        Shape,
        ShapeError,
    >)
        requires
            self@.valid(),
            output_id < self@.outputs.len(),
            bias_id < self@.bias_count(),
        ensures
            match (result, self@.bias_error(output_id as int, bias_id as int, shape@)) {
                (Ok(new), None) => {
                    &&& new@ == self@.bias_dims(output_id as int, bias_id as int, shape@)
                    &&& product(new@) == product(shape@)
                },
                (Err(error), Some(reason)) => error == reason,
                _ => false,
            },
    {
        let axes: &Vec<char> = self.bias_axes(bias_id);
        let out: &Vec<char> = &self.outputs[output_id].axes;
        proof {
            let owner: int = lemma_bias_comes_from(self@.outputs, bias_id as int);
            assert(self@.terms()[self@.inputs.len() + owner] == self@.outputs[owner]);
            assert(self@.terms()[self@.inputs.len() + output_id as int] == self@.outputs[output_id as int]);
            assert(crate::axis::axes_distinct(self@.terms()[self@.inputs.len() + owner]));
            assert(crate::axis::axes_distinct(self@.terms()[self@.inputs.len() + output_id as int]));
        }
        if shape.rank() != axes.len() {
            return Err(ShapeError::RankMismatch);
        }
        if !crate::axis::within(axes, out) {
            return Err(ShapeError::BiasAxis);
        }
        let ghost expected: Seq<usize> = spread(out@, axes@, shape@);
        let mut dims: Vec<usize> = Vec::new();
        let mut p: usize = 0;
        while p < out.len()
            invariant
                p <= out.len(),
                axes@.no_duplicates(),
                axes@.len() == shape@.len(),
                expected == spread(out@, axes@, shape@),
                dims@ == expected.take(p as int),
            decreases out.len() - p,
        {
            match crate::axis::position(axes, out[p]) {
                Some(at) => {
                    proof {
                        lemma_index_of(axes@, at as int);
                    }
                    dims.push(shape.dim(at));
                },
                None => {
                    dims.push(1);
                },
            }
            assert(dims@ =~= expected.take(p + 1));
            p = p + 1;
        }
        proof {
            assert(expected.take(p as int) =~= expected);
            law_spreading_keeps_elements(out@, axes@, shape@);
        }
        Ok(Shape::new(dims))
    }
}

/// The biases of the first outputs are the first biases.
pub proof fn lemma_biases_prefix(outputs: Seq<TermView>, len: int)
    requires
        0 <= len <= outputs.len(),
    ensures
        biases_of(outputs.take(len)).len() <= biases_of(outputs).len(),
        forall|i: int|
            0 <= i < biases_of(outputs.take(len)).len() ==> #[trigger] biases_of(outputs.take(len))[i] == biases_of(
                outputs,
            )[i],
    decreases outputs.len() - len,
{
    if len < outputs.len() {
        lemma_biases_prefix(outputs, len + 1);
        assert(outputs.take(len + 1).drop_last() =~= outputs.take(len));
        assert forall|i: int| 0 <= i < biases_of(outputs.take(len)).len() implies #[trigger] biases_of(
            outputs.take(len),
        )[i] == biases_of(outputs)[i] by {
            assert(biases_of(outputs.take(len + 1))[i] == biases_of(outputs.take(len))[i]);
        }
    } else {
        assert(outputs.take(len) =~= outputs);
    }
}

} // verus!
