//! What concatenation keeps: where every element goes, that it is associative, and that
//! it commutes with any function applied element by element.

use crate::arith::product;
use crate::tensor::{
    cat, cat_error, flat_index, in_range, joinable, lemma_cat_parts, lemma_cat_wf, lemma_joinable_parts,
    lemma_joined_row, lemma_row_of, TensorError, TensorView,
};
use vstd::prelude::*;

verus! {

/// A position splits into the part before `dim` and the part from `dim` on.
proof fn lemma_flat_index_split(shape: Seq<usize>, index: Seq<int>, dim: int)
    requires
        index.len() == shape.len(),
        0 <= dim <= shape.len(),
    ensures
        flat_index(shape, index) == flat_index(shape.take(dim), index.take(dim)) * product(shape.skip(dim))
            + flat_index(shape.skip(dim), index.skip(dim)),
    decreases shape.len(),
{
    if dim == shape.len() {
        assert(shape.take(dim) =~= shape);
        assert(index.take(dim) =~= index);
        assert(product(shape.skip(dim)) == 1);
        assert(flat_index(shape.skip(dim), index.skip(dim)) == 0);
    } else {
        let s: Seq<usize> = shape.drop_last();
        let x: Seq<int> = index.drop_last();
        lemma_flat_index_split(s, x, dim);
        assert(s.take(dim) =~= shape.take(dim));
        assert(x.take(dim) =~= index.take(dim));
        assert(s.skip(dim) =~= shape.skip(dim).drop_last());
        assert(x.skip(dim) =~= index.skip(dim).drop_last());
        assert(shape.skip(dim).last() == shape.last());
        assert(index.skip(dim).last() == index.last());
        let f: int = flat_index(shape.take(dim), index.take(dim));
        let p: int = product(s.skip(dim)) as int;
        let g: int = flat_index(s.skip(dim), x.skip(dim));
        let l: int = shape.last() as int;
        assert((f * p + g) * l == f * (p * l) + g * l) by (nonlinear_arith);
    }
}

/// A position from `dim` on splits off the coordinate along `dim`.
proof fn lemma_flat_index_head(shape: Seq<usize>, index: Seq<int>, dim: int)
    requires
        index.len() == shape.len(),
        0 <= dim < shape.len(),
    ensures
        flat_index(shape.skip(dim), index.skip(dim)) == index[dim] * product(shape.skip(dim + 1)) + flat_index(
            shape.skip(dim + 1),
            index.skip(dim + 1),
        ),
{
    let s: Seq<usize> = shape.skip(dim);
    let x: Seq<int> = index.skip(dim);
    lemma_flat_index_split(s, x, 1);
    assert(s.skip(1) =~= shape.skip(dim + 1));
    assert(x.skip(1) =~= index.skip(dim + 1));
    assert(s.take(1).drop_last() =~= Seq::<usize>::empty());
    assert(x.take(1).drop_last() =~= Seq::<int>::empty());
    assert(flat_index(Seq::<usize>::empty(), Seq::<int>::empty()) == 0);
    assert(flat_index(s.take(1), x.take(1)) == 0 * s.take(1).last() + x.take(1).last());
    assert(x.take(1).last() == index[dim]);
}

/// The position of an index in range lies in the tensor.
proof fn lemma_flat_index_bound(shape: Seq<usize>, index: Seq<int>)
    requires
        in_range(shape, index),
    ensures
        0 <= flat_index(shape, index) < product(shape),
    decreases shape.len(),
{
    if shape.len() > 0 {
        let s: Seq<usize> = shape.drop_last();
        let x: Seq<int> = index.drop_last();
        assert forall|i: int| 0 <= i < s.len() implies 0 <= #[trigger] x[i] < s[i] by {
            assert(0 <= index[i] < shape[i]);
        }
        lemma_flat_index_bound(s, x);
        let f: int = flat_index(s, x);
        let p: int = product(s) as int;
        let l: int = shape.last() as int;
        let i: int = index.last();
        assert(0 <= index[shape.len() - 1] < shape[shape.len() - 1]);
        assert(0 <= f * l + i < p * l) by (nonlinear_arith)
            requires
                0 <= f,
                f + 1 <= p,
                0 <= i < l,
        ;
    }
}

/// Concatenation puts the first tensor's elements first along `dim` and the second's
/// behind them; every other coordinate is kept.
pub proof fn law_cat_places_every_element<N>(a: TensorView<N>, b: TensorView<N>, dim: int, index: Seq<int>)
    requires
        a.wf(),
        b.wf(),
        joinable(a.shape, b.shape, dim),
        in_range(cat(a, b, dim).shape, index),
    ensures
        index[dim] < a.shape[dim] ==> in_range(a.shape, index) && cat(a, b, dim).at(index) == a.at(index),
        index[dim] >= a.shape[dim] ==> in_range(b.shape, index.update(dim, index[dim] - a.shape[dim])) && cat(
            a,
            b,
            dim,
        ).at(index) == b.at(index.update(dim, index[dim] - a.shape[dim])),
{
    let c: TensorView<N> = cat(a, b, dim);
    let moved: Seq<int> = index.update(dim, index[dim] - a.shape[dim]);
    lemma_joinable_parts(a.shape, b.shape, dim);
    lemma_cat_parts(a, b, dim);
    assert(0 <= index[dim] < c.shape[dim]);
    assert forall|i: int| 0 <= i < c.shape.len() && i != dim implies 0 <= #[trigger] index[i] < a.shape[i]
        && a.shape[i] == b.shape[i] by {
        assert(c.shape[i] == a.shape[i]);
        assert(a.shape[i] == b.shape[i]);
    }
    let row: int = flat_index(c.shape.take(dim), index.take(dim));
    let rows: int = product(c.shape.take(dim)) as int;
    let tail: int = product(c.shape.skip(dim + 1)) as int;
    let rest: int = flat_index(c.shape.skip(dim + 1), index.skip(dim + 1));
    let wa: int = product(a.shape.skip(dim)) as int;
    let wb: int = product(b.shape.skip(dim)) as int;
    let x: int = index[dim];
    let da: int = a.shape[dim] as int;
    let db: int = b.shape[dim] as int;
    let column: int = x * tail + rest;
    lemma_flat_index_split(c.shape, index, dim);
    lemma_flat_index_head(c.shape, index, dim);
    assert(in_range(c.shape.take(dim), index.take(dim))) by {
        assert forall|i: int| 0 <= i < dim implies 0 <= #[trigger] index.take(dim)[i] < c.shape.take(dim)[i] by {
            assert(0 <= index[i] < c.shape[i]);
        }
    }
    lemma_flat_index_bound(c.shape.take(dim), index.take(dim));
    assert(in_range(c.shape.skip(dim + 1), index.skip(dim + 1))) by {
        assert forall|i: int| 0 <= i < c.shape.len() - dim - 1 implies 0 <= #[trigger] index.skip(dim + 1)[i]
            < c.shape.skip(dim + 1)[i] by {
            assert(0 <= index[i + dim + 1] < c.shape[i + dim + 1]);
        }
    }
    lemma_flat_index_bound(c.shape.skip(dim + 1), index.skip(dim + 1));
    assert(0 <= column < wa + wb) by (nonlinear_arith)
        requires
            column == x * tail + rest,
            0 <= rest < tail,
            0 <= x,
            x + 1 <= da + db,
            wa == da * tail,
            wb == db * tail,
    ;
    lemma_joined_row(a.data, b.data, wa, wb, rows, row, column);
    if x < da {
        assert(column < wa) by (nonlinear_arith)
            requires
                column == x * tail + rest,
                rest < tail,
                x + 1 <= da,
                wa == da * tail,
                0 <= tail,
        ;
        assert(in_range(a.shape, index));
        lemma_flat_index_split(a.shape, index, dim);
        lemma_flat_index_head(a.shape, index, dim);
    } else {
        assert(column >= wa && column - wa == (x - da) * tail + rest) by (nonlinear_arith)
            requires
                column == x * tail + rest,
                0 <= rest,
                x >= da,
                wa == da * tail,
                0 <= tail,
        ;
        assert(in_range(b.shape, moved)) by {
            assert forall|i: int| 0 <= i < b.shape.len() implies 0 <= #[trigger] moved[i] < b.shape[i] by {
                if i != dim {
                    assert(0 <= index[i] < a.shape[i]);
                }
            }
        }
        lemma_flat_index_split(b.shape, moved, dim);
        lemma_flat_index_head(b.shape, moved, dim);
        assert(moved.take(dim) =~= index.take(dim));
        assert(moved.skip(dim + 1) =~= index.skip(dim + 1));
    }
}

/// Applying a function to every element and concatenating can be done in either order:
/// requantising each new slice before it is cached gives, bit for bit, what requantising
/// the whole cached history gives.
pub proof fn law_cat_commutes_with_elementwise<N, M>(
    a: TensorView<N>,
    b: TensorView<N>,
    dim: int,
    f: spec_fn(N) -> M,
)
    requires
        a.wf(),
        b.wf(),
        joinable(a.shape, b.shape, dim),
    ensures
        cat(a, b, dim).mapped(f) == cat(a.mapped(f), b.mapped(f), dim),
{
    lemma_joinable_parts(a.shape, b.shape, dim);
    let left: TensorView<M> = cat(a, b, dim).mapped(f);
    let right: TensorView<M> = cat(a.mapped(f), b.mapped(f), dim);
    let wa: int = product(a.shape.skip(dim)) as int;
    let wb: int = product(b.shape.skip(dim)) as int;
    let rows: int = product(a.shape.take(dim)) as int;
    assert forall|p: int| 0 <= p < left.data.len() implies left.data[p] == right.data[p] by {
        lemma_row_of(p, wa + wb, rows);
        let row: int = p / (wa + wb);
        let column: int = p % (wa + wb);
        assert(0 <= row * wa && row * wa + wa <= rows * wa && 0 <= row * wb && row * wb + wb <= rows * wb)
            by (nonlinear_arith)
            requires
                0 <= row,
                row + 1 <= rows,
                0 <= wa,
                0 <= wb,
        ;
    }
    assert(left.data =~= right.data);
}

/// Concatenation is associative, so that it does not matter how a history was cut into
/// slices before it was joined.
pub proof fn law_cat_is_associative<N>(a: TensorView<N>, b: TensorView<N>, c: TensorView<N>, dim: int)
    requires
        a.wf(),
        b.wf(),
        c.wf(),
        joinable(a.shape, b.shape, dim),
        joinable(cat(a, b, dim).shape, c.shape, dim),
    ensures
        joinable(b.shape, c.shape, dim),
        joinable(a.shape, cat(b, c, dim).shape, dim),
        cat(cat(a, b, dim), c, dim) == cat(a, cat(b, c, dim), dim),
{
    let ab: TensorView<N> = cat(a, b, dim);
    assert forall|i: int| 0 <= i < b.shape.len() && i != dim implies #[trigger] b.shape[i] == c.shape[i] by {
        assert(a.shape[i] == b.shape[i]);
        assert(ab.shape[i] == c.shape[i]);
    }
    assert(joinable(b.shape, c.shape, dim));
    let bc: TensorView<N> = cat(b, c, dim);
    assert forall|i: int| 0 <= i < a.shape.len() && i != dim implies #[trigger] a.shape[i] == bc.shape[i] by {
        assert(a.shape[i] == b.shape[i]);
        assert(bc.shape[i] == b.shape[i]);
    }
    assert(joinable(a.shape, bc.shape, dim));
    lemma_joinable_parts(a.shape, b.shape, dim);
    lemma_joinable_parts(b.shape, c.shape, dim);
    lemma_cat_parts(a, b, dim);
    lemma_cat_parts(b, c, dim);
    lemma_cat_wf(a, b, dim);
    lemma_cat_wf(b, c, dim);
    let left: TensorView<N> = cat(ab, c, dim);
    let right: TensorView<N> = cat(a, bc, dim);
    assert(left.shape =~= right.shape);
    let wa: int = product(a.shape.skip(dim)) as int;
    let wb: int = product(b.shape.skip(dim)) as int;
    let wc: int = product(c.shape.skip(dim)) as int;
    let rows: int = product(a.shape.take(dim)) as int;
    let w: int = wa + wb + wc;
    assert(ab.shape.take(dim) == a.shape.take(dim));
    assert forall|p: int| 0 <= p < left.data.len() implies left.data[p] == right.data[p] by {
        lemma_row_of(p, w, rows);
        let row: int = p / w;
        let column: int = p % w;
        lemma_joined_row(ab.data, c.data, wa + wb, wc, rows, row, column);
        lemma_joined_row(a.data, bc.data, wa, wb + wc, rows, row, column);
        if column < wa + wb {
            lemma_joined_row(a.data, b.data, wa, wb, rows, row, column);
        }
        if column >= wa {
            lemma_joined_row(b.data, c.data, wb, wc, rows, row, column - wa);
        }
    }
    assert(left.data =~= right.data);
}

/// Elements stand in row-major order: the last coordinate counts single elements, and each
/// one before it counts as many as the dimensions behind it hold.
pub proof fn law_elements_stand_in_row_major_order(shape: Seq<usize>, index: Seq<int>, size: usize, last: int)
    ensures
        flat_index(Seq::<usize>::empty(), Seq::<int>::empty()) == 0,
        flat_index(shape.push(size), index.push(last)) == flat_index(shape, index) * size + last,
        in_range(shape.push(size), index.push(last)) <==> in_range(shape, index) && 0 <= last < size,
{
    assert(shape.push(size).drop_last() =~= shape);
    assert(index.push(last).drop_last() =~= index);
    if in_range(shape.push(size), index.push(last)) {
        assert forall|i: int| 0 <= i < shape.len() implies 0 <= #[trigger] index[i] < shape[i] by {
            assert(0 <= index.push(last)[i] < shape.push(size)[i]);
        }
        assert(0 <= index.push(last)[shape.len() as int] < shape.push(size)[shape.len() as int]);
    }
    if in_range(shape, index) && 0 <= last < size {
        assert forall|i: int| 0 <= i < shape.push(size).len() implies 0 <= #[trigger] index.push(last)[i] < shape.push(
            size,
        )[i] by {
            if i < shape.len() {
                assert(0 <= index[i] < shape[i]);
            }
        }
    }
}

/// The element at an index is the one at its place in row-major order.
pub proof fn law_element_at_an_index<N>(tensor: TensorView<N>, index: Seq<int>)
    ensures
        tensor.at(index) == tensor.data[flat_index(tensor.shape, index)],
        tensor.rank() == tensor.shape.len(),
        tensor.wf() <==> product(tensor.shape) == tensor.data.len(),
{
}

/// A joined tensor is, along the dimension it was joined along, as long as both together;
/// every other dimension is the one that both have. No element is lost.
pub proof fn law_joined_shape<N>(a: TensorView<N>, b: TensorView<N>, dim: int, i: int)
    requires
        a.wf(),
        b.wf(),
        joinable(a.shape, b.shape, dim),
        0 <= i < a.shape.len(),
    ensures
        cat(a, b, dim).shape.len() == a.shape.len(),
        cat(a, b, dim).shape[dim] == a.shape[dim] + b.shape[dim],
        i != dim ==> cat(a, b, dim).shape[i] == a.shape[i] && a.shape[i] == b.shape[i],
        cat(a, b, dim).data.len() == a.data.len() + b.data.len(),
        product(cat(a, b, dim).shape) == cat(a, b, dim).data.len(),
{
    lemma_cat_wf(a, b, dim);
}

/// Along the first dimension, the elements of the one tensor follow those of the other.
pub proof fn law_joining_along_the_first_dimension_appends<N>(a: TensorView<N>, b: TensorView<N>)
    requires
        a.wf(),
        b.wf(),
        joinable(a.shape, b.shape, 0),
    ensures
        cat(a, b, 0).data == a.data + b.data,
{
    lemma_cat_wf(a, b, 0);
    assert(a.shape.skip(0) =~= a.shape);
    assert(b.shape.skip(0) =~= b.shape);
    assert(a.shape.take(0) =~= Seq::<usize>::empty());
    let wa: int = a.data.len() as int;
    let wb: int = b.data.len() as int;
    assert forall|p: int| 0 <= p < wa + wb implies cat(a, b, 0).data[p] == (a.data + b.data)[p] by {
        lemma_joined_row(a.data, b.data, wa, wb, 1, 0, p);
    }
    assert(cat(a, b, 0).data =~= a.data + b.data);
}

/// Two shapes can be joined along one of their dimensions exactly where they have as many
/// dimensions and agree in all others, and the joined one fits in a word. Otherwise the
/// first of these that does not hold is the reason.
pub proof fn law_joins_are_refused_for_a_reason(a: Seq<usize>, b: Seq<usize>, dim: int)
    requires
        0 <= dim,
    ensures
        joinable(a, b, dim) <==> cat_error(a, b, dim) is None,
        cat_error(a, b, dim) is None <==> {
            &&& a.len() == b.len()
            &&& dim < a.len()
            &&& forall|i: int| 0 <= i < a.len() && i != dim ==> #[trigger] a[i] == b[i]
            &&& a[dim] + b[dim] <= usize::MAX
        },
        a.len() != b.len() ==> cat_error(a, b, dim) == Some(TensorError::RankMismatch),
        a.len() == b.len() && dim >= a.len() ==> cat_error(a, b, dim) == Some(TensorError::DimensionOutOfRange),
        a.len() == b.len() && dim < a.len() && !(forall|i: int|
            0 <= i < a.len() && i != dim ==> #[trigger] a[i] == b[i]) ==> cat_error(a, b, dim) == Some(
            TensorError::ShapeMismatch,
        ),
        a.len() == b.len() && dim < a.len() && (forall|i: int|
            0 <= i < a.len() && i != dim ==> #[trigger] a[i] == b[i]) && a[dim] + b[dim] > usize::MAX ==> cat_error(
            a,
            b,
            dim,
        ) == Some(TensorError::DimensionOverflow),
{
}

/// A function applied to every element keeps the shape and the places.
pub proof fn law_elementwise_keeps_places<N, M>(tensor: TensorView<N>, f: spec_fn(N) -> M, i: int)
    requires
        0 <= i < tensor.data.len(),
    ensures
        tensor.mapped(f).shape == tensor.shape,
        tensor.mapped(f).data.len() == tensor.data.len(),
        tensor.mapped(f).data[i] == f(tensor.data[i]),
{
}

} // verus!
