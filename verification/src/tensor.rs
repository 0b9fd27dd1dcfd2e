//! Dense tensors in row-major order, and their concatenation along one dimension.

use crate::arith::{lemma_product_skip, lemma_product_split, lemma_product_take, product, range_product};
use crate::shape::Shape;
use vstd::prelude::*;

verus! {

/// The integers that quantised tensors hold.
pub type Element = i64;

/// Why a tensor could not be built.
#[derive(Debug, Clone, Copy, PartialEq, Eq, Structural)]
pub enum TensorError {
    /// The shape does not hold as many elements as there are.
    DataLength,
    /// The two tensors differ in rank.
    RankMismatch,
    /// The dimension to join along is not one of the tensors' own.
    DimensionOutOfRange,
    /// The two tensors differ in another dimension than the one to join along.
    ShapeMismatch,
    /// The joined dimension does not fit in a machine word.
    DimensionOverflow,
}

/// A dense tensor: its shape, and its elements in row-major order.
#[derive(Debug, PartialEq, Eq)]
pub struct Tensor<N> {
    pub shape: Shape,
    pub data: Vec<N>,
}

/// What a tensor holds.
#[verifier::ext_equal]
pub struct TensorView<N> {
    pub shape: Seq<usize>,
    pub data: Seq<N>,
}

impl<N> TensorView<N> {
    /// The shape and the elements agree.
    pub open spec fn wf(self) -> bool {
        product(self.shape) == self.data.len()
    }

    /// The number of dimensions.
    pub open spec fn rank(self) -> nat {
        self.shape.len()
    }

    /// The tensor with `f` applied to every element.
    pub open spec fn mapped<M>(self, f: spec_fn(N) -> M) -> TensorView<M> {
        TensorView { shape: self.shape, data: self.data.map_values(f) }
    }

    /// The element at a multi-index.
    pub open spec fn at(self, index: Seq<int>) -> N {
        self.data[flat_index(self.shape, index)]
    }
}

impl<N> View for Tensor<N> {
    type V = TensorView<N>;

    open spec fn view(&self) -> TensorView<N> {
        TensorView { shape: self.shape@, data: self.data@ }
    }
}

/// The position of a multi-index in row-major order.
pub open spec fn flat_index(shape: Seq<usize>, index: Seq<int>) -> int
    decreases shape.len(),
{
    if shape.len() == 0 {
        0
    } else {
        flat_index(shape.drop_last(), index.drop_last()) * shape.last() + index.last()
    }
}

/// Whether `index` names an element of a tensor of this shape.
pub open spec fn in_range(shape: Seq<usize>, index: Seq<int>) -> bool {
    &&& index.len() == shape.len()
    &&& forall|i: int| 0 <= i < shape.len() ==> 0 <= #[trigger] index[i] < shape[i]
}

/// Rows of `a` (of width `wa`) and of `b` (of width `wb`) joined pairwise, `rows` of each.
pub open spec fn joined_rows<N>(a: Seq<N>, b: Seq<N>, wa: int, wb: int, rows: int) -> Seq<N> {
    Seq::new(
        (rows * (wa + wb)) as nat,
        |p: int|
            if p % (wa + wb) < wa {
                a[(p / (wa + wb)) * wa + p % (wa + wb)]
            } else {
                b[(p / (wa + wb)) * wb + (p % (wa + wb) - wa)]
            },
    )
}

/// The elements of `a` followed, along `dim`, by those of `b`.
pub open spec fn cat<N>(a: TensorView<N>, b: TensorView<N>, dim: int) -> TensorView<N> {
    TensorView {
        shape: a.shape.update(dim, (a.shape[dim] + b.shape[dim]) as usize),
        data: joined_rows(
            a.data,
            b.data,
            product(a.shape.skip(dim)) as int,
            product(b.shape.skip(dim)) as int,
            product(a.shape.take(dim)) as int,
        ),
    }
}

/// The two shapes agree except, perhaps, in `dim`.
pub open spec fn agree_except(a: Seq<usize>, b: Seq<usize>, dim: int) -> bool {
    forall|i: int| 0 <= i < a.len() && i != dim ==> #[trigger] a[i] == b[i]
}

/// Why two shapes cannot be joined along `dim`, if they cannot.
pub open spec fn cat_error(a: Seq<usize>, b: Seq<usize>, dim: int) -> Option<TensorError> {
    if a.len() != b.len() {
        Some(TensorError::RankMismatch)
    } else if dim >= a.len() {
        Some(TensorError::DimensionOutOfRange)
    } else if !agree_except(a, b, dim) {
        Some(TensorError::ShapeMismatch)
    } else if a[dim] + b[dim] > usize::MAX {
        Some(TensorError::DimensionOverflow)
    } else {
        None
    }
}

/// Two shapes can be joined along `dim`.
pub open spec fn joinable(a: Seq<usize>, b: Seq<usize>, dim: int) -> bool {
    0 <= dim && cat_error(a, b, dim) is None
}

/// The parts of the two shapes before and after the joined dimension are the same.
pub proof fn lemma_joinable_parts(a: Seq<usize>, b: Seq<usize>, dim: int)
    requires
        joinable(a, b, dim),
    ensures
        a.take(dim) == b.take(dim),
        a.skip(dim + 1) == b.skip(dim + 1),
        product(a.skip(dim)) == a[dim] * product(a.skip(dim + 1)),
        product(b.skip(dim)) == b[dim] * product(a.skip(dim + 1)),
        product(a) == product(a.take(dim)) * product(a.skip(dim)),
        product(b) == product(a.take(dim)) * product(b.skip(dim)),
{
    assert(a.take(dim) =~= b.take(dim)) by {
        assert forall|i: int| 0 <= i < dim implies a.take(dim)[i] == b.take(dim)[i] by {
            assert(a[i] == b[i]);
        }
    }
    assert(a.skip(dim + 1) =~= b.skip(dim + 1)) by {
        assert forall|i: int| 0 <= i < a.len() - dim - 1 implies #[trigger] a.skip(dim + 1)[i] == b.skip(dim + 1)[i] by {
            assert(a[i + dim + 1] == b[i + dim + 1]);
        }
    }
    lemma_product_split(a, dim);
    lemma_product_split(b, dim);
}

/// The parts of the shape of a joined tensor.
pub proof fn lemma_cat_parts<N>(a: TensorView<N>, b: TensorView<N>, dim: int)
    requires
        joinable(a.shape, b.shape, dim),
    ensures
        cat(a, b, dim).shape.take(dim) == a.shape.take(dim),
        cat(a, b, dim).shape.skip(dim + 1) == a.shape.skip(dim + 1),
        product(cat(a, b, dim).shape.skip(dim)) == product(a.shape.skip(dim)) + product(b.shape.skip(dim)),
{
    let c: Seq<usize> = cat(a, b, dim).shape;
    lemma_joinable_parts(a.shape, b.shape, dim);
    assert(c.take(dim) =~= a.shape.take(dim));
    assert(c.skip(dim + 1) =~= a.shape.skip(dim + 1));
    lemma_product_split(c, dim);
    let x: int = a.shape[dim] as int;
    let y: int = b.shape[dim] as int;
    let t: int = product(a.shape.skip(dim + 1)) as int;
    assert((x + y) * t == x * t + y * t) by (nonlinear_arith);
}

/// Joining two well-formed tensors gives a well-formed one.
pub proof fn lemma_cat_wf<N>(a: TensorView<N>, b: TensorView<N>, dim: int)
    requires
        a.wf(),
        b.wf(),
        joinable(a.shape, b.shape, dim),
    ensures
        cat(a, b, dim).wf(),
        cat(a, b, dim).data.len() == a.data.len() + b.data.len(),
{
    lemma_joinable_parts(a.shape, b.shape, dim);
    lemma_cat_parts(a, b, dim);
    let c: Seq<usize> = cat(a, b, dim).shape;
    lemma_product_split(c, dim);
    let rows: int = product(a.shape.take(dim)) as int;
    let wa: int = product(a.shape.skip(dim)) as int;
    let wb: int = product(b.shape.skip(dim)) as int;
    assert(rows * (wa + wb) == rows * wa + rows * wb) by (nonlinear_arith);
}

/// Where the elements of each row of `joined_rows` come from.
pub proof fn lemma_joined_row<N>(a: Seq<N>, b: Seq<N>, wa: int, wb: int, rows: int, row: int, column: int)
    requires
        0 <= row < rows,
        0 <= wa,
        0 <= wb,
        0 <= column < wa + wb,
    ensures
        0 <= row * (wa + wb) + column < rows * (wa + wb),
        column < wa ==> joined_rows(a, b, wa, wb, rows)[row * (wa + wb) + column] == a[row * wa + column],
        column >= wa ==> joined_rows(a, b, wa, wb, rows)[row * (wa + wb) + column] == b[row * wb + (column - wa)],
{
    let w: int = wa + wb;
    let p: int = row * w + column;
    assert(0 <= row * w && row * w + w <= rows * w) by (nonlinear_arith)
        requires
            0 <= row,
            row + 1 <= rows,
            0 <= w,
    ;
    vstd::arithmetic::div_mod::lemma_fundamental_div_mod_converse(p, w, row, column);
}

/// Every position of `joined_rows` lies in one of its rows.
pub proof fn lemma_row_of(p: int, w: int, rows: int)
    requires
        0 <= p < rows * w,
        0 <= w,
    ensures
        w > 0,
        0 <= p / w < rows,
        0 <= p % w < w,
        p == (p / w) * w + p % w,
{
    assert(w > 0) by (nonlinear_arith)
        requires
            0 <= p < rows * w,
            0 <= w,
    ;
    vstd::arithmetic::div_mod::lemma_fundamental_div_mod(p, w);
    assert(w * (p / w) == (p / w) * w) by (nonlinear_arith);
    assert(0 <= p / w < rows) by (nonlinear_arith)
        requires
            0 <= p < rows * w,
            w > 0,
            p == (p / w) * w + p % w,
            0 <= p % w < w,
    ;
}

impl<N: Copy> Clone for Tensor<N> {
    fn clone(&self) -> (copy: Self)
        ensures
            copy@ == self@,
    {
        let mut data: Vec<N> = Vec::new();
        let mut i: usize = 0;
        while i < self.data.len()
            invariant
                i <= self.data.len(),
                data@ == self.data@.take(i as int),
            decreases self.data.len() - i,
        {
            data.push(self.data[i]);
            i = i + 1;
        }
        assert(data@ =~= self.data@);
        Tensor { shape: self.shape.clone(), data }
    }
}

impl<N> Tensor<N> {
    /// The tensor's shape and elements agree.
    pub open spec fn wf(&self) -> bool {
        self@.wf()
    }

    /// The tensor of the given shape and elements.
    pub fn new(shape: Shape, data: Vec<N>) -> (result: Result<Tensor<N>, TensorError>)
        ensures
            match result {
                Ok(tensor) => tensor.wf() && tensor@ == (TensorView { shape: shape@, data: data@ }),
                Err(error) => error == TensorError::DataLength && product(shape@) != data@.len(),
            },
            result is Ok <==> product(shape@) == data@.len(),
    {
        if shape.holds(data.len()) {
            Ok(Tensor { shape, data })
        } else {
            Err(TensorError::DataLength)
        }
    }

    /// The tensor of rank one that holds the given elements.
    pub fn from_vec(data: Vec<N>) -> (tensor: Tensor<N>)
        ensures
            tensor.wf(),
            tensor@ == (TensorView { shape: seq![data@.len() as usize], data: data@ }),
    {
        let mut dims: Vec<usize> = Vec::new();
        dims.push(data.len());
        proof {
            assert(dims@.drop_last() =~= Seq::<usize>::empty());
            assert(product(Seq::<usize>::empty()) == 1);
            assert(product(dims@) == 1 * data@.len());
            assert(dims@ =~= seq![data@.len() as usize]);
        }
        Tensor { shape: Shape::new(dims), data }
    }

    /// The number of dimensions.
    pub fn rank(&self) -> (rank: usize)
        ensures
            rank == self@.rank(),
    {
        self.shape.rank()
    }

    /// The shape.
    pub fn shape(&self) -> (shape: &Shape)
        ensures
            shape@ == self@.shape,
    {
        &self.shape
    }

    /// The elements, in row-major order.
    pub fn get_data(&self) -> (data: &Vec<N>)
        ensures
            data@ == self@.data,
    {
        &self.data
    }

    /// The same elements under another shape.
    pub fn reshape(self, shape: Shape) -> (result: Result<Tensor<N>, TensorError>)
        ensures
            match result {
                Ok(tensor) => tensor.wf() && tensor@ == (TensorView { shape: shape@, data: self@.data }),
                Err(error) => error == TensorError::DataLength && product(shape@) != self@.data.len(),
            },
    {
        Tensor::new(shape, self.data)
    }
}

impl<N: Copy> Tensor<N> {
    /// Joins two tensors along `dim`, the first before the second.
    pub fn cat(first: &Tensor<N>, second: &Tensor<N>, dim: usize) -> (result: Result<Tensor<N>, TensorError>)
        requires
            first.wf(),
            second.wf(),
        ensures
            match (result, cat_error(first@.shape, second@.shape, dim as int)) {
                (Ok(tensor), None) => tensor.wf() && tensor@ == cat(first@, second@, dim as int),
                (Err(error), Some(reason)) => error == reason,
                _ => false,
            },
    {
        let ghost a: Seq<usize> = first@.shape;
        let ghost b: Seq<usize> = second@.shape;
        let rank: usize = first.rank();
        if rank != second.rank() {
            return Err(TensorError::RankMismatch);
        }
        if dim >= rank {
            return Err(TensorError::DimensionOutOfRange);
        }
        let mut i: usize = 0;
        while i < rank
            invariant
                a == first@.shape,
                b == second@.shape,
                rank == a.len() == b.len(),
                dim < rank,
                i <= rank,
                forall|j: int| 0 <= j < i && j != dim ==> #[trigger] a[j] == b[j],
            decreases rank - i,
        {
            if i != dim && first.shape.dims[i] != second.shape.dims[i] {
                assert(!agree_except(a, b, dim as int)) by {
                    assert(a[i as int] != b[i as int]);
                }
                return Err(TensorError::ShapeMismatch);
            }
            i = i + 1;
        }
        let da: usize = first.shape.dims[dim];
        let db: usize = second.shape.dims[dim];
        if da > usize::MAX - db {
            return Err(TensorError::DimensionOverflow);
        }
        let mut shape: Shape = first.shape.clone();
        shape.dims.set(dim, da + db);
        proof {
            lemma_joinable_parts(a, b, dim as int);
            lemma_cat_wf(first@, second@, dim as int);
        }
        let data: Vec<N> = Self::cat_data(first, second, dim);
        Ok(Tensor { shape, data })
    }

    /// The elements of two joined tensors.
    fn cat_data(first: &Tensor<N>, second: &Tensor<N>, dim: usize) -> (data: Vec<N>)
        requires
            first.wf(),
            second.wf(),
            joinable(first@.shape, second@.shape, dim as int),
        ensures
            data@ == cat(first@, second@, dim as int).data,
    {
        let ghost a: Seq<usize> = first@.shape;
        let ghost b: Seq<usize> = second@.shape;
        let ghost all: Seq<N> = cat(first@, second@, dim as int).data;
        let mut data: Vec<N> = Vec::new();
        proof {
            lemma_joinable_parts(a, b, dim as int);
            lemma_cat_wf(first@, second@, dim as int);
        }
        let na: usize = first.data.len();
        let nb: usize = second.data.len();
        if na == 0 && nb == 0 {
            assert(data@ =~= all);
            return data;
        }
        let rank: usize = first.rank();
        let solid: &Tensor<N> = if na > 0 {
            first
        } else {
            second
        };
        proof {
            let s: Seq<usize> = solid@.shape;
            lemma_product_take(s, dim as int);
            lemma_product_skip(s, dim + 1);
            assert(s.subrange(0, dim as int) =~= s.take(dim as int));
            assert(s.subrange(dim + 1, rank as int) =~= s.skip(dim + 1));
        }
        let rows: usize = range_product(&solid.shape.dims, 0, dim);
        let tail: usize = range_product(&solid.shape.dims, dim + 1, rank);
        let ghost wide: int = product(a.skip(dim as int)) as int;
        let ghost wideb: int = product(b.skip(dim as int)) as int;
        proof {
            assert(wide <= rows * wide) by (nonlinear_arith)
                requires
                    rows >= 1,
                    wide >= 0,
            ;
            assert(wideb <= rows * wideb) by (nonlinear_arith)
                requires
                    rows >= 1,
                    wideb >= 0,
            ;
        }
        let wa: usize = first.shape.dims[dim] * tail;
        let wb: usize = second.shape.dims[dim] * tail;
        let mut row: usize = 0;
        while row < rows
            invariant
                row <= rows,
                na == first@.data.len() == rows * wa,
                nb == second@.data.len() == rows * wb,
                all == joined_rows(first@.data, second@.data, wa as int, wb as int, rows as int),
                data@ == all.take(row * (wa + wb)),
                0 <= row * (wa + wb) <= all.len(),
            decreases rows - row,
        {
            proof {
                assert(row * wa + wa <= rows * wa && row * wb + wb <= rows * wb && 0 <= row * wa && 0 <= row * wb)
                    by (nonlinear_arith)
                    requires
                        0 <= row,
                        row + 1 <= rows,
                        0 <= wa,
                        0 <= wb,
                ;
                assert((row + 1) * (wa + wb) == row * (wa + wb) + wa + wb) by (nonlinear_arith);
                assert((row + 1) * (wa + wb) <= rows * (wa + wb)) by (nonlinear_arith)
                    requires
                        row + 1 <= rows,
                        0 <= wa,
                        0 <= wb,
                ;
            }
            let base: usize = row * wa;
            let mut j: usize = 0;
            while j < wa
                invariant
                    row < rows,
                    j <= wa,
                    base == row * wa,
                    base + wa <= na == first@.data.len(),
                    all == joined_rows(first@.data, second@.data, wa as int, wb as int, rows as int),
                    data@ == all.take(row * (wa + wb) + j),
                    0 <= row * (wa + wb),
                    row * (wa + wb) + wa + wb <= all.len(),
                decreases wa - j,
            {
                proof {
                    lemma_joined_row(first@.data, second@.data, wa as int, wb as int, rows as int, row as int, j as int);
                }
                data.push(first.data[base + j]);
                assert(data@ =~= all.take(row * (wa + wb) + j + 1));
                j = j + 1;
            }
            let base_b: usize = row * wb;
            let mut k: usize = 0;
            while k < wb
                invariant
                    row < rows,
                    k <= wb,
                    base_b == row * wb,
                    base_b + wb <= nb == second@.data.len(),
                    all == joined_rows(first@.data, second@.data, wa as int, wb as int, rows as int),
                    data@ == all.take(row * (wa + wb) + wa + k),
                    0 <= row * (wa + wb),
                    row * (wa + wb) + wa + wb <= all.len(),
                decreases wb - k,
            {
                proof {
                    lemma_joined_row(
                        first@.data,
                        second@.data,
                        wa as int,
                        wb as int,
                        rows as int,
                        row as int,
                        wa + k,
                    );
                }
                data.push(second.data[base_b + k]);
                assert(data@ =~= all.take(row * (wa + wb) + wa + k + 1));
                k = k + 1;
            }
            row = row + 1;
        }
        assert(data@ =~= all);
        data
    }
}

} // verus!
