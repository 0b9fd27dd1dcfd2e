//! Tensor shapes.

use crate::arith::{next_power_of_two, padded, paddable, power_of_two_above, product, product_is, range_product};
use vstd::prelude::*;

verus! {

/// Whether a shape is padded, dimension by dimension, to powers of two.
#[derive(Debug, Clone, Copy, PartialEq, Eq, Structural)]
pub enum PaddingMode {
    /// Dimensions are kept as they are.
    NoPadding,
    /// Every dimension is rounded up to a power of two.
    Padding,
}

/// The dimensions of a tensor, the outermost one first.
#[derive(Debug, PartialEq, Eq)]
pub struct Shape {
    pub dims: Vec<usize>,
}

impl View for Shape {
    type V = Seq<usize>;

    open spec fn view(&self) -> Seq<usize> {
        self.dims@
    }
}

/// The shape `dims` under `mode`.
pub open spec fn shaped(dims: Seq<usize>, mode: PaddingMode) -> Seq<usize> {
    match mode {
        PaddingMode::NoPadding => dims,
        PaddingMode::Padding => padded(dims),
    }
}

/// Whether the shape `dims` under `mode` fits in machine words.
pub open spec fn shapeable(dims: Seq<usize>, mode: PaddingMode) -> bool {
    mode is Padding ==> paddable(dims)
}

impl Clone for Shape {
    fn clone(&self) -> (copy: Self)
        ensures
            copy@ == self@,
    {
        let mut dims: Vec<usize> = Vec::new();
        let mut i: usize = 0;
        while i < self.dims.len()
            invariant
                i <= self.dims.len(),
                dims@ == self.dims@.take(i as int),
            decreases self.dims.len() - i,
        {
            dims.push(self.dims[i]);
            i = i + 1;
        }
        Shape { dims }
    }
}

impl Shape {
    /// The shape with the given dimensions.
    pub fn new(dims: Vec<usize>) -> (shape: Shape)
        ensures
            shape@ == dims@,
    {
        Shape { dims }
    }

    /// How many dimensions there are.
    pub fn rank(&self) -> (rank: usize)
        ensures
            rank == self@.len(),
    {
        self.dims.len()
    }

    /// The size of one dimension.
    pub fn dim(&self, index: usize) -> (size: usize)
        requires
            index < self@.len(),
        ensures
            size == self@[index as int],
    {
        self.dims[index]
    }

    /// How many elements a tensor of this shape holds.
    pub fn numel(&self) -> (count: usize)
        requires
            product(self@) <= usize::MAX,
        ensures
            count == product(self@),
    {
        if product_is(&self.dims, 0) {
            return 0;
        }
        proof {
            assert(self.dims@.subrange(0, self.dims.len() as int) =~= self.dims@);
        }
        range_product(&self.dims, 0, self.dims.len())
    }

    /// Whether a tensor of this shape holds exactly `count` elements.
    pub fn holds(&self, count: usize) -> (same: bool)
        ensures
            same == (product(self@) == count),
    {
        product_is(&self.dims, count)
    }

    /// Whether the two shapes have the same dimensions.
    pub fn same_as(&self, other: &Shape) -> (same: bool)
        ensures
            same == (self@ == other@),
    {
        if self.dims.len() != other.dims.len() {
            return false;
        }
        let mut i: usize = 0;
        while i < self.dims.len()
            invariant
                i <= self.dims.len(),
                self.dims.len() == other.dims.len(),
                forall|j: int| 0 <= j < i ==> self.dims@[j] == other.dims@[j],
            decreases self.dims.len() - i,
        {
            if self.dims[i] != other.dims[i] {
                return false;
            }
            i = i + 1;
        }
        proof {
            assert(self@ =~= other@);
        }
        true
    }

    /// The shape with every dimension rounded up to a power of two.
    pub fn next_power_of_two(&self) -> (rounded: Shape)
        requires
            paddable(self@),
        ensures
            rounded@ == padded(self@),
    {
        let mut dims: Vec<usize> = Vec::new();
        let mut i: usize = 0;
        while i < self.dims.len()
            invariant
                i <= self.dims.len(),
                paddable(self@),
                dims@ == padded(self@).take(i as int),
            decreases self.dims.len() - i,
        {
            assert(power_of_two_above(self@[i as int] as nat) <= usize::MAX);
            dims.push(next_power_of_two(self.dims[i]));
            assert(dims@ =~= padded(self@).take(i + 1));
            i = i + 1;
        }
        assert(padded(self@).take(i as int) =~= padded(self@));
        Shape { dims }
    }

    /// The shape under the given padding mode.
    pub fn under(&self, mode: PaddingMode) -> (shape: Shape)
        requires
            shapeable(self@, mode),
        ensures
            shape@ == shaped(self@, mode),
    {
        match mode {
            PaddingMode::NoPadding => self.clone(),
            PaddingMode::Padding => self.next_power_of_two(),
        }
    }
}

} // verus!
