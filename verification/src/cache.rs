//! The concatenation cache: what a layer has produced so far, joined along its sequence
//! dimension.

use crate::shape::{shapeable, shaped, PaddingMode, Shape};
use crate::tensor::{cat, cat_error, Tensor, TensorError, TensorView};
use vstd::prelude::*;

verus! {

/// Why a cache could not answer.
#[derive(Debug, Clone, Copy, PartialEq, Eq, Structural)]
pub enum CacheError {
    /// The tensor's rank is too small for the dimension to concatenate along.
    RankTooSmall { rank: usize, concatenation_dim: isize },
    /// Nothing has been cached yet.
    NotInitialized,
    /// The new tensor cannot be joined to the cached one.
    Tensor(TensorError),
}

/// Along which dimension a cache concatenates.
#[derive(Debug, Clone, Copy, PartialEq, Eq, Structural)]
pub enum CachingInfo {
    /// The shape of what is cached is known beforehand.
    Static { rank: usize, concatenation_dim: usize },
    /// Only the dimension is known; a negative one counts from the last.
    Dynamic(isize),
}

/// The dimension to concatenate a tensor of rank `rank` along, where there is one.
pub open spec fn concatenation_dim(info: CachingInfo, rank: int) -> Option<int> {
    match info {
        CachingInfo::Static { rank: _, concatenation_dim } => Some(concatenation_dim as int),
        CachingInfo::Dynamic(dim) => if dim < 0 {
            if rank + dim >= 0 {
                Some(rank + dim)
            } else {
                None
            }
        } else if dim < rank {
            Some(dim as int)
        } else {
            None
        },
    }
}

/// The error for a tensor of rank `rank` that has no dimension to concatenate along.
pub open spec fn rank_error(info: CachingInfo, rank: int) -> CacheError {
    CacheError::RankTooSmall { rank: rank as usize, concatenation_dim: info->Dynamic_0 }
}

impl CachingInfo {
    /// Caching of tensors of a known rank.
    pub fn new_static(rank: usize, concatenation_dim: usize) -> (info: CachingInfo)
        ensures
            info == (CachingInfo::Static { rank, concatenation_dim }),
    {
        CachingInfo::Static { rank, concatenation_dim }
    }

    /// Caching of tensors of any rank.
    pub fn new_dynamic(concatenation_dim: isize) -> (info: CachingInfo)
        ensures
            info == CachingInfo::Dynamic(concatenation_dim),
    {
        CachingInfo::Dynamic(concatenation_dim)
    }

    /// The dimension to concatenate a tensor of the given rank along.
    pub fn get_concatenation_dim(&self, tensor_rank: usize) -> (result: Result<usize, CacheError>)
        ensures
            match (result, concatenation_dim(*self, tensor_rank as int)) {
                (Ok(dim), Some(expected)) => dim == expected,
                (Err(error), None) => error == rank_error(*self, tensor_rank as int),
                _ => false,
            },
            match *self {
                CachingInfo::Static { rank: _, concatenation_dim } => result == Ok::<usize, CacheError>(
                    concatenation_dim,
                ),
                CachingInfo::Dynamic(dim) => match result {
                    Ok(found) => found < tensor_rank && (found == dim || found == tensor_rank + dim),
                    Err(error) => {
                        &&& dim >= tensor_rank || tensor_rank + dim < 0
                        &&& error == (CacheError::RankTooSmall { rank: tensor_rank, concatenation_dim: dim })
                    },
                },
            },
    {
        match *self {
            CachingInfo::Static { rank: _, concatenation_dim } => Ok(concatenation_dim),
            CachingInfo::Dynamic(concatenation_dim) => {
                if concatenation_dim < 0 {
                    let before_last: isize = -(concatenation_dim + 1);
                    let from_end: usize = before_last as usize;
                    if from_end < tensor_rank {
                        Ok(tensor_rank - 1 - from_end)
                    } else {
                        Err(CacheError::RankTooSmall { rank: tensor_rank, concatenation_dim })
                    }
                } else {
                    let dim: usize = concatenation_dim as usize;
                    if dim < tensor_rank {
                        Ok(dim)
                    } else {
                        Err(CacheError::RankTooSmall { rank: tensor_rank, concatenation_dim })
                    }
                }
            },
        }
    }
}

/// What a cache holds and how it is set up.
#[verifier::ext_equal]
pub struct CacheView<N> {
    pub cached: Option<TensorView<N>>,
    pub info: CachingInfo,
    pub disabled: bool,
}

impl<N> CacheView<N> {
    /// A cached tensor is well formed and was found to have the dimension to join along.
    pub open spec fn wf(self) -> bool {
        self.cached matches Some(tensor) ==> tensor.wf() && concatenation_dim(
            self.info,
            tensor.rank() as int,
        ) is Some
    }

    /// The cache, in use and with nothing in it.
    pub open spec fn fresh(info: CachingInfo) -> CacheView<N> {
        CacheView { cached: None, info, disabled: false }
    }

    /// The cache with nothing in it.
    pub open spec fn emptied(self) -> CacheView<N> {
        CacheView { cached: None, ..self }
    }

    /// The cache bypassed, and emptied, or put in use.
    pub open spec fn switched(self, disabled: bool) -> CacheView<N> {
        CacheView {
            cached: if disabled {
                None
            } else {
                self.cached
            },
            info: self.info,
            disabled,
        }
    }

    /// What handing `new` to the cache gives back.
    pub open spec fn joined(self, new: TensorView<N>) -> Result<TensorView<N>, CacheError> {
        if self.disabled {
            Ok(new)
        } else {
            match concatenation_dim(self.info, new.rank() as int) {
                None => Err(rank_error(self.info, new.rank() as int)),
                Some(dim) => match self.cached {
                    None => Ok(new),
                    Some(cached) => match cat_error(cached.shape, new.shape, dim) {
                        None => Ok(cat(cached, new, dim)),
                        Some(error) => Err(CacheError::Tensor(error)),
                    },
                },
            }
        }
    }

    /// The cache after `new` was handed to it. A tensor that cannot be joined empties it.
    pub open spec fn after(self, new: TensorView<N>) -> CacheView<N> {
        if self.disabled || concatenation_dim(self.info, new.rank() as int) is None {
            self
        } else {
            CacheView {
                cached: match self.joined(new) {
                    Ok(tensor) => Some(tensor),
                    Err(_) => None,
                },
                ..self
            }
        }
    }

    /// The dimension that the cached tensor was joined along is one of its own.
    pub open spec fn measurable(self) -> bool {
        self.cached matches Some(tensor) ==> (concatenation_dim(self.info, tensor.rank() as int) matches Some(dim)
            && dim < tensor.rank())
    }

    /// How long the cached tensor is along the dimension it was joined along.
    pub open spec fn sequence_length(self) -> nat {
        match self.cached {
            None => 0,
            Some(tensor) => tensor.shape[concatenation_dim(self.info, tensor.rank() as int)->0] as nat,
        }
    }

    /// The shape that a tensor of shape `dims` takes behind what is cached, before padding.
    pub open spec fn grown(self, dims: Seq<usize>) -> Seq<usize> {
        if self.disabled {
            dims
        } else {
            let dim: int = concatenation_dim(self.info, dims.len() as int)->0;
            dims.update(dim, (dims[dim] + self.sequence_length()) as usize)
        }
    }

    /// The shape that a tensor of shape `dims` takes behind what is cached.
    pub open spec fn next_shape(self, dims: Seq<usize>, mode: PaddingMode) -> Result<Seq<usize>, CacheError> {
        if !self.disabled && concatenation_dim(self.info, dims.len() as int) is None {
            Err(rank_error(self.info, dims.len() as int))
        } else {
            Ok(shaped(self.grown(dims), mode))
        }
    }

    /// A shape that has the dimension to join along has, grown and padded, sizes that
    /// fit in machine words.
    pub open spec fn has_next_shape(self, dims: Seq<usize>, mode: PaddingMode) -> bool {
        if self.disabled {
            shapeable(dims, mode)
        } else {
            concatenation_dim(self.info, dims.len() as int) matches Some(dim) ==> {
                &&& dim < dims.len()
                &&& self.measurable()
                &&& dims[dim] + self.sequence_length() <= usize::MAX
                &&& shapeable(self.grown(dims), mode)
            }
        }
    }

    /// The cache with `f` applied to every cached element.
    pub open spec fn mapped<M>(self, f: spec_fn(N) -> M) -> CacheView<M> {
        CacheView {
            cached: match self.cached {
                None => None,
                Some(tensor) => Some(tensor.mapped(f)),
            },
            info: self.info,
            disabled: self.disabled,
        }
    }
}

/// A cache that joins the tensors handed to it. It can be bypassed for a while, which
/// keeps its rank and its dimension but not what it holds.
#[derive(Debug)]
pub struct ConcatenationCache<N> {
    cached_tensor: Option<Tensor<N>>,
    caching_info: CachingInfo,
    disabled: bool,
}

impl<N> View for ConcatenationCache<N> {
    type V = CacheView<N>;

    closed spec fn view(&self) -> CacheView<N> {
        CacheView {
            cached: match self.cached_tensor {
                None => None,
                Some(tensor) => Some(tensor@),
            },
            info: self.caching_info,
            disabled: self.disabled,
        }
    }
}

impl<N: Copy> Clone for ConcatenationCache<N> {
    fn clone(&self) -> (copy: Self)
        ensures
            copy@ == self@,
    {
        ConcatenationCache {
            cached_tensor: match &self.cached_tensor {
                None => None,
                Some(tensor) => Some(tensor.clone()),
            },
            caching_info: self.caching_info,
            disabled: self.disabled,
        }
    }
}

impl<N> ConcatenationCache<N> {
    /// The cache is well formed.
    pub open spec fn wf(&self) -> bool {
        self@.wf()
    }

    /// A cache for tensors of a known rank.
    pub fn new(rank: usize, concatenation_dim: usize) -> (cache: Self)
        ensures
            cache.wf(),
            cache@ == CacheView::<N>::fresh(CachingInfo::Static { rank, concatenation_dim }),
    {
        ConcatenationCache {
            cached_tensor: None,
            caching_info: CachingInfo::new_static(rank, concatenation_dim),
            disabled: false,
        }
    }

    /// A cache for tensors of any rank; a negative dimension counts from the last.
    pub fn new_dynamic(concatenation_dim: isize) -> (cache: Self)
        ensures
            cache.wf(),
            cache@ == CacheView::<N>::fresh(CachingInfo::Dynamic(concatenation_dim)),
    {
        ConcatenationCache {
            cached_tensor: None,
            caching_info: CachingInfo::new_dynamic(concatenation_dim),
            disabled: false,
        }
    }

    /// Forgets what is cached.
    pub fn reset(&mut self)
        ensures
            final(self).wf(),
            final(self)@ == old(self)@.emptied(),
    {
        self.cached_tensor = None;
    }

    /// Bypasses the cache, which also empties it, or puts it in use again.
    pub fn set_disabled(&mut self, disabled: bool)
        requires
            old(self).wf(),
        ensures
            final(self).wf(),
            final(self)@ == old(self)@.switched(disabled),
    {
        self.disabled = disabled;
        if disabled {
            self.reset();
        }
    }

    /// Whether anything is cached.
    pub fn is_initialized(&self) -> (initialized: bool)
        ensures
            initialized == (self@.cached is Some),
    {
        self.cached_tensor.is_some()
    }

    /// The dimension to concatenate a tensor of the given rank along.
    pub fn get_concatenation_dim(&self, tensor_rank: usize) -> (result: Result<usize, CacheError>)
        ensures
            match (result, concatenation_dim(self@.info, tensor_rank as int)) {
                (Ok(dim), Some(expected)) => dim == expected,
                (Err(error), None) => error == rank_error(self@.info, tensor_rank as int),
                _ => false,
            },
    {
        self.caching_info.get_concatenation_dim(tensor_rank)
    }

    /// How long the cached tensor is along the dimension it was joined along; zero when
    /// nothing is cached.
    pub fn current_sequence_length(&self) -> (length: usize)
        requires
            self.wf(),
            self@.measurable(),
        ensures
            length == self@.sequence_length(),
    {
        match &self.cached_tensor {
            Some(tensor) => match self.get_concatenation_dim(tensor.rank()) {
                Ok(dim) => tensor.shape().dim(dim),
                Err(_) => 0,
            },
            None => 0,
        }
    }

    /// The shape that a tensor of the given shape takes behind what is cached, padded to
    /// powers of two where `padding_mode` says so.
    pub fn next_shape(&self, shape: Shape, padding_mode: PaddingMode) -> (result: Result<Shape, CacheError>)
        requires
            self.wf(),
            self@.has_next_shape(shape@, padding_mode),
        ensures
            match (result, self@.next_shape(shape@, padding_mode)) {
                (Ok(next), Ok(expected)) => next@ == expected,
                (Err(error), Err(expected)) => error == expected,
                _ => false,
            },
    {
        if self.disabled {
            return Ok(shape.under(padding_mode));
        }
        let dim: usize = match self.get_concatenation_dim(shape.rank()) {
            Ok(dim) => dim,
            Err(error) => {
                return Err(error);
            },
        };
        let mut new_shape: Shape = shape;
        let length: usize = self.current_sequence_length();
        let size: usize = new_shape.dims[dim];
        new_shape.dims.set(dim, size + length);
        assert(new_shape@ == self@.grown(shape@));
        Ok(new_shape.under(padding_mode))
    }

    /// The dimensions a cache for tensors of a known rank was set up with: the rank and
    /// the dimension to concatenate along.
    pub fn cache_info(&self) -> (info: (usize, usize))
        requires
            self@.info is Static,
        ensures
            self@.info == (CachingInfo::Static { rank: info.0, concatenation_dim: info.1 }),
    {
        match self.caching_info {
            CachingInfo::Static { rank, concatenation_dim } => (rank, concatenation_dim),
            CachingInfo::Dynamic(_) => (0, 0),
        }
    }
}

impl<N: Copy> ConcatenationCache<N> {
    /// Joins `new_tensor` to what is cached, caches the result and returns it. A bypassed
    /// cache returns `new_tensor`. A tensor that cannot be joined empties the cache.
    pub fn concatenate(&mut self, new_tensor: Tensor<N>) -> (result: Result<Tensor<N>, CacheError>)
        requires
            old(self).wf(),
            new_tensor.wf(),
        ensures
            final(self).wf(),
            final(self)@ == old(self)@.after(new_tensor@),
            match (result, old(self)@.joined(new_tensor@)) {
                (Ok(tensor), Ok(expected)) => tensor.wf() && tensor@ == expected,
                (Err(error), Err(expected)) => error == expected,
                _ => false,
            },
    {
        if self.disabled {
            return Ok(new_tensor);
        }
        let dim: usize = match self.get_concatenation_dim(new_tensor.rank()) {
            Ok(dim) => dim,
            Err(error) => {
                return Err(error);
            },
        };
        match self.cached_tensor.take() {
            Some(cached) => {
                match Tensor::cat(&cached, &new_tensor, dim) {
                    Ok(joined) => {
                        self.cached_tensor = Some(joined.clone());
                        Ok(joined)
                    },
                    Err(error) => Err(CacheError::Tensor(error)),
                }
            },
            None => {
                self.cached_tensor = Some(new_tensor.clone());
                Ok(new_tensor)
            },
        }
    }

    /// A copy of what is cached.
    pub fn get_cached(&self) -> (result: Result<Tensor<N>, CacheError>)
        ensures
            match (result, self@.cached) {
                (Ok(tensor), Some(cached)) => tensor@ == cached,
                (Err(error), None) => error == CacheError::NotInitialized,
                _ => false,
            },
    {
        match &self.cached_tensor {
            Some(tensor) => Ok(tensor.clone()),
            None => Err(CacheError::NotInitialized),
        }
    }
}

} // verus!
