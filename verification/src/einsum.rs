//! The einsum layer.
//!
//! A layer is built from an equation such as
//!
//! > A(ijk)@B(ikl):C(himk):D(ik)->E(ijl)+BIAS(ij):F(hijm):G(ij)+BIAS(j)
//!
//! The arrow parts the tensors that go in from those that come out. Words in upper case
//! name tensors, and the letters in brackets behind a name are the tensor's axes. The
//! name `BIAS` is reserved for biases, whose axes must be among those of the output that
//! they are added to.
//!
//! The `@` sets the first input apart; it is never constant. The inputs behind it are
//! parted by `:`, and each of them is either constant or given when the layer runs.

use crate::axis::{equation_error, AxesMapping, EquationError, ShapeError};
use crate::axis_shapes::shape_views;
use crate::cache::{CacheView, CachingInfo, ConcatenationCache};
use crate::einsum_input_laws::lemma_taken_in_order;
use crate::equation::{read_equation, MappingView};
use crate::shape::{shapeable, shaped, PaddingMode, Shape};
use crate::tensor::{Tensor, TensorView};
use vstd::prelude::*;
use vstd::string::StringExecFns;

verus! {

/// The largest number of inputs of a layer.
pub const MAX_INPUTS: usize = 4;

/// Why a layer could not be built, configured or asked for its shapes.
#[derive(Debug, Clone, Copy, PartialEq, Eq, Structural)]
pub enum EinSumError {
    /// The text is no equation.
    Equation(EquationError),
    /// There must be one entry for every input but the first.
    ConstantCount { given: usize, expected: usize },
    /// There must be one entry for every output.
    BiasCount { given: usize, expected: usize },
    /// As many biases must be given as the equation names.
    MissingBiases { given: usize, expected: usize },
    /// There must be one output for every input but the first.
    OutputCount { inputs: usize, outputs: usize },
    /// There are more inputs than a layer may have.
    TooManyInputs { inputs: usize },
    /// Shapes do not fit the equation.
    Shape(ShapeError),
    /// There must be one cache entry for every output.
    CacheCount { given: usize, expected: usize },
    /// An output has no such dimension to concatenate along.
    CacheDimension { dim: usize, rank: usize },
    /// There must be one scaling factor for every output.
    ScalingCount { given: usize, expected: usize },
}

/// A tensor together with the key that it is stored and committed under.
#[derive(Debug)]
pub struct TensorHandle<T> {
    pub key: String,
    pub tensor: Tensor<T>,
}

/// What a handle holds.
#[verifier::ext_equal]
pub struct HandleView<T> {
    pub key: Seq<char>,
    pub tensor: TensorView<T>,
}

impl<T> View for TensorHandle<T> {
    type V = HandleView<T>;

    open spec fn view(&self) -> HandleView<T> {
        HandleView { key: self.key@, tensor: self.tensor@ }
    }
}

impl<T: Copy> Clone for TensorHandle<T> {
    fn clone(&self) -> (copy: Self)
        ensures
            copy@ == self@,
    {
        TensorHandle { key: self.key.clone(), tensor: self.tensor.clone() }
    }
}

impl<T> TensorHandle<T> {
    /// The handle of a tensor.
    pub fn from_tensor(key: String, tensor: Tensor<T>) -> (handle: Self)
        ensures
            handle@ == (HandleView { key: key@, tensor: tensor@ }),
    {
        TensorHandle { key, tensor }
    }

    /// The shape of the tensor.
    pub fn shape(&self) -> (shape: &Shape)
        ensures
            shape@ == self@.tensor.shape,
    {
        self.tensor.shape()
    }
}

/// What an optional handle holds.
pub open spec fn handle_view<T>(handle: Option<TensorHandle<T>>) -> Option<HandleView<T>> {
    match handle {
        None => None,
        Some(handle) => Some(handle@),
    }
}

/// What a list of optional handles holds.
pub open spec fn handle_views<T>(handles: Seq<Option<TensorHandle<T>>>) -> Seq<Option<HandleView<T>>> {
    handles.map_values(|handle: Option<TensorHandle<T>>| handle_view(handle))
}

/// Every tensor that is there is well formed.
pub open spec fn handles_wf<T>(handles: Seq<Option<HandleView<T>>>) -> bool {
    forall|i: int| 0 <= i < handles.len() && #[trigger] handles[i] is Some ==> handles[i]->0.tensor.wf()
}

/// The shapes of optional tensors.
pub open spec fn handle_shapes<T>(handles: Seq<Option<HandleView<T>>>) -> Seq<Option<Seq<usize>>> {
    handles.map_values(
        |handle: Option<HandleView<T>>|
            match handle {
                None => None::<Seq<usize>>,
                Some(handle) => Some(handle.tensor.shape),
            },
    )
}

/// The keys of optional tensors.
pub open spec fn handle_keys<T>(handles: Seq<Option<HandleView<T>>>) -> Seq<Option<Seq<char>>> {
    handles.map_values(
        |handle: Option<HandleView<T>>|
            match handle {
                None => None::<Seq<char>>,
                Some(handle) => Some(handle.key),
            },
    )
}

/// An optional shape.
pub open spec fn optional_shape(shape: Option<Shape>) -> Option<Seq<usize>> {
    match shape {
        None => None,
        Some(shape) => Some(shape@),
    }
}

/// Optional shapes.
pub open spec fn optional_shapes(shapes: Seq<Option<Shape>>) -> Seq<Option<Seq<usize>>> {
    shapes.map_values(|shape: Option<Shape>| optional_shape(shape))
}

/// An optional text.
pub open spec fn optional_text(text: Option<String>) -> Option<Seq<char>> {
    match text {
        None => None,
        Some(text) => Some(text@),
    }
}

/// Optional texts.
pub open spec fn optional_texts(texts: Seq<Option<String>>) -> Seq<Option<Seq<char>>> {
    texts.map_values(|text: Option<String>| optional_text(text))
}

/// How many of a list of optional values are there.
pub open spec fn present<T>(values: Seq<Option<T>>) -> nat
    decreases values.len(),
{
    if values.len() == 0 {
        0
    } else {
        present(values.drop_last()) + if values.last() is Some {
            1nat
        } else {
            0nat
        }
    }
}

/// The first misfit among the biases of the first `len` outputs.
pub open spec fn bias_misfit<T>(mapping: MappingView, biases: Seq<Option<HandleView<T>>>, len: int) -> Option<
    ShapeError,
>
    decreases len,
{
    if len <= 0 {
        None
    } else {
        match bias_misfit(mapping, biases, len - 1) {
            Some(error) => Some(error),
            None => match biases[len - 1] {
                None => None,
                Some(bias) => mapping.bias_error(
                    len - 1,
                    present(biases.take(len - 1)) as int,
                    bias.tensor.shape,
                ),
            },
        }
    }
}

/// Why a layer cannot be built, if it cannot.
pub open spec fn layer_error<T>(
    text: Seq<char>,
    constants: Seq<Option<HandleView<T>>>,
    biases: Seq<Option<HandleView<T>>>,
) -> Option<EinSumError> {
    match equation_error(text) {
        Some(error) => Some(EinSumError::Equation(error)),
        None => {
            let mapping: MappingView = read_equation(text)->0;
            let inputs: int = mapping.inputs.len() as int;
            let outputs: int = mapping.outputs.len() as int;
            if constants.len() != inputs - 1 {
                Some(EinSumError::ConstantCount { given: constants.len() as usize, expected: (inputs - 1) as usize })
            } else if biases.len() != outputs {
                Some(EinSumError::BiasCount { given: biases.len() as usize, expected: outputs as usize })
            } else if present(biases) != mapping.bias_count() {
                Some(
                    EinSumError::MissingBiases {
                        given: present(biases) as usize,
                        expected: mapping.bias_count() as usize,
                    },
                )
            } else if outputs != inputs - 1 {
                Some(EinSumError::OutputCount { inputs: inputs as usize, outputs: outputs as usize })
            } else if inputs > MAX_INPUTS {
                Some(EinSumError::TooManyInputs { inputs: inputs as usize })
            } else {
                match bias_misfit(mapping, biases, outputs) {
                    Some(error) => Some(EinSumError::Shape(error)),
                    None => None,
                }
            }
        },
    }
}

/// A bias spread over the axes of its output.
pub open spec fn spread_bias<T>(
    mapping: MappingView,
    biases: Seq<Option<HandleView<T>>>,
    output: int,
) -> Option<HandleView<T>> {
    match biases[output] {
        None => None,
        Some(bias) => Some(
            HandleView {
                key: bias.key,
                tensor: TensorView {
                    shape: mapping.bias_dims(output, present(biases.take(output)) as int, bias.tensor.shape),
                    data: bias.tensor.data,
                },
            },
        ),
    }
}

/// The biases spread over the axes of their outputs.
pub open spec fn spread_biases<T>(mapping: MappingView, biases: Seq<Option<HandleView<T>>>) -> Seq<
    Option<HandleView<T>>,
> {
    Seq::new(biases.len(), |k: int| spread_bias(mapping, biases, k))
}

/// The dimensions of all inputs: those of the constants, and between them those that are
/// given, in order.
pub open spec fn full_dims(constants: Seq<Option<Seq<usize>>>, given: Seq<Seq<usize>>, mode: PaddingMode) -> Seq<
    Seq<usize>,
> {
    Seq::new(constants.len() + 1, |i: int| shaped(input_dims(constants, given, i), mode))
}

/// The dimensions of one input.
pub open spec fn input_dims(constants: Seq<Option<Seq<usize>>>, given: Seq<Seq<usize>>, input: int) -> Seq<usize> {
    if input == 0 {
        given[0]
    } else {
        match constants[input - 1] {
            Some(dims) => dims,
            None => given[1 + absent(constants, input - 1)],
        }
    }
}

/// How many of the first `len` values are not there.
pub open spec fn absent<T>(values: Seq<Option<T>>, len: int) -> int {
    len - present(values.take(len))
}

/// Enough shapes are given, and they fit in machine words when padded.
pub open spec fn shapes_given(constants: Seq<Option<Seq<usize>>>, given: Seq<Seq<usize>>, mode: PaddingMode) -> bool {
    &&& given.len() >= 1 + absent(constants, constants.len() as int)
    &&& forall|i: int| 0 <= i <= constants.len() ==> shapeable(#[trigger] input_dims(constants, given, i), mode)
}

/// What an optional cache holds.
pub open spec fn cache_view<T>(cache: Option<ConcatenationCache<T>>) -> Option<CacheView<T>> {
    match cache {
        None => None,
        Some(cache) => Some(cache@),
    }
}

/// What a layer consists of.
#[verifier::ext_equal]
pub struct EinSumView<T> {
    pub equation: Seq<char>,
    pub name: Option<Seq<char>>,
    pub mapping: MappingView,
    pub constants: Seq<Option<HandleView<T>>>,
    pub constant_shapes: Seq<Option<Seq<usize>>>,
    pub biases: Seq<Option<HandleView<T>>>,
    pub bias_shapes: Seq<Option<Seq<usize>>>,
    pub caches: Seq<Option<CacheView<T>>>,
    pub requantise: bool,
}

/// The caches that join outputs along the given dimensions.
pub open spec fn fresh_caches<T>(mapping: MappingView, dims: Seq<Option<usize>>) -> Seq<Option<CacheView<T>>> {
    Seq::new(
        dims.len(),
        |k: int|
            match dims[k] {
                None => None,
                Some(dim) => Some(
                    CacheView::fresh(
                        CachingInfo::Static { rank: mapping.outputs[k].axes.len() as usize, concatenation_dim: dim },
                    ),
                ),
            },
    )
}

/// The first output of the first `len` that has no such dimension to concatenate along.
pub open spec fn cache_misfit(mapping: MappingView, dims: Seq<Option<usize>>, len: int) -> Option<int>
    decreases len,
{
    if len <= 0 {
        None
    } else {
        match cache_misfit(mapping, dims, len - 1) {
            Some(output) => Some(output),
            None => if dims[len - 1] is Some && dims[len - 1]->0 >= mapping.outputs[len - 1].axes.len() {
                Some(len - 1)
            } else {
                None
            },
        }
    }
}

/// Why caches cannot be set up, if they cannot.
pub open spec fn caches_error(mapping: MappingView, dims: Seq<Option<usize>>) -> Option<EinSumError> {
    if dims.len() != mapping.outputs.len() {
        Some(EinSumError::CacheCount { given: dims.len() as usize, expected: mapping.outputs.len() as usize })
    } else {
        match cache_misfit(mapping, dims, dims.len() as int) {
            None => None,
            Some(output) => Some(
                EinSumError::CacheDimension {
                    dim: dims[output]->0,
                    rank: mapping.outputs[output].axes.len() as usize,
                },
            ),
        }
    }
}

impl<T> EinSumView<T> {
    /// A cache joins its output along one of the output's own dimensions.
    pub open spec fn cache_wf(self, output: int) -> bool {
        self.caches[output] matches Some(cache) ==> {
            &&& cache.wf()
            &&& cache.info matches CachingInfo::Static { rank, concatenation_dim }
            &&& rank == self.mapping.outputs[output].axes.len()
            &&& concatenation_dim < rank
        }
    }

    /// The parts of the layer fit together.
    pub open spec fn wf(self) -> bool {
        &&& read_equation(self.equation) == Some(self.mapping)
        &&& self.mapping.valid()
        &&& 2 <= self.mapping.inputs.len() <= MAX_INPUTS
        &&& self.mapping.outputs.len() == self.mapping.inputs.len() - 1
        &&& self.constants.len() == self.mapping.outputs.len()
        &&& self.constant_shapes == handle_shapes(self.constants)
        &&& self.biases.len() == self.mapping.outputs.len()
        &&& self.bias_shapes == handle_shapes(self.biases)
        &&& self.caches.len() == self.mapping.outputs.len()
        &&& handles_wf(self.constants)
        &&& handles_wf(self.biases)
        &&& forall|k: int| 0 <= k < self.caches.len() ==> #[trigger] self.cache_wf(k)
    }

    /// The layer that an equation with its constants and biases describes.
    pub open spec fn built(
        text: Seq<char>,
        constants: Seq<Option<HandleView<T>>>,
        biases: Seq<Option<HandleView<T>>>,
    ) -> EinSumView<T> {
        let mapping: MappingView = read_equation(text)->0;
        EinSumView {
            equation: text,
            name: None,
            mapping,
            constants,
            constant_shapes: handle_shapes(constants),
            biases: spread_biases(mapping, biases),
            bias_shapes: handle_shapes(spread_biases(mapping, biases)),
            caches: Seq::new(mapping.outputs.len(), |k: int| None::<CacheView<T>>),
            requantise: true,
        }
    }

    /// The layer with `f` applied to every cache.
    pub open spec fn with_each_cache(self, f: spec_fn(CacheView<T>) -> CacheView<T>) -> EinSumView<T> {
        EinSumView {
            caches: self.caches.map_values(
                |cache: Option<CacheView<T>>|
                    match cache {
                        None => None::<CacheView<T>>,
                        Some(cache) => Some(f(cache)),
                    },
            ),
            ..self
        }
    }

    /// The dimensions of an output behind what its cache holds.
    pub open spec fn cached_dims(self, dims: Seq<usize>, output: int, mode: PaddingMode) -> Seq<usize> {
        match self.caches[output] {
            None => dims,
            Some(cache) => shaped(cache.grown(dims), mode),
        }
    }

    /// The dimensions of all outputs behind what their caches hold.
    pub open spec fn output_dims(self, given: Seq<Seq<usize>>, mode: PaddingMode) -> Seq<Seq<usize>> {
        let dims: Seq<Seq<usize>> = self.mapping.output_dims(full_dims(self.constant_shapes, given, mode));
        Seq::new(dims.len(), |k: int| self.cached_dims(dims[k], k, mode))
    }

    /// Where the inputs fit the equation, the outputs behind what is cached have sizes
    /// that fit in machine words.
    pub open spec fn outputs_fit(self, given: Seq<Seq<usize>>, mode: PaddingMode) -> bool {
        let full: Seq<Seq<usize>> = full_dims(self.constant_shapes, given, mode);
        self.mapping.shape_error(full) is None ==> forall|k: int|
            0 <= k < self.caches.len() && #[trigger] self.caches[k] is Some ==> self.caches[k]->0.has_next_shape(
                self.mapping.output_dims(full)[k],
                mode,
            )
    }
}

/// The einsum layer.
#[derive(Debug)]
pub struct EinSum<T> {
    /// The equation that describes the operation.
    pub equation: String,
    /// A name, to tell layers apart.
    pub name: Option<String>,
    /// The parsed equation.
    pub mapping: AxesMapping,
    /// One entry for every input but the first: the constant, or none where the tensor is
    /// given when the layer runs.
    pub constant_tensors: Vec<Option<TensorHandle<T>>>,
    /// The shapes of the constants, before any padding.
    pub constant_unpadded_shapes: Vec<Option<Shape>>,
    /// One entry for every output: the bias to add, if any.
    pub biases: Vec<Option<TensorHandle<T>>>,
    /// The shapes of the biases, before any padding.
    pub bias_unpadded_shapes: Vec<Option<Shape>>,
    /// One entry for every output: the cache that joins what it produces, if any.
    pub caches: Vec<Option<ConcatenationCache<T>>>,
    /// Whether a requantisation step follows the layer.
    pub requantise: bool,
}

impl<T> View for EinSum<T> {
    type V = EinSumView<T>;

    open spec fn view(&self) -> EinSumView<T> {
        EinSumView {
            equation: self.equation@,
            name: match self.name {
                None => None,
                Some(name) => Some(name@),
            },
            mapping: self.mapping@,
            constants: handle_views(self.constant_tensors@),
            constant_shapes: optional_shapes(self.constant_unpadded_shapes@),
            biases: handle_views(self.biases@),
            bias_shapes: optional_shapes(self.bias_unpadded_shapes@),
            caches: self.caches@.map_values(|cache: Option<ConcatenationCache<T>>| cache_view(cache)),
            requantise: self.requantise,
        }
    }
}

/// The copy has caches of its own: what one layer caches from then on, the other does not
/// see.
impl<T: Copy> Clone for EinSum<T> {
    fn clone(&self) -> (copy: Self)
        ensures
            copy@ == self@,
    {
        let copy: EinSum<T> = EinSum {
            equation: self.equation.clone(),
            name: match &self.name {
                None => None,
                Some(name) => Some(name.clone()),
            },
            mapping: self.mapping.clone(),
            constant_tensors: copied_handles(&self.constant_tensors),
            constant_unpadded_shapes: copied_shapes(&self.constant_unpadded_shapes),
            biases: copied_handles(&self.biases),
            bias_unpadded_shapes: copied_shapes(&self.bias_unpadded_shapes),
            caches: copied_caches(&self.caches),
            requantise: self.requantise,
        };
        assert(copy@.caches =~= self@.caches);
        copy
    }
}

fn copied_handles<T: Copy>(handles: &Vec<Option<TensorHandle<T>>>) -> (copy: Vec<Option<TensorHandle<T>>>)
    ensures
        handle_views(copy@) == handle_views(handles@),
{
    let mut copy: Vec<Option<TensorHandle<T>>> = Vec::new();
    let mut i: usize = 0;
    while i < handles.len()
        invariant
            i <= handles.len(),
            copy.len() == i,
            forall|j: int| 0 <= j < i ==> handle_view(#[trigger] copy@[j]) == handle_view(handles@[j]),
        decreases handles.len() - i,
    {
        copy.push(
            match &handles[i] {
                None => None,
                Some(handle) => Some(handle.clone()),
            },
        );
        i = i + 1;
    }
    assert(handle_views(copy@) =~= handle_views(handles@));
    copy
}

pub(crate) fn copied_shapes(shapes: &Vec<Option<Shape>>) -> (copy: Vec<Option<Shape>>)
    ensures
        optional_shapes(copy@) == optional_shapes(shapes@),
{
    let mut copy: Vec<Option<Shape>> = Vec::new();
    let mut i: usize = 0;
    while i < shapes.len()
        invariant
            i <= shapes.len(),
            copy.len() == i,
            forall|j: int| 0 <= j < i ==> optional_shape(#[trigger] copy@[j]) == optional_shape(shapes@[j]),
        decreases shapes.len() - i,
    {
        copy.push(
            match &shapes[i] {
                None => None,
                Some(shape) => Some(shape.clone()),
            },
        );
        i = i + 1;
    }
    assert(optional_shapes(copy@) =~= optional_shapes(shapes@));
    copy
}

fn copied_caches<T: Copy>(caches: &Vec<Option<ConcatenationCache<T>>>) -> (copy: Vec<Option<ConcatenationCache<T>>>)
    ensures
        copy@.len() == caches@.len(),
        forall|k: int| 0 <= k < copy@.len() ==> cache_view(#[trigger] copy@[k]) == cache_view(caches@[k]),
{
    let mut copy: Vec<Option<ConcatenationCache<T>>> = Vec::new();
    let mut i: usize = 0;
    while i < caches.len()
        invariant
            i <= caches.len(),
            copy.len() == i,
            forall|j: int| 0 <= j < i ==> cache_view(#[trigger] copy@[j]) == cache_view(caches@[j]),
        decreases caches.len() - i,
    {
        copy.push(
            match &caches[i] {
                None => None,
                Some(cache) => Some(cache.clone()),
            },
        );
        i = i + 1;
    }
    copy
}

proof fn lemma_present_step<T>(values: Seq<Option<T>>, len: int)
    requires
        0 <= len < values.len(),
    ensures
        present(values.take(len + 1)) == present(values.take(len)) + if values[len] is Some {
            1nat
        } else {
            0nat
        },
{
    assert(values.take(len + 1).drop_last() =~= values.take(len));
}

proof fn lemma_present_bound<T>(values: Seq<Option<T>>, len: int)
    requires
        0 <= len <= values.len(),
    ensures
        present(values.take(len)) <= len,
        present(values.take(len)) <= present(values),
        present(values) - present(values.take(len)) <= values.len() - len,
    decreases values.len() - len,
{
    if len < values.len() {
        lemma_present_bound(values, len + 1);
        lemma_present_step(values, len);
        lemma_present_most(values.take(len));
    } else {
        assert(values.take(len) =~= values);
        lemma_present_most(values);
    }
}

proof fn lemma_present_most<T>(values: Seq<Option<T>>)
    ensures
        present(values) <= values.len(),
    decreases values.len(),
{
    if values.len() > 0 {
        lemma_present_most(values.drop_last());
    }
}

/// As many shapes are there as tensors.
pub proof fn lemma_shapes_present<T>(handles: Seq<Option<HandleView<T>>>)
    ensures
        present(handle_shapes(handles)) == present(handles),
    decreases handles.len(),
{
    if handles.len() > 0 {
        lemma_shapes_present(handles.drop_last());
        assert(handle_shapes(handles).drop_last() =~= handle_shapes(handles.drop_last()));
    }
}

fn count_present<T>(handles: &Vec<Option<TensorHandle<T>>>) -> (count: usize)
    ensures
        count == present(handle_views(handles@)),
{
    let ghost views: Seq<Option<HandleView<T>>> = handle_views(handles@);
    let mut count: usize = 0;
    let mut i: usize = 0;
    assert(views.take(0) =~= Seq::<Option<HandleView<T>>>::empty());
    while i < handles.len()
        invariant
            i <= handles.len(),
            count <= i,
            views == handle_views(handles@),
            count == present(views.take(i as int)),
        decreases handles.len() - i,
    {
        proof {
            lemma_present_step(views, i as int);
        }
        if handles[i].is_some() {
            count = count + 1;
        }
        i = i + 1;
    }
    assert(views.take(i as int) =~= views);
    count
}

pub(crate) fn shapes_of<T>(handles: &Vec<Option<TensorHandle<T>>>) -> (shapes: Vec<Option<Shape>>)
    ensures
        optional_shapes(shapes@) == handle_shapes(handle_views(handles@)),
{
    let ghost expected: Seq<Option<Seq<usize>>> = handle_shapes(handle_views(handles@));
    let mut shapes: Vec<Option<Shape>> = Vec::new();
    let mut i: usize = 0;
    while i < handles.len()
        invariant
            i <= handles.len(),
            shapes.len() == i,
            expected == handle_shapes(handle_views(handles@)),
            forall|j: int| 0 <= j < i ==> optional_shape(#[trigger] shapes@[j]) == expected[j],
        decreases handles.len() - i,
    {
        match &handles[i] {
            None => {
                shapes.push(None);
            },
            Some(handle) => {
                shapes.push(Some(handle.shape().clone()));
            },
        }
        i = i + 1;
    }
    assert(optional_shapes(shapes@) =~= expected);
    shapes
}

pub(crate) fn keys_of<T>(handles: &Vec<Option<TensorHandle<T>>>) -> (keys: Vec<Option<String>>)
    ensures
        optional_texts(keys@) == handle_keys(handle_views(handles@)),
{
    let ghost expected: Seq<Option<Seq<char>>> = handle_keys(handle_views(handles@));
    let mut keys: Vec<Option<String>> = Vec::new();
    let mut i: usize = 0;
    while i < handles.len()
        invariant
            i <= handles.len(),
            keys.len() == i,
            expected == handle_keys(handle_views(handles@)),
            forall|j: int| 0 <= j < i ==> optional_text(#[trigger] keys@[j]) == expected[j],
        decreases handles.len() - i,
    {
        match &handles[i] {
            None => {
                keys.push(None);
            },
            Some(handle) => {
                keys.push(Some(handle.key.clone()));
            },
        }
        i = i + 1;
    }
    assert(optional_texts(keys@) =~= expected);
    keys
}

proof fn lemma_misfit_is_first<T>(mapping: MappingView, biases: Seq<Option<HandleView<T>>>, early: int, len: int)
    requires
        0 <= early <= len,
        bias_misfit(mapping, biases, early) is Some,
    ensures
        bias_misfit(mapping, biases, len) == bias_misfit(mapping, biases, early),
    decreases len - early,
{
    if early < len {
        lemma_misfit_is_first(mapping, biases, early, len - 1);
    }
}

/// Spreads every bias over the axes of its output.
fn fit_biases<T>(mapping: &AxesMapping, biases: Vec<Option<TensorHandle<T>>>) -> (result: Result<
    Vec<Option<TensorHandle<T>>>,
    EinSumError,
>)
    requires
        mapping@.valid(),
        biases.len() == mapping@.outputs.len(),
        present(handle_views(biases@)) == mapping@.bias_count(),
        handles_wf(handle_views(biases@)),
    ensures
        match (result, bias_misfit(mapping@, handle_views(biases@), biases.len() as int)) {
            (Ok(fitted), None) => {
                &&& handle_views(fitted@) == spread_biases(mapping@, handle_views(biases@))
                &&& handles_wf(handle_views(fitted@))
            },
            (Err(error), Some(reason)) => error == EinSumError::Shape(reason),
            _ => false,
        },
{
    let count: usize = biases.len();
    let ghost views: Seq<Option<HandleView<T>>> = handle_views(biases@);
    let ghost expected: Seq<Option<HandleView<T>>> = spread_biases(mapping@, views);
    let ghost given: Seq<Option<TensorHandle<T>>> = biases@;
    let mut rest: Vec<Option<TensorHandle<T>>> = biases;
    let mut fitted: Vec<Option<TensorHandle<T>>> = Vec::new();
    let mut bias_id: usize = 0;
    let mut output_id: usize = 0;
    assert(rest@ =~= given.skip(0));
    assert(views.take(0) =~= Seq::<Option<HandleView<T>>>::empty());
    while output_id < count
        invariant
            mapping@.valid(),
            output_id <= count,
            count == given.len(),
            given == biases@,
            count == mapping@.outputs.len(),
            views == handle_views(given),
            present(views) == mapping@.bias_count(),
            handles_wf(views),
            expected == spread_biases(mapping@, views),
            rest@ == given.skip(output_id as int),
            bias_id <= output_id,
            bias_id == present(views.take(output_id as int)),
            bias_misfit(mapping@, views, output_id as int) is None,
            fitted.len() == output_id,
            forall|j: int| 0 <= j < output_id ==> handle_view(#[trigger] fitted@[j]) == expected[j],
            handles_wf(handle_views(fitted@)),
        decreases count - output_id,
    {
        let ghost before: Seq<Option<TensorHandle<T>>> = fitted@;
        let bias: Option<TensorHandle<T>> = rest.remove(0);
        assert(rest@ =~= given.skip(output_id + 1));
        assert(bias == given[output_id as int]);
        assert(views[output_id as int] == handle_view(bias));
        proof {
            lemma_present_step(views, output_id as int);
            lemma_present_bound(views, output_id + 1);
        }
        match bias {
            None => {
                fitted.push(None);
            },
            Some(handle) => {
                let new_shape: Shape = match mapping.compute_new_bias_shape(output_id, bias_id, handle.tensor.shape()) {
                    Ok(shape) => shape,
                    Err(error) => {
                        proof {
                            lemma_misfit_is_first(mapping@, views, output_id + 1, count as int);
                        }
                        return Err(EinSumError::Shape(error));
                    },
                };
                bias_id = bias_id + 1;
                let reshaped: Tensor<T> = match handle.tensor.reshape(new_shape) {
                    Ok(tensor) => tensor,
                    Err(_) => vstd::pervasive::unreached(),
                };
                fitted.push(Some(TensorHandle { key: handle.key, tensor: reshaped }));
            },
        }
        assert forall|j: int|
            0 <= j < fitted@.len() && #[trigger] handle_views(fitted@)[j] is Some implies handle_views(
            fitted@,
        )[j]->0.tensor.wf() by {
            if j < output_id {
                assert(fitted@[j] == before[j]);
                assert(handle_views(before)[j] == handle_views(fitted@)[j]);
            }
        }
        assert(handle_view(fitted@[output_id as int]) =~= expected[output_id as int]);
        output_id = output_id + 1;
    }
    assert(handle_views(fitted@) =~= expected);
    Ok(fitted)
}

impl<T> EinSum<T> {
    /// The layer is well formed.
    pub open spec fn wf(&self) -> bool {
        self@.wf()
    }

    /// The layer that an equation describes.
    ///
    /// `constant_tensors` has an entry for every input but the first, `biases` one for
    /// every output. Each bias is reshaped to spread over the axes of its output.
    pub fn new(
        equation: String,
        constant_tensors: Vec<Option<TensorHandle<T>>>,
        biases: Vec<Option<TensorHandle<T>>>,
    ) -> (result: Result<Self, EinSumError>)
        requires
            handles_wf(handle_views(constant_tensors@)),
            handles_wf(handle_views(biases@)),
        ensures
            match (result, layer_error(equation@, handle_views(constant_tensors@), handle_views(biases@))) {
                (Ok(layer), None) => {
                    &&& layer.wf()
                    &&& layer@ == EinSumView::built(
                        equation@,
                        handle_views(constant_tensors@),
                        handle_views(biases@),
                    )
                },
                (Err(error), Some(reason)) => error == reason,
                _ => false,
            },
    {
        let mapping: AxesMapping = match AxesMapping::from_string(equation.as_str()) {
            Ok(mapping) => mapping,
            Err(error) => {
                return Err(EinSumError::Equation(error));
            },
        };
        let input_count: usize = mapping.input_count();
        let output_count: usize = mapping.output_count();
        if constant_tensors.len() != input_count - 1 {
            return Err(EinSumError::ConstantCount { given: constant_tensors.len(), expected: input_count - 1 });
        }
        if biases.len() != output_count {
            return Err(EinSumError::BiasCount { given: biases.len(), expected: output_count });
        }
        let given: usize = count_present(&biases);
        let expected: usize = mapping.bias_count();
        if given != expected {
            return Err(EinSumError::MissingBiases { given, expected });
        }
        if output_count != input_count - 1 {
            return Err(EinSumError::OutputCount { inputs: input_count, outputs: output_count });
        }
        if input_count > MAX_INPUTS {
            return Err(EinSumError::TooManyInputs { inputs: input_count });
        }
        let constant_unpadded_shapes: Vec<Option<Shape>> = shapes_of(&constant_tensors);
        let biases: Vec<Option<TensorHandle<T>>> = match fit_biases(&mapping, biases) {
            Ok(biases) => biases,
            Err(error) => {
                return Err(error);
            },
        };
        let bias_unpadded_shapes: Vec<Option<Shape>> = shapes_of(&biases);
        let mut caches: Vec<Option<ConcatenationCache<T>>> = Vec::new();
        while caches.len() < output_count
            invariant
                caches.len() <= output_count,
                forall|k: int| 0 <= k < caches.len() ==> #[trigger] caches@[k] is None,
            decreases output_count - caches.len(),
        {
            caches.push(None);
        }
        Ok(
            EinSum {
                equation,
                name: None,
                mapping,
                constant_tensors,
                constant_unpadded_shapes,
                biases,
                bias_unpadded_shapes,
                caches,
                requantise: true,
            },
        )
    }

    /// The layer under a name.
    pub fn with_name(self, name: String) -> (named: Self)
        ensures
            named@ == (EinSumView { name: Some(name@), ..self@ }),
    {
        EinSum { name: Some(name), ..self }
    }

    /// Whether the layer has the given name.
    pub fn check_name(&self, name: &str) -> (same: bool)
        ensures
            same == (self@.name == Some(name@)),
    {
        match &self.name {
            Some(layer_name) => *layer_name == name.to_owned(),
            None => false,
        }
    }

    /// Gives every output with a dimension a fresh cache that joins along it, and every
    /// other output none.
    pub fn with_caches(&mut self, concatenation_dims: Vec<Option<usize>>) -> (result: Result<(), EinSumError>)
        requires
            old(self).wf(),
        ensures
            final(self).wf(),
            match (result, caches_error(old(self)@.mapping, concatenation_dims@)) {
                (Ok(_), None) => final(self)@ == (EinSumView {
                    caches: fresh_caches(old(self)@.mapping, concatenation_dims@),
                    ..old(self)@
                }),
                (Err(error), Some(reason)) => error == reason && final(self)@ == old(self)@,
                _ => false,
            },
    {
        let expected: usize = self.mapping.output_count();
        if concatenation_dims.len() != expected {
            return Err(EinSumError::CacheCount { given: concatenation_dims.len(), expected });
        }
        let output_ranks: Vec<usize> = self.mapping.output_ranks();
        let caches: Vec<Option<ConcatenationCache<T>>> = match caches_along(
            &self.mapping,
            &output_ranks,
            &concatenation_dims,
        ) {
            Ok(caches) => caches,
            Err(error) => {
                return Err(error);
            },
        };
        self.caches = caches;
        proof {
            assert(self@.caches =~= fresh_caches(old(self)@.mapping, concatenation_dims@));
            assert forall|k: int| 0 <= k < self@.caches.len() implies #[trigger] self@.cache_wf(k) by {
                assert(output_ranks@[k] == self@.mapping.outputs[k].axes.len());
                assert(self@.caches[k] == fresh_caches::<T>(self@.mapping, concatenation_dims@)[k]);
                if concatenation_dims@[k] is Some {
                    lemma_cache_fits(self@.mapping, concatenation_dims@, concatenation_dims.len() as int, k);
                }
            }
        }
        Ok(())
    }

    /// Empties the caches.
    pub fn reset_caches(&mut self)
        requires
            old(self).wf(),
        ensures
            final(self).wf(),
            final(self)@ == old(self)@.with_each_cache(|cache: CacheView<T>| cache.emptied()),
    {
        reset_all(&mut self.caches);
        proof {
            lemma_caches_stay_wf(old(self)@, |cache: CacheView<T>| cache.emptied());
            assert(self@ =~= old(self)@.with_each_cache(|cache: CacheView<T>| cache.emptied()));
        }
    }

    /// Bypasses the caches, which also empties them, or puts them in use again. Their
    /// ranks and dimensions stay.
    pub fn set_caches_disabled(&mut self, disabled: bool)
        requires
            old(self).wf(),
        ensures
            final(self).wf(),
            final(self)@ == old(self)@.with_each_cache(|cache: CacheView<T>| cache.switched(disabled)),
    {
        assert forall|k: int| 0 <= k < self.caches@.len() && self.caches@[k] is Some implies (
        #[trigger] self.caches@[k])->0.wf() by {
            assert(self@.cache_wf(k));
            assert(self@.caches[k] == cache_view(self.caches@[k]));
        }
        switch_all(&mut self.caches, disabled);
        proof {
            lemma_caches_stay_wf(old(self)@, |cache: CacheView<T>| cache.switched(disabled));
            assert(self@ =~= old(self)@.with_each_cache(|cache: CacheView<T>| cache.switched(disabled)));
        }
    }

    /// Whether a requantisation step follows the layer.
    pub fn requantise(&self) -> (requantise: bool)
        ensures
            requantise == self@.requantise,
    {
        self.requantise
    }

    /// The layer without a requantisation step behind it.
    pub fn disable_requantisation(self) -> (layer: Self)
        ensures
            layer@ == (EinSumView { requantise: false, ..self@ }),
    {
        EinSum { requantise: false, ..self }
    }

    /// The layer without a requantisation step behind it.
    pub fn no_requant(self) -> (layer: Self)
        ensures
            layer@ == (EinSumView { requantise: false, ..self@ }),
    {
        EinSum { requantise: false, ..self }
    }

    /// The shapes of the outputs for the shapes of the inputs that are not constant, the
    /// first input's among them, behind what the caches hold.
    pub fn output_shapes(&self, input_shapes: &[Shape], padding_mode: PaddingMode) -> (result: Result<
        Vec<Shape>,
        EinSumError,
    >)
        requires
            self.wf(),
            shapes_given(self@.constant_shapes, shape_views(input_shapes@), padding_mode),
            self@.outputs_fit(shape_views(input_shapes@), padding_mode),
        ensures
            match (
                result,
                self@.mapping.shape_error(
                    full_dims(self@.constant_shapes, shape_views(input_shapes@), padding_mode),
                ),
            ) {
                (Ok(outputs), None) => shape_views(outputs@) == self@.output_dims(
                    shape_views(input_shapes@),
                    padding_mode,
                ),
                (Err(error), Some(reason)) => error == EinSumError::Shape(reason),
                _ => false,
            },
    {
        let full: Vec<Shape> = full_input_shapes(&self.constant_unpadded_shapes, input_shapes, padding_mode);
        let outputs: Vec<Shape> = match self.mapping.output_shapes(&full) {
            Ok(outputs) => outputs,
            Err(error) => {
                return Err(EinSumError::Shape(error));
            },
        };
        let ghost dims: Seq<Seq<usize>> = self@.mapping.output_dims(shape_views(full@));
        let ghost expected: Seq<Seq<usize>> = self@.output_dims(shape_views(input_shapes@), padding_mode);
        assert(shape_views(outputs@) == dims);
        let mut behind: Vec<Shape> = Vec::new();
        let mut k: usize = 0;
        while k < outputs.len()
            invariant
                k <= outputs.len(),
                self.wf(),
                shape_views(outputs@) == dims,
                shape_views(full@) == full_dims(self@.constant_shapes, shape_views(input_shapes@), padding_mode),
                dims == self@.mapping.output_dims(shape_views(full@)),
                outputs.len() == self.caches.len(),
                expected == self@.output_dims(shape_views(input_shapes@), padding_mode),
                self@.mapping.shape_error(shape_views(full@)) is None,
                self@.outputs_fit(shape_views(input_shapes@), padding_mode),
                behind.len() == k,
                forall|j: int| 0 <= j < k ==> (#[trigger] behind@[j])@ == expected[j],
            decreases outputs.len() - k,
        {
            let shape: Shape = outputs[k].clone();
            assert(shape@ == dims[k as int]);
            assert(self@.caches[k as int] == cache_view(self.caches@[k as int]));
            assert(self@.cache_wf(k as int));
            match &self.caches[k] {
                Some(cache) => match cache.next_shape(shape, padding_mode) {
                    Ok(shape) => {
                        behind.push(shape);
                    },
                    Err(_) => vstd::pervasive::unreached(),
                },
                None => {
                    behind.push(shape);
                },
            }
            assert(behind@[k as int]@ == expected[k as int]);
            k = k + 1;
        }
        assert(shape_views(behind@) =~= expected);
        Ok(behind)
    }

    /// The number of outputs, however many inputs are given.
    pub fn num_outputs(&self, _num_inputs: usize) -> (result: Result<usize, EinSumError>)
        ensures
            result matches Ok(count) && count == self@.mapping.outputs.len(),
    {
        Ok(self.mapping.output_count())
    }

    /// A short text that tells what the layer does.
    pub fn describe(&self) -> (text: String)
        ensures
            text@ == "EinSum("@ + self@.equation + ")"@,
    {
        describe_equation(&self.equation)
    }

    /// Whether the layer can be proven.
    pub fn is_provable(&self) -> (provable: bool)
        ensures
            provable,
    {
        true
    }

    /// Has the layer quantised with the scaling factors of its inputs and outputs and the
    /// shapes of its inputs, provided that there is a scaling factor for every output.
    pub fn quantize_op<S, Q, F: FnOnce(Self, &[S], &[S], &[Shape]) -> Result<Q, EinSumError>>(
        self,
        input_scaling: &[S],
        unpadded_input_shapes: &[Shape],
        output_scalings: &[S],
        quantise: F,
    ) -> (result: Result<Q, EinSumError>)
        requires
            output_scalings@.len() == self@.mapping.outputs.len() ==> quantise.requires(
                (self, input_scaling, output_scalings, unpadded_input_shapes),
            ),
        ensures
            if output_scalings@.len() == self@.mapping.outputs.len() {
                quantise.ensures((self, input_scaling, output_scalings, unpadded_input_shapes), result)
            } else {
                result == Err::<Q, EinSumError>(
                    EinSumError::ScalingCount {
                        given: output_scalings@.len() as usize,
                        expected: self@.mapping.outputs.len() as usize,
                    },
                )
            },
    {
        let expected: usize = self.mapping.output_count();
        if output_scalings.len() != expected {
            return Err(EinSumError::ScalingCount { given: output_scalings.len(), expected });
        }
        quantise(self, input_scaling, output_scalings, unpadded_input_shapes)
    }
}

pub(crate) fn describe_equation(equation: &String) -> (text: String)
    ensures
        text@ == "EinSum("@ + equation@ + ")"@,
{
    let mut text: String = "EinSum(".to_owned();
    text.append(equation.as_str());
    text.append(")");
    text
}

proof fn lemma_cache_fits(mapping: MappingView, dims: Seq<Option<usize>>, len: int, output: int)
    requires
        0 <= output < len <= dims.len(),
        cache_misfit(mapping, dims, len) is None,
        dims[output] is Some,
    ensures
        dims[output]->0 < mapping.outputs[output].axes.len(),
    decreases len,
{
    if output < len - 1 {
        lemma_cache_fits(mapping, dims, len - 1, output);
    }
}

proof fn lemma_cache_misfit_is_first(mapping: MappingView, dims: Seq<Option<usize>>, early: int, len: int)
    requires
        0 <= early <= len,
        cache_misfit(mapping, dims, early) is Some,
    ensures
        cache_misfit(mapping, dims, len) == cache_misfit(mapping, dims, early),
    decreases len - early,
{
    if early < len {
        lemma_cache_misfit_is_first(mapping, dims, early, len - 1);
    }
}

proof fn lemma_caches_stay_wf<T>(layer: EinSumView<T>, f: spec_fn(CacheView<T>) -> CacheView<T>)
    requires
        layer.wf(),
        forall|cache: CacheView<T>| cache.wf() ==> (#[trigger] f(cache)).wf() && f(cache).info == cache.info,
    ensures
        layer.with_each_cache(f).wf(),
{
    let changed: EinSumView<T> = layer.with_each_cache(f);
    assert forall|k: int| 0 <= k < changed.caches.len() implies #[trigger] changed.cache_wf(k) by {
        assert(layer.cache_wf(k));
    }
}

fn caches_along<T>(mapping: &AxesMapping, ranks: &Vec<usize>, dims: &Vec<Option<usize>>) -> (result: Result<
    Vec<Option<ConcatenationCache<T>>>,
    EinSumError,
>)
    requires
        dims.len() == mapping@.outputs.len(),
        ranks.len() == dims.len(),
        forall|k: int| 0 <= k < dims.len() ==> #[trigger] ranks@[k] == mapping@.outputs[k].axes.len(),
    ensures
        match (result, cache_misfit(mapping@, dims@, dims.len() as int)) {
            (Ok(caches), None) => {
                &&& caches.len() == dims.len()
                &&& forall|k: int|
                    0 <= k < dims.len() ==> cache_view(#[trigger] caches@[k]) == fresh_caches::<T>(mapping@, dims@)[k]
            },
            (Err(error), Some(output)) => error == (EinSumError::CacheDimension {
                dim: dims@[output]->0,
                rank: mapping@.outputs[output].axes.len() as usize,
            }),
            _ => false,
        },
{
    let mut caches: Vec<Option<ConcatenationCache<T>>> = Vec::new();
    let mut k: usize = 0;
    while k < dims.len()
        invariant
            k <= dims.len(),
            dims.len() == mapping@.outputs.len(),
            ranks.len() == dims.len(),
            forall|k: int| 0 <= k < dims.len() ==> #[trigger] ranks@[k] == mapping@.outputs[k].axes.len(),
            cache_misfit(mapping@, dims@, k as int) is None,
            caches.len() == k,
            forall|j: int| 0 <= j < k ==> cache_view(#[trigger] caches@[j]) == fresh_caches::<T>(mapping@, dims@)[j],
        decreases dims.len() - k,
    {
        match dims[k] {
            Some(dim) => {
                if dim >= ranks[k] {
                    proof {
                        lemma_cache_misfit_is_first(mapping@, dims@, k + 1, dims.len() as int);
                    }
                    return Err(EinSumError::CacheDimension { dim, rank: ranks[k] });
                }
                caches.push(Some(ConcatenationCache::new(ranks[k], dim)));
            },
            None => {
                caches.push(None);
            },
        }
        assert(cache_view(caches@[k as int]) == fresh_caches::<T>(mapping@, dims@)[k as int]);
        k = k + 1;
    }
    Ok(caches)
}

fn reset_all<T>(caches: &mut Vec<Option<ConcatenationCache<T>>>)
    ensures
        final(caches)@.len() == old(caches)@.len(),
        forall|k: int|
            0 <= k < old(caches)@.len() ==> cache_view(#[trigger] final(caches)@[k]) == match cache_view(
                old(caches)@[k],
            ) {
                None => None,
                Some(cache) => Some(cache.emptied()),
            },
{
    let mut k: usize = 0;
    while k < caches.len()
        invariant
            k <= caches@.len(),
            caches@.len() == old(caches)@.len(),
            forall|j: int| k <= j < caches@.len() ==> #[trigger] caches@[j] == old(caches)@[j],
            forall|j: int|
                0 <= j < k ==> cache_view(#[trigger] caches@[j]) == match cache_view(old(caches)@[j]) {
                    None => None,
                    Some(cache) => Some(cache.emptied()),
                },
        decreases caches@.len() - k,
    {
        if let Some(cache) = &mut caches[k] {
            cache.reset();
        }
        k = k + 1;
    }
}

fn switch_all<T>(caches: &mut Vec<Option<ConcatenationCache<T>>>, disabled: bool)
    requires
        forall|k: int| 0 <= k < old(caches)@.len() && old(caches)@[k] is Some ==> (#[trigger] old(caches)@[k])->0.wf(),
    ensures
        final(caches)@.len() == old(caches)@.len(),
        forall|k: int|
            0 <= k < old(caches)@.len() ==> cache_view(#[trigger] final(caches)@[k]) == match cache_view(
                old(caches)@[k],
            ) {
                None => None,
                Some(cache) => Some(cache.switched(disabled)),
            },
{
    let mut k: usize = 0;
    while k < caches.len()
        invariant
            k <= caches@.len(),
            caches@.len() == old(caches)@.len(),
            forall|k: int|
                0 <= k < old(caches)@.len() && old(caches)@[k] is Some ==> (#[trigger] old(caches)@[k])->0.wf(),
            forall|j: int| k <= j < caches@.len() ==> #[trigger] caches@[j] == old(caches)@[j],
            forall|j: int|
                0 <= j < k ==> cache_view(#[trigger] caches@[j]) == match cache_view(old(caches)@[j]) {
                    None => None,
                    Some(cache) => Some(cache.switched(disabled)),
                },
        decreases caches@.len() - k,
    {
        assert(caches@[k as int] == old(caches)@[k as int]);
        if let Some(cache) = &mut caches[k] {
            cache.set_disabled(disabled);
        }
        k = k + 1;
    }
}

pub(crate) fn full_input_shapes(constants: &Vec<Option<Shape>>, given: &[Shape], mode: PaddingMode) -> (shapes: Vec<
    Shape,
>)
    requires
        shapes_given(optional_shapes(constants@), shape_views(given@), mode),
    ensures
        shape_views(shapes@) == full_dims(optional_shapes(constants@), shape_views(given@), mode),
        shapes@.len() == constants@.len() + 1,
        mode is NoPadding ==> ({
            let places: Seq<int> = Seq::new(constants@.len() + 1, |i: int| i).filter(
                |i: int| i == 0 || constants@[i - 1] is None,
            );
            &&& places.len() <= given@.len()
            &&& forall|j: int| 0 <= j < places.len() ==> shapes@[#[trigger] places[j]]@ == given@[j]@
        }),
{
    let ghost fixed: Seq<Option<Seq<usize>>> = optional_shapes(constants@);
    let ghost dims: Seq<Seq<usize>> = shape_views(given@);
    let ghost expected: Seq<Seq<usize>> = full_dims(fixed, dims, mode);
    proof {
        lemma_present_bound(fixed, fixed.len() as int);
        assert(fixed.take(0) =~= Seq::<Option<Seq<usize>>>::empty());
        assert(shapeable(input_dims(fixed, dims, 0), mode));
        assert(input_dims(fixed, dims, 0) == given@[0]@);
    }
    let mut shapes: Vec<Shape> = Vec::new();
    shapes.push(given[0].under(mode));
    let mut next: usize = 1;
    let mut i: usize = 0;
    while i < constants.len()
        invariant
            i <= constants.len(),
            fixed == optional_shapes(constants@),
            dims == shape_views(given@),
            expected == full_dims(fixed, dims, mode),
            shapes_given(fixed, dims, mode),
            next == 1 + absent(fixed, i as int),
            shapes.len() == i + 1,
            forall|j: int| 0 <= j <= i ==> (#[trigger] shapes@[j])@ == expected[j],
        decreases constants.len() - i,
    {
        proof {
            lemma_present_step(fixed, i as int);
            lemma_present_bound(fixed, i + 1);
            lemma_present_bound(fixed, i as int);
            assert(fixed.take(fixed.len() as int) =~= fixed);
            assert(shapeable(input_dims(fixed, dims, i + 1), mode));
            assert(fixed[i as int] == optional_shape(constants@[i as int]));
        }
        match &constants[i] {
            Some(shape) => {
                shapes.push(shape.under(mode));
            },
            None => {
                assert(dims[next as int] == given@[next as int]@);
                shapes.push(given[next].under(mode));
                next = next + 1;
            },
        }
        assert(shapes@[i + 1]@ == expected[i + 1]);
        i = i + 1;
    }
    assert(shape_views(shapes@) =~= expected);
    proof {
        let keep: spec_fn(int) -> bool = |i: int| i == 0 || constants@[i - 1] is None;
        let places: Seq<int> = Seq::new(constants@.len() + 1, |i: int| i).filter(keep);
        assert forall|i: int| #[trigger] keep(i) && 1 <= i <= fixed.len() implies fixed[i - 1] is None by {
            assert(fixed[i - 1] == optional_shape(constants@[i - 1]));
        }
        assert forall|i: int| 1 <= i <= fixed.len() && fixed[i - 1] is None implies #[trigger] keep(i) by {
            assert(fixed[i - 1] == optional_shape(constants@[i - 1]));
        }
        lemma_taken_in_order(fixed, dims, keep, places, (fixed.len() + 1) as int);
        if mode is NoPadding {
            assert forall|j: int| 0 <= j < places.len() implies shapes@[#[trigger] places[j]]@ == given@[j]@ by {
                assert(shapes@[places[j]]@ == expected[places[j]]);
                assert(dims[j] == given@[j]@);
            }
        }
    }
    shapes
}

} // verus!
