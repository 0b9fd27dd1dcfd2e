//! The driver of a language model: it loads and quantises the model, turns tokens into
//! what the model takes, and runs the loop that generates a sentence.

use crate::arith::{next_power_of_two, power_of_two_above};
use crate::axis_shapes::shape_views;
use crate::generation::{run_elements_with_runner, GenerationError, Limits, Session, Trace};
use crate::metadata::{element_of, id_of, max_window, window, LLMMetadata, Token};
use crate::shape::{PaddingMode, Shape};
use crate::tensor::{Element, Tensor, TensorView};
use crate::verification::LLMVerifierContext;
use vstd::prelude::*;

verus! {

/// The standard generator of random numbers of `rand`, as `ark_std` offers it.
#[verifier::external_type_specification]
#[verifier::external_body]
pub struct ExStdRng(ark_std::rand::rngs::StdRng);

/// `rand::Rng::gen_range` on a range of `usize` that starts at zero: some number below
/// the bound, for a bound above zero. Which number it is, is left to chance.
#[verifier::external_body]
fn gen_below(rng: &mut ark_std::rand::rngs::StdRng, bound: usize) -> (number: usize)
    requires
        bound > 0,
    ensures
        number < bound,
{
    ark_std::rand::Rng::gen_range(rng, 0..bound)
}

/// Why a driver refused an input.
#[derive(Debug, Clone, Copy, PartialEq, Eq, Structural)]
pub enum DriverError {
    /// The input is longer than what the model takes.
    InputTooLong,
    /// The input is longer than the window.
    WindowTooSmall,
}

/// A model: its layers, and the shapes that its inputs have when it is set up. `G` is
/// what holds the layers.
#[derive(Debug)]
pub struct Model<G> {
    pub graph: G,
    pub input_shapes: Vec<Shape>,
}

impl<G: Clone> Clone for Model<G> {
    fn clone(&self) -> (copy: Self)
        ensures
            copy.copies(self),
    {
        let mut input_shapes: Vec<Shape> = Vec::new();
        let mut i: usize = 0;
        while i < self.input_shapes.len()
            invariant
                i <= self.input_shapes.len(),
                input_shapes.len() == i,
                forall|j: int| 0 <= j < i ==> (#[trigger] input_shapes@[j])@ == self.input_shapes@[j]@,
            decreases self.input_shapes.len() - i,
        {
            input_shapes.push(self.input_shapes[i].clone());
            i = i + 1;
        }
        assert(shape_views(input_shapes@) =~= shape_views(self.input_shapes@));
        Model { graph: self.graph.clone(), input_shapes }
    }
}

impl<G: Clone> Model<G> {
    /// The layers are a clone of the other's, and the shapes are the same.
    pub open spec fn copies(&self, other: &Model<G>) -> bool {
        &&& cloned(other.graph, self.graph)
        &&& shape_views(self.input_shapes@) == shape_views(other.input_shapes@)
    }
}

/// How a model is quantised. `S` is the strategy that finds the scaling factors.
#[derive(Debug)]
pub struct PipelineConfig<S> {
    pub input_shapes: Option<Vec<Shape>>,
    pub quant_strategy: Option<S>,
}

impl<S> PipelineConfig<S> {
    /// The configuration that leaves everything open.
    pub fn new() -> (config: Self)
        ensures
            config.input_shapes is None,
            config.quant_strategy is None,
    {
        PipelineConfig { input_shapes: None, quant_strategy: None }
    }

    /// The configuration with the given input shapes.
    pub fn with_input_shapes(self, shapes: Vec<Shape>) -> (config: Self)
        ensures
            config == (PipelineConfig { input_shapes: Some(shapes), ..self }),
    {
        PipelineConfig { input_shapes: Some(shapes), ..self }
    }

    /// The configuration with the given strategy.
    pub fn with_strategy(self, strategy: S) -> (config: Self)
        ensures
            config == (PipelineConfig { quant_strategy: Some(strategy), ..self }),
    {
        PipelineConfig { quant_strategy: Some(strategy), ..self }
    }

    /// The shapes are those of the configuration, or else one input of `len` tokens.
    pub open spec fn shapes_completed(self, completed: PipelineConfig<S>, len: usize) -> bool {
        match self.input_shapes {
            Some(shapes) => completed.input_shapes == Some(shapes),
            None => completed.input_shapes matches Some(shapes) && is_vector_shape(shapes, len),
        }
    }

    /// The configuration with one input of `len` tokens where it names no shapes.
    fn complete_shapes(self, len: usize) -> (completed: Self)
        ensures
            self.shapes_completed(completed, len),
            completed.quant_strategy == self.quant_strategy,
    {
        match self.input_shapes {
            Some(_) => self,
            None => self.with_input_shapes(vector_shape(len)),
        }
    }
}

/// The shapes are one shape, of one dimension and the given size.
pub open spec fn is_vector_shape(shapes: Vec<Shape>, len: usize) -> bool {
    shapes@.len() == 1 && shapes@[0]@ == seq![len]
}

fn vector_shape(len: usize) -> (shapes: Vec<Shape>)
    ensures
        is_vector_shape(shapes, len),
{
    let mut dims: Vec<usize> = Vec::new();
    dims.push(len);
    assert(dims@ =~= seq![len]);
    let mut shapes: Vec<Shape> = Vec::new();
    shapes.push(Shape::new(dims));
    shapes
}

/// What loads a language model from data in the format `D`.
pub trait LLMModelLoader<D, G>: Sized {
    /// The error of a failed load.
    type Error;

    /// The name of the model.
    fn model_name(&self) -> String;

    /// The loader for a model that takes sequences of the given length.
    fn with_max_context_length(self, max_context_length: usize) -> Self;

    /// Loads the model.
    fn parse(&self, data: &D) -> Result<(Model<G>, LLMMetadata), Self::Error>;
}

/// A language model with what its autoregressive loop needs.
#[derive(Debug)]
pub struct Driver<G> {
    pub model: Model<G>,
    pub md: LLMMetadata,
    /// The window, where it is narrower than what the model takes.
    pub max_context: Option<usize>,
    /// Whether the layers are padded.
    pub padding_mode: PaddingMode,
}

impl<G: Clone> Clone for Driver<G> {
    fn clone(&self) -> (copy: Self)
        ensures
            copy.model.copies(&self.model),
            copy.md.same_as(&self.md),
            copy.max_context == self.max_context,
            copy.padding_mode == self.padding_mode,
    {
        Driver {
            model: self.model.clone(),
            md: self.md.clone(),
            max_context: self.max_context,
            padding_mode: self.padding_mode,
        }
    }
}

/// The tokens are in the vocabulary.
pub open spec fn in_vocabulary(tokens: Seq<Token>, vocab_size: usize) -> bool {
    forall|i: int| 0 <= i < tokens.len() ==> (#[trigger] tokens[i]).0 < vocab_size
}

/// The elements that stand for tokens.
pub open spec fn elements_of(tokens: Seq<Token>) -> Seq<Element> {
    tokens.map_values(|token: Token| element_of(token))
}

/// What quantising a driver came to: the quantised model in a driver for one token at a
/// time, or the error.
pub open spec fn provable<G, H, M, E>(
    driver: Driver<G>,
    quantised: Result<(Model<H>, M), E>,
    result: Result<(Driver<H>, M), E>,
) -> bool {
    match (quantised, result) {
        (Ok((model, metadata)), Ok((new, returned))) => {
            &&& new.model.graph == model.graph
            &&& is_vector_shape(new.model.input_shapes, 1)
            &&& new.md.same_as(&driver.md)
            &&& new.max_context == driver.max_context
            &&& new.padding_mode is Padding
            &&& returned == metadata
        },
        (Err(error), Err(returned)) => returned == error,
        _ => false,
    }
}

/// The way from a driver to its quantised one: the representative tokens, the strategy
/// made of them, and the configuration that the model was quantised with.
pub struct Quantisation<S, H, M, E> {
    pub tokens: Vec<Vec<Vec<Token>>>,
    pub strategy: S,
    pub config: PipelineConfig<S>,
    pub quantised: Result<(Model<H>, M), E>,
}

impl<S, H, M, E> Quantisation<S, H, M, E> {
    /// The driver was quantised with `given`, completed by the shape of the window and by a
    /// strategy made of one random sequence that fills it.
    pub open spec fn follows<
        G,
        B: FnOnce(Vec<Vec<Vec<Token>>>) -> S,
        Q: FnOnce(Model<G>, PipelineConfig<S>) -> Result<(Model<H>, M), E>,
    >(self, driver: Driver<G>, given: PipelineConfig<S>, observer: B, to_quantized: Q) -> bool {
        let len: usize = window(driver.max_context, driver.md);
        &&& self.tokens@.len() == 1
        &&& self.tokens@[0]@.len() == 1
        &&& self.tokens@[0]@[0]@.len() == len
        &&& in_vocabulary(self.tokens@[0]@[0]@, driver.md.config.vocab_size)
        &&& observer.ensures((self.tokens,), self.strategy)
        &&& given.shapes_completed(self.config, len)
        &&& self.config.quant_strategy == Some(
            match given.quant_strategy {
                Some(strategy) => strategy,
                None => self.strategy,
            },
        )
        &&& to_quantized.ensures((driver.model, self.config), self.quantised)
    }

    /// The driver was quantised with `given`, completed by the shape of the window.
    pub open spec fn follows_strategy<G, Q: FnOnce(Model<G>, PipelineConfig<S>) -> Result<(Model<H>, M), E>>(
        self,
        driver: Driver<G>,
        given: PipelineConfig<S>,
        to_quantized: Q,
    ) -> bool {
        &&& given.shapes_completed(self.config, window(driver.max_context, driver.md))
        &&& self.config.quant_strategy == given.quant_strategy
        &&& to_quantized.ensures((driver.model, self.config), self.quantised)
    }

    /// The driver was quantised with the strategy and one input of the window's length, or
    /// of the strategy's where there is no window.
    pub open spec fn follows_observer<G, L: FnOnce(&S) -> usize, Q: FnOnce(Model<G>, PipelineConfig<S>) -> Result<
        (Model<H>, M),
        E,
    >>(self, driver: Driver<G>, length: L, len: usize, adapted: Model<G>, to_quantized: Q) -> bool {
        &&& driver.max_context is None ==> length.ensures((&self.strategy,), len)
        &&& driver.max_context is Some ==> driver.max_context == Some(len)
        &&& self.config.input_shapes matches Some(shapes) && is_vector_shape(shapes, len)
        &&& self.config.quant_strategy == Some(self.strategy)
        &&& to_quantized.ensures((adapted, self.config), self.quantised)
    }
}

/// Puts a quantised model into a driver for one token at a time.
pub fn into_provable<H, M, E>(
    md: LLMMetadata,
    max_context: Option<usize>,
    quantised: Result<(Model<H>, M), E>,
) -> (result: Result<(Driver<H>, M), E>)
    ensures
        match (quantised, result) {
            (Ok((model, metadata)), Ok((new, returned))) => {
                &&& new.model.graph == model.graph
                &&& is_vector_shape(new.model.input_shapes, 1)
                &&& new.md == md
                &&& new.max_context == max_context
                &&& new.padding_mode is Padding
                &&& returned == metadata
            },
            (Err(error), Err(returned)) => returned == error,
            _ => false,
        },
{
    match quantised {
        Ok((model, metadata)) => Ok(
            (
                Driver {
                    model: Model { graph: model.graph, input_shapes: vector_shape(1) },
                    md,
                    max_context,
                    padding_mode: PaddingMode::Padding,
                },
                metadata,
            ),
        ),
        Err(error) => Err(error),
    }
}

impl<G> Driver<G> {
    /// The number of tokens of the model.
    pub fn vocab_size(&self) -> (size: usize)
        ensures
            size == self.md.config.vocab_size,
    {
        self.md.vocab_size()
    }

    /// The driver of a model that was loaded.
    pub fn from_parsed(model: Model<G>, md: LLMMetadata, max_context: Option<usize>) -> (driver: Self)
        ensures
            driver == (Driver { model, md, max_context, padding_mode: PaddingMode::NoPadding }),
    {
        Driver { model, md, max_context, padding_mode: PaddingMode::NoPadding }
    }

    /// Loads a model. Where there is a window, the loader is told of it, so that it need
    /// not load more than the window takes.
    pub fn load_from_model<D, M: LLMModelLoader<D, G>>(
        model_type: M,
        data_format: &D,
        max_context: Option<usize>,
    ) -> (result: Result<Self, M::Error>)
        requires
            forall|loader: M, len: usize| call_requires(M::with_max_context_length, (loader, len)),
            forall|loader: M| call_requires(M::parse, (&loader, data_format)),
        ensures
            exists|loader: M, parsed: Result<(Model<G>, LLMMetadata), M::Error>| #[trigger]
                loaded(model_type, data_format, max_context, loader, parsed) && match (parsed, result) {
                    (Ok((model, md)), Ok(driver)) => driver == (Driver {
                        model,
                        md,
                        max_context,
                        padding_mode: PaddingMode::NoPadding,
                    }),
                    (Err(error), Err(returned)) => returned == error,
                    _ => false,
                },
    {
        let loader: M = match max_context {
            Some(length) => model_type.with_max_context_length(length),
            None => model_type,
        };
        let parsed: Result<(Model<G>, LLMMetadata), M::Error> = loader.parse(data_format);
        assert(loaded(model_type, data_format, max_context, loader, parsed));
        match parsed {
            Ok((model, md)) => Ok(Driver::from_parsed(model, md, max_context)),
            Err(error) => Err(error),
        }
    }

    /// Quantises the model, by default with the shape of the window as the input's and
    /// with a strategy that `observer` makes of a random sequence of that length.
    pub fn into_provable_llm<
        S,
        H,
        M,
        E,
        B: FnOnce(Vec<Vec<Vec<Token>>>) -> S,
        Q: FnOnce(Model<G>, PipelineConfig<S>) -> Result<(Model<H>, M), E>,
    >(
        self,
        pipeline_config: Option<PipelineConfig<S>>,
        rng: &mut ark_std::rand::rngs::StdRng,
        observer: B,
        to_quantized: Q,
    ) -> (result: Result<(Driver<H>, M), E>)
        requires
            window(self.max_context, self.md) > 0 ==> self.md.config.vocab_size > 0,
            forall|tokens: Vec<Vec<Vec<Token>>>| observer.requires((tokens,)),
            forall|config: PipelineConfig<S>| to_quantized.requires((self.model, config)),
        ensures
            exists|way: Quantisation<S, H, M, E>, given: PipelineConfig<S>| #[trigger]
                way.follows(self, given, observer, to_quantized) && (match pipeline_config {
                    Some(config) => given == config,
                    None => given.input_shapes is None && given.quant_strategy is None,
                }) && provable(self, way.quantised, result),
    {
        let numel: usize = max_window(self.max_context, &self.md);
        let sequence: Vec<Token> = self.random_sequence(numel, rng);
        let mut inputs: Vec<Vec<Token>> = Vec::new();
        inputs.push(sequence);
        let mut representative_inputs: Vec<Vec<Vec<Token>>> = Vec::new();
        representative_inputs.push(inputs);
        let ghost tokens: Vec<Vec<Vec<Token>>> = representative_inputs;
        let strategy: S = observer(representative_inputs);
        let ghost made: S = strategy;
        let given: PipelineConfig<S> = match pipeline_config {
            Some(config) => config,
            None => PipelineConfig::new(),
        };
        let ghost open: PipelineConfig<S> = given;
        let config: PipelineConfig<S> = given.complete_shapes(numel);
        let config: PipelineConfig<S> = match config.quant_strategy {
            Some(_) => config,
            None => config.with_strategy(strategy),
        };
        let ghost completed: PipelineConfig<S> = config;
        let quantised: Result<(Model<H>, M), E> = to_quantized(self.model, config);
        let ghost way: Quantisation<S, H, M, E> = Quantisation {
            tokens,
            strategy: made,
            config: completed,
            quantised,
        };
        assert(way.follows(self, open, observer, to_quantized));
        into_provable(self.md, self.max_context, quantised)
    }

    /// Quantises the model with a strategy of the caller's, by default with the shape of
    /// the window as the input's.
    pub fn into_provable_llm_with_strategy<
        S,
        H,
        M,
        E,
        Q: FnOnce(Model<G>, PipelineConfig<S>) -> Result<(Model<H>, M), E>,
    >(self, pipeline_config: PipelineConfig<S>, to_quantized: Q) -> (result: Result<(Driver<H>, M), E>)
        requires
            forall|config: PipelineConfig<S>| to_quantized.requires((self.model, config)),
        ensures
            exists|way: Quantisation<S, H, M, E>| #[trigger]
                way.follows_strategy(self, pipeline_config, to_quantized) && provable(self, way.quantised, result),
    {
        let numel: usize = max_window(self.max_context, &self.md);
        let config: PipelineConfig<S> = pipeline_config.complete_shapes(numel);
        let ghost completed: PipelineConfig<S> = config;
        let quantised: Result<(Model<H>, M), E> = to_quantized(self.model, config);
        let ghost way: Quantisation<S, H, M, E> = Quantisation {
            tokens: arbitrary(),
            strategy: arbitrary(),
            config: completed,
            quantised,
        };
        assert(way.follows_strategy(self, pipeline_config, to_quantized));
        into_provable(self.md, self.max_context, quantised)
    }

    /// Quantises the model after `adapt_model` has changed its layers, with the strategy
    /// that `new_observer` makes of the tokeniser and of what is known of the model. The
    /// input has the length of the window or, where there is none, the one that `length`
    /// finds in the strategy.
    pub fn into_provable_llm_with_transform<
        K,
        S,
        H,
        M,
        E,
        N: FnOnce(&K, &LLMMetadata) -> S,
        L: FnOnce(&S) -> usize,
        A: FnOnce(Driver<G>) -> Result<Driver<G>, E>,
        Q: FnOnce(Model<G>, PipelineConfig<S>) -> Result<(Model<H>, M), E>,
    >(self, tokeniser: &K, new_observer: N, length: L, adapt_model: A, to_quantized: Q) -> (result: Result<
        (Driver<H>, M),
        E,
    >)
        requires
            new_observer.requires((tokeniser, &self.md)),
            forall|observer: &S| length.requires((observer,)),
            adapt_model.requires((self,)),
            forall|model: Model<G>, config: PipelineConfig<S>| to_quantized.requires((model, config)),
        ensures
            exists|adapted: Result<Driver<G>, E>| #[trigger]
                adapt_model.ensures((self,), adapted) && match adapted {
                    Err(error) => result == Err::<(Driver<H>, M), E>(error),
                    Ok(driver) => exists|way: Quantisation<S, H, M, E>, len: usize| #[trigger]
                        way.follows_observer(self, length, len, driver.model, to_quantized)
                            && new_observer.ensures((tokeniser, &self.md), way.strategy) && provable(
                            self,
                            way.quantised,
                            result,
                        ),
                },
    {
        let max_context: Option<usize> = self.max_context;
        let md: LLMMetadata = self.md.clone();
        let observer: S = new_observer(tokeniser, &self.md);
        let len: usize = match max_context {
            Some(len) => len,
            None => length(&observer),
        };
        let ghost strategy: S = observer;
        let config: PipelineConfig<S> = PipelineConfig::new().with_input_shapes(vector_shape(len)).with_strategy(
            observer,
        );
        let ghost completed: PipelineConfig<S> = config;
        let adapted: Driver<G> = match adapt_model(self) {
            Ok(driver) => driver,
            Err(error) => {
                return Err(error);
            },
        };
        let quantised: Result<(Model<H>, M), E> = to_quantized(adapted.model, config);
        let ghost way: Quantisation<S, H, M, E> = Quantisation {
            tokens: arbitrary(),
            strategy,
            config: completed,
            quantised,
        };
        assert(way.follows_observer(self, length, len, adapted.model, to_quantized));
        into_provable(md, max_context, quantised)
    }

    /// The window, if set.
    pub fn max_context(&self) -> (window: Option<usize>)
        ensures
            window == self.max_context,
    {
        self.max_context
    }

    /// Sets the window.
    pub fn with_max_context(&mut self, max_context: usize)
        ensures
            *final(self) == (Driver { max_context: Some(max_context), ..*old(self) }),
    {
        self.max_context = Some(max_context);
    }

    /// A sequence of `len` random tokens of the vocabulary.
    pub fn random_sequence(&self, len: usize, rng: &mut ark_std::rand::rngs::StdRng) -> (tokens: Vec<Token>)
        requires
            len > 0 ==> self.md.config.vocab_size > 0,
        ensures
            tokens@.len() == len,
            in_vocabulary(tokens@, self.md.config.vocab_size),
    {
        let vocab_size: usize = self.md.vocab_size();
        let mut tokens: Vec<Token> = Vec::new();
        while tokens.len() < len
            invariant
                len > 0 ==> vocab_size > 0,
                tokens@.len() <= len,
                in_vocabulary(tokens@, vocab_size),
            decreases len - tokens@.len(),
        {
            tokens.push(Token::from(gen_below(rng, vocab_size)));
        }
        tokens
    }

    /// The tensor of the given tokens, which must be no more than the model takes.
    pub fn tokens_to_tensor(&self, input: &[Token]) -> (result: Result<Tensor<Element>, DriverError>)
        ensures
            match result {
                Ok(tensor) => {
                    &&& input@.len() <= self.md.config.context_length
                    &&& tensor.wf()
                    &&& tensor@ == (TensorView { shape: seq![input@.len() as usize], data: elements_of(input@) })
                },
                Err(error) => {
                    &&& input@.len() > self.md.config.context_length
                    &&& error == DriverError::InputTooLong
                },
            },
    {
        if input.len() > self.md.config.context_length {
            return Err(DriverError::InputTooLong);
        }
        let mut elements: Vec<Element> = Vec::new();
        let mut i: usize = 0;
        while i < input.len()
            invariant
                i <= input@.len(),
                elements@ == elements_of(input@).take(i as int),
            decreases input@.len() - i,
        {
            elements.push(input[i].as_element());
            assert(elements@ =~= elements_of(input@).take(i + 1));
            i = i + 1;
        }
        assert(elements@ =~= elements_of(input@));
        Ok(Tensor::from_vec(elements))
    }

    /// How proving is split over several provers. It is planned for a full window, for
    /// how long the sentence gets is not known yet. `model_ctx` is what the provers know of
    /// the model.
    pub fn chunking_strategy<K, C, B: FnOnce(usize, &K) -> C>(
        &self,
        input_tensor: &Tensor<Element>,
        model_ctx: &K,
        new_strategy: B,
    ) -> (result: Result<C, DriverError>)
        requires
            new_strategy.requires((window(self.max_context, self.md), model_ctx)),
        ensures
            match result {
                Ok(strategy) => {
                    &&& input_tensor@.data.len() <= window(self.max_context, self.md)
                    &&& new_strategy.ensures((window(self.max_context, self.md), model_ctx), strategy)
                },
                Err(error) => {
                    &&& input_tensor@.data.len() > window(self.max_context, self.md)
                    &&& error == DriverError::WindowTooSmall
                },
            },
    {
        let max_window: usize = max_window(self.max_context, &self.md);
        if input_tensor.get_data().len() > max_window {
            return Err(DriverError::WindowTooSmall);
        }
        Ok(new_strategy(max_window, model_ctx))
    }

    /// Runs the model once and makes it forget the run, whatever came of it. `runner` is
    /// what the layers are run with.
    pub fn run_with_runner<S, I, T, F: FnOnce(&Model<G>, S, I) -> (S, T), R: FnOnce(&Model<G>, S) -> S>(
        &self,
        runner: S,
        inputs: I,
        run: F,
        reset: R,
    ) -> (result: (S, T))
        requires
            run.requires((&self.model, runner, inputs)),
            forall|s: S| reset.requires((&self.model, s)),
        ensures
            exists|after: S|
                run.ensures((&self.model, runner, inputs), (after, result.1)) && #[trigger] reset.ensures(
                    (&self.model, after),
                    result.0,
                ),
    {
        let (after, outcome): (S, T) = run(&self.model, runner, inputs);
        let ghost ran: S = after;
        assert(run.ensures((&self.model, runner, inputs), (ran, outcome)));
        let end: S = reset(&self.model, after);
        let result: (S, T) = (end, outcome);
        assert(reset.ensures((&self.model, ran), result.0));
        result
    }

    /// Runs the model once on tensors and makes it forget the run, whatever came of it.
    pub fn run<S, T, F: FnOnce(&Model<G>, S, Vec<Tensor<Element>>) -> (S, T), R: FnOnce(&Model<G>, S) -> S>(
        &self,
        inputs: Vec<Tensor<Element>>,
        store: S,
        run: F,
        reset: R,
    ) -> (result: (S, T))
        requires
            run.requires((&self.model, store, inputs)),
            forall|s: S| reset.requires((&self.model, s)),
        ensures
            exists|after: S|
                run.ensures((&self.model, store, inputs), (after, result.1)) && #[trigger] reset.ensures(
                    (&self.model, after),
                    result.0,
                ),
    {
        self.run_with_runner(store, inputs, run, reset)
    }

    /// What the loop has to know of the model.
    pub open spec fn spec_limits(&self) -> Limits {
        Limits {
            context_length: self.md.config.context_length,
            max_window: window(self.max_context, self.md),
            vocab_size: self.md.config.vocab_size,
            eos: element_of(self.md.config.eos_token),
        }
    }

    /// What the loop has to know of the model.
    pub fn limits(&self) -> (limits: Limits)
        ensures
            limits == self.spec_limits(),
    {
        Limits {
            context_length: self.md.context_length(),
            max_window: max_window(self.max_context, &self.md),
            vocab_size: self.md.vocab_size(),
            eos: self.md.config.eos_token.as_element(),
        }
    }

    /// Generates a sentence, which the token that ends it and the window bound, and
    /// returns the trace of a run over the whole of it. `split` says which layers that run
    /// splits, if any.
    pub fn run_elements_with_split_info<
        I,
        S,
        E,
        X,
        R: Fn(&Model<G>, S) -> S,
        Q: Fn(&Model<G>, S) -> S,
        F: Fn(&Model<G>, S, Tensor<Element>) -> (S, Result<Vec<Tensor<Element>>, E>),
        T: Fn(&Model<G>, S, Tensor<Element>, Option<&I>) -> (S, Result<Trace<X>, E>),
    >(
        &self,
        state: S,
        input_tensor: Tensor<Element>,
        split: Option<&I>,
        reset: R,
        reset_selective: Q,
        step: F,
        trace: T,
    ) -> (result: (S, Result<Trace<X>, GenerationError<E>>))
        requires
            self.md.config.context_length > 0,
            forall|s: S| reset.requires((&self.model, s)),
            forall|s: S| reset_selective.requires((&self.model, s)),
            forall|s: S, input: Tensor<Element>| step.requires((&self.model, s, input)),
            forall|s: S, input: Tensor<Element>| trace.requires((&self.model, s, input, split)),
        ensures
            exists|session: Session<S, E, X>| #[trigger]
                session.explains(
                    &self.model,
                    split,
                    self.spec_limits(),
                    state,
                    input_tensor@,
                    (reset, reset_selective, step, trace),
                    result,
                ),
    {
        run_elements_with_runner(
            &self.model,
            split,
            self.limits(),
            state,
            input_tensor,
            reset,
            reset_selective,
            step,
            trace,
        )
    }

    /// Generates a sentence as [`Driver::run_elements_with_split_info`] does, with no layer
    /// split.
    pub fn run_elements<
        I,
        S,
        E,
        X,
        R: Fn(&Model<G>, S) -> S,
        Q: Fn(&Model<G>, S) -> S,
        F: Fn(&Model<G>, S, Tensor<Element>) -> (S, Result<Vec<Tensor<Element>>, E>),
        T: Fn(&Model<G>, S, Tensor<Element>, Option<&I>) -> (S, Result<Trace<X>, E>),
    >(
        &self,
        state: S,
        input_tensor: Tensor<Element>,
        reset: R,
        reset_selective: Q,
        step: F,
        trace: T,
    ) -> (result: (S, Result<Trace<X>, GenerationError<E>>))
        requires
            self.md.config.context_length > 0,
            forall|s: S| reset.requires((&self.model, s)),
            forall|s: S| reset_selective.requires((&self.model, s)),
            forall|s: S, input: Tensor<Element>| step.requires((&self.model, s, input)),
            forall|s: S, input: Tensor<Element>| trace.requires((&self.model, s, input, None::<&I>)),
        ensures
            exists|session: Session<S, E, X>| #[trigger]
                session.explains(
                    &self.model,
                    None::<&I>,
                    self.spec_limits(),
                    state,
                    input_tensor@,
                    (reset, reset_selective, step, trace),
                    result,
                ),
    {
        self.run_elements_with_split_info(state, input_tensor, None, reset, reset_selective, step, trace)
    }

    /// Generates a sentence as [`Driver::run_elements`] does, with a runner that keeps the
    /// tracker up to date as it runs the layers within the loop.
    pub fn run_elements_with_tracker<
        I,
        S,
        K,
        E,
        X,
        R: Fn(&Model<G>, (S, K)) -> (S, K),
        Q: Fn(&Model<G>, (S, K)) -> (S, K),
        F: Fn(&Model<G>, (S, K), Tensor<Element>) -> ((S, K), Result<Vec<Tensor<Element>>, E>),
        T: Fn(&Model<G>, (S, K), Tensor<Element>, Option<&I>) -> ((S, K), Result<Trace<X>, E>),
    >(
        &self,
        state: S,
        tracker: K,
        input_tensor: Tensor<Element>,
        reset: R,
        reset_selective: Q,
        step: F,
        trace: T,
    ) -> (result: ((S, K), Result<Trace<X>, GenerationError<E>>))
        requires
            self.md.config.context_length > 0,
            forall|s: (S, K)| reset.requires((&self.model, s)),
            forall|s: (S, K)| reset_selective.requires((&self.model, s)),
            forall|s: (S, K), input: Tensor<Element>| step.requires((&self.model, s, input)),
            forall|s: (S, K), input: Tensor<Element>| trace.requires((&self.model, s, input, None::<&I>)),
        ensures
            exists|session: Session<(S, K), E, X>| #[trigger]
                session.explains(
                    &self.model,
                    None::<&I>,
                    self.spec_limits(),
                    (state, tracker),
                    input_tensor@,
                    (reset, reset_selective, step, trace),
                    result,
                ),
    {
        self.run_elements((state, tracker), input_tensor, reset, reset_selective, step, trace)
    }

    /// The contexts for every length up to what the model takes: those for the next power
    /// of two.
    pub fn compute_all_contexts<P, V, E, F: FnOnce(&Model<G>, Vec<Shape>) -> Result<(P, V), E>>(
        &self,
        generate: F,
    ) -> (result: Result<(P, LLMVerifierContext<V>), E>)
        requires
            power_of_two_above(self.md.config.context_length as nat) <= usize::MAX,
            forall|shapes: Vec<Shape>| generate.requires((&self.model, shapes)),
        ensures
            exists|shapes: Vec<Shape>, generated: Result<(P, V), E>| #[trigger]
                generate.ensures((&self.model, shapes), generated) && is_vector_shape(
                    shapes,
                    power_of_two_above(self.md.config.context_length as nat) as usize,
                ) && contexts_made(self.md, self.max_context, generated, result),
    {
        let shapes: Vec<Shape> = vector_shape(next_power_of_two(self.md.context_length()));
        let ghost largest: Vec<Shape> = shapes;
        let generated: Result<(P, V), E> = generate(&self.model, shapes);
        assert(generate.ensures((&self.model, largest), generated));
        match generated {
            Ok((prover_ctx, verifier_ctx)) => Ok(
                (
                    prover_ctx,
                    LLMVerifierContext { verifier_ctx, md: self.md.clone(), max_context: self.max_context },
                ),
            ),
            Err(error) => Err(error),
        }
    }

    /// The contexts of the prover and of the verifier, who sets the window for itself.
    pub fn context<P, V, E, F: FnOnce(&Model<G>) -> Result<(P, V), E>>(&self, generate: F) -> (result: Result<
        (P, LLMVerifierContext<V>),
        E,
    >)
        requires
            generate.requires((&self.model,)),
        ensures
            exists|generated: Result<(P, V), E>| #[trigger]
                generate.ensures((&self.model,), generated) && contexts_made(self.md, None, generated, result),
    {
        match generate(&self.model) {
            Ok((prover_ctx, verifier_ctx)) => Ok(
                (prover_ctx, LLMVerifierContext { verifier_ctx, md: self.md.clone(), max_context: None }),
            ),
            Err(error) => Err(error),
        }
    }

    /// Proves a trace of the model in the given number of chunks, cut as the strategy says.
    pub fn chunked_prove_local<
        K,
        T,
        C,
        P,
        W,
        F: FnOnce(&K, T, Option<usize>, C, &Model<G>, W) -> P,
    >(
        &self,
        ctx: &K,
        trace: T,
        num_chunks: Option<usize>,
        chunking_strategy: C,
        executor_config: W,
        chunked_prove: F,
    ) -> (proof: P)
        requires
            chunked_prove.requires((ctx, trace, num_chunks, chunking_strategy, &self.model, executor_config)),
        ensures
            chunked_prove.ensures(
                (ctx, trace, num_chunks, chunking_strategy, &self.model, executor_config),
                proof,
            ),
    {
        chunked_prove(ctx, trace, num_chunks, chunking_strategy, &self.model, executor_config)
    }

    /// Proves a trace of the model in one piece, one part after another.
    pub fn prove<
        K,
        T,
        C,
        P,
        B: FnOnce(&T) -> C,
        F: FnOnce(&K, T, Option<usize>, C, &Model<G>, ()) -> P,
    >(&self, ctx: &K, trace: T, chunking_strategy: B, chunked_prove: F) -> (proof: P)
        requires
            chunking_strategy.requires((&trace,)),
            forall|strategy: C| chunked_prove.requires((ctx, trace, Some(1usize), strategy, &self.model, ())),
        ensures
            exists|strategy: C| #[trigger]
                chunking_strategy.ensures((&trace,), strategy) && chunked_prove.ensures(
                    (ctx, trace, Some(1usize), strategy, &self.model, ()),
                    proof,
                ),
    {
        let strategy: C = chunking_strategy(&trace);
        self.chunked_prove_local(ctx, trace, Some(1), strategy, (), chunked_prove)
    }
}

/// The contexts that were generated, the verifier's with what it needs of the driver.
pub open spec fn contexts_made<P, V, E>(
    md: LLMMetadata,
    max_context: Option<usize>,
    generated: Result<(P, V), E>,
    result: Result<(P, LLMVerifierContext<V>), E>,
) -> bool {
    match (generated, result) {
        (Ok((prover, verifier)), Ok((returned, context))) => {
            &&& returned == prover
            &&& context.verifier_ctx == verifier
            &&& context.md.same_as(&md)
            &&& context.max_context == max_context
        },
        (Err(error), Err(returned)) => returned == error,
        _ => false,
    }
}

/// A loader, told of the window if there is one, parsed the data.
pub open spec fn loaded<D, G, M: LLMModelLoader<D, G>>(
    model_type: M,
    data_format: &D,
    max_context: Option<usize>,
    loader: M,
    parsed: Result<(Model<G>, LLMMetadata), M::Error>,
) -> bool {
    &&& match max_context {
        Some(length) => call_ensures(M::with_max_context_length, (model_type, length), loader),
        None => loader == model_type,
    }
    &&& call_ensures(M::parse, (&loader, data_format), parsed)
}

/// Tokens of the vocabulary that the window takes, and that leave room for a token within
/// what the model takes, are a prompt that the loop accepts once a driver has turned them
/// into a tensor.
pub proof fn law_tokens_are_a_prompt<G, E>(driver: Driver<G>, tokens: Seq<Token>)
    requires
        tokens.len() < driver.md.config.context_length - 1,
        tokens.len() <= window(driver.max_context, driver.md),
        in_vocabulary(tokens, driver.md.config.vocab_size),
    ensures
        driver.spec_limits().prompt_error::<E>(elements_of(tokens)) is None,
{
    let prompt: Seq<Element> = elements_of(tokens);
    assert forall|i: int| 0 <= i < prompt.len() implies id_of(#[trigger] prompt[i]) < driver.md.config.vocab_size by {
        law_token_round_trip(tokens[i]);
        assert(prompt[i] == element_of(tokens[i]));
    }
}

/// A token survives the way into a tensor and back.
pub proof fn law_token_round_trip(token: Token)
    ensures
        id_of(element_of(token)) == token.0,
{
    let id: usize = token.0;
    assert((id as i64) as usize == id) by (bit_vector);
}

} // verus!
