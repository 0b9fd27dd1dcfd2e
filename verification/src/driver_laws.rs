//! What a driver hands on to the model, and what it makes of what comes back.

use crate::arith::power_of_two_above;
use crate::driver::{
    contexts_made, elements_of, in_vocabulary, is_vector_shape, loaded, provable, Driver, DriverError, LLMModelLoader,
    Model, PipelineConfig, Quantisation,
};
use crate::metadata::{LLMMetadata, Token};
use crate::shape::Shape;
use crate::tensor::{Element, Tensor};
use crate::verification::LLMVerifierContext;
use vstd::prelude::*;

verus! {

/// The shape of a sequence is one dimension of its length.
pub proof fn law_sequences_have_one_dimension(shapes: Vec<Shape>, len: usize)
    ensures
        is_vector_shape(shapes, len) <==> {
            &&& shapes@.len() == 1
            &&& shapes@[0]@.len() == 1
            &&& shapes@[0]@[0] == len
        },
{
    if shapes@.len() == 1 && shapes@[0]@.len() == 1 && shapes@[0]@[0] == len {
        assert(shapes@[0]@ =~= seq![len]);
    }
}

/// The elements of tokens are their places, one for one and in order, and a sequence is in
/// the vocabulary where every place is below its size.
pub proof fn law_elements_are_those_of_the_tokens(tokens: Seq<Token>, vocab_size: usize, i: int)
    ensures
        elements_of(tokens).len() == tokens.len(),
        0 <= i < tokens.len() ==> elements_of(tokens)[i] == tokens[i].0 as i64,
        in_vocabulary(tokens, vocab_size) <==> forall|k: int|
            0 <= k < tokens.len() ==> (#[trigger] tokens[k]).0 < vocab_size,
{
}

/// The loop is told of the longest sequence and the number of tokens of the model, of the
/// window, which is the driver's own where it has one, and of the token that ends a
/// sentence.
pub proof fn law_loop_is_told_of_the_model<G>(driver: Driver<G>)
    ensures
        driver.spec_limits().context_length == driver.md.config.context_length,
        driver.spec_limits().vocab_size == driver.md.config.vocab_size,
        driver.spec_limits().eos == driver.md.config.eos_token.0 as i64,
        driver.max_context matches Some(window) ==> driver.spec_limits().max_window == window,
        driver.max_context is None ==> driver.spec_limits().max_window == driver.md.config.context_length,
{
}

/// Shapes of the configuration are kept; where there are none, the input is one sequence of
/// the given length.
pub proof fn law_missing_shapes_are_completed<S>(given: PipelineConfig<S>, completed: PipelineConfig<S>, len: usize)
    requires
        given.shapes_completed(completed, len),
    ensures
        completed.input_shapes is Some,
        given.input_shapes is Some ==> completed.input_shapes == given.input_shapes,
        given.input_shapes is None ==> {
            &&& completed.input_shapes->0@.len() == 1
            &&& completed.input_shapes->0@[0]@ == seq![len]
        },
{
}

/// Quantising keeps what is known of the model and the window, pads the layers, and takes
/// one token at a time; a failure is passed on.
pub proof fn law_provable_drivers_keep_what_is_known<G, H, M, E>(
    driver: Driver<G>,
    quantised: Result<(Model<H>, M), E>,
    result: Result<(Driver<H>, M), E>,
)
    requires
        provable(driver, quantised, result),
    ensures
        result is Ok <==> quantised is Ok,
        quantised matches Err(error) ==> result == Err::<(Driver<H>, M), E>(error),
        quantised matches Ok(made) ==> {
            &&& result->Ok_0.0.model.graph == made.0.graph
            &&& result->Ok_0.0.model.input_shapes@.len() == 1
            &&& result->Ok_0.0.model.input_shapes@[0]@ == seq![1usize]
            &&& result->Ok_0.0.max_context == driver.max_context
            &&& result->Ok_0.0.padding_mode is Padding
            &&& result->Ok_0.0.md.same_as(&driver.md)
            &&& result->Ok_0.1 == made.1
        },
{
}

/// A driver is quantised with one random sequence of the vocabulary that fills the window,
/// of which the strategy is made where none is given.
pub proof fn law_quantisation_observes_a_full_window<
    G,
    S,
    H,
    M,
    E,
    B: FnOnce(Vec<Vec<Vec<Token>>>) -> S,
    Q: FnOnce(Model<G>, PipelineConfig<S>) -> Result<(Model<H>, M), E>,
>(way: Quantisation<S, H, M, E>, driver: Driver<G>, given: PipelineConfig<S>, observer: B, to_quantized: Q, i: int)
    requires
        way.follows(driver, given, observer, to_quantized),
    ensures
        way.tokens@.len() == 1,
        way.tokens@[0]@.len() == 1,
        driver.max_context matches Some(window) ==> way.tokens@[0]@[0]@.len() == window,
        driver.max_context is None ==> way.tokens@[0]@[0]@.len() == driver.md.config.context_length,
        0 <= i < way.tokens@[0]@[0]@.len() ==> way.tokens@[0]@[0]@[i].0 < driver.md.config.vocab_size,
        observer.ensures((way.tokens,), way.strategy),
        given.quant_strategy is Some ==> way.config.quant_strategy == given.quant_strategy,
        given.quant_strategy is None ==> way.config.quant_strategy == Some(way.strategy),
        given.input_shapes is Some ==> way.config.input_shapes == given.input_shapes,
        given.input_shapes is None ==> {
            &&& way.config.input_shapes is Some
            &&& way.config.input_shapes->0@.len() == 1
            &&& way.config.input_shapes->0@[0]@ == seq![way.tokens@[0]@[0]@.len() as usize]
        },
        to_quantized.ensures((driver.model, way.config), way.quantised),
{
}

/// A driver that is quantised with the caller's strategy keeps it, and completes the shapes
/// with the window.
pub proof fn law_strategies_of_the_caller_are_kept<
    G,
    S,
    H,
    M,
    E,
    Q: FnOnce(Model<G>, PipelineConfig<S>) -> Result<(Model<H>, M), E>,
>(way: Quantisation<S, H, M, E>, driver: Driver<G>, given: PipelineConfig<S>, to_quantized: Q)
    requires
        way.follows_strategy(driver, given, to_quantized),
    ensures
        way.config.quant_strategy == given.quant_strategy,
        given.input_shapes is Some ==> way.config.input_shapes == given.input_shapes,
        given.input_shapes is None ==> {
            &&& way.config.input_shapes is Some
            &&& way.config.input_shapes->0@.len() == 1
            &&& way.config.input_shapes->0@[0]@.len() == 1
            &&& driver.max_context matches Some(window) ==> way.config.input_shapes->0@[0]@[0] == window
            &&& driver.max_context is None ==> way.config.input_shapes->0@[0]@[0] == driver.md.config.context_length
        },
        to_quantized.ensures((driver.model, way.config), way.quantised),
{
}

/// A driver that is quantised after a change of its layers takes the length of its window,
/// or the strategy's where it has none.
pub proof fn law_changed_layers_are_quantised_for_the_window<
    G,
    S,
    H,
    M,
    E,
    L: FnOnce(&S) -> usize,
    Q: FnOnce(Model<G>, PipelineConfig<S>) -> Result<(Model<H>, M), E>,
>(way: Quantisation<S, H, M, E>, driver: Driver<G>, length: L, len: usize, adapted: Model<G>, to_quantized: Q)
    requires
        way.follows_observer(driver, length, len, adapted, to_quantized),
    ensures
        driver.max_context matches Some(window) ==> len == window,
        driver.max_context is None ==> length.ensures((&way.strategy,), len),
        way.config.input_shapes is Some,
        way.config.input_shapes->0@.len() == 1,
        way.config.input_shapes->0@[0]@ == seq![len],
        way.config.quant_strategy == Some(way.strategy),
        to_quantized.ensures((adapted, way.config), way.quantised),
{
}

/// The contexts are those that were generated; the verifier's has what is known of the model
/// and the window that is handed on.
pub proof fn law_contexts_are_those_generated<P, V, E>(
    md: LLMMetadata,
    max_context: Option<usize>,
    generated: Result<(P, V), E>,
    result: Result<(P, LLMVerifierContext<V>), E>,
)
    requires
        contexts_made(md, max_context, generated, result),
    ensures
        result is Ok <==> generated is Ok,
        generated matches Err(error) ==> result == Err::<(P, LLMVerifierContext<V>), E>(error),
        generated matches Ok(made) ==> {
            &&& result->Ok_0.0 == made.0
            &&& result->Ok_0.1.verifier_ctx == made.1
            &&& result->Ok_0.1.max_context == max_context
            &&& result->Ok_0.1.md.same_as(&md)
        },
{
}

/// A loader is told of the window exactly where there is one, and it is that loader that
/// parses the data.
pub proof fn law_loaders_are_told_of_the_window<D, G, M: LLMModelLoader<D, G>>(
    model_type: M,
    data_format: &D,
    max_context: Option<usize>,
    loader: M,
    parsed: Result<(Model<G>, LLMMetadata), M::Error>,
)
    requires
        loaded(model_type, data_format, max_context, loader, parsed),
    ensures
        max_context is None ==> loader == model_type,
        max_context matches Some(length) ==> call_ensures(M::with_max_context_length, (model_type, length), loader),
        call_ensures(M::parse, (&loader, data_format), parsed),
{
}

/// A copy of a model has the same input shapes, one for one, and a clone of its layers.
pub proof fn law_copied_models_have_the_same_shapes<G: Clone>(copy: Model<G>, model: Model<G>, i: int)
    requires
        copy.copies(&model),
    ensures
        cloned(model.graph, copy.graph),
        copy.input_shapes@.len() == model.input_shapes@.len(),
        0 <= i < model.input_shapes@.len() ==> copy.input_shapes@[i]@ == model.input_shapes@[i]@,
{
    let a: Seq<Seq<usize>> = crate::axis_shapes::shape_views(copy.input_shapes@);
    let b: Seq<Seq<usize>> = crate::axis_shapes::shape_views(model.input_shapes@);
    assert(a.len() == copy.input_shapes@.len() && b.len() == model.input_shapes@.len());
    if 0 <= i < model.input_shapes@.len() {
        assert(a[i] == copy.input_shapes@[i]@ && b[i] == model.input_shapes@[i]@);
    }
}

/// Setting the window is what the loop is then told, and nothing else of it changes.
pub proof fn law_windows_reach_the_loop<G>(driver: Driver<G>, window: usize)
    ensures
        ({
            let set: Driver<G> = Driver { max_context: Some(window), ..driver };
            &&& set.spec_limits().max_window == window
            &&& set.spec_limits().context_length == driver.spec_limits().context_length
            &&& set.spec_limits().vocab_size == driver.spec_limits().vocab_size
            &&& set.spec_limits().eos == driver.spec_limits().eos
        }),
{
}

/// Tokens become a tensor of one dimension that holds their places, one for one, exactly
/// where they are no more than what the model takes.
pub proof fn law_tokens_become_a_tensor<G>(
    driver: Driver<G>,
    input: &[Token],
    result: Result<Tensor<Element>, DriverError>,
    i: int,
)
    requires
        call_ensures(Driver::<G>::tokens_to_tensor, (&driver, input), result),
    ensures
        result is Ok <==> input@.len() <= driver.md.config.context_length,
        result matches Err(error) ==> error == DriverError::InputTooLong,
        result matches Ok(tensor) ==> {
            &&& tensor@.shape.len() == 1
            &&& tensor@.data.len() == input@.len()
            &&& 0 <= i < input@.len() ==> tensor@.data[i] == input@[i].0 as i64
        },
{
}

/// Proving is planned for a full window, whatever the input, exactly where the input fits in
/// it.
pub proof fn law_proving_is_planned_for_a_full_window<G, K, C, B: FnOnce(usize, &K) -> C>(
    driver: Driver<G>,
    input: Tensor<Element>,
    model_ctx: K,
    new_strategy: B,
    result: Result<C, DriverError>,
    window: usize,
)
    requires
        call_ensures(Driver::<G>::chunking_strategy::<K, C, B>, (&driver, &input, &model_ctx, new_strategy), result),
        driver.max_context == Some(window) || driver.max_context is None && window == driver.md.config.context_length,
    ensures
        result is Ok <==> input@.data.len() <= window,
        result matches Ok(strategy) ==> new_strategy.ensures((window, &model_ctx), strategy),
        result matches Err(error) ==> error == DriverError::WindowTooSmall,
{
}

/// Whatever a reset leaves the model in, a run leaves it in too, and what the run came to is
/// what is returned.
pub proof fn law_runs_are_forgotten<G, S, I, T, F: FnOnce(&Model<G>, S, I) -> (S, T), R: FnOnce(&Model<G>, S) -> S>(
    driver: Driver<G>,
    runner: S,
    inputs: I,
    run: F,
    reset: R,
    result: (S, T),
    clean: spec_fn(S) -> bool,
    possible: spec_fn(T) -> bool,
)
    requires
        call_ensures(Driver::<G>::run_with_runner::<S, I, T, F, R>, (&driver, runner, inputs, run, reset), result),
        forall|before: S, after: S| #[trigger] reset.ensures((&driver.model, before), after) ==> clean(after),
        forall|after: S, outcome: T| #[trigger]
            run.ensures((&driver.model, runner, inputs), (after, outcome)) ==> possible(outcome),
    ensures
        clean(result.0),
        possible(result.1),
{
    let after: S = choose|after: S|
        run.ensures((&driver.model, runner, inputs), (after, result.1)) && #[trigger] reset.ensures(
            (&driver.model, after),
            result.0,
        );
    assert(run.ensures((&driver.model, runner, inputs), (after, result.1)));
}

/// The contexts for every length are generated for one sequence, whose length is the least
/// power of two that is no less than what the model takes. The verifier is given the window.
pub proof fn law_contexts_are_for_the_longest_sequence<
    G,
    P,
    V,
    E,
    F: FnOnce(&Model<G>, Vec<Shape>) -> Result<(P, V), E>,
>(driver: Driver<G>, generate: F, result: Result<(P, LLMVerifierContext<V>), E>)
    requires
        call_ensures(Driver::<G>::compute_all_contexts::<P, V, E, F>, (&driver, generate), result),
        power_of_two_above(driver.md.config.context_length as nat) <= usize::MAX,
    ensures
        exists|shapes: Vec<Shape>, generated: Result<(P, V), E>| #[trigger]
            generate.ensures((&driver.model, shapes), generated) && {
                &&& shapes@.len() == 1
                &&& shapes@[0]@.len() == 1
                &&& driver.md.config.context_length <= shapes@[0]@[0]
                &&& driver.md.config.context_length > 1 ==> shapes@[0]@[0] < 2 * driver.md.config.context_length
                &&& result is Ok <==> generated is Ok
                &&& generated matches Err(error) ==> result == Err::<(P, LLMVerifierContext<V>), E>(error)
                &&& generated matches Ok(made) ==> {
                    &&& result->Ok_0.0 == made.0
                    &&& result->Ok_0.1.verifier_ctx == made.1
                    &&& result->Ok_0.1.max_context == driver.max_context
                }
            },
{
    let (shapes, generated): (Vec<Shape>, Result<(P, V), E>) = choose|shapes: Vec<Shape>, generated: Result<(P, V), E>|
        #[trigger] generate.ensures((&driver.model, shapes), generated) && is_vector_shape(
            shapes,
            power_of_two_above(driver.md.config.context_length as nat) as usize,
        ) && contexts_made(driver.md, driver.max_context, generated, result);
    crate::shape_laws::law_rounding_up_is_tight(driver.md.config.context_length as nat, 0);
    assert(generate.ensures((&driver.model, shapes), generated));
}

/// The contexts of one length leave the window to the verifier.
pub proof fn law_contexts_leave_the_window_open<G, P, V, E, F: FnOnce(&Model<G>) -> Result<(P, V), E>>(
    driver: Driver<G>,
    generate: F,
    result: Result<(P, LLMVerifierContext<V>), E>,
)
    requires
        call_ensures(Driver::<G>::context::<P, V, E, F>, (&driver, generate), result),
    ensures
        exists|generated: Result<(P, V), E>| #[trigger]
            generate.ensures((&driver.model,), generated) && {
                &&& result is Ok <==> generated is Ok
                &&& generated matches Err(error) ==> result == Err::<(P, LLMVerifierContext<V>), E>(error)
                &&& generated matches Ok(made) ==> {
                    &&& result->Ok_0.0 == made.0
                    &&& result->Ok_0.1.verifier_ctx == made.1
                    &&& result->Ok_0.1.max_context is None
                }
            },
{
    let generated: Result<(P, V), E> = choose|generated: Result<(P, V), E>| #[trigger]
        generate.ensures((&driver.model,), generated) && contexts_made(driver.md, None, generated, result);
    assert(generate.ensures((&driver.model,), generated));
}

} // verus!
