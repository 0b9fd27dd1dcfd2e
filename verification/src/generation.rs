//! The loop that generates a sentence, token by token.
//!
//! A model takes a prompt and returns, for every place, the token that it expects next.
//! The token at the last place is handed back to it, alone, until the model ends the
//! sentence or the window is full. A last run over the whole sentence then produces the
//! trace to be proven, and the tokens of that trace must be the ones that were generated.

use crate::metadata::{id_of, to_usize};
use crate::tensor::{Element, Tensor, TensorView};
use vstd::prelude::*;

verus! {

/// Why no sentence was generated. `E` is the error of the model itself.
#[derive(Debug)]
pub enum GenerationError<E> {
    /// The prompt leaves no room for a token within what the model takes.
    PromptTooLong,
    /// The prompt is longer than the window.
    WindowTooSmall,
    /// The prompt holds what is no token.
    UnknownToken,
    /// The model failed at some iteration of the loop.
    Step { iteration: usize, error: E },
    /// The model must return one tensor.
    OutputCount { found: usize },
    /// The output has no token at the place that was asked for.
    NoToken { place: usize },
    /// The prompt is empty, so that no place comes before the first generated token.
    EmptyPrompt,
    /// The model failed on the whole sentence.
    Trace(E),
    /// The trace does not reach to the place of a generated token.
    TraceTooShort { place: usize },
    /// The trace expects another token at a place than the one generated.
    TraceDiffers { place: usize },
}

/// The trace of a run over a whole sentence. `X` is what the trace holds of the layers.
#[derive(Debug)]
pub struct Trace<X> {
    pub inputs: Vec<Tensor<Element>>,
    pub outputs: Vec<Tensor<Element>>,
    pub steps: X,
}

/// What the loop has to know of the model.
#[derive(Debug, Clone, Copy)]
pub struct Limits {
    /// The longest sequence that the model takes.
    pub context_length: usize,
    /// The longest sequence that is generated.
    pub max_window: usize,
    /// The number of tokens.
    pub vocab_size: usize,
    /// The element of the token that ends a sentence.
    pub eos: Element,
}

/// How an output is no source of a token.
pub enum Unpicked {
    OutputCount(nat),
    EmptyPrompt,
    NoToken(int),
}

/// The place of the next token in an output of `len` elements, for a sequence of
/// `seq_len` tokens: the only one, or the last of the sequence.
pub open spec fn token_place(len: nat, seq_len: int) -> int {
    if len == 1 {
        0
    } else {
        seq_len - 1
    }
}

/// The token that an output names for a sequence of `seq_len` tokens.
pub open spec fn picked(outputs: Seq<Tensor<Element>>, seq_len: int) -> Result<Element, Unpicked> {
    if outputs.len() != 1 {
        Err(Unpicked::OutputCount(outputs.len()))
    } else {
        let data: Seq<Element> = outputs[0]@.data;
        let place: int = token_place(data.len(), seq_len);
        if place < 0 {
            Err(Unpicked::EmptyPrompt)
        } else if place >= data.len() {
            Err(Unpicked::NoToken(place))
        } else {
            Ok(data[place])
        }
    }
}

/// The error for an output that names no token.
pub open spec fn unpicked_error<E>(reason: Unpicked) -> GenerationError<E> {
    match reason {
        Unpicked::OutputCount(found) => GenerationError::OutputCount { found: found as usize },
        Unpicked::EmptyPrompt => GenerationError::EmptyPrompt,
        Unpicked::NoToken(place) => GenerationError::NoToken { place: place as usize },
    }
}

impl Limits {
    /// Why a prompt is refused, if it is.
    pub open spec fn prompt_error<E>(self, prompt: Seq<Element>) -> Option<GenerationError<E>> {
        if prompt.len() >= self.context_length - 1 {
            Some(GenerationError::PromptTooLong)
        } else if prompt.len() > self.max_window {
            Some(GenerationError::WindowTooSmall)
        } else if exists|i: int| 0 <= i < prompt.len() && id_of(#[trigger] prompt[i]) >= self.vocab_size {
            Some(GenerationError::UnknownToken)
        } else {
            None
        }
    }
}

/// A run of the loop: the states of the model, what it was given and what it returned.
pub struct Transcript<S> {
    pub states: Seq<S>,
    pub inputs: Seq<Tensor<Element>>,
    pub outputs: Seq<Vec<Tensor<Element>>>,
}

impl<S> Transcript<S> {
    /// The number of iterations that named a token.
    pub open spec fn len(self) -> nat {
        self.outputs.len()
    }

    /// The token that an iteration named.
    pub open spec fn token(self, prompt_len: int, iteration: int) -> Element {
        picked(self.outputs[iteration]@, prompt_len + iteration)->Ok_0
    }

    /// The tokens that were named.
    pub open spec fn tokens(self, prompt_len: int) -> Seq<Element> {
        Seq::new(self.len(), |k: int| self.token(prompt_len, k))
    }

    /// What an iteration is given: the prompt, and after it the last token named.
    pub open spec fn given(self, prompt: TensorView<Element>, iteration: int) -> TensorView<Element> {
        if iteration == 0 {
            prompt
        } else {
            TensorView { shape: seq![1usize], data: seq![self.token(prompt.data.len() as int, iteration - 1)] }
        }
    }

    /// Every iteration gave the model what was due, and took a token from what came back;
    /// none followed one that ended the sentence.
    pub open spec fn follows<M, E, F: Fn(&M, S, Tensor<Element>) -> (S, Result<Vec<Tensor<Element>>, E>)>(
        self,
        net: &M,
        step: F,
        limits: Limits,
        prompt: TensorView<Element>,
    ) -> bool {
        let prompt_len: int = prompt.data.len() as int;
        &&& self.states.len() == self.len() + 1
        &&& self.inputs.len() == self.len()
        &&& prompt_len + self.len() <= limits.max_window + 1
        &&& forall|k: int| 0 <= k < self.len() ==> (#[trigger] self.inputs[k])@ == self.given(prompt, k)
        &&& forall|k: int|
            0 <= k < self.len() ==> step.ensures(
                (net, self.states[k], self.inputs[k]),
                (self.states[k + 1], Ok(#[trigger] self.outputs[k])),
            )
        &&& forall|k: int| 0 <= k < self.len() ==> picked((#[trigger] self.outputs[k])@, prompt_len + k) is Ok
        &&& forall|k: int| 0 <= k < self.len() - 1 ==> #[trigger] self.token(prompt_len, k) != limits.eos
    }

    /// The loop is over: the sentence was ended, or the window is full.
    pub open spec fn over(self, limits: Limits, prompt_len: int) -> bool {
        ||| prompt_len + self.len() == limits.max_window + 1
        ||| self.len() > 0 && self.token(prompt_len, self.len() - 1) == limits.eos
    }

    /// The sentence: the prompt, and the tokens but for the last one. That one ended the
    /// sentence or is beyond the window.
    pub open spec fn sentence(self, prompt: Seq<Element>) -> Seq<Element> {
        prompt + self.tokens(prompt.len() as int).drop_last()
    }
}

/// What a trace lacks of the tokens generated from place `from` up to place `to`.
pub open spec fn trace_error<E, X>(trace: Trace<X>, from: int, to: int) -> Option<GenerationError<E>>
    decreases to - from,
{
    if from >= to {
        None
    } else if from == 0 {
        Some(GenerationError::EmptyPrompt)
    } else if trace.outputs@.len() == 0 || trace.inputs@.len() == 0 || from - 1 >= trace.outputs@[0]@.data.len()
        || from >= trace.inputs@[0]@.data.len() {
        Some(GenerationError::TraceTooShort { place: from as usize })
    } else if trace.outputs@[0]@.data[from - 1] != trace.inputs@[0]@.data[from] {
        Some(GenerationError::TraceDiffers { place: from as usize })
    } else {
        trace_error(trace, from + 1, to)
    }
}

/// The prompt of every sentence is its beginning, no sentence is longer than the window,
/// and no token that was generated ends the sentence.
pub proof fn law_sentence<M, S, E, F: Fn(&M, S, Tensor<Element>) -> (S, Result<Vec<Tensor<Element>>, E>)>(
    run: Transcript<S>,
    net: &M,
    step: F,
    limits: Limits,
    prompt: TensorView<Element>,
)
    requires
        run.follows(net, step, limits, prompt),
        run.over(limits, prompt.data.len() as int),
        prompt.data.len() <= limits.max_window,
    ensures
        run.len() > 0,
        prompt.data.is_prefix_of(run.sentence(prompt.data)),
        run.sentence(prompt.data).len() == prompt.data.len() + run.len() - 1,
        run.sentence(prompt.data).len() <= limits.max_window,
        forall|i: int|
            prompt.data.len() <= i < run.sentence(prompt.data).len() ==> #[trigger] run.sentence(prompt.data)[i]
                != limits.eos,
{
    let prompt_len: int = prompt.data.len() as int;
    assert forall|i: int| prompt_len <= i < run.sentence(prompt.data).len() implies #[trigger] run.sentence(
        prompt.data,
    )[i] != limits.eos by {
        assert(run.sentence(prompt.data)[i] == run.token(prompt_len, i - prompt_len));
    }
    assert(run.sentence(prompt.data).take(prompt_len) =~= prompt.data);
}

/// A sentence that was not ended fills the window.
pub proof fn law_unended_sentence_fills_window<M, S, E, F: Fn(&M, S, Tensor<Element>) -> (
    S,
    Result<Vec<Tensor<Element>>, E>,
)>(run: Transcript<S>, net: &M, step: F, limits: Limits, prompt: TensorView<Element>)
    requires
        run.follows(net, step, limits, prompt),
        run.over(limits, prompt.data.len() as int),
        prompt.data.len() <= limits.max_window,
        !run.tokens(prompt.data.len() as int).contains(limits.eos),
    ensures
        run.sentence(prompt.data).len() == limits.max_window,
{
    if run.len() > 0 {
        let last: int = run.len() - 1;
        assert(run.tokens(prompt.data.len() as int)[last] == run.token(prompt.data.len() as int, last));
    }
}

/// In a trace that was accepted, every generated token is the one that the trace expects
/// behind the tokens before it.
pub proof fn law_accepted_trace_is_sequential<E, X>(trace: Trace<X>, from: int, to: int, place: int)
    requires
        0 <= from <= place < to,
        trace_error::<E, X>(trace, from, to) is None,
    ensures
        0 < place < trace.inputs@[0]@.data.len(),
        place - 1 < trace.outputs@[0]@.data.len(),
        trace.outputs@[0]@.data[place - 1] == trace.inputs@[0]@.data[place],
    decreases to - from,
{
    if from < place {
        law_accepted_trace_is_sequential::<E, X>(trace, from + 1, to, place);
    }
}

fn prompt_is_known(limits: &Limits, prompt: &Vec<Element>) -> (known: bool)
    ensures
        known == !(exists|i: int| 0 <= i < prompt@.len() && id_of(#[trigger] prompt@[i]) >= limits.vocab_size),
{
    let mut i: usize = 0;
    while i < prompt.len()
        invariant
            i <= prompt.len(),
            forall|j: int| 0 <= j < i ==> id_of(#[trigger] prompt@[j]) < limits.vocab_size,
        decreases prompt.len() - i,
    {
        if to_usize(prompt[i]) >= limits.vocab_size {
            assert(id_of(prompt@[i as int]) >= limits.vocab_size);
            return false;
        }
        i = i + 1;
    }
    true
}

/// Checks a prompt before the model sees it.
pub fn check_prompt<E>(limits: &Limits, prompt: &Vec<Element>) -> (result: Result<(), GenerationError<E>>)
    requires
        limits.context_length > 0,
    ensures
        match (result, limits.prompt_error::<E>(prompt@)) {
            (Ok(_), None) => true,
            (Err(error), Some(reason)) => error == reason,
            _ => false,
        },
{
    if prompt.len() >= limits.context_length - 1 {
        return Err(GenerationError::PromptTooLong);
    }
    if prompt.len() > limits.max_window {
        return Err(GenerationError::WindowTooSmall);
    }
    if !prompt_is_known(limits, prompt) {
        return Err(GenerationError::UnknownToken);
    }
    Ok(())
}

/// Takes the next token from what the model returned for a sequence of `seq_len` tokens.
pub fn pick_token<E>(outputs: &Vec<Tensor<Element>>, seq_len: usize) -> (result: Result<Element, GenerationError<E>>)
    ensures
        match (result, picked(outputs@, seq_len as int)) {
            (Ok(token), Ok(expected)) => token == expected,
            (Err(error), Err(reason)) => error == unpicked_error::<E>(reason),
            _ => false,
        },
{
    if outputs.len() != 1 {
        return Err(GenerationError::OutputCount { found: outputs.len() });
    }
    let data: &Vec<Element> = outputs[0].get_data();
    let place: usize = if data.len() == 1 {
        0
    } else if seq_len == 0 {
        return Err(GenerationError::EmptyPrompt);
    } else {
        seq_len - 1
    };
    if place >= data.len() {
        return Err(GenerationError::NoToken { place });
    }
    Ok(data[place])
}

/// Checks that the trace of a whole sentence names the tokens that were generated from
/// place `from` up to place `to`.
pub fn check_trace<E, X>(trace: &Trace<X>, from: usize, to: usize) -> (result: Result<(), GenerationError<E>>)
    ensures
        match (result, trace_error::<E, X>(*trace, from as int, to as int)) {
            (Ok(_), None) => true,
            (Err(error), Some(reason)) => error == reason,
            _ => false,
        },
{
    let mut i: usize = from;
    while i < to
        invariant
            from <= i,
            from <= to ==> i <= to,
            trace_error::<E, X>(*trace, from as int, to as int) == trace_error::<E, X>(*trace, i as int, to as int),
        decreases to - i,
    {
        if i == 0 {
            return Err(GenerationError::EmptyPrompt);
        }
        if trace.outputs.len() == 0 || trace.inputs.len() == 0 {
            return Err(GenerationError::TraceTooShort { place: i });
        }
        let output: &Vec<Element> = trace.outputs[0].get_data();
        let input: &Vec<Element> = trace.inputs[0].get_data();
        if i - 1 >= output.len() || i >= input.len() {
            return Err(GenerationError::TraceTooShort { place: i });
        }
        if output[i - 1] != input[i] {
            return Err(GenerationError::TraceDiffers { place: i });
        }
        i = i + 1;
    }
    Ok(())
}

/// A whole session with a model: the loop, and what came before and after it. Of the
/// fields after `run`, only those that the session got to mean anything.
pub struct Session<S, E, X> {
    /// The state after the first reset, before the loop.
    pub first: S,
    /// The loop, as far as it got.
    pub run: Transcript<S>,
    /// What the iteration that failed was given.
    pub input: Tensor<Element>,
    /// What the iteration that failed returned.
    pub failed: Result<Vec<Tensor<Element>>, E>,
    /// The state after the selective reset, before the last run.
    pub ready: S,
    /// The whole sentence.
    pub sentence: Tensor<Element>,
    /// The state after the last run.
    pub after: S,
    /// What the last run returned.
    pub traced: Result<Trace<X>, E>,
}

impl<S, E, X> Session<S, E, X> {
    /// The loop stopped because an iteration failed or named no token.
    pub open spec fn broken_off<M, F: Fn(&M, S, Tensor<Element>) -> (S, Result<Vec<Tensor<Element>>, E>)>(
        self,
        net: &M,
        step: F,
        prompt: TensorView<Element>,
        result: (S, Result<Trace<X>, GenerationError<E>>),
    ) -> bool {
        &&& self.input@ == self.run.given(prompt, self.run.len() as int)
        &&& step.ensures((net, self.run.states.last(), self.input), (result.0, self.failed))
        &&& match self.failed {
            Err(error) => result.1 == Err::<Trace<X>, GenerationError<E>>(
                GenerationError::Step { iteration: self.run.len() as usize, error },
            ),
            Ok(outputs) => {
                &&& picked(outputs@, (prompt.data.len() + self.run.len()) as int) is Err
                &&& result.1 == Err::<Trace<X>, GenerationError<E>>(
                    unpicked_error(picked(outputs@, (prompt.data.len() + self.run.len()) as int)->Err_0),
                )
            },
        }
    }

    /// The loop came to its end, and a last run went over the whole sentence.
    pub open spec fn completed<
        M,
        I,
        R: Fn(&M, S) -> S,
        Q: Fn(&M, S) -> S,
        G: Fn(&M, S, Tensor<Element>, Option<&I>) -> (S, Result<Trace<X>, E>),
    >(
        self,
        net: &M,
        split: Option<&I>,
        reset: R,
        reset_selective: Q,
        trace: G,
        prompt: TensorView<Element>,
        result: (S, Result<Trace<X>, GenerationError<E>>),
    ) -> bool {
        let sentence: Seq<Element> = self.run.sentence(prompt.data);
        &&& reset_selective.ensures((net, self.run.states.last()), self.ready)
        &&& self.sentence@ == (TensorView { shape: seq![sentence.len() as usize], data: sentence })
        &&& trace.ensures((net, self.ready, self.sentence, split), (self.after, self.traced))
        &&& match self.traced {
            Err(error) => result == (
                self.after,
                Err::<Trace<X>, GenerationError<E>>(GenerationError::Trace(error)),
            ),
            Ok(traced) => match trace_error::<E, X>(traced, prompt.data.len() as int, sentence.len() as int) {
                Some(error) => result == (self.after, Err::<Trace<X>, GenerationError<E>>(error)),
                None => {
                    &&& reset.ensures((net, self.after), result.0)
                    &&& result.1 == Ok::<Trace<X>, GenerationError<E>>(traced)
                },
            },
        }
    }

    /// The session accounts for a result.
    pub open spec fn explains<
        M,
        I,
        R: Fn(&M, S) -> S,
        Q: Fn(&M, S) -> S,
        F: Fn(&M, S, Tensor<Element>) -> (S, Result<Vec<Tensor<Element>>, E>),
        G: Fn(&M, S, Tensor<Element>, Option<&I>) -> (S, Result<Trace<X>, E>),
    >(
        self,
        net: &M,
        split: Option<&I>,
        limits: Limits,
        state: S,
        prompt: TensorView<Element>,
        model: (R, Q, F, G),
        result: (S, Result<Trace<X>, GenerationError<E>>),
    ) -> bool {
        let (reset, reset_selective, step, trace) = model;
        &&& reset.ensures((net, state), self.first)
        &&& match limits.prompt_error::<E>(prompt.data) {
            Some(error) => result == (self.first, Err::<Trace<X>, GenerationError<E>>(error)),
            None => {
                &&& self.run.follows(net, step, limits, prompt)
                &&& self.run.states[0] == self.first
                &&& if self.run.over(limits, prompt.data.len() as int) {
                    self.completed(net, split, reset, reset_selective, trace, prompt, result)
                } else {
                    self.broken_off(net, step, prompt, result)
                }
            },
        }
    }
}

fn one_token(token: Element) -> (tensor: Tensor<Element>)
    ensures
        tensor@ == (TensorView { shape: seq![1usize], data: seq![token] }),
{
    let mut data: Vec<Element> = Vec::new();
    data.push(token);
    assert(data@ =~= seq![token]);
    Tensor::from_vec(data)
}

fn copied(elements: &Vec<Element>) -> (copy: Vec<Element>)
    ensures
        copy@ == elements@,
{
    let mut copy: Vec<Element> = Vec::new();
    let mut i: usize = 0;
    while i < elements.len()
        invariant
            i <= elements.len(),
            copy@ == elements@.take(i as int),
        decreases elements.len() - i,
    {
        copy.push(elements[i]);
        i = i + 1;
    }
    assert(elements@.take(i as int) =~= elements@);
    copy
}

/// Generates a sentence from a prompt, and returns the trace of a run over the whole of
/// it.
///
/// The sentence is bounded by the token that ends it and by the window. The model `net` is
/// at work in a state, and each of these acts on both: `reset` makes it forget everything,
/// `reset_selective` all that would make the last run one over a single token, `step`
/// runs it within the loop, and `trace` over the whole sentence, with the layers split as
/// `split` says.
pub fn run_elements_with_runner<
    M,
    I,
    S,
    E,
    X,
    R: Fn(&M, S) -> S,
    Q: Fn(&M, S) -> S,
    F: Fn(&M, S, Tensor<Element>) -> (S, Result<Vec<Tensor<Element>>, E>),
    G: Fn(&M, S, Tensor<Element>, Option<&I>) -> (S, Result<Trace<X>, E>),
>(
    net: &M,
    split: Option<&I>,
    limits: Limits,
    state: S,
    prompt: Tensor<Element>,
    reset: R,
    reset_selective: Q,
    step: F,
    trace: G,
) -> (result: (S, Result<Trace<X>, GenerationError<E>>))
    requires
        limits.context_length > 0,
        forall|s: S| reset.requires((net, s)),
        forall|s: S| reset_selective.requires((net, s)),
        forall|s: S, input: Tensor<Element>| step.requires((net, s, input)),
        forall|s: S, input: Tensor<Element>| trace.requires((net, s, input, split)),
    ensures
        exists|session: Session<S, E, X>| #[trigger]
            session.explains(net, split, limits, state, prompt@, (reset, reset_selective, step, trace), result),
{
    let ghost view: TensorView<Element> = prompt@;
    let ghost model: (R, Q, F, G) = (reset, reset_selective, step, trace);
    let first: S = reset(net, state);
    let ghost start: S = first;
    let mut sentence: Vec<Element> = copied(prompt.get_data());
    let num_input: usize = sentence.len();
    match check_prompt::<E>(&limits, &sentence) {
        Ok(_) => {},
        Err(error) => {
            proof {
                let session: Session<S, E, X> = Session {
                    first: start,
                    run: arbitrary(),
                    input: arbitrary(),
                    failed: arbitrary(),
                    ready: arbitrary(),
                    sentence: arbitrary(),
                    after: arbitrary(),
                    traced: arbitrary(),
                };
                assert(session.explains(net, split, limits, state, view, model, (start, Err(error))));
            }
            return (first, Err(error));
        },
    }
    let mut current: S = first;
    let mut input: Tensor<Element> = prompt;
    let mut seq_len: usize = num_input;
    let mut over: bool = false;
    let ghost mut run: Transcript<S> = Transcript {
        states: seq![start],
        inputs: Seq::empty(),
        outputs: Seq::empty(),
    };
    let ghost n: int = num_input as int;
    assert(sentence@ =~= view.data + run.tokens(n));
    while !over
        invariant
            n == num_input == view.data.len(),
            model == (reset, reset_selective, step, trace),
            view == prompt@,
            limits.prompt_error::<E>(view.data) is None,
            reset.ensures((net, state), start),
            forall|s: S, input: Tensor<Element>| step.requires((net, s, input)),
            run.follows(net, step, limits, view),
            run.states[0] == start,
            run.states.last() == current,
            over == run.over(limits, n),
            !over ==> input@ == run.given(view, run.len() as int),
            !over ==> seq_len == n + run.len(),
            !over ==> seq_len <= limits.max_window,
            sentence@ == view.data + if over {
                run.tokens(n).drop_last()
            } else {
                run.tokens(n)
            },
        decreases (if over {
            0int
        } else {
            limits.max_window + 1 - seq_len
        }),
    {
        let ghost before: S = current;
        let ghost handed: Tensor<Element> = input;
        let (next, outcome): (S, Result<Vec<Tensor<Element>>, E>) = step(net, current, input);
        let ghost stopped: Session<S, E, X> = Session {
            first: start,
            run,
            input: handed,
            failed: outcome,
            ready: arbitrary(),
            sentence: arbitrary(),
            after: arbitrary(),
            traced: arbitrary(),
        };
        let outputs: Vec<Tensor<Element>> = match outcome {
            Ok(outputs) => outputs,
            Err(error) => {
                let iteration: usize = seq_len - num_input;
                assert(stopped.explains(
                    net,
                    split,
                    limits,
                    state,
                    view,
                    model,
                    (next, Err(GenerationError::Step { iteration, error })),
                ));
                return (next, Err(GenerationError::Step { iteration, error }));
            },
        };
        let token: Element = match pick_token::<E>(&outputs, seq_len) {
            Ok(token) => token,
            Err(error) => {
                assert(stopped.explains(net, split, limits, state, view, model, (next, Err(error))));
                return (next, Err(error));
            },
        };
        let ghost earlier: Transcript<S> = run;
        proof {
            run = Transcript {
                states: earlier.states.push(next),
                inputs: earlier.inputs.push(handed),
                outputs: earlier.outputs.push(outputs),
            };
            lemma_run_grows(earlier, run, net, step, limits, view, next, handed, outputs);
        }
        assert(run.token(n, earlier.len() as int) == token);
        assert(run.tokens(n) =~= earlier.tokens(n).push(token));
        assert(run.tokens(n).drop_last() =~= earlier.tokens(n));
        current = next;
        if token == limits.eos || seq_len == limits.max_window {
            over = true;
        } else {
            sentence.push(token);
            assert(sentence@ =~= view.data + run.tokens(n));
            seq_len = seq_len + 1;
        }
        input = one_token(token);
    }
    assert(sentence@ == run.sentence(view.data));
    let full_len: usize = sentence.len();
    let whole: Tensor<Element> = Tensor::from_vec(sentence);
    let ghost last: S = current;
    let ready: S = reset_selective(net, current);
    let ghost prepared: S = ready;
    let ghost given: Tensor<Element> = whole;
    let (after, traced): (S, Result<Trace<X>, E>) = trace(net, ready, whole, split);
    let ghost session: Session<S, E, X> = Session {
        first: start,
        run,
        input: arbitrary(),
        failed: arbitrary(),
        ready: prepared,
        sentence: given,
        after,
        traced,
    };
    let traced: Trace<X> = match traced {
        Ok(traced) => traced,
        Err(error) => {
            assert(session.explains(net, split, limits, state, view, model, (after, Err(GenerationError::Trace(error)))));
            return (after, Err(GenerationError::Trace(error)));
        },
    };
    match check_trace::<E, X>(&traced, num_input, full_len) {
        Ok(_) => {},
        Err(error) => {
            assert(session.explains(net, split, limits, state, view, model, (after, Err(error))));
            return (after, Err(error));
        },
    }
    let end: S = reset(net, after);
    assert(session.explains(net, split, limits, state, view, model, (end, Ok(traced))));
    (end, Ok(traced))
}

proof fn lemma_run_grows<M, S, E, F: Fn(&M, S, Tensor<Element>) -> (S, Result<Vec<Tensor<Element>>, E>)>(
    earlier: Transcript<S>,
    run: Transcript<S>,
    net: &M,
    step: F,
    limits: Limits,
    prompt: TensorView<Element>,
    next: S,
    input: Tensor<Element>,
    outputs: Vec<Tensor<Element>>,
)
    requires
        earlier.follows(net, step, limits, prompt),
        !earlier.over(limits, prompt.data.len() as int),
        run == (Transcript {
            states: earlier.states.push(next),
            inputs: earlier.inputs.push(input),
            outputs: earlier.outputs.push(outputs),
        }),
        input@ == earlier.given(prompt, earlier.len() as int),
        step.ensures((net, earlier.states.last(), input), (next, Ok(outputs))),
        picked(outputs@, (prompt.data.len() + earlier.len()) as int) is Ok,
    ensures
        run.follows(net, step, limits, prompt),
        run.len() == earlier.len() + 1,
        forall|k: int|
            0 <= k < earlier.len() ==> #[trigger] run.token(prompt.data.len() as int, k) == earlier.token(
                prompt.data.len() as int,
                k,
            ),
{
    let n: int = prompt.data.len() as int;
    let len: int = earlier.len() as int;
    assert forall|k: int| 0 <= k < len implies #[trigger] run.token(n, k) == earlier.token(n, k) by {
        assert(run.outputs[k] == earlier.outputs[k]);
    }
    assert forall|k: int| 0 <= k < run.len() implies (#[trigger] run.inputs[k])@ == run.given(prompt, k) by {
        if k < len {
            assert(run.inputs[k] == earlier.inputs[k]);
        }
        if k > 0 {
            assert(run.token(n, k - 1) == earlier.token(n, k - 1));
        }
        assert(run.given(prompt, k) == earlier.given(prompt, k));
    }
    assert forall|k: int| 0 <= k < run.len() implies step.ensures(
        (net, run.states[k], run.inputs[k]),
        (run.states[k + 1], Ok(#[trigger] run.outputs[k])),
    ) by {
        if k < len {
            assert(run.outputs[k] == earlier.outputs[k]);
            assert(run.states[k] == earlier.states[k] && run.states[k + 1] == earlier.states[k + 1]);
        } else {
            assert(run.states[k] == earlier.states.last());
        }
    }
    assert forall|k: int| 0 <= k < run.len() implies picked((#[trigger] run.outputs[k])@, n + k) is Ok by {
        if k < len {
            assert(run.outputs[k] == earlier.outputs[k]);
        }
    }
    assert forall|k: int| 0 <= k < run.len() - 1 implies #[trigger] run.token(n, k) != limits.eos by {
        assert(run.token(n, k) == earlier.token(n, k));
    }
}

} // verus!
