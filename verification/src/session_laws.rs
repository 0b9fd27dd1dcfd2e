//! What every generated token is, what the model is given and when the loop ends.

use crate::generation::{
    picked, trace_error, unpicked_error, GenerationError, Limits, Session, Trace, Transcript, Unpicked,
};
use crate::tensor::{Element, Tensor, TensorView};
use vstd::prelude::*;

verus! {

/// The next token stands at the last place of the sequence, or is the only one of the
/// output; a model that returns another number of tensors than one names none.
pub proof fn law_next_token_stands_at_the_last_place(outputs: Seq<Tensor<Element>>, seq_len: int)
    ensures
        outputs.len() != 1 ==> picked(outputs, seq_len) == Err::<Element, Unpicked>(Unpicked::OutputCount(outputs.len())),
        outputs.len() == 1 && outputs[0]@.data.len() == 1 ==> picked(outputs, seq_len) == Ok::<Element, Unpicked>(
            outputs[0]@.data[0],
        ),
        outputs.len() == 1 && outputs[0]@.data.len() != 1 && 1 <= seq_len <= outputs[0]@.data.len() ==> picked(
            outputs,
            seq_len,
        ) == Ok::<Element, Unpicked>(outputs[0]@.data[seq_len - 1]),
        outputs.len() == 1 && outputs[0]@.data.len() != 1 && seq_len <= 0 ==> picked(outputs, seq_len) == Err::<
            Element,
            Unpicked,
        >(Unpicked::EmptyPrompt),
        outputs.len() == 1 && outputs[0]@.data.len() != 1 && seq_len >= 1 && seq_len > outputs[0]@.data.len()
            ==> picked(outputs, seq_len) == Err::<Element, Unpicked>(Unpicked::NoToken(seq_len - 1)),
{
}

/// Every way in which an output names no token has an error of its own.
pub proof fn law_outputs_without_a_token<E>(found: usize, place: usize)
    ensures
        unpicked_error::<E>(Unpicked::OutputCount(found as nat)) == (GenerationError::<E>::OutputCount { found }),
        unpicked_error::<E>(Unpicked::EmptyPrompt) == GenerationError::<E>::EmptyPrompt,
        unpicked_error::<E>(Unpicked::NoToken(place as int)) == (GenerationError::<E>::NoToken { place }),
{
}

/// A prompt is taken exactly where it leaves room for a token within what the model takes,
/// fits in the window and holds nothing but tokens.
pub proof fn law_prompts_that_are_taken<E>(limits: Limits, prompt: Seq<Element>)
    ensures
        limits.prompt_error::<E>(prompt) is None <==> {
            &&& prompt.len() + 1 < limits.context_length
            &&& prompt.len() <= limits.max_window
            &&& forall|i: int| 0 <= i < prompt.len() ==> ((#[trigger] prompt[i]) as usize) < limits.vocab_size
        },
        prompt.len() + 1 >= limits.context_length ==> limits.prompt_error::<E>(prompt) == Some(
            GenerationError::<E>::PromptTooLong,
        ),
        prompt.len() + 1 < limits.context_length && prompt.len() > limits.max_window ==> limits.prompt_error::<E>(
            prompt,
        ) == Some(GenerationError::<E>::WindowTooSmall),
        limits.prompt_error::<E>(prompt) is Some && prompt.len() + 1 < limits.context_length && prompt.len()
            <= limits.max_window ==> limits.prompt_error::<E>(prompt) == Some(GenerationError::<E>::UnknownToken),
{
}

/// The trace has a token at the place behind one that expects it.
spec fn names_token<X>(trace: Trace<X>, place: int) -> bool {
    &&& 0 < place
    &&& trace.outputs@.len() > 0
    &&& trace.inputs@.len() > 0
    &&& place - 1 < trace.outputs@[0]@.data.len()
    &&& place < trace.inputs@[0]@.data.len()
    &&& trace.outputs@[0]@.data[place - 1] == trace.inputs@[0]@.data[place]
}

proof fn lemma_accepted<E, X>(trace: Trace<X>, from: int, to: int)
    requires
        0 <= from,
    ensures
        trace_error::<E, X>(trace, from, to) is None <==> forall|place: int|
            from <= place < to ==> #[trigger] names_token(trace, place),
    decreases to - from,
{
    if from < to {
        lemma_accepted::<E, X>(trace, from + 1, to);
        if names_token(trace, from) {
            assert(trace_error::<E, X>(trace, from, to) == trace_error::<E, X>(trace, from + 1, to));
            assert forall|place: int|
                (forall|p: int| from + 1 <= p < to ==> #[trigger] names_token(trace, p)) && from <= place
                    < to implies #[trigger] names_token(trace, place) by {
                if place != from {
                    assert(from + 1 <= place < to);
                }
            }
        } else {
            assert(trace_error::<E, X>(trace, from, to) is Some);
        }
    }
}

/// A trace is accepted exactly where every generated token is what the first output expects
/// one place before it.
pub proof fn law_traces_that_are_accepted<E, X>(trace: Trace<X>, from: int, to: int)
    requires
        0 <= from,
    ensures
        trace_error::<E, X>(trace, from, to) is None <==> from >= to || {
            &&& 0 < from
            &&& trace.outputs@.len() > 0
            &&& trace.inputs@.len() > 0
            &&& to - 1 <= trace.outputs@[0]@.data.len()
            &&& to <= trace.inputs@[0]@.data.len()
            &&& forall|place: int|
                from <= place < to ==> trace.outputs@[0]@.data[place - 1] == #[trigger] trace.inputs@[0]@.data[place]
        },
{
    lemma_accepted::<E, X>(trace, from, to);
    if from < to {
        if trace_error::<E, X>(trace, from, to) is None {
            assert(names_token(trace, from));
            assert(names_token(trace, to - 1));
            assert forall|place: int| from <= place < to implies trace.outputs@[0]@.data[place - 1]
                == #[trigger] trace.inputs@[0]@.data[place] by {
                assert(names_token(trace, place));
            }
        }
    }
}

/// A trace is refused for the first place at which it is too short or expects another token.
pub proof fn law_traces_are_refused_for_the_first_place<E, X>(trace: Trace<X>, from: int, to: int, place: usize)
    requires
        0 < from <= place < to,
        trace_error::<E, X>(trace, from, place as int) is None,
    ensures
        trace.outputs@.len() == 0 || trace.inputs@.len() == 0 || place > trace.outputs@[0]@.data.len() || place
            >= trace.inputs@[0]@.data.len() ==> trace_error::<E, X>(trace, from, to) == Some(
            GenerationError::<E>::TraceTooShort { place },
        ),
        trace.outputs@.len() > 0 && trace.inputs@.len() > 0 && place <= trace.outputs@[0]@.data.len() && place
            < trace.inputs@[0]@.data.len() && trace.outputs@[0]@.data[place - 1] != trace.inputs@[0]@.data[place as int]
            ==> trace_error::<E, X>(trace, from, to) == Some(GenerationError::<E>::TraceDiffers { place }),
    decreases to - from,
{
    if from < place {
        assert(trace_error::<E, X>(trace, from, to) == trace_error::<E, X>(trace, from + 1, to));
        law_traces_are_refused_for_the_first_place::<E, X>(trace, from + 1, to, place);
    }
}

/// Where the prompt is empty no place comes before the first generated token.
pub proof fn law_empty_prompts_have_no_trace<E, X>(trace: Trace<X>, to: int)
    requires
        0 < to,
    ensures
        trace_error::<E, X>(trace, 0, to) == Some(GenerationError::<E>::EmptyPrompt),
{
}

/// Every iteration hands the model the state that the one before left it in: the first one
/// with the prompt, every other with the token that was named last, alone.
pub proof fn law_each_token_is_handed_back<
    M,
    S,
    E,
    F: Fn(&M, S, Tensor<Element>) -> (S, Result<Vec<Tensor<Element>>, E>),
>(run: Transcript<S>, net: &M, step: F, limits: Limits, prompt: TensorView<Element>, k: int)
    requires
        run.follows(net, step, limits, prompt),
        0 <= k < run.outputs.len(),
    ensures
        run.states.len() == run.outputs.len() + 1,
        run.inputs.len() == run.outputs.len(),
        step.ensures((net, run.states[k], run.inputs[k]), (run.states[k + 1], Ok(run.outputs[k]))),
        run.outputs[k]@.len() == 1,
        k == 0 ==> run.inputs[k]@ == prompt,
        k > 0 ==> {
            &&& run.inputs[k]@.shape == seq![1usize]
            &&& run.inputs[k]@.data.len() == 1
            &&& run.outputs[k - 1]@[0]@.data.len() == 1 ==> run.inputs[k]@.data[0] == run.outputs[k - 1]@[0]@.data[0]
            &&& run.outputs[k - 1]@[0]@.data.len() != 1 ==> run.inputs[k]@.data[0] == run.outputs[k
                - 1]@[0]@.data[prompt.data.len() + k - 2]
            &&& run.inputs[k]@.data[0] != limits.eos
        },
{
    let n: int = prompt.data.len() as int;
    assert(picked(run.outputs[k]@, n + k) is Ok);
    assert(run.inputs[k]@ == run.given(prompt, k));
    assert(step.ensures((net, run.states[k], run.inputs[k]), (run.states[k + 1], Ok(run.outputs[k]))));
    if k > 0 {
        assert(picked(run.outputs[k - 1]@, n + k - 1) is Ok);
        assert(run.token(n, k - 1) != limits.eos);
    }
}

/// The sentence is the prompt and behind it the tokens that were named, each once and in
/// order, but for the last one.
pub proof fn law_sentence_holds_the_named_tokens<
    M,
    S,
    E,
    F: Fn(&M, S, Tensor<Element>) -> (S, Result<Vec<Tensor<Element>>, E>),
>(run: Transcript<S>, net: &M, step: F, limits: Limits, prompt: TensorView<Element>, i: int)
    requires
        run.follows(net, step, limits, prompt),
        run.outputs.len() > 0,
    ensures
        run.sentence(prompt.data).len() == prompt.data.len() + run.outputs.len() - 1,
        0 <= i < prompt.data.len() ==> run.sentence(prompt.data)[i] == prompt.data[i],
        prompt.data.len() <= i < run.sentence(prompt.data).len() ==> {
            let data: Seq<Element> = run.outputs[i - prompt.data.len()]@[0]@.data;
            &&& data.len() == 1 ==> run.sentence(prompt.data)[i] == data[0]
            &&& data.len() != 1 ==> run.sentence(prompt.data)[i] == data[i - 1]
        },
{
    let n: int = prompt.data.len() as int;
    if n <= i < run.sentence(prompt.data).len() {
        assert(picked(run.outputs[i - n]@, n + (i - n)) is Ok);
        assert(run.sentence(prompt.data)[i] == run.token(n, i - n));
    }
}

/// The loop is over exactly where the window is full or the last token ends the sentence,
/// and no token before the last one does.
pub proof fn law_loop_ends_with_the_sentence<
    M,
    S,
    E,
    F: Fn(&M, S, Tensor<Element>) -> (S, Result<Vec<Tensor<Element>>, E>),
>(run: Transcript<S>, net: &M, step: F, limits: Limits, prompt: TensorView<Element>)
    requires
        run.follows(net, step, limits, prompt),
    ensures
        prompt.data.len() + run.outputs.len() <= limits.max_window + 1,
        run.over(limits, prompt.data.len() as int) <==> prompt.data.len() + run.outputs.len() == limits.max_window + 1
            || run.outputs.len() > 0 && {
            let data: Seq<Element> = run.outputs.last()@[0]@.data;
            if data.len() == 1 {
                data[0] == limits.eos
            } else {
                data[prompt.data.len() + run.outputs.len() - 2] == limits.eos
            }
        },
{
    let n: int = prompt.data.len() as int;
    if run.outputs.len() > 0 {
        let k: int = run.outputs.len() - 1;
        assert(picked(run.outputs[k]@, n + k) is Ok);
        assert(run.token(n, k) == picked(run.outputs[k]@, n + k)->Ok_0);
    }
}

/// A session that succeeds starts and ends with a reset. Between them it runs the loop to
/// its end, and after a selective reset the trace over the whole sentence, which is what is
/// returned.
pub proof fn law_successful_sessions<
    M,
    I,
    S,
    E,
    X,
    R: Fn(&M, S) -> S,
    Q: Fn(&M, S) -> S,
    F: Fn(&M, S, Tensor<Element>) -> (S, Result<Vec<Tensor<Element>>, E>),
    G: Fn(&M, S, Tensor<Element>, Option<&I>) -> (S, Result<Trace<X>, E>),
>(
    session: Session<S, E, X>,
    net: &M,
    split: Option<&I>,
    limits: Limits,
    state: S,
    prompt: TensorView<Element>,
    model: (R, Q, F, G),
    end: S,
    traced: Trace<X>,
)
    requires
        session.explains(net, split, limits, state, prompt, model, (end, Ok(traced))),
    ensures
        limits.prompt_error::<E>(prompt.data) is None,
        model.0.ensures((net, state), session.first),
        session.run.states[0] == session.first,
        session.run.follows(net, model.2, limits, prompt),
        session.run.over(limits, prompt.data.len() as int),
        model.1.ensures((net, session.run.states.last()), session.ready),
        session.sentence@.data == session.run.sentence(prompt.data),
        session.sentence@.shape.len() == 1,
        session.sentence@.data.len() <= usize::MAX ==> session.sentence@.shape[0] == session.sentence@.data.len(),
        model.3.ensures((net, session.ready, session.sentence, split), (session.after, Ok(traced))),
        model.0.ensures((net, session.after), end),
        forall|place: int|
            prompt.data.len() <= place < session.run.sentence(prompt.data).len()
                ==> traced.outputs@[0]@.data[place - 1] == #[trigger] traced.inputs@[0]@.data[place],
{
    law_traces_that_are_accepted::<E, X>(
        traced,
        prompt.data.len() as int,
        session.run.sentence(prompt.data).len() as int,
    );
}

/// A session that fails tells why: the prompt was refused and the model saw nothing of it;
/// an iteration failed, or named no token; the trace failed, or does not name the tokens
/// that were generated.
pub proof fn law_failed_sessions_have_a_reason<
    M,
    I,
    S,
    E,
    X,
    R: Fn(&M, S) -> S,
    Q: Fn(&M, S) -> S,
    F: Fn(&M, S, Tensor<Element>) -> (S, Result<Vec<Tensor<Element>>, E>),
    G: Fn(&M, S, Tensor<Element>, Option<&I>) -> (S, Result<Trace<X>, E>),
>(
    session: Session<S, E, X>,
    net: &M,
    split: Option<&I>,
    limits: Limits,
    state: S,
    prompt: TensorView<Element>,
    model: (R, Q, F, G),
    end: S,
    error: GenerationError<E>,
)
    requires
        session.explains(net, split, limits, state, prompt, model, (end, Err(error))),
        limits.max_window < usize::MAX,
    ensures
        model.0.ensures((net, state), session.first),
        match error {
            GenerationError::PromptTooLong => end == session.first && prompt.data.len() + 1 >= limits.context_length,
            GenerationError::WindowTooSmall => end == session.first && prompt.data.len() > limits.max_window,
            GenerationError::UnknownToken => end == session.first && exists|i: int|
                0 <= i < prompt.data.len() && (#[trigger] prompt.data[i]) as usize >= limits.vocab_size,
            GenerationError::Step { iteration, error } => {
                &&& iteration == session.run.outputs.len()
                &&& session.run.follows(net, model.2, limits, prompt)
                &&& !session.run.over(limits, prompt.data.len() as int)
                &&& model.2.ensures((net, session.run.states.last(), session.input), (end, Err(error)))
                &&& iteration == 0 ==> session.input@ == prompt
                &&& iteration > 0 ==> session.input@.data.len() == 1 && {
                    let data: Seq<Element> = session.run.outputs.last()@[0]@.data;
                    session.input@.data[0] == if data.len() == 1 {
                        data[0]
                    } else {
                        data[prompt.data.len() + iteration - 2]
                    }
                }
            },
            GenerationError::OutputCount { found } => {
                &&& session.failed is Ok
                &&& session.failed->Ok_0@.len() != 1
                &&& session.failed->Ok_0@.len() <= usize::MAX ==> found == session.failed->Ok_0@.len()
                &&& model.2.ensures((net, session.run.states.last(), session.input), (end, session.failed))
            },
            GenerationError::NoToken { place } => {
                &&& session.failed is Ok
                &&& session.failed->Ok_0@.len() == 1
                &&& place == prompt.data.len() + session.run.outputs.len() - 1
                &&& place >= session.failed->Ok_0@[0]@.data.len()
                &&& model.2.ensures((net, session.run.states.last(), session.input), (end, session.failed))
            },
            GenerationError::EmptyPrompt => prompt.data.len() == 0,
            GenerationError::Trace(error) => {
                &&& session.run.over(limits, prompt.data.len() as int)
                &&& session.sentence@.data == session.run.sentence(prompt.data)
                &&& model.3.ensures((net, session.ready, session.sentence, split), (end, Err(error)))
            },
            GenerationError::TraceTooShort { place } => {
                &&& session.traced is Ok
                &&& model.3.ensures((net, session.ready, session.sentence, split), (end, session.traced))
                &&& trace_error::<E, X>(
                    session.traced->Ok_0,
                    prompt.data.len() as int,
                    session.run.sentence(prompt.data).len() as int,
                ) == Some(error)
            },
            GenerationError::TraceDiffers { place } => {
                &&& session.traced is Ok
                &&& model.3.ensures((net, session.ready, session.sentence, split), (end, session.traced))
                &&& trace_error::<E, X>(
                    session.traced->Ok_0,
                    prompt.data.len() as int,
                    session.run.sentence(prompt.data).len() as int,
                ) == Some(error)
            },
        },
{
    law_prompts_that_are_taken::<E>(limits, prompt.data);
    if limits.prompt_error::<E>(prompt.data) is None {
        let n: int = prompt.data.len() as int;
        let to: int = session.run.sentence(prompt.data).len() as int;
        if session.run.over(limits, n) {
            if session.traced is Ok {
                lemma_trace_errors::<E, X>(session.traced->Ok_0, n, to);
            }
        } else {
            let run: Transcript<S> = session.run;
            if run.outputs.len() > 0 {
                let k: int = run.outputs.len() - 1;
                assert(picked(run.outputs[k]@, n + k) is Ok);
                assert(run.token(n, k) == picked(run.outputs[k]@, n + k)->Ok_0);
            }
        }
    }
}

proof fn lemma_trace_errors<E, X>(trace: Trace<X>, from: int, to: int)
    requires
        0 <= from,
    ensures
        trace_error::<E, X>(trace, from, to) matches Some(error) ==> {
            ||| error matches GenerationError::EmptyPrompt && from == 0
            ||| error matches GenerationError::TraceTooShort { place }
            ||| error matches GenerationError::TraceDiffers { place }
        },
    decreases to - from,
{
    if from < to && from > 0 {
        lemma_trace_errors::<E, X>(trace, from + 1, to);
    }
}

/// A prompt that is refused is the answer, in the state that the first reset left.
pub proof fn law_refused_prompts_end_the_session<
    M,
    I,
    S,
    E,
    X,
    R: Fn(&M, S) -> S,
    Q: Fn(&M, S) -> S,
    F: Fn(&M, S, Tensor<Element>) -> (S, Result<Vec<Tensor<Element>>, E>),
    G: Fn(&M, S, Tensor<Element>, Option<&I>) -> (S, Result<Trace<X>, E>),
>(
    session: Session<S, E, X>,
    net: &M,
    split: Option<&I>,
    limits: Limits,
    state: S,
    prompt: TensorView<Element>,
    model: (R, Q, F, G),
    result: (S, Result<Trace<X>, GenerationError<E>>),
    error: GenerationError<E>,
)
    requires
        session.explains(net, split, limits, state, prompt, model, result),
        limits.prompt_error::<E>(prompt.data) == Some(error),
    ensures
        model.0.ensures((net, state), session.first),
        result.0 == session.first,
        result.1 == Err::<Trace<X>, GenerationError<E>>(error),
{
}

} // verus!
