//! Laws of the loop that generates a sentence, over two runs of it.

use crate::generation::{picked, GenerationError, Limits, Session, Trace, Transcript};
use crate::tensor::{Element, Tensor, TensorView};
use vstd::prelude::*;

verus! {

/// The views of tensors.
pub open spec fn tensor_views(tensors: Seq<Tensor<Element>>) -> Seq<TensorView<Element>> {
    tensors.map_values(|tensor: Tensor<Element>| tensor@)
}

/// The model answers as a function of what it is given and of what `seen` says of its
/// state, and a reset leaves nothing of the state before it to be seen.
pub open spec fn is_functional<
    M,
    I,
    S,
    W,
    E,
    X,
    R: Fn(&M, S) -> S,
    Q: Fn(&M, S) -> S,
    F: Fn(&M, S, Tensor<Element>) -> (S, Result<Vec<Tensor<Element>>, E>),
    G: Fn(&M, S, Tensor<Element>, Option<&I>) -> (S, Result<Trace<X>, E>),
>(net: &M, split: Option<&I>, model: (R, Q, F, G), seen: spec_fn(S) -> W) -> bool {
    let (reset, reset_selective, step, trace) = model;
    &&& forall|a: S, b: S, a2: S, b2: S| #[trigger]
        reset.ensures((net, a), a2) && #[trigger] reset.ensures((net, b), b2) ==> seen(a2) == seen(b2)
    &&& forall|a: S, b: S, a2: S, b2: S|
        seen(a) == seen(b) && #[trigger] reset_selective.ensures((net, a), a2) && #[trigger] reset_selective.ensures(
            (net, b),
            b2,
        ) ==> seen(a2) == seen(b2)
    &&& forall|
        a: S,
        b: S,
        x: Tensor<Element>,
        y: Tensor<Element>,
        a2: S,
        b2: S,
        p: Vec<Tensor<Element>>,
        q: Vec<Tensor<Element>>,
    |
        seen(a) == seen(b) && x@ == y@ && #[trigger] step.ensures((net, a, x), (a2, Ok(p))) && #[trigger] step.ensures(
            (net, b, y),
            (b2, Ok(q)),
        ) ==> seen(a2) == seen(b2) && tensor_views(p@) == tensor_views(q@)
    &&& forall|a: S, b: S, x: Tensor<Element>, y: Tensor<Element>, a2: S, b2: S, p: Trace<X>, q: Trace<X>|
        seen(a) == seen(b) && x@ == y@ && #[trigger] trace.ensures((net, a, x, split), (a2, Ok(p))) && #[trigger] trace.ensures(
            (net, b, y, split),
            (b2, Ok(q)),
        ) ==> tensor_views(p.inputs@) == tensor_views(q.inputs@) && tensor_views(p.outputs@) == tensor_views(
            q.outputs@,
        )
}

proof fn lemma_picked_from_views(a: Seq<Tensor<Element>>, b: Seq<Tensor<Element>>, seq_len: int)
    requires
        tensor_views(a) == tensor_views(b),
    ensures
        picked(a, seq_len) == picked(b, seq_len),
{
    assert(tensor_views(a).len() == a.len() && tensor_views(b).len() == b.len());
    if a.len() == 1 {
        assert(tensor_views(a)[0] == a[0]@ && tensor_views(b)[0] == b[0]@);
    }
}

/// The step of a functional model from states that look the same, on the same input.
#[verifier::spinoff_prover]
proof fn lemma_step_agrees<
    M,
    I,
    S,
    W,
    E,
    X,
    R: Fn(&M, S) -> S,
    Q: Fn(&M, S) -> S,
    F: Fn(&M, S, Tensor<Element>) -> (S, Result<Vec<Tensor<Element>>, E>),
    G: Fn(&M, S, Tensor<Element>, Option<&I>) -> (S, Result<Trace<X>, E>),
>(
    net: &M,
    split: Option<&I>,
    model: (R, Q, F, G),
    seen: spec_fn(S) -> W,
    states: (S, S),
    inputs: (Tensor<Element>, Tensor<Element>),
    next: (S, S),
    outputs: (Vec<Tensor<Element>>, Vec<Tensor<Element>>),
    seq_len: int,
)
    requires
        is_functional::<M, I, S, W, E, X, R, Q, F, G>(net, split, model, seen),
        seen(states.0) == seen(states.1),
        inputs.0@ == inputs.1@,
        model.2.ensures((net, states.0, inputs.0), (next.0, Ok(outputs.0))),
        model.2.ensures((net, states.1, inputs.1), (next.1, Ok(outputs.1))),
    ensures
        seen(next.0) == seen(next.1),
        picked(outputs.0@, seq_len) == picked(outputs.1@, seq_len),
{
    lemma_picked_from_views(outputs.0@, outputs.1@, seq_len);
}

/// Two runs of a functional model from the same beginning are the same as far as both go.
#[verifier::spinoff_prover]
proof fn lemma_runs_agree<
    M,
    I,
    S,
    W,
    E,
    X,
    R: Fn(&M, S) -> S,
    Q: Fn(&M, S) -> S,
    F: Fn(&M, S, Tensor<Element>) -> (S, Result<Vec<Tensor<Element>>, E>),
    G: Fn(&M, S, Tensor<Element>, Option<&I>) -> (S, Result<Trace<X>, E>),
>(
    net: &M,
    split: Option<&I>,
    a: Transcript<S>,
    b: Transcript<S>,
    model: (R, Q, F, G),
    seen: spec_fn(S) -> W,
    limits: Limits,
    prompt: TensorView<Element>,
    k: int,
)
    requires
        is_functional::<M, I, S, W, E, X, R, Q, F, G>(net, split, model, seen),
        a.follows(net, model.2, limits, prompt),
        b.follows(net, model.2, limits, prompt),
        seen(a.states[0]) == seen(b.states[0]),
        0 <= k <= a.len(),
        k <= b.len(),
    ensures
        seen(a.states[k]) == seen(b.states[k]),
        forall|i: int|
            0 <= i < k ==> #[trigger] a.token(prompt.data.len() as int, i) == b.token(prompt.data.len() as int, i),
    decreases k,
{
    if k > 0 {
        let n: int = prompt.data.len() as int;
        let i: int = k - 1;
        lemma_runs_agree::<M, I, S, W, E, X, R, Q, F, G>(net, split, a, b, model, seen, limits, prompt, i);
        assert(a.given(prompt, i) == b.given(prompt, i)) by {
            if i > 0 {
                assert(a.token(n, i - 1) == b.token(n, i - 1));
            }
        }
        assert(a.inputs[i]@ == b.inputs[i]@);
        lemma_step_agrees::<M, I, S, W, E, X, R, Q, F, G>(
            net,
            split,
            model,
            seen,
            (a.states[i], b.states[i]),
            (a.inputs[i], b.inputs[i]),
            (a.states[i + 1], b.states[i + 1]),
            (a.outputs[i], b.outputs[i]),
            n + i,
        );
    }
}

/// Nothing that one call has cached leaks into another: where the model answers as a
/// function of what it is given since its last reset, two calls on the same prompt that
/// succeed return traces with equal tensors, whatever state each started from, and leave
/// the model in states that cannot be told apart.
pub proof fn law_generation_is_deterministic<
    M,
    I,
    S,
    W,
    E,
    X,
    R: Fn(&M, S) -> S,
    Q: Fn(&M, S) -> S,
    F: Fn(&M, S, Tensor<Element>) -> (S, Result<Vec<Tensor<Element>>, E>),
    G: Fn(&M, S, Tensor<Element>, Option<&I>) -> (S, Result<Trace<X>, E>),
>(
    net: &M,
    split: Option<&I>,
    limits: Limits,
    prompt: TensorView<Element>,
    model: (R, Q, F, G),
    seen: spec_fn(S) -> W,
    starts: (S, S),
    sessions: (Session<S, E, X>, Session<S, E, X>),
    results: ((S, Result<Trace<X>, GenerationError<E>>), (S, Result<Trace<X>, GenerationError<E>>)),
)
    requires
        is_functional::<M, I, S, W, E, X, R, Q, F, G>(net, split, model, seen),
        sessions.0.explains(net, split, limits, starts.0, prompt, model, results.0),
        sessions.1.explains(net, split, limits, starts.1, prompt, model, results.1),
        results.0.1 is Ok,
        results.1.1 is Ok,
    ensures
        tensor_views(results.0.1->Ok_0.inputs@) == tensor_views(results.1.1->Ok_0.inputs@),
        tensor_views(results.0.1->Ok_0.outputs@) == tensor_views(results.1.1->Ok_0.outputs@),
        seen(results.0.0) == seen(results.1.0),
        forall|s: S, fresh: S| #[trigger] model.0.ensures((net, s), fresh) ==> seen(results.0.0) == seen(fresh),
{
    let a: Transcript<S> = sessions.0.run;
    let b: Transcript<S> = sessions.1.run;
    let n: int = prompt.data.len() as int;
    assert(limits.prompt_error::<E>(prompt.data) is None);
    assert(a.over(limits, n) && b.over(limits, n));
    let k: int = if a.len() < b.len() {
        a.len() as int
    } else {
        b.len() as int
    };
    lemma_runs_agree::<M, I, S, W, E, X, R, Q, F, G>(net, split, a, b, model, seen, limits, prompt, k);
    if a.len() < b.len() {
        assert(a.len() > 0);
        assert(b.token(n, a.len() - 1) != limits.eos);
        assert(a.token(n, a.len() - 1) == b.token(n, a.len() - 1));
    }
    if b.len() < a.len() {
        assert(b.len() > 0);
        assert(a.token(n, b.len() - 1) != limits.eos);
        assert(a.token(n, b.len() - 1) == b.token(n, b.len() - 1));
    }
    assert(a.tokens(n) =~= b.tokens(n));
    assert(sessions.0.sentence@ == sessions.1.sentence@);
}

} // verus!
