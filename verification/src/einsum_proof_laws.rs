//! What proving, verifying and quantising an einsum layer leave behind.

use crate::einsum::{EinSum, EinSumError};
use crate::einsum_context::{EinSumContext, EinSumProofInfo, ProverLog, VerifierLog};
use crate::shape::Shape;
use vstd::prelude::*;

verus! {

/// A proof enters itself and the claims on constants, each once, behind all that was entered
/// before and under the number of the node; a failure enters nothing.
pub proof fn law_proofs_are_entered_once<
    T,
    C,
    D,
    I,
    W,
    P,
    M,
    E,
    B: FnOnce(&D) -> Result<I, E>,
    F: FnOnce(&EinSum<T>, &EinSumContext, Vec<C>, &I, W) -> (W, Result<EinSumProofInfo<C, P, M>, E>),
>(
    layer: EinSum<T>,
    node_id: usize,
    ctx: EinSumContext,
    last_claims: Vec<C>,
    step_data: D,
    prover: ProverLog<W, P, M>,
    padded_inputs: B,
    prove_internal: F,
    result: (ProverLog<W, P, M>, Result<Vec<C>, E>),
    i: int,
)
    requires
        call_ensures(
            EinSum::<T>::prove::<C, D, I, W, P, M, E, B, F>,
            (&layer, node_id, &ctx, last_claims, &step_data, prover, padded_inputs, prove_internal),
            result,
        ),
    ensures
        result.1 is Ok ==> {
            &&& result.0.proofs@.len() == prover.proofs@.len() + 1
            &&& result.0.proofs@.last().0 == node_id
            &&& result.0.common_claims@.len() == prover.common_claims@.len() + 1
            &&& result.0.common_claims@.last().0 == node_id
        },
        result.1 is Err ==> result.0.proofs == prover.proofs && result.0.common_claims == prover.common_claims,
        0 <= i < prover.proofs@.len() ==> result.0.proofs@[i] == prover.proofs@[i],
        0 <= i < prover.common_claims@.len() ==> result.0.common_claims@[i] == prover.common_claims@[i],
{
}

/// A proof that is accepted enters the claims on constants, once and behind all that was
/// entered before, under the number of the node; one that is refused enters nothing.
pub proof fn law_accepted_claims_are_entered_once<
    C,
    D,
    W,
    P,
    M,
    E,
    F: FnOnce(&EinSumContext, &P, &[C], &D, W) -> (W, Result<(Vec<C>, M), E>),
>(
    ctx: EinSumContext,
    proof: P,
    last_claims: &[C],
    verifier: VerifierLog<W, M>,
    shape_step: D,
    node_id: usize,
    verify_internal: F,
    result: (VerifierLog<W, M>, Result<Vec<C>, E>),
    i: int,
)
    requires
        call_ensures(
            EinSumContext::verify::<C, D, W, P, M, E, F>,
            (&ctx, &proof, last_claims, verifier, &shape_step, node_id, verify_internal),
            result,
        ),
    ensures
        result.1 is Ok ==> {
            &&& result.0.common_claims@.len() == verifier.common_claims@.len() + 1
            &&& result.0.common_claims@.last().0 == node_id
        },
        result.1 is Err ==> result.0.common_claims == verifier.common_claims,
        0 <= i < verifier.common_claims@.len() ==> result.0.common_claims@[i] == verifier.common_claims@[i],
{
}

/// A layer is quantised only with a scaling factor for every output, and then as the
/// quantiser has it; any other number of factors is the answer.
pub proof fn law_every_output_needs_a_scaling_factor<
    T,
    S,
    Q,
    F: FnOnce(EinSum<T>, &[S], &[S], &[Shape]) -> Result<Q, EinSumError>,
>(
    layer: EinSum<T>,
    input_scaling: &[S],
    unpadded_input_shapes: &[Shape],
    output_scalings: &[S],
    quantise: F,
    result: Result<Q, EinSumError>,
)
    requires
        call_ensures(
            EinSum::<T>::quantize_op::<S, Q, F>,
            (layer, input_scaling, unpadded_input_shapes, output_scalings, quantise),
            result,
        ),
        layer@.mapping.outputs.len() <= usize::MAX,
        output_scalings@.len() <= usize::MAX,
    ensures
        result is Ok ==> output_scalings@.len() == layer@.mapping.outputs.len(),
        output_scalings@.len() == layer@.mapping.outputs.len() ==> quantise.ensures(
            (layer, input_scaling, output_scalings, unpadded_input_shapes),
            result,
        ),
        output_scalings@.len() != layer@.mapping.outputs.len() ==> (result matches Err(
            EinSumError::ScalingCount { given, expected },
        ) && given == output_scalings@.len() && expected == layer@.mapping.outputs.len()),
{
}

} // verus!
