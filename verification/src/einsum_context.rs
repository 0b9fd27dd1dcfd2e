//! What proving and verifying an einsum layer needs to know of it, and how its work is
//! split.

use crate::axis::AxesMapping;
use crate::axis_shapes::shape_views;
use crate::einsum::{
    full_dims, handle_keys, optional_shapes, optional_text, optional_texts, present, shapes_given, EinSum, EinSumError,
};
use crate::equation::MappingView;
use crate::shape::{PaddingMode, Shape};
use vstd::prelude::*;

verus! {

/// The length of a chunk where none is configured.
pub const DEFAULT_MIN_CHUNK_SIZE: usize = 128;

/// The number of chunks of length `chunk` that cover `len` places.
pub open spec fn chunks(len: nat, chunk: nat) -> nat
    recommends
        chunk > 0,
{
    (len / chunk) + if len % chunk != 0 {
        1nat
    } else {
        0nat
    }
}

/// The chunks cover every place, and without the last one they would not.
pub proof fn law_chunks_cover_tightly(len: nat, chunk: nat)
    requires
        chunk > 0,
    ensures
        len <= chunks(len, chunk) * chunk,
        len > 0 ==> (chunks(len, chunk) - 1) * chunk < len,
{
    let q: int = (len / chunk) as int;
    let r: int = (len % chunk) as int;
    let c: int = chunk as int;
    assert(len == q * c + r && 0 <= r < c) by {
        vstd::arithmetic::div_mod::lemma_fundamental_div_mod(len as int, c);
        assert(c * q == q * c) by (nonlinear_arith);
    }
    assert((q + 1) * c == q * c + c) by (nonlinear_arith);
    assert((q - 1) * c == q * c - c) by (nonlinear_arith);
}

/// `num_integer::div_ceil` on `usize`: the quotient, and one more where the division
/// leaves a remainder. The contract claims just that, for a divisor that is not zero.
#[verifier::external_body]
fn div_ceil(len: usize, chunk: usize) -> (count: usize)
    requires
        chunk != 0,
    ensures
        count == chunks(len as nat, chunk as nat),
{
    num_integer::div_ceil(len, chunk)
}

/// What a context consists of.
#[verifier::ext_equal]
pub struct ContextView {
    pub equation: Seq<char>,
    pub mapping: MappingView,
    pub constant_keys: Seq<Option<Seq<char>>>,
    pub constant_shapes: Seq<Option<Seq<usize>>>,
    pub bias_keys: Seq<Option<Seq<char>>>,
    pub bias_shapes: Seq<Option<Seq<usize>>>,
    pub splittable: bool,
}

impl ContextView {
    /// The parts of the context fit together. The work is split only where every input
    /// but the first is constant.
    pub open spec fn wf(self) -> bool {
        &&& self.mapping.valid()
        &&& self.constant_shapes.len() == self.mapping.inputs.len() - 1
        &&& self.splittable ==> present(self.constant_shapes) == self.constant_shapes.len()
    }

    /// The number of chunks that an input is best split into.
    pub open spec fn ideal_chunks(self, dims: Seq<usize>, min_chunk_size: Option<usize>) -> Option<nat> {
        if self.splittable {
            Some(
                chunks(
                    dims[0] as nat,
                    match min_chunk_size {
                        None => DEFAULT_MIN_CHUNK_SIZE as nat,
                        Some(size) => size as nat,
                    },
                ),
            )
        } else {
            None
        }
    }
}

/// Work that can be split is split into as many chunks of the configured length, by default
/// of a hundred and twenty-eight, as cover the first dimension, and no more; other work is
/// not split.
pub proof fn law_work_is_split_along_the_first_dimension(
    context: ContextView,
    dims: Seq<usize>,
    min_chunk_size: Option<usize>,
)
    requires
        min_chunk_size != Some(0usize),
    ensures
        !context.splittable ==> context.ideal_chunks(dims, min_chunk_size) is None,
        context.splittable ==> context.ideal_chunks(dims, min_chunk_size) is Some,
        context.splittable && min_chunk_size is None ==> {
            let count: nat = context.ideal_chunks(dims, min_chunk_size)->0;
            &&& dims[0] <= count * 128
            &&& dims[0] > 0 ==> (count - 1) * 128 < dims[0]
            &&& dims[0] == 0 ==> count == 0
        },
        context.splittable && min_chunk_size is Some ==> {
            let count: nat = context.ideal_chunks(dims, min_chunk_size)->0;
            &&& dims[0] <= count * min_chunk_size->0
            &&& dims[0] > 0 ==> (count - 1) * min_chunk_size->0 < dims[0]
            &&& dims[0] == 0 ==> count == 0
        },
{
    let size: nat = match min_chunk_size {
        None => 128,
        Some(size) => size as nat,
    };
    law_chunks_cover_tightly(dims[0] as nat, size);
    if dims[0] == 0 {
        assert(0nat / size == 0 && 0nat % size == 0) by (nonlinear_arith)
            requires
                size > 0,
        ;
    }
}

/// The context of an einsum layer.
#[derive(Debug)]
pub struct EinSumContext {
    /// The equation that describes the operation.
    pub equation: String,
    /// The parsed equation.
    pub mapping: AxesMapping,
    /// The keys that the constants are committed under.
    pub constant_keys: Vec<Option<String>>,
    /// The shapes of the constants, before any padding.
    pub constant_unpadded_shapes: Vec<Option<Shape>>,
    /// The keys that the biases are committed under.
    pub bias_keys: Vec<Option<String>>,
    /// The shapes of the biases, before any padding.
    pub bias_unpadded_shapes: Vec<Option<Shape>>,
    /// Whether the work can be split along the first dimension of the input.
    pub is_splittable: bool,
}

impl View for EinSumContext {
    type V = ContextView;

    open spec fn view(&self) -> ContextView {
        ContextView {
            equation: self.equation@,
            mapping: self.mapping@,
            constant_keys: optional_texts(self.constant_keys@),
            constant_shapes: optional_shapes(self.constant_unpadded_shapes@),
            bias_keys: optional_texts(self.bias_keys@),
            bias_shapes: optional_shapes(self.bias_unpadded_shapes@),
            splittable: self.is_splittable,
        }
    }
}

impl Clone for EinSumContext {
    fn clone(&self) -> (copy: Self)
        ensures
            copy@ == self@,
    {
        EinSumContext {
            equation: self.equation.clone(),
            mapping: self.mapping.clone(),
            constant_keys: copied_texts(&self.constant_keys),
            constant_unpadded_shapes: crate::einsum::copied_shapes(&self.constant_unpadded_shapes),
            bias_keys: copied_texts(&self.bias_keys),
            bias_unpadded_shapes: crate::einsum::copied_shapes(&self.bias_unpadded_shapes),
            is_splittable: self.is_splittable,
        }
    }
}

fn copied_texts(texts: &Vec<Option<String>>) -> (copy: Vec<Option<String>>)
    ensures
        optional_texts(copy@) == optional_texts(texts@),
{
    let mut copy: Vec<Option<String>> = Vec::new();
    let mut i: usize = 0;
    while i < texts.len()
        invariant
            i <= texts.len(),
            copy.len() == i,
            forall|j: int| 0 <= j < i ==> optional_text(#[trigger] copy@[j]) == optional_text(texts@[j]),
        decreases texts.len() - i,
    {
        copy.push(
            match &texts[i] {
                None => None,
                Some(text) => Some(text.clone()),
            },
        );
        i = i + 1;
    }
    assert(optional_texts(copy@) =~= optional_texts(texts@));
    copy
}

impl EinSumContext {
    /// The context is well formed.
    pub open spec fn wf(&self) -> bool {
        self@.wf()
    }

    /// The shapes of the outputs for the shapes of the inputs that are not constant, the
    /// first input's among them. What a layer may have cached plays no part.
    pub fn output_shapes(&self, input_shapes: &[Shape], padding_mode: PaddingMode) -> (result: Result<
        Vec<Shape>,
        EinSumError,
    >)
        requires
            self.wf(),
            shapes_given(self@.constant_shapes, shape_views(input_shapes@), padding_mode),
            self@.mapping.shape_error(
                full_dims(self@.constant_shapes, shape_views(input_shapes@), padding_mode),
            ) is None,
        ensures
            result matches Ok(outputs) && shape_views(outputs@) == self@.mapping.output_dims(
                full_dims(self@.constant_shapes, shape_views(input_shapes@), padding_mode),
            ),
    {
        let full: Vec<Shape> = crate::einsum::full_input_shapes(
            &self.constant_unpadded_shapes,
            input_shapes,
            padding_mode,
        );
        match self.mapping.output_shapes(&full) {
            Ok(outputs) => Ok(outputs),
            Err(error) => Err(EinSumError::Shape(error)),
        }
    }

    /// The number of outputs, however many inputs are given.
    pub fn num_outputs(&self, _num_inputs: usize) -> (result: Result<usize, EinSumError>)
        ensures
            result matches Ok(count) && count == self@.mapping.outputs.len(),
    {
        Ok(self.mapping.output_count())
    }

    /// A short text that tells what the layer does.
    pub fn describe(&self) -> (text: String)
        ensures
            text@ == "EinSum("@ + self@.equation + ")"@,
    {
        crate::einsum::describe_equation(&self.equation)
    }

    /// Whether the layer can be proven.
    pub fn is_provable(&self) -> (provable: bool)
        ensures
            provable,
    {
        true
    }

    /// The number of chunks to split the one input into, where the work can be split.
    /// `min_chunk_size` is the configured length of a chunk, if any.
    pub fn ideal_num_chunks(&self, input_shapes: &[Shape], min_chunk_size: Option<usize>) -> (count: Option<usize>)
        requires
            self@.splittable ==> {
                &&& input_shapes@.len() == 1
                &&& input_shapes@[0]@.len() > 0
                &&& min_chunk_size != Some(0usize)
            },
        ensures
            match (count, self@.ideal_chunks(input_shapes@[0]@, min_chunk_size)) {
                (Some(count), Some(expected)) => count == expected,
                (None, None) => true,
                _ => false,
            },
    {
        if !self.is_splittable {
            return None;
        }
        let chunk: usize = match min_chunk_size {
            Some(size) => size,
            None => DEFAULT_MIN_CHUNK_SIZE,
        };
        let seq_len: usize = input_shapes[0].dim(0);
        Some(div_ceil(seq_len, chunk))
    }

    /// Whether the work can be split.
    pub fn is_splittable(&self) -> (splittable: bool)
        ensures
            splittable == self@.splittable,
    {
        self.is_splittable
    }
}

impl<T> EinSum<T> {
    /// The context of the layer.
    pub fn to_context(&self, is_splittable: bool) -> (context: EinSumContext)
        requires
            self.wf(),
            is_splittable ==> present(self@.constants) == self@.constants.len(),
        ensures
            context.wf(),
            context@ == (ContextView {
                equation: self@.equation,
                mapping: self@.mapping,
                constant_keys: handle_keys(self@.constants),
                constant_shapes: self@.constant_shapes,
                bias_keys: handle_keys(self@.biases),
                bias_shapes: self@.bias_shapes,
                splittable: is_splittable,
            }),
    {
        let context: EinSumContext = EinSumContext {
            equation: self.equation.clone(),
            mapping: self.mapping.clone(),
            constant_keys: crate::einsum::keys_of(&self.constant_tensors),
            constant_unpadded_shapes: crate::einsum::shapes_of(&self.constant_tensors),
            bias_keys: crate::einsum::keys_of(&self.biases),
            bias_unpadded_shapes: crate::einsum::shapes_of(&self.biases),
            is_splittable,
        };
        proof {
            crate::einsum::lemma_shapes_present(self@.constants);
        }
        context
    }
}

/// What proving a layer gives: the claims on its inputs, the proof, and the claims on the
/// tensors that it is committed to.
#[derive(Debug)]
pub struct EinSumProofInfo<C, P, M> {
    pub claims: Vec<C>,
    pub proof: P,
    pub commitment_map: M,
}

/// What a prover holds: the transcript of what was said so far, and what it collects of
/// the layers, each under the number of its node.
#[derive(Debug)]
pub struct ProverLog<W, P, M> {
    pub transcript: W,
    pub proofs: Vec<(usize, P)>,
    pub common_claims: Vec<(usize, M)>,
}

impl<W, P, M> ProverLog<W, P, M> {
    /// The log with nothing collected.
    pub fn new(transcript: W) -> (log: Self)
        ensures
            log.transcript == transcript,
            log.proofs@.len() == 0,
            log.common_claims@.len() == 0,
    {
        ProverLog { transcript, proofs: Vec::new(), common_claims: Vec::new() }
    }
}

/// What a verifier holds: the transcript of what was said so far, and the claims on
/// constants, each under the number of its node.
#[derive(Debug)]
pub struct VerifierLog<W, M> {
    pub transcript: W,
    pub common_claims: Vec<(usize, M)>,
}

impl<W, M> VerifierLog<W, M> {
    /// The log with nothing collected.
    pub fn new(transcript: W) -> (log: Self)
        ensures
            log.transcript == transcript,
            log.common_claims@.len() == 0,
    {
        VerifierLog { transcript, common_claims: Vec::new() }
    }
}

impl<T> EinSum<T> {
    /// Proves the claims on the layer's outputs: `padded_inputs` takes the padded inputs
    /// out of the step of the trace, and `prove_internal` proves the layer on them and
    /// writes the transcript on. The proof and the claims on constants are entered under
    /// the number of the node. A failed proof enters nothing.
    pub fn prove<
        C,
        D,
        I,
        W,
        P,
        M,
        E,
        B: FnOnce(&D) -> Result<I, E>,
        F: FnOnce(&Self, &EinSumContext, Vec<C>, &I, W) -> (W, Result<EinSumProofInfo<C, P, M>, E>),
    >(
        &self,
        node_id: usize,
        ctx: &EinSumContext,
        last_claims: Vec<C>,
        step_data: &D,
        prover: ProverLog<W, P, M>,
        padded_inputs: B,
        prove_internal: F,
    ) -> (result: (ProverLog<W, P, M>, Result<Vec<C>, E>))
        requires
            padded_inputs.requires((step_data,)),
            forall|inputs: &I|
                prove_internal.requires((self, ctx, last_claims, inputs, prover.transcript)),
        ensures
            exists|padded: Result<I, E>| #[trigger]
                padded_inputs.ensures((step_data,), padded) && match padded {
                    Err(error) => {
                        &&& result.0 == prover
                        &&& result.1 == Err::<Vec<C>, E>(error)
                    },
                    Ok(inputs) => exists|outcome: (W, Result<EinSumProofInfo<C, P, M>, E>)| #[trigger]
                        prove_internal.ensures((self, ctx, last_claims, &inputs, prover.transcript), outcome) && {
                            &&& result.0.transcript == outcome.0
                            &&& match outcome.1 {
                                Ok(info) => {
                                    &&& result.1 == Ok::<Vec<C>, E>(info.claims)
                                    &&& result.0.proofs@ == prover.proofs@.push((node_id, info.proof))
                                    &&& result.0.common_claims@ == prover.common_claims@.push(
                                        (node_id, info.commitment_map),
                                    )
                                },
                                Err(error) => {
                                    &&& result.1 == Err::<Vec<C>, E>(error)
                                    &&& result.0.proofs == prover.proofs
                                    &&& result.0.common_claims == prover.common_claims
                                },
                            }
                        },
                },
    {
        let inputs: I = match padded_inputs(step_data) {
            Ok(inputs) => inputs,
            Err(error) => {
                return (prover, Err(error));
            },
        };
        let ProverLog { transcript, mut proofs, mut common_claims } = prover;
        let (transcript, outcome) = prove_internal(self, ctx, last_claims, &inputs, transcript);
        let claims: Result<Vec<C>, E> = match outcome {
            Ok(info) => {
                proofs.push((node_id, info.proof));
                common_claims.push((node_id, info.commitment_map));
                Ok(info.claims)
            },
            Err(error) => Err(error),
        };
        (ProverLog { transcript, proofs, common_claims }, claims)
    }
}

impl EinSumContext {
    /// Verifies the proof of a layer against the claims on its outputs: `verify_internal`
    /// does so for the shapes of the step, and writes the transcript on. The claims on
    /// constants are entered under the number of the node. A refused proof enters nothing.
    pub fn verify<
        C,
        D,
        W,
        P,
        M,
        E,
        F: FnOnce(&Self, &P, &[C], &D, W) -> (W, Result<(Vec<C>, M), E>),
    >(
        &self,
        proof: &P,
        last_claims: &[C],
        verifier: VerifierLog<W, M>,
        shape_step: &D,
        node_id: usize,
        verify_internal: F,
    ) -> (result: (VerifierLog<W, M>, Result<Vec<C>, E>))
        requires
            verify_internal.requires((self, proof, last_claims, shape_step, verifier.transcript)),
        ensures
            exists|outcome: (W, Result<(Vec<C>, M), E>)| #[trigger]
                verify_internal.ensures((self, proof, last_claims, shape_step, verifier.transcript), outcome) && {
                    &&& result.0.transcript == outcome.0
                    &&& match outcome.1 {
                        Ok((claims, constants)) => {
                            &&& result.1 == Ok::<Vec<C>, E>(claims)
                            &&& result.0.common_claims@ == verifier.common_claims@.push((node_id, constants))
                        },
                        Err(error) => {
                            &&& result.1 == Err::<Vec<C>, E>(error)
                            &&& result.0.common_claims == verifier.common_claims
                        },
                    }
                },
    {
        let VerifierLog { transcript, mut common_claims } = verifier;
        let (transcript, outcome) = verify_internal(self, proof, last_claims, shape_step, transcript);
        let claims: Result<Vec<C>, E> = match outcome {
            Ok((claims, constants)) => {
                common_claims.push((node_id, constants));
                Ok(claims)
            },
            Err(error) => Err(error),
        };
        (VerifierLog { transcript, common_claims }, claims)
    }
}

} // verus!
