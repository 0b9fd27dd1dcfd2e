//! The check of a proof that a sentence was generated by a model.
//!
//! The proof itself only says that the model, run over the whole sentence, returned what
//! it is claimed to have returned. That the sentence starts with the user's prompt, and
//! that every token behind it is the one that the model named at the place before, is
//! checked here.

use crate::arith::{next_power_of_two, power_of_two_above};
use crate::generation::{trace_error, Trace};
use crate::metadata::{id_of, max_window, to_usize, window, LLMMetadata, Token};
use crate::tensor::{Element, Tensor};
use crate::verification_laws::law_accepted_sentence_starts_with_the_prompt;
use vstd::prelude::*;

verus! {

/// Sets the longest sequence that is worked on.
pub trait WithMaxContext {
    /// The value with the given window.
    fn with_max_context(self, max_context: usize) -> Self where Self: Sized;
}

/// What the verifier of a language model needs. `V` is the context of the proof system.
#[derive(Debug)]
pub struct LLMVerifierContext<V> {
    pub verifier_ctx: V,
    pub md: LLMMetadata,
    pub max_context: Option<usize>,
}

impl<V> WithMaxContext for LLMVerifierContext<V> {
    fn with_max_context(self, max_context: usize) -> (context: Self)
        ensures
            context == (LLMVerifierContext { max_context: Some(max_context), ..self }),
    {
        LLMVerifierContext { max_context: Some(max_context), ..self }
    }
}

impl<P, V> WithMaxContext for (P, LLMVerifierContext<V>) {
    fn with_max_context(self, max_context: usize) -> (contexts: Self)
        ensures
            contexts.0 == self.0,
            contexts.1 == (LLMVerifierContext { max_context: Some(max_context), ..self.1 }),
    {
        (self.0, self.1.with_max_context(max_context))
    }
}

/// A number of the proof system's field: its two halves, and the element that it encodes.
/// Wherever the same number occurs in what a proof is about, it encodes the same element;
/// see [`IO::well_formed`].
#[derive(Debug, Clone, Copy)]
pub struct FieldValue {
    pub high: u128,
    pub low: u128,
    pub element: Element,
}

/// Both are the same number.
pub open spec fn same_value(a: FieldValue, b: FieldValue) -> bool {
    a.high == b.high && a.low == b.low
}

/// The number stands for the token.
pub open spec fn is_token(value: FieldValue, token: Token) -> bool {
    id_of(value.element) == token.0
}

impl FieldValue {
    /// Whether both are the same number.
    pub fn same_as(&self, other: &FieldValue) -> (same: bool)
        ensures
            same == same_value(*self, *other),
    {
        self.high == other.high && self.low == other.low
    }

    /// Whether the number stands for the token.
    pub fn stands_for(&self, token: Token) -> (is: bool)
        ensures
            is == is_token(*self, token),
    {
        to_usize(self.element) == token.0
    }
}

/// What a proof is about: the tensors that went into the model, the whole sentence first,
/// and those that came out.
#[derive(Debug)]
pub struct IO {
    pub input: Vec<Tensor<FieldValue>>,
    pub output: Vec<Tensor<FieldValue>>,
}

/// The same number encodes the same element in both.
pub open spec fn coherent(a: Seq<FieldValue>, b: Seq<FieldValue>) -> bool {
    forall|i: int, j: int|
        0 <= i < a.len() && 0 <= j < b.len() && same_value(#[trigger] a[i], #[trigger] b[j]) ==> a[i].element
            == b[j].element
}

/// The same number encodes the same element throughout two lists of tensors.
pub open spec fn all_coherent(a: Seq<Tensor<FieldValue>>, b: Seq<Tensor<FieldValue>>) -> bool {
    forall|s: int, t: int|
        0 <= s < a.len() && 0 <= t < b.len() ==> coherent((#[trigger] a[s])@.data, (#[trigger] b[t])@.data)
}

/// Every tensor of a list is well formed.
pub open spec fn all_wf(tensors: Seq<Tensor<FieldValue>>) -> bool {
    forall|t: int| 0 <= t < tensors.len() ==> (#[trigger] tensors[t]).wf()
}

/// Both lists hold the same tensors.
pub open spec fn same_tensors(a: Seq<Tensor<FieldValue>>, b: Seq<Tensor<FieldValue>>) -> bool {
    &&& a.len() == b.len()
    &&& forall|t: int| 0 <= t < a.len() ==> (#[trigger] a[t])@ == b[t]@
}

fn copied_tensors(tensors: &Vec<Tensor<FieldValue>>) -> (copy: Vec<Tensor<FieldValue>>)
    ensures
        same_tensors(copy@, tensors@),
{
    let mut copy: Vec<Tensor<FieldValue>> = Vec::new();
    let mut t: usize = 0;
    while t < tensors.len()
        invariant
            t <= tensors.len(),
            copy.len() == t,
            forall|j: int| 0 <= j < t ==> (#[trigger] copy@[j])@ == tensors@[j]@,
        decreases tensors.len() - t,
    {
        copy.push(tensors[t].clone());
        t = t + 1;
    }
    copy
}

impl Clone for IO {
    fn clone(&self) -> (copy: Self)
        ensures
            same_tensors(copy.input@, self.input@),
            same_tensors(copy.output@, self.output@),
    {
        IO { input: copied_tensors(&self.input), output: copied_tensors(&self.output) }
    }
}

impl IO {
    /// The tensors are well formed, and the same number encodes the same element in all of
    /// them.
    pub open spec fn wf(&self) -> bool {
        &&& all_wf(self.input@)
        &&& all_wf(self.output@)
        &&& all_coherent(self.input@, self.input@)
        &&& all_coherent(self.input@, self.output@)
        &&& all_coherent(self.output@, self.output@)
    }

    /// Whether the tensors are well formed and the same number encodes the same element in
    /// all of them.
    pub fn well_formed(&self) -> (wf: bool)
        ensures
            wf == self.wf(),
    {
        tensors_wf(&self.input) && tensors_wf(&self.output) && tensors_coherent(&self.input, &self.input)
            && tensors_coherent(&self.input, &self.output) && tensors_coherent(&self.output, &self.output)
    }
}

fn tensors_wf(tensors: &Vec<Tensor<FieldValue>>) -> (wf: bool)
    ensures
        wf == all_wf(tensors@),
{
    let mut t: usize = 0;
    while t < tensors.len()
        invariant
            t <= tensors@.len(),
            forall|k: int| 0 <= k < t ==> (#[trigger] tensors@[k]).wf(),
        decreases tensors@.len() - t,
    {
        if !tensors[t].shape().holds(tensors[t].get_data().len()) {
            assert(!tensors@[t as int].wf());
            return false;
        }
        t = t + 1;
    }
    true
}

fn values_coherent(a: &Vec<FieldValue>, b: &Vec<FieldValue>) -> (same: bool)
    ensures
        same == coherent(a@, b@),
{
    let mut i: usize = 0;
    while i < a.len()
        invariant
            i <= a@.len(),
            forall|k: int, l: int|
                0 <= k < i && 0 <= l < b@.len() && same_value(#[trigger] a@[k], #[trigger] b@[l]) ==> a@[k].element
                    == b@[l].element,
        decreases a@.len() - i,
    {
        let mut j: usize = 0;
        while j < b.len()
            invariant
                i < a@.len(),
                j <= b@.len(),
                forall|l: int|
                    0 <= l < j && same_value(a@[i as int], #[trigger] b@[l]) ==> a@[i as int].element
                        == b@[l].element,
            decreases b@.len() - j,
        {
            if a[i].same_as(&b[j]) && a[i].element != b[j].element {
                assert(same_value(a@[i as int], b@[j as int]));
                return false;
            }
            j = j + 1;
        }
        i = i + 1;
    }
    true
}

fn tensors_coherent(a: &Vec<Tensor<FieldValue>>, b: &Vec<Tensor<FieldValue>>) -> (same: bool)
    ensures
        same == all_coherent(a@, b@),
{
    let mut s: usize = 0;
    while s < a.len()
        invariant
            s <= a@.len(),
            forall|k: int, l: int|
                0 <= k < s && 0 <= l < b@.len() ==> coherent((#[trigger] a@[k])@.data, (#[trigger] b@[l])@.data),
        decreases a@.len() - s,
    {
        let mut t: usize = 0;
        while t < b.len()
            invariant
                s < a@.len(),
                t <= b@.len(),
                forall|l: int| 0 <= l < t ==> coherent(a@[s as int]@.data, (#[trigger] b@[l])@.data),
            decreases b@.len() - t,
        {
            if !values_coherent(a[s].get_data(), b[t].get_data()) {
                assert(!coherent(a@[s as int]@.data, b@[t as int]@.data));
                return false;
            }
            t = t + 1;
        }
        s = s + 1;
    }
    true
}

/// A proof together with what it is about.
#[derive(Debug)]
pub struct LLMProof<P> {
    /// The proof of the inference.
    pub proof: P,
    /// The whole input and output: the user's prompt, and all tokens that followed.
    pub io: IO,
}

impl<P: Clone> Clone for LLMProof<P> {
    fn clone(&self) -> (copy: Self)
        ensures
            cloned(self.proof, copy.proof),
            same_tensors(copy.io.input@, self.io.input@),
            same_tensors(copy.io.output@, self.io.output@),
    {
        LLMProof { proof: self.proof.clone(), io: self.io.clone() }
    }
}

/// Why a proof is refused. `E` is the error of the proof system.
#[derive(Debug)]
pub enum VerifyError<E> {
    /// There must be one output.
    OutputCount { found: usize },
    /// The output is longer than the window, rounded up to a power of two.
    OutputTooLong,
    /// The proof system refused the proof.
    Proof(E),
    /// The sentence does not start with the prompt.
    UserInputDiffers,
    /// A token of the sentence is not the one that the model named at the place before.
    NotSequential { place: usize },
}

/// The part of the output, within the window, that can name generated tokens.
pub open spec fn generated_part(output: Seq<FieldValue>, window: int, prompt_len: int) -> Seq<FieldValue> {
    let end: int = if window < output.len() {
        window
    } else {
        output.len() as int
    };
    let start: int = if prompt_len - 1 < end {
        prompt_len - 1
    } else {
        end
    };
    output.subrange(start, end)
}

/// The first place of a part that stands for the token, counted from the part's start.
pub open spec fn first_token(part: Seq<FieldValue>, token: Token) -> Option<int>
    decreases part.len(),
{
    if part.len() == 0 {
        None
    } else {
        match first_token(part.drop_last(), token) {
            Some(place) => Some(place),
            None => if is_token(part.last(), token) {
                Some(part.len() - 1)
            } else {
                None
            },
        }
    }
}

/// How long the output is without padding: it ends with the token that ends the sentence,
/// or fills the window. The first place that can end the sentence is the prompt's last.
pub open spec fn output_len(output: Seq<FieldValue>, window: int, prompt_len: int, eos: Token) -> int {
    match first_token(generated_part(output, window, prompt_len), eos) {
        Some(place) => prompt_len + place,
        None => window,
    }
}

/// The first place from `from` up to `to` whose token the input does not have behind it.
pub open spec fn first_break(input: Seq<FieldValue>, output: Seq<FieldValue>, from: int, to: int) -> Option<int>
    decreases to - from,
{
    if from >= to {
        None
    } else if !same_value(input[from + 1], output[from]) {
        Some(from)
    } else {
        first_break(input, output, from + 1, to)
    }
}

/// Every place that is looked at is there.
pub open spec fn in_reach(input: Seq<FieldValue>, output: Seq<FieldValue>, from: int, to: int) -> bool
    decreases to - from,
{
    from >= to || {
        &&& from + 1 < input.len()
        &&& from < output.len()
        &&& same_value(input[from + 1], output[from]) ==> in_reach(input, output, from + 1, to)
    }
}

/// The sentence starts with the prompt.
pub open spec fn starts_with(input: Seq<FieldValue>, prompt: Seq<Token>) -> bool {
    forall|i: int| 0 <= i < prompt.len() ==> is_token(#[trigger] input[i], prompt[i])
}

impl<V> LLMVerifierContext<V> {
    /// The longest sequence that is worked on.
    pub open spec fn spec_window(&self) -> usize {
        window(self.max_context, self.md)
    }

    /// Why the output is refused before the proof is looked at, if it is.
    pub open spec fn output_error<E>(&self, io: IO) -> Option<VerifyError<E>> {
        if io.output@.len() != 1 {
            Some(VerifyError::OutputCount { found: io.output@.len() as usize })
        } else if io.output@[0]@.data.len() > power_of_two_above(self.spec_window() as nat) {
            Some(VerifyError::OutputTooLong)
        } else {
            None
        }
    }

    /// How long the output is without padding.
    pub open spec fn spec_output_len(&self, prompt: Seq<Token>, io: IO) -> int {
        output_len(io.output@[0]@.data, self.spec_window() as int, prompt.len() as int, self.md.config.eos_token)
    }

    /// What is wrong with the sentence of an accepted proof, if anything is.
    pub open spec fn sentence_error<E>(&self, prompt: Seq<Token>, io: IO) -> Option<VerifyError<E>> {
        let input: Seq<FieldValue> = io.input@[0]@.data;
        if !starts_with(input, prompt) {
            Some(VerifyError::UserInputDiffers)
        } else {
            match first_break(input, io.output@[0]@.data, prompt.len() - 1, self.spec_output_len(prompt, io) - 1) {
                Some(place) => Some(VerifyError::NotSequential { place: place as usize }),
                None => None,
            }
        }
    }

    /// What is answered for a proof that the proof system judged with `outcome`.
    pub open spec fn verdict<E>(&self, prompt: Seq<Token>, io: IO, outcome: Result<(), E>) -> Result<
        (),
        VerifyError<E>,
    > {
        match self.output_error::<E>(io) {
            Some(error) => Err(error),
            None => match outcome {
                Err(error) => Err(VerifyError::Proof(error)),
                Ok(_) => match self.sentence_error::<E>(prompt, io) {
                    Some(error) => Err(error),
                    None => Ok(()),
                },
            },
        }
    }

    /// The window can be rounded up, and an output that passes comes with a prompt and an
    /// input.
    pub open spec fn answerable(&self, prompt: Seq<Token>, io: IO) -> bool {
        &&& power_of_two_above(self.spec_window() as nat) <= usize::MAX
        &&& self.output_error::<()>(io) is None ==> prompt.len() > 0 && io.input@.len() > 0
    }

    /// The sentence is as long as the prompt, and every place that is looked at is there.
    pub open spec fn walkable(&self, prompt: Seq<Token>, io: IO) -> bool {
        let input: Seq<FieldValue> = io.input@[0]@.data;
        &&& input.len() >= prompt.len()
        &&& starts_with(input, prompt) ==> {
            &&& self.spec_output_len(prompt, io) >= 1
            &&& in_reach(input, io.output@[0]@.data, prompt.len() - 1, self.spec_output_len(prompt, io) - 1)
        }
    }
}

/// `itertools::Itertools::find_position` over a vector: the first place whose number
/// stands for the token, if there is one.
#[verifier::external_body]
fn find_position(part: &Vec<FieldValue>, token: Token) -> (place: Option<usize>)
    ensures
        match place {
            Some(place) => {
                &&& place < part@.len()
                &&& is_token(part@[place as int], token)
                &&& forall|i: int| 0 <= i < place ==> !is_token(#[trigger] part@[i], token)
            },
            None => forall|i: int| 0 <= i < part@.len() ==> !is_token(#[trigger] part@[i], token),
        },
{
    itertools::Itertools::find_position(&mut part.iter(), |value| value.stands_for(token)).map(|(place, _)| place)
}

proof fn lemma_first_token_none(part: Seq<FieldValue>, token: Token)
    requires
        forall|i: int| 0 <= i < part.len() ==> !is_token(#[trigger] part[i], token),
    ensures
        first_token(part, token) is None,
    decreases part.len(),
{
    if part.len() > 0 {
        lemma_first_token_none(part.drop_last(), token);
    }
}

proof fn lemma_first_token_some(part: Seq<FieldValue>, token: Token, place: int)
    requires
        0 <= place < part.len(),
        is_token(part[place], token),
        forall|i: int| 0 <= i < place ==> !is_token(#[trigger] part[i], token),
    ensures
        first_token(part, token) == Some(place),
    decreases part.len(),
{
    if place == part.len() - 1 {
        lemma_first_token_none(part.drop_last(), token);
    } else {
        lemma_first_token_some(part.drop_last(), token, place);
    }
}

fn part_of(output: &Vec<FieldValue>, window: usize, prompt_len: usize) -> (part: Vec<FieldValue>)
    requires
        prompt_len > 0,
    ensures
        part@ == generated_part(output@, window as int, prompt_len as int),
{
    let end: usize = if window < output.len() {
        window
    } else {
        output.len()
    };
    let start: usize = if prompt_len - 1 < end {
        prompt_len - 1
    } else {
        end
    };
    let mut part: Vec<FieldValue> = Vec::new();
    let mut i: usize = start;
    while i < end
        invariant
            start <= i <= end <= output@.len(),
            part@ == output@.subrange(start as int, i as int),
        decreases end - i,
    {
        part.push(output[i]);
        assert(part@ =~= output@.subrange(start as int, i + 1));
        i = i + 1;
    }
    part
}

fn has_prompt(input: &Vec<FieldValue>, prompt: &Vec<Token>) -> (has: bool)
    requires
        input@.len() >= prompt@.len(),
    ensures
        has == starts_with(input@, prompt@),
{
    let mut i: usize = 0;
    while i < prompt.len()
        invariant
            i <= prompt@.len() <= input@.len(),
            forall|j: int| 0 <= j < i ==> is_token(#[trigger] input@[j], prompt@[j]),
        decreases prompt@.len() - i,
    {
        if !input[i].stands_for(prompt[i]) {
            assert(!is_token(input@[i as int], prompt@[i as int]));
            return false;
        }
        i = i + 1;
    }
    true
}

fn find_break(input: &Vec<FieldValue>, output: &Vec<FieldValue>, from: usize, to: usize) -> (place: Option<usize>)
    requires
        in_reach(input@, output@, from as int, to as int),
    ensures
        match (place, first_break(input@, output@, from as int, to as int)) {
            (Some(place), Some(expected)) => place == expected,
            (None, None) => true,
            _ => false,
        },
{
    let mut i: usize = from;
    while i < to
        invariant
            from <= i,
            in_reach(input@, output@, i as int, to as int),
            first_break(input@, output@, from as int, to as int) == first_break(
                input@,
                output@,
                i as int,
                to as int,
            ),
        decreases to - i,
    {
        if !input[i + 1].same_as(&output[i]) {
            return Some(i);
        }
        i = i + 1;
    }
    None
}

fn reaches(input: &Vec<FieldValue>, output: &Vec<FieldValue>, from: usize, to: usize) -> (reaches: bool)
    ensures
        reaches == in_reach(input@, output@, from as int, to as int),
{
    let mut i: usize = from;
    while i < to
        invariant
            from <= i,
            in_reach(input@, output@, from as int, to as int) == in_reach(input@, output@, i as int, to as int),
        decreases to - i,
    {
        if i >= output.len() || i >= input.len() || i + 1 >= input.len() {
            return false;
        }
        if !input[i + 1].same_as(&output[i]) {
            return true;
        }
        i = i + 1;
    }
    true
}

impl<V> LLMVerifierContext<V> {
    /// Checks the output before the proof is looked at.
    pub fn check_output<E>(&self, io: &IO) -> (result: Result<(), VerifyError<E>>)
        requires
            io.wf(),
            power_of_two_above(self.spec_window() as nat) <= usize::MAX,
        ensures
            match (result, self.output_error::<E>(*io)) {
                (Ok(_), None) => true,
                (Err(error), Some(reason)) => error == reason,
                _ => false,
            },
    {
        if io.output.len() != 1 {
            return Err(VerifyError::OutputCount { found: io.output.len() });
        }
        // That many elements are there, so the product of the dimensions fits in a word.
        let _len: usize = io.output[0].get_data().len();
        assert(io.output@[0].wf());
        let padded_max_len: usize = io.output[0].shape().numel();
        let max_window: usize = max_window(self.max_context, &self.md);
        if padded_max_len > next_power_of_two(max_window) {
            return Err(VerifyError::OutputTooLong);
        }
        Ok(())
    }

    /// How long the output is without padding.
    pub fn unpadded_output_len(&self, user_input: &Vec<Token>, io: &IO) -> (len: usize)
        requires
            user_input@.len() > 0,
            io.output@.len() == 1,
        ensures
            len == self.spec_output_len(user_input@, *io),
    {
        let max_window: usize = max_window(self.max_context, &self.md);
        let part: Vec<FieldValue> = part_of(io.output[0].get_data(), max_window, user_input.len());
        let eos_token: Token = self.md.config.eos_token;
        match find_position(&part, eos_token) {
            Some(place) => {
                proof {
                    lemma_first_token_some(part@, eos_token, place as int);
                }
                user_input.len() + place
            },
            None => {
                proof {
                    lemma_first_token_none(part@, eos_token);
                }
                max_window
            },
        }
    }

    /// Whether the sentence can be walked through: [`LLMVerifierContext::conclude`] asks
    /// for it where the proof was accepted.
    pub fn can_walk(&self, user_input: &Vec<Token>, io: &IO) -> (can: bool)
        requires
            user_input@.len() > 0,
            io.output@.len() == 1,
            io.input@.len() > 0,
        ensures
            can == self.walkable(user_input@, *io),
    {
        let input: &Vec<FieldValue> = io.input[0].get_data();
        if input.len() < user_input.len() {
            return false;
        }
        if !has_prompt(input, user_input) {
            return true;
        }
        let len: usize = self.unpadded_output_len(user_input, io);
        len >= 1 && reaches(input, io.output[0].get_data(), user_input.len() - 1, len - 1)
    }

    /// Answers for a proof whose output passed and that the proof system judged with
    /// `outcome`.
    pub fn conclude<E>(&self, user_input: &Vec<Token>, io: &IO, outcome: Result<(), E>) -> (result: Result<
        (),
        VerifyError<E>,
    >)
        requires
            self.output_error::<E>(*io) is None,
            user_input@.len() > 0,
            io.input@.len() > 0,
            outcome is Ok ==> self.walkable(user_input@, *io),
        ensures
            result == self.verdict(user_input@, *io, outcome),
            result is Ok ==> outcome is Ok && forall|i: int|
                #![trigger user_input@[i]]
                0 <= i < user_input@.len() ==> io.input@[0]@.data[i].element as usize == user_input@[i].0,
    {
        proof {
            if self.verdict(user_input@, *io, outcome) is Ok {
                law_accepted_sentence_starts_with_the_prompt(*self, user_input@, *io, outcome);
            }
        }
        match outcome {
            Err(error) => {
                return Err(VerifyError::Proof(error));
            },
            Ok(_) => {},
        }
        let input: &Vec<FieldValue> = io.input[0].get_data();
        if !has_prompt(input, user_input) {
            return Err(VerifyError::UserInputDiffers);
        }
        let len: usize = self.unpadded_output_len(user_input, io);
        match find_break(input, io.output[0].get_data(), user_input.len() - 1, len - 1) {
            Some(place) => Err(VerifyError::NotSequential { place }),
            None => Ok(()),
        }
    }

    /// Verifies that a sentence was generated from the user's prompt. `check` is the proof
    /// system's own check that the proof is one of this very input and output.
    pub fn verify<P, E, F: FnOnce(&V, P, &IO) -> Result<(), E>>(
        &self,
        proof: P,
        user_input: &Vec<Token>,
        io: &IO,
        check: F,
    ) -> (result: Result<(), VerifyError<E>>)
        requires
            io.wf(),
            self.answerable(user_input@, *io),
            check.requires((&self.verifier_ctx, proof, io)),
            forall|outcome: Result<(), E>|
                outcome is Ok && self.output_error::<()>(*io) is None && #[trigger] check.ensures(
                    (&self.verifier_ctx, proof, io),
                    outcome,
                ) ==> self.walkable(user_input@, *io),
        ensures
            exists|outcome: Result<(), E>|
                (self.output_error::<E>(*io) is None ==> check.ensures((&self.verifier_ctx, proof, io), outcome))
                    && result == #[trigger] self.verdict(user_input@, *io, outcome),
            result is Ok ==> exists|outcome: Result<(), E>|
                outcome is Ok && #[trigger] check.ensures((&self.verifier_ctx, proof, io), outcome),
            result is Ok ==> forall|i: int|
                #![trigger user_input@[i]]
                0 <= i < user_input@.len() ==> io.input@[0]@.data[i].element as usize == user_input@[i].0,
    {
        match self.check_output::<E>(io) {
            Ok(_) => {},
            Err(error) => {
                assert(self.verdict::<E>(user_input@, *io, Ok(())) == Err::<(), VerifyError<E>>(error));
                return Err(error);
            },
        }
        assert(self.output_error::<()>(*io) is None);
        let outcome: Result<(), E> = check(&self.verifier_ctx, proof, io);
        let ghost judged: Result<(), E> = outcome;
        let result: Result<(), VerifyError<E>> = self.conclude(user_input, io, outcome);
        assert(result == self.verdict(user_input@, *io, judged));
        assert(check.ensures((&self.verifier_ctx, proof, io), judged));
        result
    }
}

proof fn lemma_no_break(input: Seq<FieldValue>, output: Seq<FieldValue>, from: int, to: int, place: int)
    requires
        from <= place < to,
        first_break(input, output, from, to) is None,
    ensures
        same_value(input[place + 1], output[place]),
    decreases to - from,
{
    if from < place {
        lemma_no_break(input, output, from + 1, to, place);
    }
}

/// What is accepted starts with the user's prompt and is sequential: at every place of the
/// unpadded output from the prompt's last on, but for the output's last, the next token of
/// the sentence is the one that the model named.
pub proof fn law_accepted_sentence_is_sequential<V, E>(
    context: LLMVerifierContext<V>,
    prompt: Seq<Token>,
    io: IO,
    outcome: Result<(), E>,
    place: int,
)
    requires
        context.verdict(prompt, io, outcome) is Ok,
        prompt.len() - 1 <= place < context.spec_output_len(prompt, io) - 1,
    ensures
        outcome is Ok,
        starts_with(io.input@[0]@.data, prompt),
        same_value(io.input@[0]@.data[place + 1], io.output@[0]@.data[place]),
{
    lemma_no_break(
        io.input@[0]@.data,
        io.output@[0]@.data,
        prompt.len() - 1,
        context.spec_output_len(prompt, io) - 1,
        place,
    );
}

/// In an accepted sentence that the model ended, every token from the first generated one
/// to the last is the one that the model named at the place before. `end` is the first
/// place, from the prompt's last on, whose output ends the sentence.
pub proof fn law_ended_sentence_is_checked_throughout<V, E>(
    context: LLMVerifierContext<V>,
    prompt: Seq<Token>,
    io: IO,
    outcome: Result<(), E>,
    end: int,
)
    requires
        context.verdict(prompt, io, outcome) is Ok,
        prompt.len() > 0,
        prompt.len() - 1 <= end < context.spec_window(),
        end < io.output@[0]@.data.len(),
        is_token(io.output@[0]@.data[end], context.md.config.eos_token),
        forall|i: int|
            prompt.len() - 1 <= i < end ==> !is_token(#[trigger] io.output@[0]@.data[i], context.md.config.eos_token),
    ensures
        starts_with(io.input@[0]@.data, prompt),
        context.spec_output_len(prompt, io) == end + 1,
        forall|i: int|
            prompt.len() - 1 <= i < end ==> same_value(io.input@[0]@.data[i + 1], #[trigger] io.output@[0]@.data[i]),
{
    let output: Seq<FieldValue> = io.output@[0]@.data;
    let part: Seq<FieldValue> = generated_part(output, context.spec_window() as int, prompt.len() as int);
    let place: int = end - (prompt.len() - 1);
    assert forall|i: int| 0 <= i < place implies !is_token(#[trigger] part[i], context.md.config.eos_token) by {
        assert(part[i] == output[prompt.len() - 1 + i]);
    }
    lemma_first_token_some(part, context.md.config.eos_token, place);
    assert forall|i: int| prompt.len() - 1 <= i < end implies same_value(
        io.input@[0]@.data[i + 1],
        #[trigger] output[i],
    ) by {
        law_accepted_sentence_is_sequential(context, prompt, io, outcome, i);
    }
}

/// In an accepted sentence that the model did not end within the window, every token from
/// the first generated one to the window's last is the one that the model named at the
/// place before.
pub proof fn law_unended_sentence_is_checked_throughout<V, E>(
    context: LLMVerifierContext<V>,
    prompt: Seq<Token>,
    io: IO,
    outcome: Result<(), E>,
)
    requires
        context.verdict(prompt, io, outcome) is Ok,
        prompt.len() > 0,
        forall|i: int|
            prompt.len() - 1 <= i < context.spec_window() && i < io.output@[0]@.data.len() ==> !is_token(
                #[trigger] io.output@[0]@.data[i],
                context.md.config.eos_token,
            ),
    ensures
        starts_with(io.input@[0]@.data, prompt),
        context.spec_output_len(prompt, io) == context.spec_window(),
        forall|i: int|
            prompt.len() - 1 <= i < context.spec_window() - 1 ==> same_value(
                io.input@[0]@.data[i + 1],
                #[trigger] io.output@[0]@.data[i],
            ),
{
    let output: Seq<FieldValue> = io.output@[0]@.data;
    let part: Seq<FieldValue> = generated_part(output, context.spec_window() as int, prompt.len() as int);
    assert forall|i: int| 0 <= i < part.len() implies !is_token(
        #[trigger] part[i],
        context.md.config.eos_token,
    ) by {
        assert(part[i] == output[prompt.len() - 1 + i]);
    }
    lemma_first_token_none(part, context.md.config.eos_token);
    assert forall|i: int| prompt.len() - 1 <= i < context.spec_window() - 1 implies same_value(
        io.input@[0]@.data[i + 1],
        #[trigger] output[i],
    ) by {
        law_accepted_sentence_is_sequential(context, prompt, io, outcome, i);
    }
}

/// Equal numbers are equal tokens: where the sentence goes on with the number that the
/// model named, it goes on with the token that the model named.
pub proof fn law_sequential_numbers_are_sequential_tokens(io: IO, place: int, token: Token)
    requires
        io.wf(),
        io.input@.len() > 0,
        io.output@.len() > 0,
        0 <= place < io.output@[0]@.data.len(),
        place + 1 < io.input@[0]@.data.len(),
        same_value(io.input@[0]@.data[place + 1], io.output@[0]@.data[place]),
    ensures
        is_token(io.input@[0]@.data[place + 1], token) == is_token(io.output@[0]@.data[place], token),
{
    assert(coherent(io.input@[0]@.data, io.output@[0]@.data));
}

/// The numbers encode the elements; more numbers may follow as padding.
pub open spec fn encodes(values: Seq<FieldValue>, elements: Seq<Element>) -> bool {
    &&& values.len() >= elements.len()
    &&& forall|i: int| 0 <= i < elements.len() ==> (#[trigger] values[i]).element == elements[i]
}

proof fn lemma_honest_run_has_no_break<E, X>(
    trace: Trace<X>,
    input: Seq<FieldValue>,
    output: Seq<FieldValue>,
    from: int,
    to: int,
    len: int,
)
    requires
        0 < from,
        to <= len,
        trace.inputs@.len() > 0,
        trace.outputs@.len() > 0,
        trace_error::<E, X>(trace, from, len) is None,
        encodes(input, trace.inputs@[0]@.data),
        encodes(output, trace.outputs@[0]@.data),
        forall|i: int, j: int|
            0 <= i < input.len() && 0 <= j < output.len() && (#[trigger] input[i]).element == (
            #[trigger] output[j]).element ==> same_value(input[i], output[j]),
    ensures
        first_break(input, output, from - 1, to - 1) is None,
        in_reach(input, output, from - 1, to - 1),
    decreases to - from,
{
    if from < to {
        lemma_honest_run_has_no_break::<E, X>(trace, input, output, from + 1, to, len);
        assert(input[from].element == output[from - 1].element);
    }
}

proof fn lemma_first_token_range(part: Seq<FieldValue>, token: Token)
    ensures
        first_token(part, token) matches Some(place) ==> 0 <= place < part.len(),
        forall|i: int|
            0 <= i < part.len() && is_token(#[trigger] part[i], token) ==> (first_token(part, token) matches Some(
                place,
            ) && place <= i),
    decreases part.len(),
{
    if part.len() > 0 {
        lemma_first_token_range(part.drop_last(), token);
        assert forall|i: int| 0 <= i < part.len() && is_token(#[trigger] part[i], token) implies (first_token(
            part,
            token,
        ) matches Some(place) && place <= i) by {
            if i < part.len() - 1 {
                assert(part.drop_last()[i] == part[i]);
            }
        }
    }
}

/// What an honest run of the loop produced is accepted: the proof of a trace over `len`
/// tokens that names the tokens generated behind the user's prompt, where the sentence
/// fills the window or the trace ends it behind its last token. It may end right behind
/// the prompt.
pub proof fn law_honest_run_is_accepted<V, E, X>(
    context: LLMVerifierContext<V>,
    prompt: Seq<Token>,
    io: IO,
    trace: Trace<X>,
    len: int,
)
    requires
        context.output_error::<E>(io) is None,
        io.input@.len() > 0,
        0 < prompt.len() <= len <= context.spec_window(),
        trace.inputs@.len() > 0,
        trace.outputs@.len() > 0,
        trace.inputs@[0]@.data.len() == len,
        trace.outputs@[0]@.data.len() == len,
        trace_error::<E, X>(trace, prompt.len() as int, len) is None,
        len == context.spec_window() || id_of(trace.outputs@[0]@.data[len - 1]) == context.md.config.eos_token.0,
        encodes(io.input@[0]@.data, trace.inputs@[0]@.data),
        encodes(io.output@[0]@.data, trace.outputs@[0]@.data),
        forall|i: int, j: int|
            0 <= i < io.input@[0]@.data.len() && 0 <= j < io.output@[0]@.data.len() && (
            #[trigger] io.input@[0]@.data[i]).element == (#[trigger] io.output@[0]@.data[j]).element ==> same_value(
                io.input@[0]@.data[i],
                io.output@[0]@.data[j],
            ),
        forall|i: int| 0 <= i < prompt.len() ==> id_of(#[trigger] trace.inputs@[0]@.data[i]) == prompt[i].0,
    ensures
        context.walkable(prompt, io),
        context.verdict::<E>(prompt, io, Ok(())) is Ok,
{
    let input: Seq<FieldValue> = io.input@[0]@.data;
    let output: Seq<FieldValue> = io.output@[0]@.data;
    let eos: Token = context.md.config.eos_token;
    let part: Seq<FieldValue> = generated_part(output, context.spec_window() as int, prompt.len() as int);
    assert forall|i: int| 0 <= i < prompt.len() implies is_token(#[trigger] input[i], prompt[i]) by {
        assert(input[i].element == trace.inputs@[0]@.data[i]);
    }
    lemma_first_token_range(part, eos);
    if len < context.spec_window() {
        let last: int = len - prompt.len();
        assert(part[last] == output[len - 1]);
        assert(output[len - 1].element == trace.outputs@[0]@.data[len - 1]);
        assert(is_token(part[last], eos));
    }
    assert(1 <= context.spec_output_len(prompt, io) <= len);
    lemma_honest_run_has_no_break::<E, X>(
        trace,
        input,
        output,
        prompt.len() as int,
        context.spec_output_len(prompt, io),
        len,
    );
}

} // verus!
