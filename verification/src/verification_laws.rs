//! What it takes for a proof to be accepted, and why one is refused, in terms of the numbers
//! of the tensors, the user's tokens and the window.

use crate::arith::{lemma_power_of_two_above, power_of_two_above};
use crate::metadata::Token;
use crate::verification::{
    first_break, first_token, generated_part, is_token, same_value, FieldValue, LLMVerifierContext, VerifyError, IO,
};
use vstd::arithmetic::power2::pow2;
use vstd::prelude::*;

verus! {

/// A sentence that is accepted starts with the user's prompt: at every place of the prompt,
/// the element of the sentence is the user's token.
pub proof fn law_accepted_sentence_starts_with_the_prompt<V, E>(
    context: LLMVerifierContext<V>,
    prompt: Seq<Token>,
    io: IO,
    outcome: Result<(), E>,
)
    requires
        context.verdict(prompt, io, outcome) is Ok,
    ensures
        forall|i: int|
            #![trigger prompt[i]]
            #![trigger io.input@[0]@.data[i]]
            0 <= i < prompt.len() ==> io.input@[0]@.data[i].element as usize == prompt[i].0,
{
    assert forall|i: int|
        #![trigger prompt[i]]
        #![trigger io.input@[0]@.data[i]]
        0 <= i < prompt.len() implies io.input@[0]@.data[i].element as usize == prompt[i].0 by {
        assert(is_token(io.input@[0]@.data[i], prompt[i]));
    }
}

/// A sentence that differs from the user's prompt in any one token is refused, and where
/// nothing else was wrong before, it is refused for that reason.
pub proof fn law_other_prompt_is_refused<V, E>(
    context: LLMVerifierContext<V>,
    prompt: Seq<Token>,
    io: IO,
    outcome: Result<(), E>,
    at: int,
)
    requires
        0 <= at < prompt.len(),
        io.input@[0]@.data[at].element as usize != prompt[at].0,
    ensures
        context.verdict(prompt, io, outcome) is Err,
        outcome is Ok && io.output@.len() == 1 && io.output@[0]@.data.len() <= (match context.max_context {
            Some(length) => length,
            None => context.md.config.context_length,
        }) ==> context.verdict(prompt, io, outcome) == Err::<(), VerifyError<E>>(VerifyError::UserInputDiffers),
{
    assert(!is_token(io.input@[0]@.data[at], prompt[at]));
    lemma_power_of_two_above(context.spec_window() as nat);
}

proof fn lemma_first_break(input: Seq<FieldValue>, output: Seq<FieldValue>, from: int, to: int)
    ensures
        match first_break(input, output, from, to) {
            None => forall|p: int| from <= p < to ==> same_value(input[p + 1], #[trigger] output[p]),
            Some(place) => {
                &&& from <= place < to
                &&& !same_value(input[place + 1], output[place])
                &&& forall|p: int| from <= p < place ==> same_value(input[p + 1], #[trigger] output[p])
            },
        },
    decreases to - from,
{
    if from < to && same_value(input[from + 1], output[from]) {
        lemma_first_break(input, output, from + 1, to);
    }
}

proof fn lemma_first_token(part: Seq<FieldValue>, token: Token)
    ensures
        match first_token(part, token) {
            None => forall|i: int| 0 <= i < part.len() ==> !is_token(#[trigger] part[i], token),
            Some(place) => {
                &&& 0 <= place < part.len()
                &&& is_token(part[place], token)
                &&& forall|i: int| 0 <= i < place ==> !is_token(#[trigger] part[i], token)
            },
        },
    decreases part.len(),
{
    if part.len() > 0 {
        let init: Seq<FieldValue> = part.drop_last();
        lemma_first_token(init, token);
        assert forall|i: int| 0 <= i < init.len() implies init[i] == part[i] by {}
        if first_token(part, token) is None {
            assert forall|i: int| 0 <= i < part.len() implies !is_token(#[trigger] part[i], token) by {
                if i < init.len() {
                    assert(!is_token(init[i], token));
                }
            }
        } else if first_token(init, token) is None {
            assert forall|i: int| 0 <= i < init.len() implies !is_token(#[trigger] part[i], token) by {
                assert(!is_token(init[i], token));
            }
        } else {
            let place: int = first_token(init, token)->0;
            assert forall|i: int| 0 <= i < place implies !is_token(#[trigger] part[i], token) by {
                assert(!is_token(init[i], token));
            }
        }
    }
}

/// The places that are looked at: those before the last of the window, as long as no place
/// from the prompt's last on has named the token that ends the sentence.
proof fn lemma_places_looked_at<V>(context: LLMVerifierContext<V>, prompt: Seq<Token>, io: IO, place: int)
    requires
        prompt.len() > 0,
        prompt.len() - 1 <= place,
    ensures
        (place < context.spec_output_len(prompt, io) - 1) <==> {
            &&& place < context.spec_window() - 1
            &&& forall|q: int|
                prompt.len() - 1 <= q <= place && q < io.output@[0]@.data.len() ==> !is_token(
                    #[trigger] io.output@[0]@.data[q],
                    context.md.config.eos_token,
                )
        },
{
    let output: Seq<FieldValue> = io.output@[0]@.data;
    let eos: Token = context.md.config.eos_token;
    let n: int = prompt.len() as int;
    let w: int = context.spec_window() as int;
    let part: Seq<FieldValue> = generated_part(output, w, n);
    lemma_first_token(part, eos);
    assert forall|i: int| 0 <= i < part.len() implies part[i] == output[n - 1 + i] by {}
    match first_token(part, eos) {
        None => {
            assert forall|q: int| n - 1 <= q < w && q < output.len() implies !is_token(#[trigger] output[q], eos) by {
                assert(part[q - (n - 1)] == output[q]);
            }
        },
        Some(found) => {
            let end: int = n - 1 + found;
            assert(is_token(output[end], eos));
            assert forall|q: int| n - 1 <= q < end implies !is_token(#[trigger] output[q], eos) by {
                assert(part[q - (n - 1)] == output[q]);
            }
        },
    }
}

/// A proof is accepted exactly where there is one output, no longer than every power of two
/// that holds the window; the proof system accepts it; the sentence starts with the user's
/// tokens; and at every place from the prompt's last on, up to where the output ends the
/// sentence or the window does, the sentence goes on with the number that the output has
/// there.
pub proof fn law_acceptance_is_exact<V, E>(
    context: LLMVerifierContext<V>,
    prompt: Seq<Token>,
    io: IO,
    outcome: Result<(), E>,
)
    requires
        prompt.len() > 0,
    ensures
        ({
            let input: Seq<FieldValue> = io.input@[0]@.data;
            let output: Seq<FieldValue> = io.output@[0]@.data;
            let n: int = prompt.len() as int;
            let w: int = (match context.max_context {
                Some(length) => length,
                None => context.md.config.context_length,
            }) as int;
            context.verdict(prompt, io, outcome) is Ok <==> {
                &&& io.output@.len() == 1
                &&& forall|k: nat| w <= #[trigger] pow2(k) ==> output.len() <= pow2(k)
                &&& outcome is Ok
                &&& forall|i: int| 0 <= i < n ==> (#[trigger] input[i]).element as usize == prompt[i].0
                &&& forall|p: int|
                    n - 1 <= p < w - 1 && (forall|q: int|
                        n - 1 <= q <= p && q < output.len() ==> (#[trigger] output[q]).element as usize
                            != context.md.config.eos_token.0) ==> input[p + 1].high == (#[trigger] output[p]).high
                        && input[p + 1].low == output[p].low
            }
        }),
{
    let input: Seq<FieldValue> = io.input@[0]@.data;
    let output: Seq<FieldValue> = io.output@[0]@.data;
    let n: int = prompt.len() as int;
    let w: int = context.spec_window() as int;
    let eos: Token = context.md.config.eos_token;
    let above: nat = power_of_two_above(context.spec_window() as nat);
    lemma_power_of_two_above(context.spec_window() as nat);
    let exponent: nat = choose|k: nat| above == #[trigger] pow2(k);
    assert(above == pow2(exponent));
    assert((forall|k: nat| w <= #[trigger] pow2(k) ==> output.len() <= pow2(k)) <==> output.len() <= above);
    assert((forall|i: int| 0 <= i < n ==> (#[trigger] input[i]).element as usize == prompt[i].0)
        <==> crate::verification::starts_with(input, prompt)) by {
        if crate::verification::starts_with(input, prompt) {
            assert forall|i: int| 0 <= i < n implies (#[trigger] input[i]).element as usize == prompt[i].0 by {
                assert(is_token(input[i], prompt[i]));
            }
        } else {
            let i: int = choose|i: int| 0 <= i < n && !is_token(#[trigger] input[i], prompt[i]);
            assert(input[i].element as usize != prompt[i].0);
        }
    }
    let to: int = context.spec_output_len(prompt, io) - 1;
    lemma_first_break(input, output, n - 1, to);
    assert forall|p: int| n - 1 <= p implies ((#[trigger] looked_at(output, n, w, eos, p)) <==> p < to) by {
        lemma_places_looked_at(context, prompt, io, p);
        assert(looked_at(output, n, w, eos, p) <==> (p < w - 1 && forall|q: int|
            n - 1 <= q <= p && q < output.len() ==> !is_token(#[trigger] output[q], eos)));
    }
    let sequential: bool = forall|p: int|
        n - 1 <= p < w - 1 && (forall|q: int|
            n - 1 <= q <= p && q < output.len() ==> (#[trigger] output[q]).element as usize != eos.0) ==> input[p
            + 1].high == (#[trigger] output[p]).high && input[p + 1].low == output[p].low;
    assert(sequential <==> first_break(input, output, n - 1, to) is None) by {
        if first_break(input, output, n - 1, to) is None {
            assert forall|p: int|
                n - 1 <= p < w - 1 && (forall|q: int|
                    n - 1 <= q <= p && q < output.len() ==> (#[trigger] output[q]).element as usize
                        != eos.0) implies input[p + 1].high == (#[trigger] output[p]).high && input[p + 1].low
                == output[p].low by {
                assert(looked_at(output, n, w, eos, p));
                assert(same_value(input[p + 1], output[p]));
            }
        } else {
            let p: int = first_break(input, output, n - 1, to)->0;
            assert(looked_at(output, n, w, eos, p));
            assert(!same_value(input[p + 1], output[p]));
        }
    }
}

spec fn looked_at(output: Seq<FieldValue>, n: int, w: int, eos: Token, p: int) -> bool {
    p < w - 1 && forall|q: int|
        n - 1 <= q <= p && q < output.len() ==> (#[trigger] output[q]).element as usize != eos.0
}

/// Why a proof is refused: for the number of its outputs before anything else, then for the
/// length of the output, for what the proof system says, for a prompt that is not the
/// user's, and last for the first place whose number the sentence does not go on with.
pub proof fn law_refusals_are_told_apart<V, E>(
    context: LLMVerifierContext<V>,
    prompt: Seq<Token>,
    io: IO,
    outcome: Result<(), E>,
)
    requires
        prompt.len() > 0,
    ensures
        ({
            let input: Seq<FieldValue> = io.input@[0]@.data;
            let output: Seq<FieldValue> = io.output@[0]@.data;
            let n: int = prompt.len() as int;
            let w: int = (match context.max_context {
                Some(length) => length,
                None => context.md.config.context_length,
            }) as int;
            let fits: bool = forall|k: nat| w <= #[trigger] pow2(k) ==> output.len() <= pow2(k);
            let begins: bool = forall|i: int| 0 <= i < n ==> (#[trigger] input[i]).element as usize == prompt[i].0;
            let verdict: Result<(), VerifyError<E>> = context.verdict(prompt, io, outcome);
            &&& io.output@.len() != 1 ==> verdict == Err::<(), VerifyError<E>>(
                VerifyError::OutputCount { found: io.output@.len() as usize },
            )
            &&& io.output@.len() == 1 && !fits ==> verdict == Err::<(), VerifyError<E>>(VerifyError::OutputTooLong)
            &&& io.output@.len() == 1 && fits ==> {
                &&& outcome matches Err(error) ==> verdict == Err::<(), VerifyError<E>>(VerifyError::Proof(error))
                &&& outcome is Ok && !begins ==> verdict == Err::<(), VerifyError<E>>(VerifyError::UserInputDiffers)
                &&& outcome is Ok && begins ==> match verdict {
                    Ok(_) => true,
                    Err(VerifyError::NotSequential { place }) => {
                        &&& n - 1 <= place < w - 1
                        &&& input[place + 1].high != output[place as int].high || input[place + 1].low
                            != output[place as int].low
                        &&& forall|p: int|
                            n - 1 <= p < place ==> input[p + 1].high == (#[trigger] output[p]).high && input[p + 1].low
                                == output[p].low
                        &&& forall|q: int|
                            n - 1 <= q <= place && q < output.len() ==> (#[trigger] output[q]).element as usize
                                != context.md.config.eos_token.0
                    },
                    Err(_) => false,
                }
            }
        }),
{
    let input: Seq<FieldValue> = io.input@[0]@.data;
    let output: Seq<FieldValue> = io.output@[0]@.data;
    let n: int = prompt.len() as int;
    let w: int = context.spec_window() as int;
    let above: nat = power_of_two_above(context.spec_window() as nat);
    lemma_power_of_two_above(context.spec_window() as nat);
    let exponent: nat = choose|k: nat| above == #[trigger] pow2(k);
    assert(above == pow2(exponent));
    assert((forall|k: nat| w <= #[trigger] pow2(k) ==> output.len() <= pow2(k)) <==> output.len() <= above);
    assert((forall|i: int| 0 <= i < n ==> (#[trigger] input[i]).element as usize == prompt[i].0)
        <==> crate::verification::starts_with(input, prompt)) by {
        if crate::verification::starts_with(input, prompt) {
            assert forall|i: int| 0 <= i < n implies (#[trigger] input[i]).element as usize == prompt[i].0 by {
                assert(is_token(input[i], prompt[i]));
            }
        } else {
            let i: int = choose|i: int| 0 <= i < n && !is_token(#[trigger] input[i], prompt[i]);
            assert(input[i].element as usize != prompt[i].0);
        }
    }
    let to: int = context.spec_output_len(prompt, io) - 1;
    lemma_first_break(input, output, n - 1, to);
    if first_break(input, output, n - 1, to) is Some {
        let place: int = first_break(input, output, n - 1, to)->0;
        lemma_places_looked_at(context, prompt, io, place);
        assert forall|p: int| n - 1 <= p < place implies input[p + 1].high == (#[trigger] output[p]).high && input[p
            + 1].low == output[p].low by {
            assert(same_value(input[p + 1], output[p]));
        }
        assert forall|q: int| n - 1 <= q <= place && q < output.len() implies (#[trigger] output[q]).element as usize
            != context.md.config.eos_token.0 by {
            assert(!is_token(output[q], context.md.config.eos_token));
        }
    }
}

/// How long the output is without padding: one more than the first place, from the prompt's
/// last on and within the window, that ends the sentence, or the window where there is none.
pub proof fn law_output_ends_with_the_sentence<V>(context: LLMVerifierContext<V>, prompt: Seq<Token>, io: IO)
    requires
        prompt.len() > 0,
    ensures
        ({
            let output: Seq<FieldValue> = io.output@[0]@.data;
            let n: int = prompt.len() as int;
            let w: int = (match context.max_context {
                Some(length) => length,
                None => context.md.config.context_length,
            }) as int;
            let eos: usize = context.md.config.eos_token.0;
            let len: int = context.spec_output_len(prompt, io);
            ||| {
                &&& n <= len <= w
                &&& len <= output.len()
                &&& output[len - 1].element as usize == eos
                &&& forall|q: int| n - 1 <= q < len - 1 ==> (#[trigger] output[q]).element as usize != eos
            }
            ||| {
                &&& len == w
                &&& forall|q: int|
                    n - 1 <= q < w && q < output.len() ==> (#[trigger] output[q]).element as usize != eos
            }
        }),
{
    let output: Seq<FieldValue> = io.output@[0]@.data;
    let eos: Token = context.md.config.eos_token;
    let n: int = prompt.len() as int;
    let w: int = context.spec_window() as int;
    let part: Seq<FieldValue> = generated_part(output, w, n);
    lemma_first_token(part, eos);
    match first_token(part, eos) {
        None => {
            assert forall|q: int| n - 1 <= q < w && q < output.len() implies (#[trigger] output[q]).element as usize
                != eos.0 by {
                assert(part[q - (n - 1)] == output[q]);
            }
        },
        Some(found) => {
            let end: int = n - 1 + found;
            assert(part[found] == output[end]);
            assert forall|q: int| n - 1 <= q < end implies (#[trigger] output[q]).element as usize != eos.0 by {
                assert(part[q - (n - 1)] == output[q]);
            }
        },
    }
}

/// The sentence of an accepted proof, token by token: behind the prompt, every token that
/// is looked at is the token that the output names at the place before.
pub proof fn law_accepted_tokens_are_the_named_ones<V, E>(
    context: LLMVerifierContext<V>,
    prompt: Seq<Token>,
    io: IO,
    outcome: Result<(), E>,
    place: int,
)
    requires
        io.wf(),
        io.input@.len() > 0,
        prompt.len() > 0,
        context.verdict(prompt, io, outcome) is Ok,
        prompt.len() - 1 <= place < io.output@[0]@.data.len(),
        place + 1 < io.input@[0]@.data.len(),
        place < (match context.max_context {
            Some(length) => length,
            None => context.md.config.context_length,
        }) - 1,
        forall|q: int|
            prompt.len() - 1 <= q <= place ==> (#[trigger] io.output@[0]@.data[q]).element as usize
                != context.md.config.eos_token.0,
    ensures
        io.input@[0]@.data[place + 1].element == io.output@[0]@.data[place].element,
{
    law_acceptance_is_exact(context, prompt, io, outcome);
    assert(same_value(io.input@[0]@.data[place + 1], io.output@[0]@.data[place]));
    assert(crate::verification::coherent(io.input@[0]@.data, io.output@[0]@.data));
}

/// What is about tensors is well formed exactly where every tensor holds as many elements as
/// its shape says, and no number stands for two elements anywhere in it.
pub proof fn law_well_formed_numbers_are_unambiguous(io: IO, a: Seq<FieldValue>, b: Seq<FieldValue>, i: int, j: int)
    requires
        io.wf(),
        exists|s: int| #![auto] 0 <= s < io.input@.len() && a == io.input@[s]@.data || 0 <= s < io.output@.len() && a
            == io.output@[s]@.data,
        exists|t: int| #![auto] 0 <= t < io.input@.len() && b == io.input@[t]@.data || 0 <= t < io.output@.len() && b
            == io.output@[t]@.data,
        0 <= i < a.len(),
        0 <= j < b.len(),
        a[i].high == b[j].high,
        a[i].low == b[j].low,
    ensures
        a[i].element == b[j].element,
{
    let s: int = choose|s: int| #![auto] 0 <= s < io.input@.len() && a == io.input@[s]@.data || 0 <= s
        < io.output@.len() && a == io.output@[s]@.data;
    let t: int = choose|t: int| #![auto] 0 <= t < io.input@.len() && b == io.input@[t]@.data || 0 <= t
        < io.output@.len() && b == io.output@[t]@.data;
    assert(same_value(a[i], b[j]) && same_value(b[j], a[i]));
    if 0 <= s < io.input@.len() && a == io.input@[s]@.data {
        if 0 <= t < io.input@.len() && b == io.input@[t]@.data {
            assert(crate::verification::coherent(io.input@[s]@.data, io.input@[t]@.data));
        } else {
            assert(crate::verification::coherent(io.input@[s]@.data, io.output@[t]@.data));
        }
    } else {
        if 0 <= t < io.input@.len() && b == io.input@[t]@.data {
            assert(crate::verification::coherent(io.input@[t]@.data, io.output@[s]@.data));
        } else {
            assert(crate::verification::coherent(io.output@[s]@.data, io.output@[t]@.data));
        }
    }
}

proof fn lemma_reach_holds(input: Seq<FieldValue>, output: Seq<FieldValue>, from: int, to: int, place: int)
    requires
        crate::verification::in_reach(input, output, from, to),
        from <= place < to,
        forall|q: int|
            from <= q < place ==> input[q + 1].high == (#[trigger] output[q]).high && input[q + 1].low
                == output[q].low,
    ensures
        place + 1 < input.len(),
        place < output.len(),
    decreases to - from,
{
    if from < place {
        assert(input[from + 1].high == output[from].high);
        lemma_reach_holds(input, output, from + 1, to, place);
    }
}

proof fn lemma_long_reach(input: Seq<FieldValue>, output: Seq<FieldValue>, from: int, to: int)
    requires
        from < to ==> to < input.len() && to <= output.len(),
    ensures
        crate::verification::in_reach(input, output, from, to),
    decreases to - from,
{
    if from < to {
        lemma_long_reach(input, output, from + 1, to);
    }
}

/// A sentence that can be walked through is as long as the prompt and, if it starts with the
/// prompt, every place up to the first that it does not go on with is there.
pub proof fn law_walkable_sentences_are_long_enough<V>(
    context: LLMVerifierContext<V>,
    prompt: Seq<Token>,
    io: IO,
    place: int,
)
    requires
        prompt.len() > 0,
        context.walkable(prompt, io),
        prompt.len() - 1 <= place < context.spec_output_len(prompt, io) - 1,
        forall|i: int|
            0 <= i < prompt.len() ==> (#[trigger] io.input@[0]@.data[i]).element as usize == prompt[i].0,
        forall|q: int|
            prompt.len() - 1 <= q < place ==> io.input@[0]@.data[q + 1].high == (
            #[trigger] io.output@[0]@.data[q]).high && io.input@[0]@.data[q + 1].low == io.output@[0]@.data[q].low,
    ensures
        prompt.len() <= io.input@[0]@.data.len(),
        place + 1 < io.input@[0]@.data.len(),
        place < io.output@[0]@.data.len(),
{
    assert forall|i: int| 0 <= i < prompt.len() implies is_token(#[trigger] io.input@[0]@.data[i], prompt[i]) by {
        assert(io.input@[0]@.data[i].element as usize == prompt[i].0);
    }
    lemma_reach_holds(
        io.input@[0]@.data,
        io.output@[0]@.data,
        prompt.len() - 1,
        context.spec_output_len(prompt, io) - 1,
        place,
    );
}

/// A sentence of the window's length, with an output of that length, can be walked through.
pub proof fn law_full_sentences_can_be_walked_through<V>(context: LLMVerifierContext<V>, prompt: Seq<Token>, io: IO)
    requires
        ({
            let w: int = (match context.max_context {
                Some(length) => length,
                None => context.md.config.context_length,
            }) as int;
            &&& 0 < prompt.len() <= w
            &&& io.input@[0]@.data.len() >= w
            &&& io.output@[0]@.data.len() >= w
        }),
    ensures
        context.walkable(prompt, io),
{
    law_output_ends_with_the_sentence(context, prompt, io);
    lemma_long_reach(
        io.input@[0]@.data,
        io.output@[0]@.data,
        prompt.len() - 1,
        context.spec_output_len(prompt, io) - 1,
    );
}

/// A sentence shorter than the prompt cannot be walked through; one that does not start with
/// the prompt can, if it is as long.
pub proof fn law_other_sentences_need_no_walk<V>(
    context: LLMVerifierContext<V>,
    prompt: Seq<Token>,
    io: IO,
    at: int,
)
    ensures
        io.input@[0]@.data.len() < prompt.len() ==> !context.walkable(prompt, io),
        io.input@[0]@.data.len() >= prompt.len() && 0 <= at < prompt.len() && io.input@[0]@.data[at].element as usize
            != prompt[at].0 ==> context.walkable(prompt, io),
{
    if 0 <= at < prompt.len() && io.input@[0]@.data[at].element as usize != prompt[at].0 {
        assert(!is_token(io.input@[0]@.data[at], prompt[at]));
    }
}

/// Tensors that hold as many elements as their shapes say, and in which equal numbers have
/// equal elements, are well formed.
pub proof fn law_unambiguous_numbers_are_well_formed(io: IO)
    requires
        forall|t: int|
            0 <= t < io.input@.len() ==> crate::arith::product((#[trigger] io.input@[t])@.shape)
                == io.input@[t]@.data.len(),
        forall|t: int|
            0 <= t < io.output@.len() ==> crate::arith::product((#[trigger] io.output@[t])@.shape)
                == io.output@[t]@.data.len(),
        forall|s: int, i: int, t: int, j: int|
            0 <= s < io.input@.len() && 0 <= i < io.input@[s]@.data.len() && 0 <= t < io.input@.len() && 0 <= j
                < io.input@[t]@.data.len() && (#[trigger] io.input@[s]@.data[i]).high == (
            #[trigger] io.input@[t]@.data[j]).high && io.input@[s]@.data[i].low == io.input@[t]@.data[j].low
                ==> io.input@[s]@.data[i].element == io.input@[t]@.data[j].element,
        forall|s: int, i: int, t: int, j: int|
            0 <= s < io.input@.len() && 0 <= i < io.input@[s]@.data.len() && 0 <= t < io.output@.len() && 0 <= j
                < io.output@[t]@.data.len() && (#[trigger] io.input@[s]@.data[i]).high == (
            #[trigger] io.output@[t]@.data[j]).high && io.input@[s]@.data[i].low == io.output@[t]@.data[j].low
                ==> io.input@[s]@.data[i].element == io.output@[t]@.data[j].element,
        forall|s: int, i: int, t: int, j: int|
            0 <= s < io.output@.len() && 0 <= i < io.output@[s]@.data.len() && 0 <= t < io.output@.len() && 0 <= j
                < io.output@[t]@.data.len() && (#[trigger] io.output@[s]@.data[i]).high == (
            #[trigger] io.output@[t]@.data[j]).high && io.output@[s]@.data[i].low == io.output@[t]@.data[j].low
                ==> io.output@[s]@.data[i].element == io.output@[t]@.data[j].element,
    ensures
        io.wf(),
{
}

/// A well-formed tensor holds as many elements as its shape says.
pub proof fn law_well_formed_tensors_are_full(io: IO, t: int)
    requires
        io.wf(),
    ensures
        0 <= t < io.input@.len() ==> crate::arith::product(io.input@[t]@.shape) == io.input@[t]@.data.len(),
        0 <= t < io.output@.len() ==> crate::arith::product(io.output@[t]@.shape) == io.output@[t]@.data.len(),
{
    if 0 <= t < io.input@.len() {
        assert(io.input@[t].wf());
    }
    if 0 <= t < io.output@.len() {
        assert(io.output@[t].wf());
    }
}

/// A copy of what a proof is about holds the same tensors, number for number.
pub proof fn law_copies_hold_the_same_tensors(a: Seq<crate::tensor::Tensor<FieldValue>>, b: Seq<crate::tensor::Tensor<FieldValue>>)
    requires
        crate::verification::same_tensors(a, b),
    ensures
        a.len() == b.len(),
        forall|t: int| 0 <= t < a.len() ==> (#[trigger] a[t])@.data == b[t]@.data && a[t]@.shape == b[t]@.shape,
{
}

/// A number stands for a token where its element is the token's place in the vocabulary, and
/// two numbers are the same where both halves are.
pub proof fn law_numbers_stand_for_tokens(a: FieldValue, b: FieldValue, token: Token)
    ensures
        is_token(a, token) <==> a.element as usize == token.0,
        same_value(a, b) <==> a.high == b.high && a.low == b.low,
{
}

} // verus!
