//! Laws of the decisions of a benchmark.

use crate::bench::{
    ascending, captured, compare_decoded, contexts, decode_tokens, inference_path, lengths, memory_peak, num_threads,
    parse_model, plan_runs, prompt_for, quantisation_path, sorted, BenchError, CacheMode, Contexts, Decoded,
    InferencePath, KvCacheMode, Model, Plan, QuantisationPath, Weights,
};
use crate::tensor::Element;
use vstd::prelude::*;
use vstd::std_specs::convert::FromSpec;

verus! {

/// Models and cache modes go by these names, and no two models or modes share one.
pub proof fn law_names_tell_apart(a: Model, b: Model, c: CacheMode, d: CacheMode)
    ensures
        a.spec_name() == b.spec_name() ==> a == b,
        c.spec_name() == d.spec_name() ==> c == d,
        Model::GPT2.spec_name() == "gpt2"@,
        Model::Gemma3.spec_name() == "gemma3"@,
        Model::Llama2.spec_name() == "llama2"@,
        CacheMode::PreRequant.spec_name() == "pre-requant"@,
        CacheMode::PostRequant.spec_name() == "post-requant"@,
{
    reveal_strlit("gpt2");
    reveal_strlit("gemma3");
    reveal_strlit("llama2");
    reveal_strlit("pre-requant");
    reveal_strlit("post-requant");
    assert("gpt2"@.len() != "gemma3"@.len());
    assert("gemma3"@[0] != "llama2"@[0]);
    assert("pre-requant"@.len() != "post-requant"@.len());
}

/// The choice of a cache mode is the mode of the same name.
pub proof fn law_choices_are_modes(choice: CacheMode)
    ensures
        choice is PreRequant <==> KvCacheMode::from_spec(choice) is PreRequant,
        choice is PostRequant <==> KvCacheMode::from_spec(choice) is PostRequant,
{
}

/// No more threads are used than were asked for or than there are logical cores; without a
/// number all of these are used, and for zero as many as there are physical ones.
pub proof fn law_threads_are_bounded(requested: Option<usize>, logical: usize, physical: usize, threads: usize)
    requires
        call_ensures(num_threads, (requested, logical, physical), threads),
    ensures
        requested is None ==> threads == logical,
        requested == Some(0usize) ==> threads == physical,
        requested matches Some(number) ==> number > 0 ==> threads <= number && threads <= logical,
        requested matches Some(number) ==> number > 0 ==> threads == number || threads == logical,
{
}

/// Sorting keeps every length as often as it occurs, and puts none before a shorter one.
pub proof fn law_sorting_keeps_the_lengths(unsorted: Vec<usize>, result: Vec<usize>, i: int, j: int, len: usize)
    requires
        call_ensures(sorted, (&unsorted,), result),
    ensures
        result@.len() == unsorted@.len(),
        0 <= i <= j < result@.len() ==> result@[i] <= result@[j],
        result@.contains(len) <==> unsorted@.contains(len),
        result@.to_multiset().count(len) == unsorted@.to_multiset().count(len),
{
    result@.to_multiset_ensures();
    unsorted@.to_multiset_ensures();
    assert(result@.to_multiset() == unsorted@.to_multiset());
    assert(result@.contains(len) <==> result@.to_multiset().count(len) > 0);
    assert(unsorted@.contains(len) <==> unsorted@.to_multiset().count(len) > 0);
}

/// A window is one run, behind a prompt of the given length.
pub proof fn law_windows_are_one_run(window: usize, min_user_len: usize, sequence: Vec<usize>, plan: Plan)
    requires
        call_ensures(plan_runs, (Some(window), min_user_len, &sequence), plan),
    ensures
        plan.max_context == window,
        plan.runs@.len() == 1,
        plan.runs@[0].0 == min_user_len,
        plan.runs@[0].1 == window,
{
}

/// A sequence of lengths is as many runs, from the shortest to the longest, each of which
/// leaves two tokens to be generated where its length is two or more. The longest one is the
/// window.
pub proof fn law_sequences_are_a_run_for_every_length(
    min_user_len: usize,
    sequence: Vec<usize>,
    plan: Plan,
    i: int,
    j: int,
    len: usize,
)
    requires
        call_ensures(plan_runs, (None, min_user_len, &sequence), plan),
    ensures
        plan.runs@.len() == sequence@.len(),
        0 <= i <= j < plan.runs@.len() ==> plan.runs@[i].1 <= plan.runs@[j].1,
        0 <= i < plan.runs@.len() && plan.runs@[i].1 >= 2 ==> plan.runs@[i].0 + 2 == plan.runs@[i].1,
        0 <= i < plan.runs@.len() && plan.runs@[i].1 < 2 ==> plan.runs@[i].0 == 0,
        0 <= i < plan.runs@.len() ==> plan.runs@[i].1 <= plan.max_context,
        0 <= i < plan.runs@.len() ==> sequence@.contains(plan.runs@[i].1),
        sequence@.contains(len) ==> len <= plan.max_context,
        sequence@.len() > 0 ==> sequence@.contains(plan.max_context),
{
    let found: Seq<usize> = lengths(plan.runs@);
    found.to_multiset_ensures();
    sequence@.to_multiset_ensures();
    assert(found.to_multiset() == sequence@.to_multiset());
    assert(found.len() == plan.runs@.len());
    if 0 <= i <= j < plan.runs@.len() {
        assert(found[i] <= found[j]);
    }
    if 0 <= i < plan.runs@.len() {
        assert(found[i] == plan.runs@[i].1);
        assert(found[i] <= found[found.len() - 1]);
        assert(found.contains(found[i]));
        assert(found.to_multiset().count(found[i]) > 0);
    }
    if sequence@.contains(len) {
        assert(sequence@.to_multiset().count(len) > 0);
        assert(found.contains(len));
        let at: int = choose|at: int| 0 <= at < found.len() && found[at] == len;
        assert(found[at] <= found[found.len() - 1]);
    }
    if sequence@.len() > 0 {
        let last: int = found.len() - 1;
        assert(found.contains(found[last]));
        assert(found.to_multiset().count(found[last]) > 0);
    }
}

/// The parts that the plan is stated with.
pub proof fn law_plans_are_stated_plainly(runs: Seq<(usize, usize)>, sizes: Seq<usize>, captures: Seq<Vec<Element>>, i: int)
    ensures
        lengths(runs).len() == runs.len(),
        0 <= i < runs.len() ==> lengths(runs)[i] == runs[i].1,
        ascending(sizes) <==> forall|i: int, j: int| 0 <= i <= j < sizes.len() ==> sizes[i] <= sizes[j],
        forall|len: usize| len >= 2 ==> #[trigger] prompt_for(len) + 2 == len,
        forall|len: usize| len < 2 ==> #[trigger] prompt_for(len) == 0,
        captured(captures).len() == captures.len(),
        0 <= i < captures.len() ==> captured(captures)[i] == captures[i]@,
{
}

/// What is decoded fills the window behind the prompt, and is at least one token.
pub proof fn law_decoding_fills_the_window(
    min_user_len: usize,
    max_context: usize,
    result: Result<usize, BenchError>,
)
    requires
        call_ensures(decode_tokens, (min_user_len, max_context), result),
    ensures
        result is Ok <==> min_user_len < max_context,
        result matches Ok(tokens) ==> tokens > 0 && min_user_len + tokens == max_context,
        result matches Err(error) ==> error == BenchError::NothingToDecode,
{
}

/// Workers are used exactly where they are asked for, and refused what they cannot cache;
/// requantised keys and values are cached exactly where that was chosen.
pub proof fn law_inference_follows_the_choices(
    distributed: bool,
    mode: CacheMode,
    result: Result<InferencePath, BenchError>,
)
    requires
        call_ensures(inference_path, (distributed, mode), result),
    ensures
        result is Err <==> distributed && mode is PostRequant,
        result matches Err(error) ==> error == BenchError::DistributedPostRequant,
        result matches Ok(path) ==> (path is Distributed <==> distributed),
        result matches Ok(path) ==> (path is WithKvCache <==> mode is PostRequant),
        result matches Ok(InferencePath::WithKvCache(mode)) ==> mode is PostRequant,
{
}

/// Contexts are loaded exactly where that is asked for, saved exactly where that is, and
/// never both.
pub proof fn law_contexts_follow_the_choices(load: bool, save: bool, result: Result<Contexts, BenchError>)
    requires
        call_ensures(contexts, (load, save), result),
    ensures
        result is Err <==> load && save,
        result matches Err(error) ==> error == BenchError::LoadAndSave,
        result matches Ok(contexts) ==> (contexts is Load <==> load),
        result matches Ok(contexts) ==> (contexts is GenerateAndSave <==> save),
        result matches Ok(contexts) ==> (contexts is Generate <==> !load && !save),
{
}

/// Layers are transformed only where accuracy is asked for, and not those of Llama 2.
pub proof fn law_transforms_are_for_accuracy(accuracy: bool, model: Model, path: QuantisationPath)
    requires
        call_ensures(quantisation_path, (accuracy, model), path),
    ensures
        path is Transform ==> accuracy,
        model is Llama2 ==> path is Observer,
        accuracy && (model is GPT2 || model is Gemma3) ==> path is Transform,
        !accuracy ==> path is Observer,
{
}

/// A file that is named is what is loaded, or refused; only without one does the name on
/// Hugging Face matter.
pub proof fn law_weights_are_those_named(
    model: Model,
    gguf: Option<String>,
    hf: Option<String>,
    result: Result<Weights, BenchError>,
)
    requires
        call_ensures(parse_model, (model, gguf, hf), result),
    ensures
        result matches Ok(Weights::Gguf(file)) ==> gguf == Some(file) && model is GPT2,
        result matches Ok(Weights::SafeTensors(name)) ==> gguf is None && hf == Some(name),
        result is Ok <==> (gguf is Some && model is GPT2) || (gguf is None && hf is Some),
        result matches Err(BenchError::UnsupportedFormat(refused)) ==> refused == model && gguf is Some,
        result is Err && gguf is None ==> result->Err_0 == BenchError::NoWeights,
        result is Err && gguf is Some ==> result->Err_0 == BenchError::UnsupportedFormat(model),
{
}

/// Two decode runs compare equal exactly where their tokens and all their captures are the
/// same, place by place; tokens that differ are named first.
pub proof fn law_decoded_runs_must_be_the_same(pre: Decoded, post: Decoded, result: Result<(), BenchError>)
    requires
        call_ensures(compare_decoded, (&pre, &post), result),
    ensures
        result is Ok <==> {
            &&& pre.generated_tokens@ == post.generated_tokens@
            &&& pre.layer_captures@.len() == post.layer_captures@.len()
            &&& forall|i: int|
                0 <= i < pre.layer_captures@.len() ==> (#[trigger] pre.layer_captures@[i])@
                    == post.layer_captures@[i]@
        },
        pre.generated_tokens@ != post.generated_tokens@ ==> result == Err::<(), BenchError>(BenchError::TokensDiffer),
        result is Err && pre.generated_tokens@ == post.generated_tokens@ ==> result->Err_0
            == BenchError::CapturesDiffer,
{
    let a: Seq<Seq<Element>> = captured(pre.layer_captures@);
    let b: Seq<Seq<Element>> = captured(post.layer_captures@);
    if a == b {
        assert(a.len() == pre.layer_captures@.len() && b.len() == post.layer_captures@.len());
        assert forall|i: int| 0 <= i < pre.layer_captures@.len() implies (#[trigger] pre.layer_captures@[i])@
            == post.layer_captures@[i]@ by {
            assert(a[i] == b[i]);
        }
    }
    if pre.layer_captures@.len() == post.layer_captures@.len() && forall|i: int|
        0 <= i < pre.layer_captures@.len() ==> (#[trigger] pre.layer_captures@[i])@ == post.layer_captures@[i]@ {
        assert(a =~= b);
    }
}

/// A peak is counted in whole mebibytes, and exact where it was raised.
pub proof fn law_peaks_are_whole_mebibytes(before: u64, after: u64, peak: (u64, bool))
    requires
        call_ensures(memory_peak, (before, after), peak),
    ensures
        peak.0 * 1024 * 1024 <= after,
        after < (peak.0 + 1) * 1024 * 1024,
        peak.1 <==> before != after,
{
}

} // verus!
