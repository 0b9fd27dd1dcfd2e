//! What the benchmark of a language model decides before it runs anything.

use crate::tensor::Element;
use vstd::prelude::*;

verus! {

/// The models that can be benchmarked.
#[derive(Debug, Clone, Copy, PartialEq, Eq, Structural)]
pub enum Model {
    GPT2,
    Gemma3,
    Llama2,
}

impl Model {
    /// The name of the model.
    pub open spec fn spec_name(self) -> Seq<char> {
        match self {
            Model::GPT2 => "gpt2"@,
            Model::Gemma3 => "gemma3"@,
            Model::Llama2 => "llama2"@,
        }
    }

    /// The name of the model.
    pub fn name(&self) -> (name: &'static str)
        ensures
            name@ == self.spec_name(),
    {
        match self {
            Model::GPT2 => "gpt2",
            Model::Gemma3 => "gemma3",
            Model::Llama2 => "llama2",
        }
    }
}

/// The representation of keys and values in the cache: before or after requantisation.
#[derive(Debug, Clone, Copy, PartialEq, Eq, Structural)]
pub enum KvCacheMode {
    PreRequant,
    PostRequant,
}

/// The choice of the representation of keys and values in the cache.
#[derive(Debug, Clone, Copy, PartialEq, Eq, Structural)]
pub enum CacheMode {
    PreRequant,
    PostRequant,
}

impl Default for CacheMode {
    fn default() -> (mode: Self)
        ensures
            mode == CacheMode::PreRequant,
    {
        CacheMode::PreRequant
    }
}

impl From<CacheMode> for KvCacheMode {
    fn from(value: CacheMode) -> (mode: KvCacheMode) {
        match value {
            CacheMode::PreRequant => KvCacheMode::PreRequant,
            CacheMode::PostRequant => KvCacheMode::PostRequant,
        }
    }
}

impl vstd::std_specs::convert::FromSpecImpl<CacheMode> for KvCacheMode {
    open spec fn obeys_from_spec() -> bool {
        true
    }

    open spec fn from_spec(value: CacheMode) -> KvCacheMode {
        match value {
            CacheMode::PreRequant => KvCacheMode::PreRequant,
            CacheMode::PostRequant => KvCacheMode::PostRequant,
        }
    }
}

impl CacheMode {
    /// The name of the choice.
    pub open spec fn spec_name(self) -> Seq<char> {
        match self {
            CacheMode::PreRequant => "pre-requant"@,
            CacheMode::PostRequant => "post-requant"@,
        }
    }

    /// The name of the choice.
    pub fn name(&self) -> (name: &'static str)
        ensures
            name@ == self.spec_name(),
    {
        match self {
            CacheMode::PreRequant => "pre-requant",
            CacheMode::PostRequant => "post-requant",
        }
    }
}

/// Why a benchmark cannot be run as asked for.
#[derive(Debug, Clone, Copy, PartialEq, Eq, Structural)]
pub enum BenchError {
    /// A decode run must leave room behind the prompt.
    NothingToDecode,
    /// Workers cannot cache what is requantised.
    DistributedPostRequant,
    /// Parameters that were loaded are not saved again.
    LoadAndSave,
    /// The model is not available in that format.
    UnsupportedFormat(Model),
    /// There must be something to load the weights from.
    NoWeights,
    /// The two cache modes generated different tokens.
    TokensDiffer,
    /// The two cache modes computed different attention outputs or logits.
    CapturesDiffer,
}

/// The number of threads: as many as there are physical cores for zero, no more than
/// there are logical ones for any other number, and as many as those for none.
pub fn num_threads(requested: Option<usize>, logical: usize, physical: usize) -> (threads: usize)
    ensures
        threads == match requested {
            None => logical,
            Some(number) => if number == 0 {
                physical
            } else if number < logical {
                number
            } else {
                logical
            },
        },
{
    match requested {
        Some(number) => if number == 0 {
            physical
        } else if number < logical {
            number
        } else {
            logical
        },
        None => logical,
    }
}

/// The runs of a benchmark: for each the length of the prompt and of the whole sentence;
/// and the longest sentence of all.
#[derive(Debug)]
pub struct Plan {
    pub max_context: usize,
    pub runs: Vec<(usize, usize)>,
}

/// The lengths of the sentences.
pub open spec fn lengths(runs: Seq<(usize, usize)>) -> Seq<usize> {
    runs.map_values(|run: (usize, usize)| run.1)
}

/// The lengths do not fall.
pub open spec fn ascending(lengths: Seq<usize>) -> bool {
    forall|i: int, j: int| 0 <= i <= j < lengths.len() ==> lengths[i] <= lengths[j]
}

/// The prompt that leaves two tokens of a sentence to be generated.
pub open spec fn prompt_for(len: usize) -> int {
    if len >= 2 {
        len - 2
    } else {
        0
    }
}

fn insert_in_order(lengths: &mut Vec<usize>, len: usize)
    requires
        ascending(old(lengths)@),
    ensures
        ascending(final(lengths)@),
        final(lengths)@.to_multiset() == old(lengths)@.to_multiset().insert(len),
        final(lengths)@.len() == old(lengths)@.len() + 1,
{
    let ghost before: Seq<usize> = lengths@;
    let mut at: usize = 0;
    while at < lengths.len() && lengths[at] <= len
        invariant
            lengths@ == before,
            at <= lengths@.len(),
            forall|i: int| 0 <= i < at ==> #[trigger] lengths@[i] <= len,
        decreases lengths@.len() - at,
    {
        at = at + 1;
    }
    lengths.insert(at, len);
    proof {
        assert forall|i: int, j: int| 0 <= i <= j < lengths@.len() implies lengths@[i] <= lengths@[j] by {
            if j < at {
                assert(before[i] <= before[j]);
            } else if i > at {
                assert(before[i - 1] <= before[j - 1]);
            } else if i < at && j > at {
                assert(before[i] <= before[j - 1]);
            } else if i == at && j > at {
                assert(before[at as int] <= before[j - 1]);
            }
        }
        vstd::seq_lib::to_multiset_remove(lengths@, at as int);
        assert(lengths@.remove(at as int) =~= before);
        assert(lengths@[at as int] == len);
        lengths@.to_multiset_ensures();
        assert(lengths@.to_multiset().count(len) > 0);
        assert(lengths@.to_multiset() =~= before.to_multiset().insert(len));
    }
}

/// The lengths in ascending order.
pub fn sorted(lengths: &Vec<usize>) -> (result: Vec<usize>)
    ensures
        ascending(result@),
        result@.to_multiset() == lengths@.to_multiset(),
        result@.len() == lengths@.len(),
{
    let mut result: Vec<usize> = Vec::new();
    let mut i: usize = 0;
    assert(lengths@.take(0) =~= Seq::<usize>::empty());
    while i < lengths.len()
        invariant
            i <= lengths@.len(),
            ascending(result@),
            result@.len() == i,
            result@.to_multiset() == lengths@.take(i as int).to_multiset(),
        decreases lengths@.len() - i,
    {
        insert_in_order(&mut result, lengths[i]);
        proof {
            broadcast use vstd::seq_lib::group_to_multiset_ensures;

            assert(lengths@.take(i + 1) =~= lengths@.take(i as int).push(lengths@[i as int]));
        }
        i = i + 1;
    }
    assert(lengths@.take(i as int) =~= lengths@);
    result
}

/// Plans the runs: one for a given window, with a prompt of the given length, or one for
/// every length of a sequence, in ascending order, each generating two tokens.
pub fn plan_runs(max_context: Option<usize>, min_user_len: usize, sequence: &Vec<usize>) -> (plan: Plan)
    requires
        max_context is None ==> sequence@.len() > 0,
    ensures
        match max_context {
            Some(window) => {
                &&& plan.max_context == window
                &&& plan.runs@ == seq![(min_user_len, window)]
            },
            None => {
                &&& ascending(lengths(plan.runs@))
                &&& lengths(plan.runs@).to_multiset() == sequence@.to_multiset()
                &&& forall|i: int|
                    0 <= i < plan.runs@.len() ==> (#[trigger] plan.runs@[i]).0 == prompt_for(plan.runs@[i].1)
                &&& plan.runs@.len() == sequence@.len()
                &&& plan.max_context == plan.runs@.last().1
            },
        },
{
    let mut runs: Vec<(usize, usize)> = Vec::new();
    match max_context {
        Some(window) => {
            runs.push((min_user_len, window));
            assert(runs@ =~= seq![(min_user_len, window)]);
            Plan { max_context: window, runs }
        },
        None => {
            let order: Vec<usize> = sorted(sequence);
            let mut i: usize = 0;
            while i < order.len()
                invariant
                    i <= order@.len(),
                    runs@.len() == i,
                    forall|j: int|
                        0 <= j < i ==> (#[trigger] runs@[j]).1 == order@[j] && runs@[j].0 == prompt_for(order@[j]),
                decreases order@.len() - i,
            {
                runs.push((order[i].saturating_sub(2), order[i]));
                i = i + 1;
            }
            assert(lengths(runs@) =~= order@);
            let longest: usize = order[order.len() - 1];
            Plan { max_context: longest, runs }
        },
    }
}

/// No run of a sequence is longer than the longest sentence, and every prompt leaves two
/// tokens to be generated, or as many as its sentence has.
pub proof fn law_runs_fit_the_window(runs: Seq<(usize, usize)>, max_context: usize, at: int)
    requires
        ascending(lengths(runs)),
        runs.len() > 0,
        max_context == runs.last().1,
        forall|i: int| 0 <= i < runs.len() ==> (#[trigger] runs[i]).0 == prompt_for(runs[i].1),
        0 <= at < runs.len(),
    ensures
        runs[at].1 <= max_context,
        runs[at].1 - runs[at].0 == if runs[at].1 >= 2 {
            2
        } else {
            runs[at].1 as int
        },
{
    assert(lengths(runs)[at] <= lengths(runs)[runs.len() - 1]);
}

/// The number of tokens that a decode run generates behind a prompt.
pub fn decode_tokens(min_user_len: usize, max_context: usize) -> (result: Result<usize, BenchError>)
    ensures
        match result {
            Ok(tokens) => min_user_len < max_context && tokens == max_context - min_user_len,
            Err(error) => min_user_len >= max_context && error == BenchError::NothingToDecode,
        },
{
    if min_user_len < max_context {
        Ok(max_context - min_user_len)
    } else {
        Err(BenchError::NothingToDecode)
    }
}

/// How the inference of a run is done.
#[derive(Debug, Clone, Copy, PartialEq, Eq, Structural)]
pub enum InferencePath {
    /// By the engine that splits layers between workers.
    Distributed,
    /// By the driver, with a cache of requantised keys and values.
    WithKvCache(KvCacheMode),
    /// By the driver.
    Plain,
}

/// Decides how the inference of a run is done.
pub fn inference_path(distributed: bool, kv_cache_mode: CacheMode) -> (result: Result<InferencePath, BenchError>)
    ensures
        result == (match (distributed, kv_cache_mode) {
            (true, CacheMode::PostRequant) => Err::<InferencePath, BenchError>(BenchError::DistributedPostRequant),
            (true, CacheMode::PreRequant) => Ok(InferencePath::Distributed),
            (false, CacheMode::PostRequant) => Ok(InferencePath::WithKvCache(KvCacheMode::PostRequant)),
            (false, CacheMode::PreRequant) => Ok(InferencePath::Plain),
        }),
{
    match kv_cache_mode {
        CacheMode::PostRequant => if distributed {
            Err(BenchError::DistributedPostRequant)
        } else {
            Ok(InferencePath::WithKvCache(KvCacheMode::PostRequant))
        },
        CacheMode::PreRequant => if distributed {
            Ok(InferencePath::Distributed)
        } else {
            Ok(InferencePath::Plain)
        },
    }
}

/// Where the contexts of prover and verifier come from and go to.
#[derive(Debug, Clone, Copy, PartialEq, Eq, Structural)]
pub enum Contexts {
    Load,
    Generate,
    GenerateAndSave,
}

/// Decides where the contexts of prover and verifier come from and go to.
pub fn contexts(load_params: bool, save_params: bool) -> (result: Result<Contexts, BenchError>)
    ensures
        result == (match (load_params, save_params) {
            (true, true) => Err::<Contexts, BenchError>(BenchError::LoadAndSave),
            (true, false) => Ok(Contexts::Load),
            (false, false) => Ok(Contexts::Generate),
            (false, true) => Ok(Contexts::GenerateAndSave),
        }),
{
    if load_params {
        if save_params {
            Err(BenchError::LoadAndSave)
        } else {
            Ok(Contexts::Load)
        }
    } else if save_params {
        Ok(Contexts::GenerateAndSave)
    } else {
        Ok(Contexts::Generate)
    }
}

/// How a model is quantised.
#[derive(Debug, Clone, Copy, PartialEq, Eq, Structural)]
pub enum QuantisationPath {
    /// With a strategy that observes random sequences.
    Observer,
    /// After a transformation of the layers that improves accuracy.
    Transform,
}

/// Decides how a model is quantised.
pub fn quantisation_path(accuracy: bool, model: Model) -> (path: QuantisationPath)
    ensures
        path == if accuracy && model != Model::Llama2 {
            QuantisationPath::Transform
        } else {
            QuantisationPath::Observer
        },
{
    if !accuracy {
        return QuantisationPath::Observer;
    }
    match model {
        Model::GPT2 => QuantisationPath::Transform,
        Model::Gemma3 => QuantisationPath::Transform,
        Model::Llama2 => QuantisationPath::Observer,
    }
}

/// What the weights are loaded from.
#[derive(Debug)]
pub enum Weights {
    /// A file in the GGUF format.
    Gguf(String),
    /// A model in the safetensors format, by its name on Hugging Face.
    SafeTensors(String),
}

/// Decides what the weights of a model are loaded from: a GGUF file if one is named, which
/// only some models support, or else the model named on Hugging Face.
pub fn parse_model(model: Model, gguf: Option<String>, hf: Option<String>) -> (result: Result<Weights, BenchError>)
    ensures
        result == (match (gguf, hf) {
            (Some(file), _) => if model == Model::GPT2 {
                Ok::<Weights, BenchError>(Weights::Gguf(file))
            } else {
                Err(BenchError::UnsupportedFormat(model))
            },
            (None, Some(name)) => Ok(Weights::SafeTensors(name)),
            (None, None) => Err(BenchError::NoWeights),
        }),
{
    match gguf {
        Some(file) => match model {
            Model::GPT2 => Ok(Weights::Gguf(file)),
            _ => Err(BenchError::UnsupportedFormat(model)),
        },
        None => match hf {
            Some(name) => Ok(Weights::SafeTensors(name)),
            None => Err(BenchError::NoWeights),
        },
    }
}

/// What a decode run found: the tokens it generated, and the attention outputs and logits
/// that were captured on the way.
#[derive(Debug)]
pub struct Decoded {
    pub generated_tokens: Vec<Element>,
    pub layer_captures: Vec<Vec<Element>>,
}

fn same_elements(a: &Vec<Element>, b: &Vec<Element>) -> (same: bool)
    ensures
        same == (a@ == b@),
{
    if a.len() != b.len() {
        return false;
    }
    let mut i: usize = 0;
    while i < a.len()
        invariant
            i <= a@.len(),
            a@.len() == b@.len(),
            forall|j: int| 0 <= j < i ==> a@[j] == b@[j],
        decreases a@.len() - i,
    {
        if a[i] != b[i] {
            return false;
        }
        i = i + 1;
    }
    assert(a@ =~= b@);
    true
}

/// The elements of captures.
pub open spec fn captured(captures: Seq<Vec<Element>>) -> Seq<Seq<Element>> {
    captures.map_values(|capture: Vec<Element>| capture@)
}

fn same_captures(a: &Vec<Vec<Element>>, b: &Vec<Vec<Element>>) -> (same: bool)
    ensures
        same == (captured(a@) == captured(b@)),
{
    if a.len() != b.len() {
        assert(captured(a@).len() != captured(b@).len());
        return false;
    }
    let mut i: usize = 0;
    while i < a.len()
        invariant
            i <= a@.len(),
            a@.len() == b@.len(),
            forall|j: int| 0 <= j < i ==> (#[trigger] a@[j])@ == b@[j]@,
        decreases a@.len() - i,
    {
        if !same_elements(&a[i], &b[i]) {
            assert(captured(a@)[i as int] != captured(b@)[i as int]);
            return false;
        }
        i = i + 1;
    }
    assert(captured(a@) =~= captured(b@));
    true
}

/// Compares what the two cache modes found: first the tokens, and after them the captures,
/// both of which must be the same to the last bit.
pub fn compare_decoded(pre: &Decoded, post: &Decoded) -> (result: Result<(), BenchError>)
    ensures
        result == (if pre.generated_tokens@ != post.generated_tokens@ {
            Err::<(), BenchError>(BenchError::TokensDiffer)
        } else if captured(pre.layer_captures@) != captured(post.layer_captures@) {
            Err(BenchError::CapturesDiffer)
        } else {
            Ok(())
        }),
{
    if !same_elements(&pre.generated_tokens, &post.generated_tokens) {
        return Err(BenchError::TokensDiffer);
    }
    if !same_captures(&pre.layer_captures, &post.layer_captures) {
        return Err(BenchError::CapturesDiffer);
    }
    Ok(())
}

/// A peak of memory in whole mebibytes, and whether it is exact: where proving did not
/// raise the peak, it is an upper bound only.
pub fn memory_peak(before: u64, after: u64) -> (peak: (u64, bool))
    ensures
        peak.0 == after / 1048576,
        peak.1 == (after != before),
{
    let kibibytes: u64 = after / 1024;
    (kibibytes / 1024, after != before)
}

} // verus!
