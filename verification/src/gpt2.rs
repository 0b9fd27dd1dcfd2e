//! The loader of the GPT-2 family of models.

use crate::einsum::{
    handle_view, handle_views, layer_error, EinSum, EinSumError, EinSumView, HandleView, TensorHandle,
};
use crate::gpt2_loading_laws::law_names_of_the_family;
use crate::metadata::{LLMConfig, Token};
use vstd::prelude::*;
use vstd::string::StringExecFns;

verus! {

/// The names under which models of the family go.
pub open spec fn variants() -> Seq<Seq<char>> {
    seq!["gpt2"@, "Tmkrzx_X"@, "distilgpt2"@, "toy_gpt2"@, "sshleifer/tiny-gpt2"@]
}

/// The names under which models of the family go.
pub fn gpt2_variants() -> (names: Vec<String>)
    ensures
        names@.map_values(|name: String| name@) == variants(),
{
    let mut names: Vec<String> = Vec::new();
    names.push("gpt2".to_owned());
    names.push("Tmkrzx_X".to_owned());
    names.push("distilgpt2".to_owned());
    names.push("toy_gpt2".to_owned());
    names.push("sshleifer/tiny-gpt2".to_owned());
    assert(names@.map_values(|name: String| name@) =~= variants());
    names
}

/// Whether one of the names is that of a model of the family.
pub fn is_gpt2_model(names: &[String]) -> (found: bool)
    ensures
        found == exists|i: int| 0 <= i < names@.len() && variants().contains(#[trigger] names@[i]@),
        !found ==> forall|i: int|
            #![trigger names@[i]]
            0 <= i < names@.len() ==> names@[i]@ != "gpt2"@ && names@[i]@ != "Tmkrzx_X"@ && names@[i]@ != "distilgpt2"@
                && names@[i]@ != "toy_gpt2"@ && names@[i]@ != "sshleifer/tiny-gpt2"@,
        found ==> exists|i: int|
            #![trigger names@[i]]
            0 <= i < names@.len() && (names@[i]@ == "gpt2"@ || names@[i]@ == "Tmkrzx_X"@ || names@[i]@ == "distilgpt2"@
                || names@[i]@ == "toy_gpt2"@ || names@[i]@ == "sshleifer/tiny-gpt2"@),
{
    let known: Vec<String> = gpt2_variants();
    let mut i: usize = 0;
    while i < names.len()
        invariant
            i <= names@.len(),
            known@.map_values(|name: String| name@) == variants(),
            forall|j: int| 0 <= j < i ==> !variants().contains(#[trigger] names@[j]@),
        decreases names@.len() - i,
    {
        let mut k: usize = 0;
        while k < known.len()
            invariant
                i < names@.len(),
                k <= known@.len(),
                known@.map_values(|name: String| name@) == variants(),
                forall|j: int| 0 <= j < k ==> variants()[j] != names@[i as int]@,
            decreases known@.len() - k,
        {
            assert(variants()[k as int] == known@[k as int]@);
            if known[k] == names[i] {
                assert(variants().contains(names@[i as int]@));
                proof {
                    law_names_of_the_family(names@[i as int]@);
                }
                return true;
            }
            k = k + 1;
        }
        assert(!variants().contains(names@[i as int]@));
        i = i + 1;
    }
    assert forall|j: int|
        #![trigger names@[j]]
        0 <= j < names@.len() implies names@[j]@ != "gpt2"@ && names@[j]@ != "Tmkrzx_X"@ && names@[j]@ != "distilgpt2"@
        && names@[j]@ != "toy_gpt2"@ && names@[j]@ != "sshleifer/tiny-gpt2"@ by {
        assert(!variants().contains(names@[j]@));
        law_names_of_the_family(names@[j]@);
    }
    false
}

/// The kinds of normalisation that the family uses.
#[derive(Debug, Clone, Copy, PartialEq, Eq, Structural)]
pub enum NormType {
    LayerNorm,
}

/// The kinds of positional encoding that the family uses.
#[derive(Debug, Clone, Copy, PartialEq, Eq, Structural)]
pub enum PositionalConfig {
    FixedPositional,
}

/// How far attention reaches.
#[derive(Debug, Clone, Copy, PartialEq, Eq, Structural)]
pub enum AttentionSpan {
    Full,
}

/// How attention heads share keys and values.
#[derive(Debug, Clone, Copy, PartialEq, Eq, Structural)]
pub enum AttentionHeadType {
    /// Every head has its own.
    MHA,
}

/// The attention of a model: how far it reaches in each block, and the kind of its heads.
#[derive(Debug)]
pub struct AttentionConfig {
    pub span: Vec<AttentionSpan>,
    pub head: AttentionHeadType,
}

/// How the layers of a model are put together.
#[derive(Debug)]
pub struct LLMStructure {
    pub generic: LLMConfig,
    pub norm_type: NormType,
    pub global_positional: Option<PositionalConfig>,
    pub attention_config: AttentionConfig,
}

impl Clone for LLMStructure {
    fn clone(&self) -> (copy: Self)
        ensures
            copy.generic.same_as(&self.generic),
            copy.norm_type == self.norm_type,
            copy.global_positional == self.global_positional,
            copy.attention_config.span@ == self.attention_config.span@,
            copy.attention_config.head == self.attention_config.head,
    {
        let mut span: Vec<AttentionSpan> = Vec::new();
        while span.len() < self.attention_config.span.len()
            invariant
                span@.len() <= self.attention_config.span@.len(),
                span@ == self.attention_config.span@.take(span@.len() as int),
            decreases self.attention_config.span@.len() - span@.len(),
        {
            span.push(self.attention_config.span[span.len()]);
        }
        assert(span@ =~= self.attention_config.span@);
        LLMStructure {
            generic: self.generic.clone(),
            norm_type: self.norm_type,
            global_positional: self.global_positional,
            attention_config: AttentionConfig { span, head: self.attention_config.head },
        }
    }
}

/// The structure is that of a model of the family.
pub open spec fn is_gpt2_structure(structure: LLMStructure, config: LLMConfig) -> bool {
    &&& structure.generic.same_as(&config)
    &&& structure.norm_type == NormType::LayerNorm
    &&& structure.global_positional == Some(PositionalConfig::FixedPositional)
    &&& structure.attention_config.head == AttentionHeadType::MHA
    &&& structure.attention_config.span@ == Seq::new(config.num_block as nat, |i: int| AttentionSpan::Full)
}

/// The structure of a model of the family: every block attends to the whole sequence.
pub fn gpt2_structure(config: &LLMConfig) -> (structure: LLMStructure)
    ensures
        is_gpt2_structure(structure, *config),
{
    let mut span: Vec<AttentionSpan> = Vec::new();
    while span.len() < config.num_block
        invariant
            span@.len() <= config.num_block,
            forall|i: int| 0 <= i < span@.len() ==> #[trigger] span@[i] == AttentionSpan::Full,
        decreases config.num_block - span@.len(),
    {
        span.push(AttentionSpan::Full);
    }
    assert(span@ =~= Seq::new(config.num_block as nat, |i: int| AttentionSpan::Full));
    LLMStructure {
        generic: config.clone(),
        norm_type: NormType::LayerNorm,
        global_positional: Some(PositionalConfig::FixedPositional),
        attention_config: AttentionConfig { span, head: AttentionHeadType::MHA },
    }
}

/// The figures that a model's configuration file holds, as far as they are there.
#[derive(Debug, Clone, Copy)]
pub struct RawConfig {
    pub n_embd: Option<usize>,
    pub n_head: Option<usize>,
    pub n_ctx: Option<usize>,
    pub n_layer: Option<usize>,
    /// The bits of the single-precision number.
    pub layer_norm_epsilon: Option<u32>,
    pub vocab_size: Option<usize>,
    pub eos_token_id: Option<usize>,
}

/// A figure of a configuration file.
#[derive(Debug, Clone, Copy, PartialEq, Eq, Structural)]
pub enum ConfigKey {
    Embd,
    Head,
    Ctx,
    Layer,
    LayerNormEpsilon,
    VocabSize,
    EosTokenId,
}

impl RawConfig {
    /// The first figure that is missing.
    pub open spec fn missing(self) -> Option<ConfigKey> {
        if self.n_embd is None {
            Some(ConfigKey::Embd)
        } else if self.n_head is None {
            Some(ConfigKey::Head)
        } else if self.n_ctx is None {
            Some(ConfigKey::Ctx)
        } else if self.n_layer is None {
            Some(ConfigKey::Layer)
        } else if self.layer_norm_epsilon is None {
            Some(ConfigKey::LayerNormEpsilon)
        } else if self.vocab_size is None {
            Some(ConfigKey::VocabSize)
        } else if self.eos_token_id is None {
            Some(ConfigKey::EosTokenId)
        } else {
            None
        }
    }

    /// The first figure that is missing.
    pub fn first_missing(&self) -> (key: Option<ConfigKey>)
        ensures
            key == self.missing(),
            key is None <==> self.n_embd is Some && self.n_head is Some && self.n_ctx is Some && self.n_layer is Some
                && self.layer_norm_epsilon is Some && self.vocab_size is Some && self.eos_token_id is Some,
            match key {
                Some(ConfigKey::Embd) => self.n_embd is None,
                Some(ConfigKey::Head) => self.n_embd is Some && self.n_head is None,
                Some(ConfigKey::Ctx) => self.n_embd is Some && self.n_head is Some && self.n_ctx is None,
                Some(ConfigKey::Layer) => self.n_ctx is Some && self.n_layer is None,
                Some(ConfigKey::LayerNormEpsilon) => self.n_layer is Some && self.layer_norm_epsilon is None,
                Some(ConfigKey::VocabSize) => self.layer_norm_epsilon is Some && self.vocab_size is None,
                Some(ConfigKey::EosTokenId) => self.vocab_size is Some && self.eos_token_id is None,
                None => true,
            },
    {
        if self.n_embd.is_none() {
            Some(ConfigKey::Embd)
        } else if self.n_head.is_none() {
            Some(ConfigKey::Head)
        } else if self.n_ctx.is_none() {
            Some(ConfigKey::Ctx)
        } else if self.n_layer.is_none() {
            Some(ConfigKey::Layer)
        } else if self.layer_norm_epsilon.is_none() {
            Some(ConfigKey::LayerNormEpsilon)
        } else if self.vocab_size.is_none() {
            Some(ConfigKey::VocabSize)
        } else if self.eos_token_id.is_none() {
            Some(ConfigKey::EosTokenId)
        } else {
            None
        }
    }
}

/// The configuration is the one that a configuration file describes.
pub open spec fn is_gpt2_config(
    config: LLMConfig,
    raw: RawConfig,
    intermediate_size: usize,
    max_ctx: Option<usize>,
) -> bool {
    &&& config.model_name@ == "gpt2"@
    &&& config.hidden_size == raw.n_embd->0
    &&& config.embedding_size == raw.n_embd->0
    &&& config.intermediate_size == intermediate_size
    &&& config.num_heads == raw.n_head->0
    &&& config.head_size == raw.n_embd->0 / raw.n_head->0
    &&& config.num_block == raw.n_layer->0
    &&& config.context_length == match max_ctx {
        Some(length) => length,
        None => raw.n_ctx->0,
    }
    &&& config.norm_epsilon_bits == raw.layer_norm_epsilon->0
    &&& config.vocab_size == raw.vocab_size->0
    &&& config.eos_token == Token(raw.eos_token_id->0)
}

/// The digit of a number below ten.
pub open spec fn digit(n: nat) -> Seq<char> {
    if n == 0 {
        "0"@
    } else if n == 1 {
        "1"@
    } else if n == 2 {
        "2"@
    } else if n == 3 {
        "3"@
    } else if n == 4 {
        "4"@
    } else if n == 5 {
        "5"@
    } else if n == 6 {
        "6"@
    } else if n == 7 {
        "7"@
    } else if n == 8 {
        "8"@
    } else {
        "9"@
    }
}

/// A number in decimal digits.
pub open spec fn decimal(n: nat) -> Seq<char>
    decreases n,
{
    if n < 10 {
        digit(n)
    } else {
        decimal(n / 10) + digit(n % 10)
    }
}

proof fn lemma_digit(n: nat)
    requires
        n < 10,
    ensures
        digit(n).len() == 1,
        digit(n)[0] as int == '0' as int + n,
{
    reveal_strlit("0");
    reveal_strlit("1");
    reveal_strlit("2");
    reveal_strlit("3");
    reveal_strlit("4");
    reveal_strlit("5");
    reveal_strlit("6");
    reveal_strlit("7");
    reveal_strlit("8");
    reveal_strlit("9");
}

proof fn lemma_decimal(n: nat)
    ensures
        decimal(n).len() > 0,
        decimal(n).last() as int == '0' as int + n % 10,
        n >= 10 ==> decimal(n).drop_last() == decimal(n / 10),
        n >= 10 ==> decimal(n).len() > 1,
        n < 10 ==> decimal(n).len() == 1,
    decreases n,
{
    if n < 10 {
        lemma_digit(n);
    } else {
        lemma_decimal(n / 10);
        lemma_digit(n % 10);
        assert(decimal(n).drop_last() =~= decimal(n / 10));
    }
}

/// Different numbers have different digits.
pub proof fn law_decimal_is_injective(a: nat, b: nat)
    requires
        decimal(a) == decimal(b),
    ensures
        a == b,
    decreases a,
{
    lemma_decimal(a);
    lemma_decimal(b);
    if a >= 10 && b >= 10 {
        law_decimal_is_injective(a / 10, b / 10);
    }
}

fn digit_text(n: usize) -> (text: &'static str)
    requires
        n < 10,
    ensures
        text@ == digit(n as nat),
{
    match n {
        0 => "0",
        1 => "1",
        2 => "2",
        3 => "3",
        4 => "4",
        5 => "5",
        6 => "6",
        7 => "7",
        8 => "8",
        _ => "9",
    }
}

fn decimal_text(n: usize) -> (text: String)
    ensures
        text@ == decimal(n as nat),
    decreases n,
{
    if n < 10 {
        digit_text(n).to_owned()
    } else {
        let mut text: String = decimal_text(n / 10);
        text.append(digit_text(n % 10));
        text
    }
}

/// What the names of a block's tensors start with.
pub open spec fn block_prefix(block: nat) -> Seq<char> {
    "h."@ + decimal(block) + "."@
}

/// What the names of a block's tensors start with.
pub fn block_prefix_text(block: usize) -> (text: String)
    ensures
        text@ == block_prefix(block as nat),
{
    let mut text: String = "h.".to_owned();
    text.append(decimal_text(block).as_str());
    text.append(".");
    text
}

/// The tensors of different blocks have different names.
pub proof fn law_block_prefixes_differ(a: nat, b: nat)
    requires
        a != b,
    ensures
        block_prefix(a) != block_prefix(b),
{
    if block_prefix(a) == block_prefix(b) {
        reveal_strlit("h.");
        reveal_strlit(".");
        let text: Seq<char> = block_prefix(a);
        assert(text.subrange(2, text.len() - 1) =~= decimal(a));
        assert(text.subrange(2, text.len() - 1) =~= decimal(b));
        law_decimal_is_injective(a, b);
    }
}

/// The key of the final projection's weights, for the key of the embeddings.
pub open spec fn projection_key(embeddings: Seq<char>) -> Seq<char> {
    embeddings + "_final_proj"@
}

/// The final projection starts from the weights of the embeddings, but both are quantised
/// at scales of their own: it has another key.
pub proof fn law_projection_has_its_own_key(embeddings: Seq<char>)
    ensures
        projection_key(embeddings) != embeddings,
{
    reveal_strlit("_final_proj");
    assert(projection_key(embeddings).len() == embeddings.len() + 11);
}

/// The equation of the final projection.
pub open spec fn projection_equation(biased: bool) -> Seq<char> {
    if biased {
        "X(se)@WE(ve)->O(sv)+BIAS(v)"@
    } else {
        "X(se)@WE(ve)->O(sv)"@
    }
}

/// The one constant of the final projection.
pub open spec fn projection_constants<T>(embeddings: HandleView<T>) -> Seq<Option<HandleView<T>>> {
    seq![Some(HandleView { key: projection_key(embeddings.key), tensor: embeddings.tensor })]
}

/// Builds the final projection, which reuses the matrix of the embeddings.
pub fn final_projection<T: Copy>(embeddings: &TensorHandle<T>, bias: Option<TensorHandle<T>>) -> (result: Result<
    EinSum<T>,
    EinSumError,
>)
    requires
        embeddings@.tensor.wf(),
        bias matches Some(bias) ==> bias@.tensor.wf(),
    ensures
        match (
            result,
            layer_error(
                projection_equation(bias is Some),
                projection_constants(embeddings@),
                seq![handle_view(bias)],
            ),
        ) {
            (Ok(layer), None) => {
                &&& layer.wf()
                &&& layer@ == EinSumView::built(
                    projection_equation(bias is Some),
                    projection_constants(embeddings@),
                    seq![handle_view(bias)],
                )
            },
            (Err(error), Some(reason)) => error == reason,
            _ => false,
        },
{
    let equation: String = match &bias {
        Some(_) => "X(se)@WE(ve)->O(sv)+BIAS(v)".to_owned(),
        None => "X(se)@WE(ve)->O(sv)".to_owned(),
    };
    let mut key: String = embeddings.key.clone();
    key.append("_final_proj");
    let weights: TensorHandle<T> = TensorHandle::from_tensor(key, embeddings.tensor.clone());
    let mut constants: Vec<Option<TensorHandle<T>>> = Vec::new();
    constants.push(Some(weights));
    let mut biases: Vec<Option<TensorHandle<T>>> = Vec::new();
    biases.push(bias);
    assert(handle_views(constants@) =~= projection_constants(embeddings@));
    assert(handle_views(biases@) =~= seq![handle_view(bias)]);
    EinSum::new(equation, constants, biases)
}

} // verus!
