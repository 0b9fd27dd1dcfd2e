//! What the configuration, the structure and the parts of a model of the GPT-2 family are.

use crate::arith::product;
use crate::einsum::{layer_error, EinSumView, HandleView, TensorHandle};
use crate::equation::{read_equation, MappingView};
use crate::gpt2::{
    block_prefix, decimal, digit, is_gpt2_config, is_gpt2_structure, projection_constants, projection_equation,
    projection_key, variants, AttentionHeadType, AttentionSpan, ConfigKey, LLMStructure, NormType, PositionalConfig,
    RawConfig,
};
use crate::gpt2_formats::{read_by_structure, turned_into};
use crate::gpt2_laws::{lemma_projection_is_valid, lemma_projection_spelling, projection_mapping};
use crate::gpt2_parse::{LoadError, Loading, Parts, GPT2};
use crate::metadata::LLMConfig;
use crate::shape::Shape;
use vstd::prelude::*;

verus! {

/// The names of the family are these five.
pub proof fn law_names_of_the_family(name: Seq<char>)
    ensures
        variants().contains(name) <==> name == "gpt2"@ || name == "Tmkrzx_X"@ || name == "distilgpt2"@ || name
            == "toy_gpt2"@ || name == "sshleifer/tiny-gpt2"@,
{
    assert(variants()[0] == "gpt2"@);
    assert(variants()[1] == "Tmkrzx_X"@);
    assert(variants()[2] == "distilgpt2"@);
    assert(variants()[3] == "toy_gpt2"@);
    assert(variants()[4] == "sshleifer/tiny-gpt2"@);
}

/// A configuration is complete exactly where no figure is missing, and the figure that is
/// named is the first one missing.
pub proof fn law_first_missing_figure(raw: RawConfig)
    ensures
        raw.missing() is None <==> raw.n_embd is Some && raw.n_head is Some && raw.n_ctx is Some && raw.n_layer is Some
            && raw.layer_norm_epsilon is Some && raw.vocab_size is Some && raw.eos_token_id is Some,
        raw.n_embd is None ==> raw.missing() == Some(ConfigKey::Embd),
        raw.n_embd is Some && raw.n_head is None ==> raw.missing() == Some(ConfigKey::Head),
        raw.n_embd is Some && raw.n_head is Some && raw.n_ctx is None ==> raw.missing() == Some(ConfigKey::Ctx),
        raw.n_embd is Some && raw.n_head is Some && raw.n_ctx is Some && raw.n_layer is None ==> raw.missing() == Some(
            ConfigKey::Layer,
        ),
        raw.n_embd is Some && raw.n_head is Some && raw.n_ctx is Some && raw.n_layer is Some
            && raw.layer_norm_epsilon is None ==> raw.missing() == Some(ConfigKey::LayerNormEpsilon),
        raw.n_embd is Some && raw.n_head is Some && raw.n_ctx is Some && raw.n_layer is Some
            && raw.layer_norm_epsilon is Some && raw.vocab_size is None ==> raw.missing() == Some(
            ConfigKey::VocabSize,
        ),
        raw.n_embd is Some && raw.n_head is Some && raw.n_ctx is Some && raw.n_layer is Some
            && raw.layer_norm_epsilon is Some && raw.vocab_size is Some && raw.eos_token_id is None ==> raw.missing()
            == Some(ConfigKey::EosTokenId),
{
}

/// Every figure of a configuration is the one of the file that it is named after. The heads
/// share the hidden width evenly, and the window is the loader's where it has one.
pub proof fn law_figures_are_those_of_the_file(
    config: LLMConfig,
    raw: RawConfig,
    intermediate_size: usize,
    max_ctx: Option<usize>,
)
    requires
        is_gpt2_config(config, raw, intermediate_size, max_ctx),
        raw.n_embd is Some,
        raw.n_head is Some,
        raw.n_ctx is Some,
        raw.n_layer is Some,
        raw.layer_norm_epsilon is Some,
        raw.vocab_size is Some,
        raw.eos_token_id is Some,
    ensures
        config.model_name@ == "gpt2"@,
        raw.n_head == Some(config.num_heads),
        raw.n_layer == Some(config.num_block),
        raw.n_embd == Some(config.hidden_size),
        raw.n_embd == Some(config.embedding_size),
        raw.layer_norm_epsilon == Some(config.norm_epsilon_bits),
        raw.vocab_size == Some(config.vocab_size),
        raw.eos_token_id == Some(config.eos_token.0),
        config.intermediate_size == intermediate_size,
        max_ctx is None ==> raw.n_ctx == Some(config.context_length),
        max_ctx matches Some(length) ==> config.context_length == length,
        config.num_heads != 0 ==> config.head_size * config.num_heads <= config.hidden_size < (config.head_size + 1)
            * config.num_heads,
{
    if config.num_heads != 0 {
        let h: int = config.hidden_size as int;
        let n: int = config.num_heads as int;
        vstd::arithmetic::div_mod::lemma_fundamental_div_mod(h, n);
        assert(config.head_size as int == h / n);
        assert((h / n) * n <= h < (h / n + 1) * n) by (nonlinear_arith)
            requires
                h == n * (h / n) + h % n,
                0 <= h % n < n,
        ;
    }
}

/// Every configuration with the figures of the file is the one that the file describes.
pub proof fn law_figures_make_the_configuration(
    config: LLMConfig,
    raw: RawConfig,
    intermediate_size: usize,
    max_ctx: Option<usize>,
)
    requires
        config.model_name@ == "gpt2"@,
        raw.n_head == Some(config.num_heads),
        raw.n_layer == Some(config.num_block),
        raw.n_embd == Some(config.hidden_size),
        raw.n_embd == Some(config.embedding_size),
        raw.layer_norm_epsilon == Some(config.norm_epsilon_bits),
        raw.vocab_size == Some(config.vocab_size),
        raw.eos_token_id == Some(config.eos_token.0),
        config.intermediate_size == intermediate_size,
        max_ctx is None ==> raw.n_ctx == Some(config.context_length),
        max_ctx matches Some(length) ==> config.context_length == length,
        config.head_size == config.hidden_size / config.num_heads,
    ensures
        is_gpt2_config(config, raw, intermediate_size, max_ctx),
{
}

/// Every block attends to the whole sequence with heads of its own, behind layer norms, and
/// positions are learned.
pub proof fn law_every_block_attends_to_everything(structure: LLMStructure, config: LLMConfig)
    ensures
        is_gpt2_structure(structure, config) ==> {
            &&& structure.attention_config.span@.len() == config.num_block
            &&& forall|i: int|
                0 <= i < config.num_block ==> #[trigger] structure.attention_config.span@[i] == AttentionSpan::Full
            &&& structure.attention_config.head == AttentionHeadType::MHA
            &&& structure.norm_type == NormType::LayerNorm
            &&& structure.global_positional == Some(PositionalConfig::FixedPositional)
            &&& structure.generic.num_block == config.num_block
            &&& structure.generic.num_heads == config.num_heads
            &&& structure.generic.head_size == config.head_size
            &&& structure.generic.hidden_size == config.hidden_size
            &&& structure.generic.embedding_size == config.embedding_size
            &&& structure.generic.intermediate_size == config.intermediate_size
            &&& structure.generic.context_length == config.context_length
            &&& structure.generic.norm_epsilon_bits == config.norm_epsilon_bits
            &&& structure.generic.vocab_size == config.vocab_size
            &&& structure.generic.eos_token == config.eos_token
            &&& structure.generic.model_name@ == config.model_name@
        },
{
}

proof fn lemma_digit(n: nat)
    requires
        n < 10,
    ensures
        digit(n).len() == 1,
        digit(n)[0] as int == 48 + n,
{
    reveal_strlit("0");
    reveal_strlit("1");
    reveal_strlit("2");
    reveal_strlit("3");
    reveal_strlit("4");
    reveal_strlit("5");
    reveal_strlit("6");
    reveal_strlit("7");
    reveal_strlit("8");
    reveal_strlit("9");
}

/// The digits of a number are decimal digits without a leading zero, and reading them from
/// left to right gives the number back.
pub proof fn law_digits_read_as_the_number(n: nat)
    ensures
        decimal(n).len() > 0,
        forall|i: int| 0 <= i < decimal(n).len() ==> 48 <= (#[trigger] decimal(n)[i]) as int <= 57,
        n > 0 ==> decimal(n)[0] as int != 48,
        n == 0 ==> decimal(n).len() == 1,
        decimal(n).fold_left(0int, |value: int, c: char| 10 * value + (c as int - 48)) == n,
    decreases n,
{
    let read: spec_fn(int, char) -> int = |value: int, c: char| 10 * value + (c as int - 48);
    if n < 10 {
        lemma_digit(n);
        assert(decimal(n).drop_last() =~= Seq::<char>::empty());
        assert(decimal(n).drop_last().fold_left(0int, read) == 0);
        assert(decimal(n).last() as int == 48 + n);
    } else {
        law_digits_read_as_the_number(n / 10);
        lemma_digit(n % 10);
        assert(decimal(n).drop_last() =~= decimal(n / 10));
        assert(decimal(n).last() as int == 48 + n % 10);
        assert forall|i: int| 0 <= i < decimal(n).len() implies 48 <= (#[trigger] decimal(n)[i]) as int <= 57 by {
            if i < decimal(n).len() - 1 {
                assert(decimal(n)[i] == decimal(n / 10)[i]);
            } else {
                assert(decimal(n)[i] == decimal(n).last());
            }
        }
        assert(decimal(n)[0] == decimal(n / 10)[0]);
        assert(decimal(n).drop_last().fold_left(0int, read) == n / 10);
    }
}

/// The names of a block's tensors start with the letter h, a dot, the block's number and
/// another dot.
pub proof fn law_prefixes_hold_the_number(block: nat)
    ensures
        block_prefix(block).len() == decimal(block).len() + 3,
        block_prefix(block)[0] == 'h',
        block_prefix(block)[1] == '.',
        block_prefix(block).last() == '.',
        block_prefix(block).subrange(2, block_prefix(block).len() - 1) == decimal(block),
{
    reveal_strlit("h.");
    reveal_strlit(".");
    assert(block_prefix(block).subrange(2, block_prefix(block).len() - 1) =~= decimal(block));
}

/// The key of the projection is that of the embeddings with a suffix, so that different
/// embeddings have projections with different keys.
pub proof fn law_projection_keys_follow_the_embeddings(embeddings: Seq<char>, other: Seq<char>)
    ensures
        projection_key(embeddings).take(embeddings.len() as int) == embeddings,
        projection_key(embeddings).skip(embeddings.len() as int) == "_final_proj"@,
        projection_key(embeddings) == projection_key(other) ==> embeddings == other,
{
    reveal_strlit("_final_proj");
    assert(projection_key(embeddings).take(embeddings.len() as int) =~= embeddings);
    assert(projection_key(embeddings).skip(embeddings.len() as int) =~= "_final_proj"@);
    assert(projection_key(other).take(other.len() as int) =~= other);
}

proof fn lemma_projection_fits(biased: bool, hidden: Seq<usize>, embeddings: Seq<usize>)
    requires
        hidden.len() == 2,
        embeddings.len() == 2,
        hidden[1] == embeddings[1],
    ensures
        projection_mapping(biased).shape_error(seq![hidden, embeddings]) is None,
{
    let mapping: MappingView = projection_mapping(biased);
    let dims: Seq<Seq<usize>> = seq![hidden, embeddings];
    assert forall|i: int| 0 <= i < dims.len() implies (#[trigger] dims[i]).len() == mapping.inputs[i].axes.len() by {
        assert(i == 0 || i == 1);
    }
    assert forall|i: int, p: int, j: int, q: int|
        0 <= i < dims.len() && 0 <= p < mapping.inputs[i].axes.len() && 0 <= j < dims.len() && 0 <= q
            < mapping.inputs[j].axes.len() && #[trigger] mapping.inputs[i].axes[p]
            == #[trigger] mapping.inputs[j].axes[q] implies dims[i][p] == dims[j][q] by {
        assert(i == 0 || i == 1);
        assert(j == 0 || j == 1);
        assert(p == 0 || p == 1);
        assert(q == 0 || q == 1);
    }
    crate::equation_laws::law_shapes_that_fit(mapping, dims);
}

proof fn lemma_projection_is_read(biased: bool)
    ensures
        read_equation(projection_equation(biased)) == Some(projection_mapping(biased)),
{
    lemma_projection_spelling(biased);
    lemma_projection_is_valid(biased);
    crate::equation::law_reading_inverts_spelling(projection_equation(biased), projection_mapping(biased));
}

proof fn lemma_projection_dims(biased: bool, hidden: Seq<usize>, embeddings: Seq<usize>)
    ensures
        ({
            let mapping: MappingView = projection_mapping(biased);
            let dims: Seq<Seq<usize>> = seq![hidden, embeddings];
            &&& mapping.shape_error(dims) is None <==> hidden.len() == 2 && embeddings.len() == 2 && hidden[1]
                == embeddings[1]
            &&& mapping.shape_error(dims) is None ==> mapping.output_dims(dims) == seq![seq![hidden[0], embeddings[0]]]
        }),
{
    let mapping: MappingView = projection_mapping(biased);
    let dims: Seq<Seq<usize>> = seq![hidden, embeddings];
    if mapping.shape_error(dims) is None {
        crate::equation_laws::law_shapes_that_fit(mapping, dims);
        assert(dims[0].len() == mapping.inputs[0].axes.len());
        assert(dims[1].len() == mapping.inputs[1].axes.len());
        assert(mapping.inputs[0].axes[1] == mapping.inputs[1].axes[1]);
        assert(dims[0][1] == dims[1][1]);
        crate::equation_laws::law_every_output_has_a_shape(mapping, dims, 0, 0, 0, 0);
        crate::equation_laws::law_every_output_has_a_shape(mapping, dims, 0, 1, 1, 0);
        assert(mapping.output_dims(dims)[0] =~= seq![hidden[0], embeddings[0]]);
        assert(mapping.output_dims(dims) =~= seq![seq![hidden[0], embeddings[0]]]);
    }
    if hidden.len() == 2 && embeddings.len() == 2 && hidden[1] == embeddings[1] {
        lemma_projection_fits(biased, hidden, embeddings);
    }
}

/// The projection of hidden states of shape (s, e) with embeddings of shape (v, e) has shape
/// (s, v), and no other shapes fit it.
pub proof fn law_projection_multiplies_with_the_transpose(biased: bool, hidden: Seq<usize>, embeddings: Seq<usize>)
    ensures
        read_equation(projection_equation(biased)) is Some,
        ({
            let mapping: MappingView = read_equation(projection_equation(biased))->0;
            let dims: Seq<Seq<usize>> = seq![hidden, embeddings];
            &&& mapping.shape_error(dims) is None <==> hidden.len() == 2 && embeddings.len() == 2 && hidden[1]
                == embeddings[1]
            &&& mapping.shape_error(dims) is None ==> mapping.output_dims(dims) == seq![seq![hidden[0], embeddings[0]]]
            &&& mapping.outputs.len() == 1
            &&& mapping.outputs[0].bias is Some <==> biased
            &&& mapping.outputs[0].bias matches Some(axes) ==> axes.len() == 1 && axes[0] == mapping.outputs[0].axes[1]
        }),
{
    lemma_projection_is_read(biased);
    lemma_projection_dims(biased, hidden, embeddings);
}

/// The projection reuses the matrix of the embeddings under its own key.
pub proof fn law_projection_reuses_the_embeddings<T>(embeddings: HandleView<T>, bias: Option<HandleView<T>>)
    ensures
        ({
            let layer: EinSumView<T> = EinSumView::built(
                projection_equation(bias is Some),
                projection_constants(embeddings),
                seq![bias],
            );
            &&& layer.constants.len() == 1
            &&& layer.constants[0] is Some
            &&& layer.constants[0]->0.tensor == embeddings.tensor
            &&& layer.constants[0]->0.key == embeddings.key + "_final_proj"@
            &&& bias is Some ==> layer.equation == "X(se)@WE(ve)->O(sv)+BIAS(v)"@
            &&& bias is None ==> layer.equation == "X(se)@WE(ve)->O(sv)"@
            &&& layer.biases.len() == 1
            &&& bias is None ==> layer.biases[0] is None
            &&& bias matches Some(bias) ==> layer.biases[0] is Some && layer.biases[0]->0.key == bias.key
                && layer.biases[0]->0.tensor.data == bias.tensor.data
        }),
{
}

/// A model that was loaded was put together from what the readers gave: as many blocks as
/// the file has layers, each read under its own prefix, the final norm made of `ln_f` with
/// the file's epsilon, the projection with the output's bias where it could be read, and an
/// input of one token.
pub proof fn law_loaded_models_are_put_together_from_their_parts<
    D,
    T,
    P,
    B,
    N,
    M,
    E,
    G: Fn(&D, &str) -> Result<TensorHandle<T>, E>,
    W: FnOnce(&D) -> Result<TensorHandle<T>, E>,
    V: FnOnce(&D, &LLMStructure, PositionalConfig) -> Result<P, E>,
    K: Fn(&D, String, &LLMStructure, &RawConfig) -> Result<B, E>,
    L: FnOnce(TensorHandle<T>, TensorHandle<T>, u32) -> Result<N, E>,
    A: FnOnce(Parts<T, P, B, N>, LLMConfig, Shape) -> Result<M, E>,
>(
    loading: Loading<T, P, B, N, M, E>,
    loader: GPT2,
    cfg: RawConfig,
    files: &D,
    readers: (G, W, V, K, L, A),
    model: M,
)
    requires
        loading.explains(loader, cfg, files, readers, Ok(model)),
    ensures
        readers.0.ensures((files, "h.0.mlp.c_fc.bias"), loading.feed_forward_bias),
        loading.feed_forward_bias is Ok,
        is_gpt2_config(
            loading.config,
            cfg,
            product(loading.feed_forward_bias->Ok_0@.tensor.shape) as usize,
            loader.max_ctx_length,
        ),
        is_gpt2_structure(loading.structure, loading.config),
        readers.1.ensures((files,), Ok(loading.parts.embeddings)),
        readers.2.ensures(
            (files, &loading.structure, PositionalConfig::FixedPositional),
            Ok(loading.parts.global_positional),
        ),
        cfg.n_layer is Some && loading.parts.blocks@.len() == cfg.n_layer->0,
        loading.prefixes.len() >= loading.parts.blocks@.len(),
        forall|i: int|
            0 <= i < loading.parts.blocks@.len() ==> (#[trigger] loading.prefixes[i])@ == "h."@ + decimal(i as nat)
                + "."@,
        forall|i: int|
            0 <= i < loading.parts.blocks@.len() ==> readers.3.ensures(
                (files, loading.prefixes[i], &loading.structure, &cfg),
                Ok(#[trigger] loading.parts.blocks@[i]),
            ),
        readers.0.ensures((files, "ln_f.weight"), loading.norm_weight),
        readers.0.ensures((files, "ln_f.bias"), loading.norm_bias),
        loading.norm_weight is Ok && loading.norm_bias is Ok && cfg.layer_norm_epsilon is Some,
        readers.4.ensures(
            (loading.norm_weight->Ok_0, loading.norm_bias->Ok_0, cfg.layer_norm_epsilon->0),
            Ok(loading.parts.final_norm),
        ),
        readers.0.ensures((files, "output.bias"), loading.output_bias),
        loading.parts.final_proj@.constants.len() == 1,
        loading.parts.final_proj@.constants[0] is Some,
        loading.parts.final_proj@.constants[0]->0.tensor == loading.parts.embeddings@.tensor,
        loading.parts.final_proj@.biases.len() == 1,
        loading.output_bias is Err ==> loading.parts.final_proj@.biases[0] is None,
        loading.output_bias matches Ok(bias) ==> loading.parts.final_proj@.biases[0] is Some
            && loading.parts.final_proj@.biases[0]->0.key == bias@.key
            && loading.parts.final_proj@.biases[0]->0.tensor.data == bias@.tensor.data,
        loading.shape@ == seq![1usize],
        readers.5.ensures((loading.parts, loading.config, loading.shape), Ok(model)),
{
    let bias: Option<HandleView<T>> = crate::gpt2_parse::optional_bias(loading.output_bias);
    law_projection_reuses_the_embeddings(loading.embeddings->Ok_0@, bias);
    assert(loading.parts.blocks@ == loading.blocks);
}

/// A failed loading has its reason: the first figure that is missing, the bias of the first
/// feed-forward block that could not be read, a projection that cannot be built, or the
/// failure of the reader of a part, of a norm's tensors or of one of the file's blocks, or
/// of what puts the model together.
pub proof fn law_failed_loadings_have_a_reason<
    D,
    T,
    P,
    B,
    N,
    M,
    E,
    G: Fn(&D, &str) -> Result<TensorHandle<T>, E>,
    W: FnOnce(&D) -> Result<TensorHandle<T>, E>,
    V: FnOnce(&D, &LLMStructure, PositionalConfig) -> Result<P, E>,
    K: Fn(&D, String, &LLMStructure, &RawConfig) -> Result<B, E>,
    L: FnOnce(TensorHandle<T>, TensorHandle<T>, u32) -> Result<N, E>,
    A: FnOnce(Parts<T, P, B, N>, LLMConfig, Shape) -> Result<M, E>,
>(
    loading: Loading<T, P, B, N, M, E>,
    loader: GPT2,
    cfg: RawConfig,
    files: &D,
    readers: (G, W, V, K, L, A),
    error: LoadError<E>,
)
    requires
        loading.explains(loader, cfg, files, readers, Err(error)),
    ensures
        match error {
            LoadError::MissingKey(key) => cfg.missing() == Some(key),
            LoadError::FeedForwardBias(error) => {
                &&& cfg.missing() is None
                &&& readers.0.ensures((files, "h.0.mlp.c_fc.bias"), Err(error))
            },
            LoadError::Projection(error) => {
                let bias: Option<HandleView<T>> = match loading.output_bias {
                    Ok(bias) => Some(bias@),
                    Err(_) => None,
                };
                &&& cfg.missing() is None
                &&& readers.0.ensures((files, "output.bias"), loading.output_bias)
                &&& readers.1.ensures((files,), loading.embeddings)
                &&& loading.embeddings is Ok
                &&& layer_error(
                    projection_equation(bias is Some),
                    projection_constants(loading.embeddings->Ok_0@),
                    seq![bias],
                ) == Some(error)
            },
            LoadError::Part(error) => cfg.missing() is None && {
                ||| readers.1.ensures((files,), Err(error))
                ||| readers.2.ensures(
                    (files, &loading.structure, PositionalConfig::FixedPositional),
                    Err(error),
                )
                ||| readers.0.ensures((files, "ln_f.weight"), Err(error))
                ||| readers.0.ensures((files, "ln_f.bias"), Err(error))
                ||| loading.norm_weight is Ok && loading.norm_bias is Ok && readers.4.ensures(
                    (loading.norm_weight->Ok_0, loading.norm_bias->Ok_0, cfg.layer_norm_epsilon->0),
                    Err(error),
                )
                ||| readers.5.ensures((loading.parts, loading.config, loading.shape), Err(error))
                ||| cfg.n_layer is Some && loading.blocks.len() < cfg.n_layer->0
                    && loading.prefixes[loading.blocks.len() as int]@ == "h."@ + decimal(loading.blocks.len()) + "."@
                    && readers.3.ensures(
                    (files, loading.prefixes[loading.blocks.len() as int], &loading.structure, &cfg),
                    Err(error),
                )
            },
        },
{
}

/// Where a figure is missing nothing is read, and loading fails with the first such figure.
pub proof fn law_incomplete_files_are_refused<
    D,
    T,
    P,
    B,
    N,
    M,
    E,
    G: Fn(&D, &str) -> Result<TensorHandle<T>, E>,
    W: FnOnce(&D) -> Result<TensorHandle<T>, E>,
    V: FnOnce(&D, &LLMStructure, PositionalConfig) -> Result<P, E>,
    K: Fn(&D, String, &LLMStructure, &RawConfig) -> Result<B, E>,
    L: FnOnce(TensorHandle<T>, TensorHandle<T>, u32) -> Result<N, E>,
    A: FnOnce(Parts<T, P, B, N>, LLMConfig, Shape) -> Result<M, E>,
>(
    loading: Loading<T, P, B, N, M, E>,
    loader: GPT2,
    cfg: RawConfig,
    files: &D,
    readers: (G, W, V, K, L, A),
    result: Result<M, LoadError<E>>,
    key: ConfigKey,
)
    requires
        loading.explains(loader, cfg, files, readers, result),
        cfg.missing() == Some(key),
    ensures
        result == Err::<M, LoadError<E>>(LoadError::MissingKey(key)),
{
}

/// A model of the formats that describe it whole has an input of one token, and its layers
/// are read for the structure of the family.
pub proof fn law_whole_models<
    D,
    R,
    M,
    E,
    S: FnOnce(&D, &LLMStructure) -> Result<R, E>,
    A: FnOnce(R, LLMConfig, Shape) -> Result<M, E>,
>(
    files: &D,
    config: LLMConfig,
    structure: LLMStructure,
    from_loader: S,
    read: Result<R, E>,
    layers: R,
    shape: Shape,
    into_model: A,
    result: Result<M, E>,
)
    ensures
        read_by_structure(files, config, structure, from_loader, read) ==> {
            &&& from_loader.ensures((files, &structure), read)
            &&& structure.attention_config.span@.len() == config.num_block
            &&& structure.generic.num_block == config.num_block
            &&& structure.generic.num_heads == config.num_heads
        },
        turned_into(layers, config, shape, into_model, result) ==> {
            &&& shape@.len() == 1
            &&& shape@[0] == 1
            &&& into_model.ensures((layers, config, shape), result)
        },
{
}

} // verus!
