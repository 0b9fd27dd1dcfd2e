//! How a model of the GPT-2 family is put together from its tensors.

use crate::arith::product;
use crate::einsum::{handle_view, layer_error, EinSum, EinSumError, EinSumView, HandleView, TensorHandle};
use crate::gpt2::{
    block_prefix, block_prefix_text, final_projection, gpt2_structure, is_gpt2_config, is_gpt2_structure,
    projection_constants, projection_equation, ConfigKey, LLMStructure, PositionalConfig, RawConfig,
};
use crate::metadata::{LLMConfig, Token};
use crate::shape::Shape;
use vstd::prelude::*;

verus! {

/// The loader of the GPT-2 family.
#[derive(Debug, Clone, Copy)]
pub struct GPT2 {
    /// The longest sequence that is worked on, where that is less than what the model
    /// takes: it spares committing to a large matrix of positions.
    pub max_ctx_length: Option<usize>,
}

/// Why a model could not be loaded. `E` is the error of a failed read.
#[derive(Debug)]
pub enum LoadError<E> {
    /// The configuration file lacks a figure.
    MissingKey(ConfigKey),
    /// The bias of the first feed-forward block could not be read.
    FeedForwardBias(E),
    /// A part of the model could not be read or put together.
    Part(E),
    /// The final projection could not be built.
    Projection(EinSumError),
}

/// The parts of a model.
#[derive(Debug)]
pub struct Parts<T, P, B, N> {
    pub embeddings: TensorHandle<T>,
    pub global_positional: P,
    pub blocks: Vec<B>,
    pub final_norm: N,
    pub final_proj: EinSum<T>,
}

/// How loading went. The fields are in the order of loading; of those, only the ones that
/// it got to mean anything.
pub struct Loading<T, P, B, N, M, E> {
    pub feed_forward_bias: Result<TensorHandle<T>, E>,
    pub config: LLMConfig,
    pub structure: LLMStructure,
    pub embeddings: Result<TensorHandle<T>, E>,
    pub positional: Result<P, E>,
    pub prefixes: Seq<String>,
    pub blocks: Seq<B>,
    pub failed_block: E,
    pub norm_weight: Result<TensorHandle<T>, E>,
    pub norm_bias: Result<TensorHandle<T>, E>,
    pub norm: Result<N, E>,
    pub output_bias: Result<TensorHandle<T>, E>,
    pub parts: Parts<T, P, B, N>,
    pub shape: Shape,
    pub model: Result<M, E>,
}

/// The bias of the output, where it could be read.
pub open spec fn optional_bias<T, E>(bias: Result<TensorHandle<T>, E>) -> Option<HandleView<T>> {
    match bias {
        Ok(bias) => Some(bias@),
        Err(_) => None,
    }
}

impl<T, P, B, N, M, E> Loading<T, P, B, N, M, E> {
    /// The configuration and the structure are those that the files describe.
    pub open spec fn described<D, G: Fn(&D, &str) -> Result<TensorHandle<T>, E>>(
        self,
        loader: GPT2,
        cfg: RawConfig,
        files: &D,
        get_tensor: G,
    ) -> bool {
        &&& cfg.missing() is None
        &&& get_tensor.ensures((files, "h.0.mlp.c_fc.bias"), self.feed_forward_bias)
        &&& self.feed_forward_bias matches Ok(bias) ==> {
            &&& is_gpt2_config(self.config, cfg, product(bias@.tensor.shape) as usize, loader.max_ctx_length)
            &&& is_gpt2_structure(self.structure, self.config)
        }
    }

    /// The blocks that were read, each under its own prefix.
    pub open spec fn blocks_read<D, K: Fn(&D, String, &LLMStructure, &RawConfig) -> Result<B, E>>(
        self,
        cfg: RawConfig,
        files: &D,
        block: K,
    ) -> bool {
        &&& self.blocks.len() <= self.config.num_block
        &&& self.prefixes.len() >= self.blocks.len()
        &&& self.blocks.len() < self.config.num_block ==> self.prefixes.len() > self.blocks.len()
        &&& forall|i: int| 0 <= i < self.prefixes.len() ==> (#[trigger] self.prefixes[i])@ == block_prefix(i as nat)
        &&& forall|i: int|
            0 <= i < self.blocks.len() ==> block.ensures(
                (files, self.prefixes[i], &self.structure, &cfg),
                Ok(#[trigger] self.blocks[i]),
            )
    }

    /// What loading came to once the blocks were read.
    pub open spec fn finished<
        D,
        G: Fn(&D, &str) -> Result<TensorHandle<T>, E>,
        L: FnOnce(TensorHandle<T>, TensorHandle<T>, u32) -> Result<N, E>,
        A: FnOnce(Parts<T, P, B, N>, LLMConfig, Shape) -> Result<M, E>,
    >(
        self,
        cfg: RawConfig,
        files: &D,
        get_tensor: G,
        layer_norm: L,
        assemble: A,
        result: Result<M, LoadError<E>>,
    ) -> bool {
        &&& get_tensor.ensures((files, "ln_f.weight"), self.norm_weight)
        &&& match self.norm_weight {
            Err(error) => result == Err::<M, LoadError<E>>(LoadError::Part(error)),
            Ok(weight) => {
                &&& get_tensor.ensures((files, "ln_f.bias"), self.norm_bias)
                &&& match self.norm_bias {
                    Err(error) => result == Err::<M, LoadError<E>>(LoadError::Part(error)),
                    Ok(bias) => {
                        &&& layer_norm.ensures((weight, bias, cfg.layer_norm_epsilon->0), self.norm)
                        &&& match self.norm {
                            Err(error) => result == Err::<M, LoadError<E>>(LoadError::Part(error)),
                            Ok(norm) => {
                                &&& get_tensor.ensures((files, "output.bias"), self.output_bias)
                                &&& self.assembled(norm, assemble, result)
                            },
                        }
                    },
                }
            },
        }
    }

    /// What loading came to once everything was read.
    pub open spec fn assembled<A: FnOnce(Parts<T, P, B, N>, LLMConfig, Shape) -> Result<M, E>>(
        self,
        norm: N,
        assemble: A,
        result: Result<M, LoadError<E>>,
    ) -> bool {
        let embeddings: HandleView<T> = self.embeddings->Ok_0@;
        let bias: Option<HandleView<T>> = optional_bias(self.output_bias);
        match layer_error(projection_equation(bias is Some), projection_constants(embeddings), seq![bias]) {
            Some(error) => result == Err::<M, LoadError<E>>(LoadError::Projection(error)),
            None => {
                &&& self.parts.embeddings == self.embeddings->Ok_0
                &&& self.parts.global_positional == self.positional->Ok_0
                &&& self.parts.blocks@ == self.blocks
                &&& self.parts.final_norm == norm
                &&& self.parts.final_proj@ == EinSumView::built(
                    projection_equation(bias is Some),
                    projection_constants(embeddings),
                    seq![bias],
                )
                &&& self.shape@ == seq![1usize]
                &&& assemble.ensures((self.parts, self.config, self.shape), self.model)
                &&& match self.model {
                    Ok(model) => result == Ok::<M, LoadError<E>>(model),
                    Err(error) => result == Err::<M, LoadError<E>>(LoadError::Part(error)),
                }
            },
        }
    }

    /// The loading accounts for a result.
    pub open spec fn explains<
        D,
        G: Fn(&D, &str) -> Result<TensorHandle<T>, E>,
        W: FnOnce(&D) -> Result<TensorHandle<T>, E>,
        V: FnOnce(&D, &LLMStructure, PositionalConfig) -> Result<P, E>,
        K: Fn(&D, String, &LLMStructure, &RawConfig) -> Result<B, E>,
        L: FnOnce(TensorHandle<T>, TensorHandle<T>, u32) -> Result<N, E>,
        A: FnOnce(Parts<T, P, B, N>, LLMConfig, Shape) -> Result<M, E>,
    >(
        self,
        loader: GPT2,
        cfg: RawConfig,
        files: &D,
        readers: (G, W, V, K, L, A),
        result: Result<M, LoadError<E>>,
    ) -> bool {
        let (get_tensor, embeddings, positional, block, layer_norm, assemble) = readers;
        match cfg.missing() {
            Some(key) => result == Err::<M, LoadError<E>>(LoadError::MissingKey(key)),
            None => {
                &&& self.described(loader, cfg, files, get_tensor)
                &&& match self.feed_forward_bias {
                    Err(error) => result == Err::<M, LoadError<E>>(LoadError::FeedForwardBias(error)),
                    Ok(_) => {
                        &&& embeddings.ensures((files,), self.embeddings)
                        &&& match self.embeddings {
                            Err(error) => result == Err::<M, LoadError<E>>(LoadError::Part(error)),
                            Ok(_) => {
                                &&& positional.ensures(
                                    (files, &self.structure, PositionalConfig::FixedPositional),
                                    self.positional,
                                )
                                &&& match self.positional {
                                    Err(error) => result == Err::<M, LoadError<E>>(LoadError::Part(error)),
                                    Ok(_) => {
                                        &&& self.blocks_read(cfg, files, block)
                                        &&& if self.blocks.len() < self.config.num_block {
                                            &&& block.ensures(
                                                (files, self.prefixes[self.blocks.len() as int], &self.structure, &cfg),
                                                Err(self.failed_block),
                                            )
                                            &&& result == Err::<M, LoadError<E>>(LoadError::Part(self.failed_block))
                                        } else {
                                            self.finished(cfg, files, get_tensor, layer_norm, assemble, result)
                                        }
                                    },
                                }
                            },
                        }
                    },
                }
            },
        }
    }
}

/// The shape of an input of one token.
pub(crate) fn one_token() -> (shape: Shape)
    ensures
        shape@ == seq![1usize],
{
    let mut dims: Vec<usize> = Vec::new();
    dims.push(1);
    assert(dims@ =~= seq![1usize]);
    Shape::new(dims)
}

/// How reading the blocks went.
struct BlockLog<B, E> {
    prefixes: Seq<String>,
    blocks: Seq<B>,
    failed: E,
}

/// Reads all blocks.
fn read_blocks<D, B, E, K: Fn(&D, String, &LLMStructure, &RawConfig) -> Result<B, E>>(
    files: &D,
    structure: &LLMStructure,
    cfg: &RawConfig,
    block: &K,
) -> (result: (Result<Vec<B>, E>, Ghost<BlockLog<B, E>>))
    requires
        forall|prefix: String| block.requires((files, prefix, structure, cfg)),
    ensures
        ({
            let log: BlockLog<B, E> = result.1@;
            &&& log.blocks.len() <= structure.generic.num_block
            &&& log.prefixes.len() >= log.blocks.len()
            &&& forall|i: int| 0 <= i < log.prefixes.len() ==> (#[trigger] log.prefixes[i])@ == block_prefix(i as nat)
            &&& forall|i: int|
                0 <= i < log.blocks.len() ==> block.ensures(
                    (files, log.prefixes[i], structure, cfg),
                    Ok(#[trigger] log.blocks[i]),
                )
            &&& match result.0 {
                Ok(blocks) => blocks@ == log.blocks && blocks@.len() == structure.generic.num_block,
                Err(error) => {
                    &&& log.failed == error
                    &&& log.blocks.len() < structure.generic.num_block
                    &&& log.prefixes.len() > log.blocks.len()
                    &&& block.ensures((files, log.prefixes[log.blocks.len() as int], structure, cfg), Err(error))
                },
            }
        }),
{
    let mut blocks: Vec<B> = Vec::new();
    let ghost mut prefixes: Seq<String> = Seq::empty();
    let mut i: usize = 0;
    while i < structure.generic.num_block
        invariant
            i <= structure.generic.num_block,
            forall|prefix: String| block.requires((files, prefix, structure, cfg)),
            blocks@.len() == i,
            prefixes.len() == i,
            forall|j: int| 0 <= j < i ==> (#[trigger] prefixes[j])@ == block_prefix(j as nat),
            forall|j: int|
                0 <= j < i ==> block.ensures((files, prefixes[j], structure, cfg), Ok(#[trigger] blocks@[j])),
        decreases structure.generic.num_block - i,
    {
        let prefix: String = block_prefix_text(i);
        let ghost earlier: Seq<String> = prefixes;
        proof {
            prefixes = earlier.push(prefix);
        }
        match block(files, prefix, structure, cfg) {
            Ok(read) => {
                blocks.push(read);
            },
            Err(error) => {
                return (Err(error), Ghost(BlockLog { prefixes, blocks: blocks@, failed: error }));
            },
        }
        i = i + 1;
    }
    (Ok(blocks), Ghost(BlockLog { prefixes, blocks: blocks@, failed: arbitrary() }))
}

impl GPT2 {
    /// The loader of whole models.
    pub fn new() -> (loader: Self)
        ensures
            loader == (GPT2 { max_ctx_length: None }),
    {
        GPT2 { max_ctx_length: None }
    }

    /// The loader of models for sequences up to the given length.
    pub fn with_max_context_length(self, max_ctx_length: usize) -> (loader: Self)
        ensures
            loader == (GPT2 { max_ctx_length: Some(max_ctx_length) }),
    {
        GPT2 { max_ctx_length: Some(max_ctx_length) }
    }

    /// The name of the family.
    pub fn model_name(&self) -> (name: String)
        ensures
            name@ == "gpt2"@,
    {
        "gpt2".to_owned()
    }

    /// The configuration that a configuration file describes. What it lacks is the width
    /// inside a feed-forward block, which is the length of that block's bias.
    pub fn config<E>(&self, cfg: &RawConfig, intermediate_size: usize) -> (result: Result<LLMConfig, LoadError<E>>)
        requires
            cfg.missing() is None ==> cfg.n_head->0 != 0,
        ensures
            match (result, cfg.missing()) {
                (Ok(config), None) => is_gpt2_config(config, *cfg, intermediate_size, self.max_ctx_length),
                (Err(error), Some(key)) => error == LoadError::<E>::MissingKey(key),
                _ => false,
            },
            result is Ok <==> cfg.n_embd is Some && cfg.n_head is Some && cfg.n_ctx is Some && cfg.n_layer is Some
                && cfg.layer_norm_epsilon is Some && cfg.vocab_size is Some && cfg.eos_token_id is Some,
            result matches Ok(config) ==> {
                &&& config.model_name@ == "gpt2"@
                &&& cfg.n_embd == Some(config.hidden_size)
                &&& cfg.n_embd == Some(config.embedding_size)
                &&& config.intermediate_size == intermediate_size
                &&& cfg.n_head == Some(config.num_heads)
                &&& config.head_size == config.hidden_size / config.num_heads
                &&& cfg.n_layer == Some(config.num_block)
                &&& self.max_ctx_length is None ==> cfg.n_ctx == Some(config.context_length)
                &&& self.max_ctx_length matches Some(length) ==> config.context_length == length
                &&& cfg.layer_norm_epsilon == Some(config.norm_epsilon_bits)
                &&& cfg.vocab_size == Some(config.vocab_size)
                &&& cfg.eos_token_id == Some(config.eos_token.0)
            },
    {
        match (
            cfg.n_embd,
            cfg.n_head,
            cfg.n_ctx,
            cfg.n_layer,
            cfg.layer_norm_epsilon,
            cfg.vocab_size,
            cfg.eos_token_id,
        ) {
            (
                Some(hidden_size),
                Some(num_heads),
                Some(context_length),
                Some(num_block),
                Some(norm_epsilon_bits),
                Some(vocab_size),
                Some(eos_token),
            ) => Ok(
                LLMConfig {
                    model_name: "gpt2".to_owned(),
                    hidden_size,
                    embedding_size: hidden_size,
                    intermediate_size,
                    num_heads,
                    head_size: hidden_size / num_heads,
                    num_block,
                    context_length: match self.max_ctx_length {
                        Some(length) => length,
                        None => context_length,
                    },
                    norm_epsilon_bits,
                    vocab_size,
                    eos_token: Token::from(eos_token),
                },
            ),
            _ => match cfg.first_missing() {
                Some(key) => Err(LoadError::MissingKey(key)),
                None => vstd::pervasive::unreached(),
            },
        }
    }

    /// Loads a model from files in the safetensors format: `cfg` is its configuration
    /// file and `files` are the files of its tensors. From these, `get_tensor` reads a
    /// tensor by its name, and `embeddings`, `positional` and `block` read parts of the
    /// model; `layer_norm` makes the final norm, and `assemble` puts the model together.
    pub fn parse<
        D,
        T: Copy,
        P,
        B,
        N,
        M,
        E,
        G: Fn(&D, &str) -> Result<TensorHandle<T>, E>,
        W: FnOnce(&D) -> Result<TensorHandle<T>, E>,
        V: FnOnce(&D, &LLMStructure, PositionalConfig) -> Result<P, E>,
        K: Fn(&D, String, &LLMStructure, &RawConfig) -> Result<B, E>,
        L: FnOnce(TensorHandle<T>, TensorHandle<T>, u32) -> Result<N, E>,
        A: FnOnce(Parts<T, P, B, N>, LLMConfig, Shape) -> Result<M, E>,
    >(
        &self,
        cfg: &RawConfig,
        files: &D,
        get_tensor: G,
        embeddings: W,
        positional: V,
        block: K,
        layer_norm: L,
        assemble: A,
    ) -> (result: Result<M, LoadError<E>>)
        requires
            forall|bias: TensorHandle<T>|
                cfg.missing() is None && #[trigger] get_tensor.ensures((files, "h.0.mlp.c_fc.bias"), Ok(bias))
                    ==> cfg.n_head->0 != 0,
            forall|name: &str| get_tensor.requires((files, name)),
            forall|name: &str, handle: TensorHandle<T>| #[trigger]
                get_tensor.ensures((files, name), Ok(handle)) ==> handle@.tensor.wf(),
            embeddings.requires((files,)),
            forall|handle: TensorHandle<T>| #[trigger]
                embeddings.ensures((files,), Ok(handle)) ==> handle@.tensor.wf(),
            forall|structure: &LLMStructure, config: PositionalConfig|
                positional.requires((files, structure, config)),
            forall|prefix: String, structure: &LLMStructure| block.requires((files, prefix, structure, cfg)),
            forall|weight: TensorHandle<T>, bias: TensorHandle<T>, epsilon: u32|
                layer_norm.requires((weight, bias, epsilon)),
            forall|parts: Parts<T, P, B, N>, config: LLMConfig, shape: Shape|
                assemble.requires((parts, config, shape)),
        ensures
            exists|loading: Loading<T, P, B, N, M, E>| #[trigger]
                loading.explains(
                    *self,
                    *cfg,
                    files,
                    (get_tensor, embeddings, positional, block, layer_norm, assemble),
                    result,
                ),
    {
        let ghost readers: (G, W, V, K, L, A) = (get_tensor, embeddings, positional, block, layer_norm, assemble);
        let ghost mut loading: Loading<T, P, B, N, M, E> = arbitrary();
        if let Some(key) = cfg.first_missing() {
            assert(loading.explains(*self, *cfg, files, readers, Err(LoadError::MissingKey(key))));
            return Err(LoadError::MissingKey(key));
        }
        let feed_forward: Result<TensorHandle<T>, E> = get_tensor(files, "h.0.mlp.c_fc.bias");
        proof {
            loading.feed_forward_bias = feed_forward;
        }
        let intermediate_size: usize = match feed_forward {
            Ok(bias) => {
                // That many elements are there, so the product of the dimensions fits in a word.
                let _len: usize = bias.tensor.get_data().len();
                bias.shape().numel()
            },
            Err(error) => {
                assert(loading.explains(*self, *cfg, files, readers, Err(LoadError::FeedForwardBias(error))));
                return Err(LoadError::FeedForwardBias(error));
            },
        };
        let config: LLMConfig = match self.config::<E>(cfg, intermediate_size) {
            Ok(config) => config,
            Err(_) => vstd::pervasive::unreached(),
        };
        let structure: LLMStructure = gpt2_structure(&config);
        let read: Result<TensorHandle<T>, E> = embeddings(files);
        proof {
            loading.config = config;
            loading.structure = structure;
            loading.embeddings = read;
        }
        assert(loading.described(*self, *cfg, files, get_tensor));
        let embeddings: TensorHandle<T> = match read {
            Ok(embeddings) => embeddings,
            Err(error) => {
                assert(loading.explains(*self, *cfg, files, readers, Err(LoadError::Part(error))));
                return Err(LoadError::Part(error));
            },
        };
        let read: Result<P, E> = positional(files, &structure, PositionalConfig::FixedPositional);
        proof {
            loading.positional = read;
        }
        let global_positional: P = match read {
            Ok(global_positional) => global_positional,
            Err(error) => {
                assert(loading.explains(*self, *cfg, files, readers, Err(LoadError::Part(error))));
                return Err(LoadError::Part(error));
            },
        };
        let (read, Ghost(log)): (Result<Vec<B>, E>, Ghost<BlockLog<B, E>>) = read_blocks(
            files,
            &structure,
            cfg,
            &block,
        );
        proof {
            loading.prefixes = log.prefixes;
            loading.blocks = log.blocks;
            loading.failed_block = log.failed;
        }
        assert(loading.blocks_read(*cfg, files, block));
        let blocks: Vec<B> = match read {
            Ok(blocks) => blocks,
            Err(error) => {
                assert(loading.explains(*self, *cfg, files, readers, Err(LoadError::Part(error))));
                return Err(LoadError::Part(error));
            },
        };
        let weight: Result<TensorHandle<T>, E> = get_tensor(files, "ln_f.weight");
        proof {
            loading.norm_weight = weight;
        }
        let weight: TensorHandle<T> = match weight {
            Ok(weight) => weight,
            Err(error) => {
                assert(loading.explains(*self, *cfg, files, readers, Err(LoadError::Part(error))));
                return Err(LoadError::Part(error));
            },
        };
        let bias: Result<TensorHandle<T>, E> = get_tensor(files, "ln_f.bias");
        proof {
            loading.norm_bias = bias;
        }
        let bias: TensorHandle<T> = match bias {
            Ok(bias) => bias,
            Err(error) => {
                assert(loading.explains(*self, *cfg, files, readers, Err(LoadError::Part(error))));
                return Err(LoadError::Part(error));
            },
        };
        let norm: Result<N, E> = layer_norm(weight, bias, config.norm_epsilon_bits);
        proof {
            loading.norm = norm;
        }
        let final_norm: N = match norm {
            Ok(norm) => norm,
            Err(error) => {
                assert(loading.explains(*self, *cfg, files, readers, Err(LoadError::Part(error))));
                return Err(LoadError::Part(error));
            },
        };
        let output_bias: Result<TensorHandle<T>, E> = get_tensor(files, "output.bias");
        proof {
            loading.output_bias = output_bias;
        }
        let output_bias: Option<TensorHandle<T>> = match output_bias {
            Ok(bias) => Some(bias),
            Err(_) => None,
        };
        assert(handle_view(output_bias) == optional_bias(loading.output_bias));
        let final_proj: EinSum<T> = match final_projection(&embeddings, output_bias) {
            Ok(layer) => layer,
            Err(error) => {
                assert(loading.explains(*self, *cfg, files, readers, Err(LoadError::Projection(error))));
                return Err(LoadError::Projection(error));
            },
        };
        let shape: Shape = one_token();
        let parts: Parts<T, P, B, N> = Parts { embeddings, global_positional, blocks, final_norm, final_proj };
        proof {
            loading.parts = parts;
            loading.shape = shape;
        }
        let model: Result<M, E> = assemble(parts, config, shape);
        proof {
            loading.model = model;
        }
        match model {
            Ok(model) => {
                assert(loading.explains(*self, *cfg, files, readers, Ok(model)));
                Ok(model)
            },
            Err(error) => {
                assert(loading.explains(*self, *cfg, files, readers, Err(LoadError::Part(error))));
                Err(LoadError::Part(error))
            },
        }
    }
}

} // verus!
