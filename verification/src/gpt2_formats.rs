//! How a model of the GPT-2 family is loaded from the formats that describe it whole.

use crate::gpt2::{gpt2_structure, is_gpt2_structure, LLMStructure};
use crate::gpt2_parse::{one_token, GPT2};
use crate::metadata::LLMConfig;
use crate::shape::Shape;
use vstd::prelude::*;

verus! {

/// The layers that were read became a model whose input is one token.
pub open spec fn turned_into<R, M, E, A: FnOnce(R, LLMConfig, Shape) -> Result<M, E>>(
    layers: R,
    config: LLMConfig,
    shape: Shape,
    into_model: A,
    result: Result<M, E>,
) -> bool {
    &&& shape@ == seq![1usize]
    &&& into_model.ensures((layers, config, shape), result)
}

/// The layers were read for the structure that the family has with the configuration.
pub open spec fn read_by_structure<D, R, E, L: FnOnce(&D, &LLMStructure) -> Result<R, E>>(
    files: &D,
    config: LLMConfig,
    structure: LLMStructure,
    from_loader: L,
    layers: Result<R, E>,
) -> bool {
    &&& is_gpt2_structure(structure, config)
    &&& from_loader.ensures((files, &structure), layers)
}

impl GPT2 {
    /// Loads a model from a GGUF file. `read_config` reads the configuration of the named
    /// architecture, with the given window if any; `from_loader` reads the layers, and
    /// `into_model` puts the model together.
    pub fn parse_gguf<
        D,
        R,
        M,
        E,
        C: FnOnce(&D, &str, Option<usize>) -> Result<LLMConfig, E>,
        L: FnOnce(&D, &LLMStructure) -> Result<R, E>,
        A: FnOnce(R, LLMConfig, Shape) -> Result<M, E>,
    >(&self, file: &D, read_config: C, from_loader: L, into_model: A) -> (result: Result<M, E>)
        requires
            read_config.requires((file, "gpt2", self.max_ctx_length)),
            forall|structure: &LLMStructure| from_loader.requires((file, structure)),
            forall|layers: R, config: LLMConfig, shape: Shape| into_model.requires((layers, config, shape)),
        ensures
            exists|read: Result<LLMConfig, E>| #[trigger]
                read_config.ensures((file, "gpt2", self.max_ctx_length), read) && match read {
                    Err(error) => result == Err::<M, E>(error),
                    Ok(config) => exists|structure: LLMStructure, layers: Result<R, E>| #[trigger]
                        read_by_structure(file, config, structure, from_loader, layers) && match layers {
                            Err(error) => result == Err::<M, E>(error),
                            Ok(layers) => exists|shape: Shape| #[trigger]
                                turned_into(layers, config, shape, into_model, result),
                        },
                },
    {
        let read: Result<LLMConfig, E> = read_config(file, "gpt2", self.max_ctx_length);
        let config: LLMConfig = match read {
            Ok(config) => config,
            Err(error) => {
                return Err(error);
            },
        };
        let structure: LLMStructure = gpt2_structure(&config);
        let read: Result<R, E> = from_loader(file, &structure);
        assert(read_by_structure(file, config, structure, from_loader, read));
        let layers: R = match read {
            Ok(layers) => layers,
            Err(error) => {
                return Err(error);
            },
        };
        let shape: Shape = one_token();
        let ghost parts: (R, LLMConfig, Shape) = (layers, config, shape);
        let result: Result<M, E> = into_model(layers, config, shape);
        assert(turned_into(parts.0, parts.1, parts.2, into_model, result));
        result
    }

    /// Loads a model from a file in the JSON format, which describes the whole model: the
    /// window plays no part. `read_config` reads the configuration, `from_loader` reads the
    /// layers, and `into_model` puts the model together.
    pub fn parse_json<
        D,
        R,
        M,
        E,
        C: FnOnce(&D) -> Result<LLMConfig, E>,
        L: FnOnce(&D, &LLMConfig) -> Result<R, E>,
        A: FnOnce(R, LLMConfig, Shape) -> Result<M, E>,
    >(&self, file: &D, read_config: C, from_loader: L, into_model: A) -> (result: Result<M, E>)
        requires
            read_config.requires((file,)),
            forall|config: &LLMConfig| from_loader.requires((file, config)),
            forall|layers: R, config: LLMConfig, shape: Shape| into_model.requires((layers, config, shape)),
        ensures
            exists|read: Result<LLMConfig, E>| #[trigger]
                read_config.ensures((file,), read) && match read {
                    Err(error) => result == Err::<M, E>(error),
                    Ok(config) => exists|layers: Result<R, E>| #[trigger]
                        from_loader.ensures((file, &config), layers) && match layers {
                            Err(error) => result == Err::<M, E>(error),
                            Ok(layers) => exists|shape: Shape| #[trigger]
                                turned_into(layers, config, shape, into_model, result),
                        },
                },
    {
        let read: Result<LLMConfig, E> = read_config(file);
        let config: LLMConfig = match read {
            Ok(config) => config,
            Err(error) => {
                return Err(error);
            },
        };
        let read: Result<R, E> = from_loader(file, &config);
        assert(from_loader.ensures((file, &config), read));
        let layers: R = match read {
            Ok(layers) => layers,
            Err(error) => {
                return Err(error);
            },
        };
        let shape: Shape = one_token();
        let ghost parts: (R, LLMConfig, Shape) = (layers, config, shape);
        let result: Result<M, E> = into_model(layers, config, shape);
        assert(turned_into(parts.0, parts.1, parts.2, into_model, result));
        result
    }
}

impl Default for GPT2 {
    fn default() -> (loader: Self)
        ensures
            loader == (GPT2 { max_ctx_length: None }),
    {
        GPT2::new()
    }
}

} // verus!
