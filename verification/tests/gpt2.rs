use zkml::einsum::{EinSumError, TensorHandle};
use zkml::axis::ShapeError;
use zkml::gpt2::{
    block_prefix_text, final_projection, gpt2_structure, gpt2_variants, is_gpt2_model,
    AttentionHeadType, AttentionSpan, ConfigKey, LLMStructure, NormType, PositionalConfig, RawConfig,
};
use zkml::gpt2_parse::{LoadError, Parts, GPT2};
use zkml::metadata::{LLMConfig, Token};
use zkml::shape::Shape;
use zkml::tensor::{Element, Tensor};

type Handle = TensorHandle<Element>;

fn raw() -> RawConfig {
    RawConfig {
        n_embd: Some(768),
        n_head: Some(12),
        n_ctx: Some(1024),
        n_layer: Some(12),
        layer_norm_epsilon: Some(1e-5f32.to_bits()),
        vocab_size: Some(50257),
        eos_token_id: Some(50256),
    }
}

fn handle(key: &str, dims: Vec<usize>) -> Handle {
    let len: usize = dims.iter().product();
    TensorHandle::from_tensor(
        key.to_string(),
        Tensor::new(Shape::new(dims), vec![0; len]).unwrap(),
    )
}

/// The files hold the bias of the first feed-forward block, of the given length, and the
/// final norm.
fn get(files: &usize, name: &str) -> Result<Handle, String> {
    match name {
        "h.0.mlp.c_fc.bias" => Ok(handle(name, vec![*files])),
        "ln_f.weight" | "ln_f.bias" => Ok(handle(name, vec![8])),
        _ => Err(name.to_string()),
    }
}

#[test]
fn test_safe_gpt2_load_model() {
    let (parts, config, shape) = GPT2::new()
        .parse(
            &raw(),
            &3072,
            |files: &usize, name: &str| get(files, name),
            |_: &usize| Ok(handle("wte.weight", vec![4, 8])),
            |_: &usize, _: &LLMStructure, p: PositionalConfig| Ok::<PositionalConfig, String>(p),
            |files: &usize, prefix: String, _: &LLMStructure, cfg: &RawConfig| {
                assert_eq!((*files, cfg.n_embd), (3072, Some(768)));
                Ok::<String, String>(prefix)
            },
            |_: Handle, _: Handle, epsilon: u32| Ok::<u32, String>(epsilon),
            |parts: Parts<Element, PositionalConfig, String, u32>, config: LLMConfig, shape: Shape| {
                Ok((parts, config, shape))
            },
        )
        .unwrap();
    assert_eq!(config.num_heads, 12);
    assert_eq!(config.num_block, 12);
    assert_eq!(config.embedding_size, 768);
    assert_eq!(config.hidden_size, 768);
    assert_eq!(config.context_length, 1024);
    assert_eq!(f32::from_bits(config.norm_epsilon_bits), 1e-5);
    assert_eq!(config.vocab_size, 50257);
    assert_eq!(config.eos_token, Token::from(50256usize));
    assert_eq!(config.intermediate_size, 3072);
    assert_eq!(config.head_size, 64);
    assert_eq!(config.model_name, "gpt2");
    assert_eq!(shape, Shape::new(vec![1]));
    assert_eq!(parts.blocks.len(), 12);
    assert_eq!(parts.blocks[0], "h.0.");
    assert_eq!(parts.blocks[11], "h.11.");
    assert_eq!(parts.final_norm, 1e-5f32.to_bits());
    assert_eq!(parts.final_proj.equation, "X(se)@WE(ve)->O(sv)");
    let weights = parts.final_proj.constant_tensors[0].as_ref().unwrap();
    assert_eq!(weights.key, "wte.weight_final_proj");
    assert_eq!(parts.embeddings.key, "wte.weight");
}

fn load(cfg: RawConfig, missing: &'static str) -> Result<usize, LoadError<String>> {
    GPT2::new().parse(
        &cfg,
        &3072,
        move |files: &usize, name: &str| {
            if name == missing {
                Err(name.to_string())
            } else if name == "output.bias" {
                Ok(handle(name, vec![2, 2]))
            } else {
                get(files, name)
            }
        },
        move |_: &usize| {
            if missing == "embeddings" {
                Err(missing.to_string())
            } else {
                Ok(handle("wte.weight", vec![4, 8]))
            }
        },
        move |_: &usize, _: &LLMStructure, _: PositionalConfig| {
            if missing == "positional" {
                Err(missing.to_string())
            } else {
                Ok(())
            }
        },
        move |_: &usize, prefix: String, _: &LLMStructure, _: &RawConfig| {
            if missing == prefix {
                Err(prefix)
            } else {
                Ok(())
            }
        },
        move |_: Handle, _: Handle, _: u32| {
            if missing == "norm" {
                Err(missing.to_string())
            } else {
                Ok(())
            }
        },
        |parts: Parts<Element, (), (), ()>, _: LLMConfig, _: Shape| Ok(parts.blocks.len()),
    )
}

#[test]
fn loading_stops_at_the_first_failure() {
    for part in ["embeddings", "positional", "h.3.", "ln_f.weight", "ln_f.bias", "norm"] {
        match load(raw(), part) {
            Err(LoadError::Part(error)) => assert_eq!(error, part),
            _ => panic!("{}", part),
        }
    }
    match load(raw(), "h.0.mlp.c_fc.bias") {
        Err(LoadError::FeedForwardBias(error)) => assert_eq!(error, "h.0.mlp.c_fc.bias"),
        _ => panic!("bias"),
    }
    match load(raw(), "none") {
        Err(LoadError::Projection(error)) => {
            assert_eq!(error, EinSumError::Shape(ShapeError::RankMismatch))
        }
        _ => panic!("projection"),
    }
    assert_eq!(load(raw(), "output.bias").unwrap(), 12);
}

#[test]
fn missing_figures_are_named_in_order() {
    let missing = |cfg: RawConfig| match GPT2::new().config::<()>(&cfg, 1) {
        Err(LoadError::MissingKey(key)) => key,
        _ => panic!("complete"),
    };
    assert_eq!(missing(RawConfig { n_embd: None, n_head: None, ..raw() }), ConfigKey::Embd);
    assert_eq!(missing(RawConfig { n_head: None, n_ctx: None, ..raw() }), ConfigKey::Head);
    assert_eq!(missing(RawConfig { n_ctx: None, ..raw() }), ConfigKey::Ctx);
    assert_eq!(missing(RawConfig { n_layer: None, ..raw() }), ConfigKey::Layer);
    assert_eq!(
        missing(RawConfig { layer_norm_epsilon: None, ..raw() }),
        ConfigKey::LayerNormEpsilon
    );
    assert_eq!(missing(RawConfig { vocab_size: None, ..raw() }), ConfigKey::VocabSize);
    assert_eq!(missing(RawConfig { eos_token_id: None, ..raw() }), ConfigKey::EosTokenId);
    match load(RawConfig { n_layer: None, ..raw() }, "none") {
        Err(LoadError::MissingKey(key)) => assert_eq!(key, ConfigKey::Layer),
        _ => panic!("complete"),
    }
}

#[test]
fn the_window_overrides_the_context_length() {
    let gpt2 = GPT2::new().with_max_context_length(10);
    let config = gpt2.config::<()>(&raw(), 3072).unwrap();
    assert_eq!(config.context_length, 10);
    assert_eq!(gpt2.model_name(), "gpt2");
}

#[test]
fn every_block_attends_to_everything() {
    let config = GPT2::new().config::<()>(&raw(), 3072).unwrap();
    let structure = gpt2_structure(&config);
    assert_eq!(structure.attention_config.span, vec![AttentionSpan::Full; 12]);
    assert_eq!(structure.attention_config.head, AttentionHeadType::MHA);
    assert_eq!(structure.norm_type, NormType::LayerNorm);
    assert_eq!(structure.global_positional, Some(PositionalConfig::FixedPositional));
    assert_eq!(structure.generic.vocab_size, 50257);
    let copy = structure.clone();
    assert_eq!(copy.attention_config.span, structure.attention_config.span);
    assert_eq!(copy.generic.model_name, "gpt2");
}

#[test]
fn models_of_the_family_are_known_by_name() {
    let names = |list: &[&str]| list.iter().map(|name| name.to_string()).collect::<Vec<String>>();
    assert!(is_gpt2_model(&names(&["llama", "distilgpt2"])));
    assert!(is_gpt2_model(&names(&["sshleifer/tiny-gpt2"])));
    assert!(!is_gpt2_model(&names(&["gpt", "GPT2", "gpt2 "])));
    assert!(!is_gpt2_model(&[]));
    assert_eq!(
        gpt2_variants(),
        names(&["gpt2", "Tmkrzx_X", "distilgpt2", "toy_gpt2", "sshleifer/tiny-gpt2"])
    );
}

#[test]
fn block_prefixes_are_decimal() {
    assert_eq!(block_prefix_text(0), "h.0.");
    assert_eq!(block_prefix_text(9), "h.9.");
    assert_eq!(block_prefix_text(10), "h.10.");
    assert_eq!(block_prefix_text(40587), "h.40587.");
    assert_eq!(block_prefix_text(1236), "h.1236.");
}

#[test]
fn the_projection_has_its_own_key_and_may_have_a_bias() {
    let layer = final_projection(&handle("wte", vec![4, 8]), Some(handle("b", vec![4]))).unwrap();
    assert_eq!(layer.equation, "X(se)@WE(ve)->O(sv)+BIAS(v)");
    assert_eq!(layer.constant_tensors[0].as_ref().unwrap().key, "wte_final_proj");
    assert_eq!(layer.bias_unpadded_shapes, vec![Some(Shape::new(vec![1, 4]))]);
}

#[test]
fn heads_do_not_matter_before_the_bias_is_read() {
    let cfg = RawConfig { n_head: Some(0), ..raw() };
    assert!(matches!(
        load(cfg, "h.0.mlp.c_fc.bias"),
        Err(LoadError::FeedForwardBias(_))
    ));
}

fn full_config(window: Option<usize>) -> LLMConfig {
    let gpt2 = match window {
        Some(window) => GPT2::new().with_max_context_length(window),
        None => GPT2::default(),
    };
    gpt2.config::<()>(&raw(), 3072).unwrap()
}

type Loaded = Result<(Vec<AttentionSpan>, LLMConfig, Shape), String>;

fn load_gguf(gpt2: GPT2, missing: &'static str) -> Loaded {
    gpt2.parse_gguf(
        &"file",
        move |file: &&'static str, name: &str, window: Option<usize>| {
            assert_eq!((*file, name), ("file", "gpt2"));
            if missing == "config" {
                Err("config".to_string())
            } else {
                Ok(full_config(window))
            }
        },
        move |file: &&'static str, structure: &LLMStructure| {
            assert_eq!(*file, "file");
            if missing == "layers" {
                Err("layers".to_string())
            } else {
                Ok(structure.attention_config.span.clone())
            }
        },
        move |layers: Vec<AttentionSpan>, config: LLMConfig, shape: Shape| {
            if missing == "model" {
                Err("model".to_string())
            } else {
                Ok((layers, config, shape))
            }
        },
    )
}

#[test]
fn test_gpt2_load_gguf_model() {
    let (layers, config, shape) = load_gguf(GPT2::new(), "none").unwrap();
    assert_eq!(config.num_heads, 12);
    assert_eq!(config.num_block, 12);
    assert_eq!(config.embedding_size, 768);
    assert_eq!(config.hidden_size, 768);
    assert_eq!(config.context_length, 1024);
    assert_eq!(f32::from_bits(config.norm_epsilon_bits), 1e-5);
    assert_eq!(config.vocab_size, 50257);
    assert_eq!(config.eos_token, 50256usize.into());
    assert_eq!(layers, vec![AttentionSpan::Full; 12]);
    assert_eq!(shape, Shape::new(vec![1]));
}

#[test]
fn gguf_files_are_read_up_to_the_first_failure() {
    for part in ["config", "layers", "model"] {
        match load_gguf(GPT2::new(), part) {
            Err(error) => assert_eq!(error, part),
            Ok(_) => panic!("{}", part),
        }
    }
    let narrow = GPT2::new().with_max_context_length(10);
    assert_eq!(load_gguf(narrow, "none").unwrap().1.context_length, 10);
}

#[test]
fn json_files_describe_the_whole_model() {
    let load = |gpt2: GPT2, missing: &'static str| {
        gpt2.parse_json(
            &7usize,
            |_: &usize| {
                if missing == "config" {
                    Err("config".to_string())
                } else {
                    Ok(full_config(None))
                }
            },
            |file: &usize, config: &LLMConfig| {
                if missing == "layers" {
                    Err("layers".to_string())
                } else {
                    Ok(file + config.num_block)
                }
            },
            |layers: usize, config: LLMConfig, shape: Shape| Ok((layers, config.context_length, shape)),
        )
    };
    let narrow = GPT2::new().with_max_context_length(10);
    assert_eq!(load(narrow, "none"), Ok((19, 1024, Shape::new(vec![1]))));
    assert_eq!(load(GPT2::new(), "config"), Err("config".to_string()));
    assert_eq!(load(GPT2::new(), "layers"), Err("layers".to_string()));
}
