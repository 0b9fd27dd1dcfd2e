use ark_std::rand::rngs::StdRng;
use ark_std::rand::SeedableRng;
use zkml::driver::{Driver, DriverError, LLMModelLoader, Model, PipelineConfig};
use zkml::generation::{GenerationError, Trace};
use zkml::gpt2::RawConfig;
use zkml::gpt2_parse::GPT2;
use zkml::metadata::{to_usize, LLMMetadata, Token};
use zkml::shape::{PaddingMode, Shape};
use zkml::tensor::{Element, Tensor};
use zkml::verification::{FieldValue, LLMProof, LLMVerifierContext, VerifyError, WithMaxContext, IO};

const VOCAB: usize = 50257;
const EOS: usize = 50256;

/// A loader whose model has no layers.
struct Toy {
    gpt2: GPT2,
}

impl LLMModelLoader<usize, &'static str> for Toy {
    type Error = String;

    fn model_name(&self) -> String {
        self.gpt2.model_name()
    }

    fn with_max_context_length(self, max_context_length: usize) -> Self {
        Toy {
            gpt2: self.gpt2.with_max_context_length(max_context_length),
        }
    }

    fn parse(&self, data: &usize) -> Result<(Model<&'static str>, LLMMetadata), String> {
        if *data == 0 {
            return Err("no data".to_string());
        }
        let cfg = RawConfig {
            n_embd: Some(768),
            n_head: Some(12),
            n_ctx: Some(*data),
            n_layer: Some(12),
            layer_norm_epsilon: Some(1e-5f32.to_bits()),
            vocab_size: Some(VOCAB),
            eos_token_id: Some(EOS),
        };
        let config = self.gpt2.config::<()>(&cfg, 3072).unwrap();
        let model = Model {
            graph: "float",
            input_shapes: vec![Shape::new(vec![1])],
        };
        Ok((model, LLMMetadata { config, argmax: 5 }))
    }
}

fn load(max_context: Option<usize>) -> Driver<&'static str> {
    Driver::load_from_model(Toy { gpt2: GPT2::new() }, &1024, max_context).unwrap()
}

fn rng() -> StdRng {
    StdRng::seed_from_u64(7)
}

/// The token that the toy model expects behind a token.
fn next(token: Element, ends_after: Element) -> Element {
    if token == ends_after {
        EOS as Element
    } else {
        (token * 31 + 7) % 50000
    }
}

/// Runs the loop with a model that keeps count of its runs.
fn generate(
    driver: &Driver<&'static str>,
    prompt: Tensor<Element>,
    ends_after: Element,
) -> (Vec<String>, Result<Trace<()>, GenerationError<String>>) {
    let name_all = move |input: &Tensor<Element>| -> Vec<Element> {
        input.get_data().iter().map(|t| next(*t, ends_after)).collect()
    };
    driver.run_elements(
        vec![],
        prompt,
        |_: &Model<&'static str>, mut log: Vec<String>| {
            log.push("reset".to_string());
            log
        },
        |_: &Model<&'static str>, mut log: Vec<String>| {
            log.push("selective".to_string());
            log
        },
        move |_: &Model<&'static str>, mut log: Vec<String>, input: Tensor<Element>| {
            log.push(format!("step {}", input.get_data().len()));
            (log, Ok(vec![Tensor::from_vec(name_all(&input))]))
        },
        move |_: &Model<&'static str>, mut log: Vec<String>, input: Tensor<Element>, split: Option<&()>| {
            assert!(split.is_none());
            log.push(format!("trace {}", input.get_data().len()));
            let outputs = vec![Tensor::from_vec(name_all(&input))];
            (
                log,
                Ok(Trace {
                    inputs: vec![input],
                    outputs,
                    steps: (),
                }),
            )
        },
    )
}

/// The tensor as the proof system sees it, padded to the next power of two.
fn field(tensor: &Tensor<Element>) -> Tensor<FieldValue> {
    let mut values: Vec<FieldValue> = tensor
        .get_data()
        .iter()
        .map(|e| FieldValue {
            high: 0,
            low: *e as u128,
            element: *e,
        })
        .collect();
    while !values.len().is_power_of_two() {
        values.push(FieldValue {
            high: 0,
            low: 0,
            element: 0,
        });
    }
    Tensor::from_vec(values)
}

fn tokens(ids: &[usize]) -> Vec<Token> {
    ids.iter().map(|id| Token::from(*id)).collect()
}

fn context(max_context: usize) -> LLMVerifierContext<u8> {
    let (prover, verifier) = load(Some(max_context))
        .context(|_: &Model<&'static str>| Ok::<(u8, u8), String>((1, 2)))
        .unwrap()
        .with_max_context(max_context);
    assert_eq!(prover, 1);
    verifier
}

fn prove(trace: &Trace<()>) -> LLMProof<&'static str> {
    LLMProof {
        proof: "proof",
        io: IO {
            input: vec![field(&trace.inputs[0])],
            output: vec![field(&trace.outputs[0])],
        },
    }
}

/// Accepts a good proof, whatever it is about.
fn check(_: &u8, proof: &'static str, _: &IO) -> Result<(), String> {
    if proof == "proof" {
        Ok(())
    } else {
        Err(proof.to_string())
    }
}

/// A proof that names the tokens that it proves.
fn check_of(_: &u8, proof: Vec<Element>, io: &IO) -> Result<(), String> {
    let given: Vec<Element> = io.input[0].get_data().iter().map(|v| v.element).collect();
    if proof == given {
        Ok(())
    } else {
        Err("another sentence".to_string())
    }
}

#[test]
fn test_llm_driver_distributed_prove_gpt2() {
    const MAX_CONTEXT: usize = 10;
    let (driver, metadata) = load(Some(MAX_CONTEXT))
        .into_provable_llm(
            None,
            &mut rng(),
            |tokens: Vec<Vec<Vec<Token>>>| tokens,
            |model: Model<&'static str>, config: PipelineConfig<Vec<Vec<Vec<Token>>>>| {
                assert_eq!(model.graph, "float");
                assert_eq!(
                    config.input_shapes.unwrap(),
                    vec![Shape::new(vec![MAX_CONTEXT])]
                );
                let sample = config.quant_strategy.unwrap();
                Ok::<(Model<&'static str>, usize), String>((
                    Model {
                        graph: "quantised",
                        input_shapes: vec![],
                    },
                    sample[0][0].len(),
                ))
            },
        )
        .unwrap();
    assert_eq!(metadata, MAX_CONTEXT);
    assert_eq!(driver.model.graph, "quantised");
    assert_eq!(driver.model.input_shapes, vec![Shape::new(vec![1])]);
    assert_eq!(driver.padding_mode, PaddingMode::Padding);

    let verifier_ctx = context(MAX_CONTEXT);

    // "The sky is" in the vocabulary of GPT-2.
    let user_tokens = tokens(&[464, 6766, 318]);
    let input_tensor = driver.tokens_to_tensor(&user_tokens).unwrap();
    let (_, trace) = generate(&driver, input_tensor, -1);
    let trace = trace.unwrap();
    assert_eq!(trace.inputs[0].get_data().len(), MAX_CONTEXT);

    let num_provers = driver
        .chunking_strategy(&trace.inputs[0], &"prover", |window: usize, _: &&'static str| window)
        .unwrap();
    assert_eq!(num_provers, MAX_CONTEXT);
    let llm_proof = prove(&trace);
    verifier_ctx
        .verify(llm_proof.proof, &user_tokens, &llm_proof.io, check)
        .unwrap();
}

#[test]
fn the_loop_fills_the_window() {
    let mut driver = load(None);
    driver.with_max_context(6);
    let prompt = driver.tokens_to_tensor(&tokens(&[1, 2])).unwrap();
    let (log, trace) = generate(&driver, prompt, -1);
    let trace = trace.unwrap();
    assert_eq!(*trace.inputs[0].get_data(), vec![1, 2, 69, 2146, 16533, 12530]);
    assert_eq!(
        log,
        vec!["reset", "step 2", "step 1", "step 1", "step 1", "step 1", "selective", "trace 6", "reset"]
    );
}

#[test]
fn the_loop_ends_with_the_sentence() {
    let driver = load(Some(8));
    let prompt = driver.tokens_to_tensor(&tokens(&[1, 2])).unwrap();
    let (log, trace) = generate(&driver, prompt, 2146);
    let trace = trace.unwrap();
    assert_eq!(*trace.inputs[0].get_data(), vec![1, 2, 69, 2146]);
    assert_eq!(
        log,
        vec!["reset", "step 2", "step 1", "step 1", "selective", "trace 4", "reset"]
    );
    let prompt = driver.tokens_to_tensor(&tokens(&[1, 2])).unwrap();
    let (_, trace) = generate(&driver, prompt, 2);
    assert_eq!(*trace.unwrap().inputs[0].get_data(), vec![1, 2]);
}

#[test]
fn prompts_are_checked_before_the_model_runs() {
    let run = |max_context: usize, context_length: usize, ids: Vec<Element>| {
        let mut driver = load(Some(context_length));
        driver.with_max_context(max_context);
        generate(&driver, Tensor::from_vec(ids), -1)
    };
    let (log, result) = run(8, 4, vec![1, 2, 3]);
    assert!(matches!(result, Err(GenerationError::PromptTooLong)));
    assert_eq!(log, vec!["reset"]);
    assert!(matches!(
        run(2, 8, vec![1, 2, 3]).1,
        Err(GenerationError::WindowTooSmall)
    ));
    assert!(matches!(
        run(8, 8, vec![1, VOCAB as Element]).1,
        Err(GenerationError::UnknownToken)
    ));
    assert!(matches!(
        run(8, 8, vec![1, -1]).1,
        Err(GenerationError::UnknownToken)
    ));
    assert!(matches!(
        run(8, 8, vec![]).1,
        Err(GenerationError::EmptyPrompt)
    ));
    assert!(run(3, 8, vec![1, 2, 3]).1.is_ok());
}

fn run_with(
    outputs: Vec<Tensor<Element>>,
    trace: Result<(Vec<Element>, Vec<Element>), String>,
) -> Result<Trace<()>, GenerationError<String>> {
    let driver = load(Some(4));
    let step = move |_: &Model<&'static str>, fail: bool, _: Tensor<Element>| {
        if fail {
            (fail, Err("step".to_string()))
        } else {
            (fail, Ok(outputs.iter().map(|t| t.clone()).collect()))
        }
    };
    let last = move |_: &Model<&'static str>, state: bool, _: Tensor<Element>, _: Option<&()>| {
        let trace = trace.clone().map(|(inputs, outputs)| Trace {
            inputs: vec![Tensor::from_vec(inputs)],
            outputs: vec![Tensor::from_vec(outputs)],
            steps: (),
        });
        (state, trace)
    };
    driver
        .run_elements(
            false,
            Tensor::from_vec(vec![1, 2]),
            |_: &Model<&'static str>, s: bool| s,
            |_: &Model<&'static str>, s: bool| s,
            step,
            last,
        )
        .1
}

#[test]
fn models_that_misbehave_are_found_out() {
    let one = || vec![Tensor::from_vec(vec![5])];
    let good = || Ok((vec![1, 2, 5, 5], vec![9, 5, 5, 5]));
    assert!(load(None).max_context().is_none());
    // A window of four tokens that the loop may not reach, for the loader narrows the model.
    assert!(matches!(run_with(one(), good()), Ok(_)));
    assert!(matches!(
        run_with(vec![], good()),
        Err(GenerationError::OutputCount { found: 0 })
    ));
    assert!(matches!(
        run_with(vec![Tensor::from_vec(vec![])], good()),
        Err(GenerationError::NoToken { place: 1 })
    ));
    assert!(matches!(
        run_with(one(), Err("trace".to_string())),
        Err(GenerationError::Trace(error)) if error == "trace"
    ));
    assert!(matches!(
        run_with(one(), Ok((vec![1, 2, 5, 6], vec![9, 5, 5, 5]))),
        Err(GenerationError::TraceDiffers { place: 3 })
    ));
    assert!(matches!(
        run_with(one(), Ok((vec![1, 2, 5], vec![9, 5, 5, 5]))),
        Err(GenerationError::TraceTooShort { place: 3 })
    ));
    let failed = load(Some(8)).run_elements(
        0usize,
        Tensor::from_vec(vec![1, 2]),
        |_: &Model<&'static str>, _: usize| 0,
        |_: &Model<&'static str>, n: usize| n,
        |_: &Model<&'static str>, n: usize, _: Tensor<Element>| {
            if n == 2 {
                (n, Err("step"))
            } else {
                (n + 1, Ok(vec![Tensor::from_vec(vec![3])]))
            }
        },
        |_: &Model<&'static str>, n: usize, _: Tensor<Element>, _: Option<&()>| {
            (n, Err::<Trace<()>, &'static str>("trace"))
        },
    );
    assert_eq!(failed.0, 2);
    assert!(matches!(
        failed.1,
        Err(GenerationError::Step {
            iteration: 2,
            error: "step"
        })
    ));
}

#[test]
fn loading_tells_the_loader_of_the_window() {
    let driver = load(Some(10));
    assert_eq!(driver.max_context(), Some(10));
    assert_eq!(driver.md.config.context_length, 10);
    assert_eq!(driver.padding_mode, PaddingMode::NoPadding);
    assert_eq!(driver.vocab_size(), VOCAB);
    assert_eq!(load(None).md.config.context_length, 1024);
    let failed = Driver::load_from_model(Toy { gpt2: GPT2::new() }, &0, None);
    assert_eq!(failed.unwrap_err(), "no data");
}

#[test]
fn random_sequences_are_of_the_vocabulary() {
    let mut driver = load(Some(10));
    driver.md.config.vocab_size = 3;
    let sequence = driver.random_sequence(200, &mut rng());
    assert_eq!(sequence.len(), 200);
    for id in 0..3 {
        assert!(sequence.contains(&Token(id)));
    }
    assert!(sequence.iter().all(|token| token.0 < 3));
    driver.md.config.vocab_size = 0;
    assert!(driver.random_sequence(0, &mut rng()).is_empty());
}

#[test]
fn tokens_must_not_exceed_the_context_length() {
    let mut driver = load(Some(5));
    for len in 0..=5 {
        let ids: Vec<usize> = (7..7 + len).collect();
        let tensor = driver.tokens_to_tensor(&tokens(&ids)).unwrap();
        let expected: Vec<Element> = ids.iter().map(|id| *id as Element).collect();
        assert_eq!(*tensor.get_data(), expected);
        assert_eq!(*tensor.shape(), Shape::new(vec![len]));
    }
    assert_eq!(
        driver.tokens_to_tensor(&tokens(&[7; 6])).unwrap_err(),
        DriverError::InputTooLong
    );
    driver.md.config.context_length = 0;
    assert!(driver.tokens_to_tensor(&[]).is_ok());
    assert!(driver.tokens_to_tensor(&tokens(&[1])).is_err());
    assert_eq!(to_usize(Token(50256).as_element()), 50256);
}

#[test]
fn chunks_are_planned_for_the_whole_window() {
    let driver = load(Some(5));
    let short = Tensor::from_vec(vec![1]);
    let plan = |w: usize, ctx: &usize| w * ctx;
    assert_eq!(driver.chunking_strategy(&short, &100, plan), Ok(500));
    let long = Tensor::from_vec(vec![1; 6]);
    assert_eq!(
        driver.chunking_strategy(&long, &100, plan),
        Err(DriverError::WindowTooSmall)
    );
}

#[test]
fn strategies_are_taken_as_given() {
    let quantise = |model: Model<&'static str>, config: PipelineConfig<u8>| {
        Ok::<(Model<usize>, u8), String>((
            Model {
                graph: model.graph.len(),
                input_shapes: config.input_shapes.unwrap(),
            },
            config.quant_strategy.unwrap_or(0),
        ))
    };
    let config = PipelineConfig::new().with_strategy(9u8);
    let (driver, metadata) = load(Some(4))
        .into_provable_llm_with_strategy(config, quantise)
        .unwrap();
    assert_eq!((driver.model.graph, metadata), (5, 9));
    assert_eq!(driver.max_context(), Some(4));
    let failed = load(None).into_provable_llm_with_strategy(
        PipelineConfig::<u8>::new(),
        |_: Model<&'static str>, config: PipelineConfig<u8>| {
            Err::<(Model<usize>, u8), Vec<Shape>>(config.input_shapes.unwrap())
        },
    );
    assert_eq!(failed.unwrap_err(), vec![Shape::new(vec![1024])]);
    let given = PipelineConfig::<u8>::new().with_input_shapes(vec![Shape::new(vec![3])]);
    let failed = load(None).into_provable_llm(
        Some(given),
        &mut rng(),
        |_: Vec<Vec<Vec<Token>>>| 4,
        |_: Model<&'static str>, config: PipelineConfig<u8>| {
            Err::<(Model<usize>, u8), (Vec<Shape>, u8)>((
                config.input_shapes.unwrap(),
                config.quant_strategy.unwrap(),
            ))
        },
    );
    assert_eq!(failed.unwrap_err(), (vec![Shape::new(vec![3])], 4));
}

#[test]
fn transforms_adapt_the_model_first() {
    let run = |window: Option<usize>, adapt: bool| {
        load(window).into_provable_llm_with_transform(
            &70u8,
            |tokeniser: &u8, md: &LLMMetadata| *tokeniser + md.argmax as u8 + 2,
            |observer: &u8| *observer as usize,
            move |mut driver: Driver<&'static str>| {
                driver.model.graph = "adapted";
                if adapt {
                    Ok(driver)
                } else {
                    Err("unfit".to_string())
                }
            },
            |model: Model<&'static str>, config: PipelineConfig<u8>| {
                assert_eq!(config.quant_strategy, Some(77));
                let shapes = config.input_shapes.unwrap();
                Ok((
                    Model {
                        graph: model.graph,
                        input_shapes: vec![],
                    },
                    shapes[0].dim(0),
                ))
            },
        )
    };
    let (driver, len) = run(Some(6), true).unwrap();
    assert_eq!((driver.model.graph, len), ("adapted", 6));
    assert_eq!(driver.md.config.vocab_size, VOCAB);
    assert_eq!(run(None, true).unwrap().1, 77);
    assert_eq!(run(None, false).unwrap_err(), "unfit");
}

#[test]
fn runs_are_followed_by_a_reset() {
    let driver = load(None);
    let (state, result) = driver.run_with_runner(
        1,
        "input",
        |model: &Model<&'static str>, state: usize, input: &'static str| {
            (state + 1, format!("{} {}", model.graph, input))
        },
        |_: &Model<&'static str>, state: usize| state * 100,
    );
    assert_eq!((state, result), (200, "float input".to_string()));
    let (state, result) = driver.run(
        vec![Tensor::from_vec(vec![1, 2])],
        0,
        |_: &Model<&'static str>, state: usize, inputs: Vec<Tensor<Element>>| {
            (state + 1, Err::<(), usize>(inputs.len()))
        },
        |_: &Model<&'static str>, state: usize| state + 10,
    );
    assert_eq!((state, result), (11, Err(1)));
}

#[test]
fn contexts_cover_every_length() {
    let mut driver = load(Some(10));
    let all = |driver: &Driver<&'static str>| {
        driver
            .compute_all_contexts(|_: &Model<&'static str>, shapes: Vec<Shape>| {
                Ok::<(Vec<Shape>, u8), String>((shapes, 3))
            })
            .unwrap()
    };
    let (shapes, verifier) = all(&driver);
    assert_eq!(shapes, vec![Shape::new(vec![16])]);
    assert_eq!(verifier.max_context, Some(10));
    assert_eq!(verifier.verifier_ctx, 3);
    driver.md.config.context_length = 16;
    assert_eq!(all(&driver).0, vec![Shape::new(vec![16])]);
    let (_, verifier) = driver
        .context(|_: &Model<&'static str>| Ok::<(u8, u8), String>((1, 2)))
        .unwrap();
    assert_eq!(verifier.max_context, None);
    assert_eq!(verifier.with_max_context(7).max_context, Some(7));
    let proof = driver.prove(
        &"prover",
        "trace",
        |t: &&'static str| t.len(),
        |ctx: &&'static str,
         t: &'static str,
         n: Option<usize>,
         s: usize,
         model: &Model<&'static str>,
         _: ()| (*ctx, t, n, s, model.graph),
    );
    assert_eq!(proof, ("prover", "trace", Some(1), 5, "float"));
    let proof = driver.chunked_prove_local(
        &1u8,
        "trace",
        None,
        "evenly",
        4,
        |ctx: &u8,
         t: &'static str,
         n: Option<usize>,
         s: &'static str,
         model: &Model<&'static str>,
         threads: usize| (*ctx, t, n, s, model.graph, threads),
    );
    assert_eq!(proof, (1, "trace", None, "evenly", "float", 4));
}

fn io(input: Vec<Element>, output: Vec<Element>) -> IO {
    IO {
        input: vec![field(&Tensor::from_vec(input))],
        output: vec![field(&Tensor::from_vec(output))],
    }
}

fn verify(io: &IO, prompt: &[usize], window: usize, proof: &'static str) -> Result<(), VerifyError<String>> {
    context(window).verify(proof, &tokens(prompt), io, check)
}

#[test]
fn forged_sentences_are_refused() {
    let honest = || io(vec![1, 2, 3, 4], vec![9, 3, 4, 7]);
    assert!(verify(&honest(), &[1, 2], 4, "proof").is_ok());
    assert!(matches!(
        verify(&honest(), &[1, 2], 4, "forged"),
        Err(VerifyError::Proof(reason)) if reason == "forged"
    ));
    assert!(matches!(
        verify(&honest(), &[1, 5], 4, "proof"),
        Err(VerifyError::UserInputDiffers)
    ));
    assert!(matches!(
        verify(&io(vec![1, 2, 3, 4], vec![9, 3, 5, 7]), &[1, 2], 4, "proof"),
        Err(VerifyError::NotSequential { place: 2 })
    ));
    assert!(matches!(
        verify(&io(vec![1, 2, 6, 4], vec![9, 3, 4, 7]), &[1, 2], 4, "proof"),
        Err(VerifyError::NotSequential { place: 1 })
    ));
    assert!(matches!(
        verify(&io(vec![1; 8], vec![1; 8]), &[1], 4, "proof"),
        Err(VerifyError::OutputTooLong)
    ));
    let mut two = honest();
    two.output.push(field(&Tensor::from_vec(vec![1])));
    assert!(matches!(
        verify(&two, &[1, 2], 4, "proof"),
        Err(VerifyError::OutputCount { found: 2 })
    ));
}

#[test]
fn the_proof_must_be_of_the_sentence_that_is_shown() {
    let about = io(vec![1, 2, 3, 4], vec![9, 3, 4, 7]);
    let verify = |proof: Vec<Element>| context(4).verify(proof, &tokens(&[1, 2]), &about, check_of);
    assert!(verify(vec![1, 2, 3, 4]).is_ok());
    assert!(matches!(
        verify(vec![1, 2, 3, 5]),
        Err(VerifyError::Proof(reason)) if reason == "another sentence"
    ));
}

#[test]
fn copies_of_proofs_and_drivers_hold_the_same() {
    let llm_proof = LLMProof {
        proof: vec![1u8, 2],
        io: io(vec![1, 2], vec![2, 3]),
    };
    let copy = llm_proof.clone();
    assert_eq!(copy.proof, vec![1, 2]);
    let elements = |tensors: &Vec<Tensor<FieldValue>>| -> Vec<Element> {
        tensors[0].get_data().iter().map(|v| v.element).collect()
    };
    assert_eq!(elements(&copy.io.input), elements(&llm_proof.io.input));
    assert_eq!(elements(&copy.io.output), vec![2, 3]);
    let driver = load(Some(9));
    let copy = driver.clone();
    assert_eq!(copy.model.graph, "float");
    assert_eq!(copy.model.input_shapes, driver.model.input_shapes);
    assert_eq!(copy.md.config.model_name, driver.md.config.model_name);
    assert_eq!(copy.max_context(), Some(9));
    assert_eq!(copy.padding_mode, driver.padding_mode);
}

#[test]
fn the_output_is_looked_at_up_to_the_end_of_the_sentence() {
    let eos = EOS as Element;
    let ended = io(vec![1, 2, 3, 4, 0, 0, 0, 0], vec![2, 3, 4, eos, 8, 8, 8, 8]);
    let verifier = context(8);
    assert_eq!(verifier.unpadded_output_len(&tokens(&[1]), &ended), 4);
    assert_eq!(verifier.unpadded_output_len(&tokens(&[1, 2]), &ended), 4);
    assert!(verify(&ended, &[1], 8, "proof").is_ok());
    assert!(verify(&ended, &[1, 2], 8, "proof").is_ok());
    assert!(verify(&ended, &[1, 2, 3, 4], 8, "proof").is_ok());
    // Whatever stands behind the token that ends the sentence is padding.
    let padded = io(vec![1, 2, 3, 4, 9, 9, 9, 9], vec![2, 3, 4, eos, 8, eos, 8, 8]);
    assert!(verify(&padded, &[1, 2], 8, "proof").is_ok());
    let unended = io(vec![1, 2, 3, 4], vec![2, 3, 4, 5]);
    assert_eq!(context(4).unpadded_output_len(&tokens(&[1]), &unended), 4);
    assert_eq!(context(3).unpadded_output_len(&tokens(&[1]), &unended), 3);
}

#[test]
fn short_sentences_cannot_be_walked_through() {
    let verifier = context(4);
    assert!(verifier.can_walk(&tokens(&[1, 2]), &io(vec![1, 2, 3, 4], vec![9, 3, 4, 7])));
    assert!(!verifier.can_walk(&tokens(&[1, 2, 3]), &io(vec![1, 2], vec![9, 3])));
    assert!(!verifier.can_walk(&tokens(&[1, 2]), &io(vec![1, 2], vec![9, 3])));
    assert!(verifier.can_walk(&tokens(&[1, 7]), &io(vec![1, 2], vec![9, 3])));
    let at_once = io(vec![1, 2], vec![9, EOS as Element]);
    assert!(verifier.can_walk(&tokens(&[1, 2]), &at_once));
    assert!(verify(&at_once, &[1, 2], 4, "proof").is_ok());
    assert!(!context(0).can_walk(&tokens(&[1]), &io(vec![1], vec![2])));
}

#[test]
fn every_token_of_an_ended_sentence_is_checked() {
    let eos = EOS as Element;
    let output = || vec![9, 3, 4, 5, eos, 0, 0, 0];
    let input = |third: Element, last: Element| vec![1, 2, 3, third, last, 0, 0, 0];
    assert!(verify(&io(input(4, 5), output()), &[1, 2], 8, "proof").is_ok());
    assert!(matches!(
        verify(&io(input(7, 5), output()), &[1, 2], 8, "proof"),
        Err(VerifyError::NotSequential { place: 2 })
    ));
    assert!(matches!(
        verify(&io(input(4, 6), output()), &[1, 2], 8, "proof"),
        Err(VerifyError::NotSequential { place: 3 })
    ));
    assert!(matches!(
        verify(&io(input(4, 6), output()), &[1, 2, 3, 4], 8, "proof"),
        Err(VerifyError::NotSequential { place: 3 })
    ));
}

#[test]
fn generated_sentences_that_end_are_accepted() {
    let driver = load(Some(8));
    let user_tokens = tokens(&[1, 2]);
    for (last, len) in [(2, 2), (69, 3), (2146, 4)] {
        let prompt = driver.tokens_to_tensor(&user_tokens).unwrap();
        let trace = generate(&driver, prompt, last).1.unwrap();
        assert_eq!(trace.inputs[0].get_data().len(), len);
        let llm_proof = prove(&trace);
        let verifier = context(8);
        assert!(llm_proof.io.well_formed());
        assert_eq!(verifier.unpadded_output_len(&user_tokens, &llm_proof.io), len);
        assert!(verifier.can_walk(&user_tokens, &llm_proof.io));
        verifier
            .verify(llm_proof.proof, &user_tokens, &llm_proof.io, check)
            .unwrap();
    }
}

#[test]
fn the_same_number_encodes_the_same_element() {
    let value = |low: u128, element: Element| FieldValue {
        high: 0,
        low,
        element,
    };
    let about = |input: Vec<FieldValue>, output: Vec<FieldValue>| IO {
        input: vec![Tensor::from_vec(input)],
        output: vec![Tensor::from_vec(output)],
    };
    assert!(about(vec![value(1, 1), value(2, 2)], vec![value(2, 2)]).well_formed());
    assert!(!about(vec![value(1, 1), value(2, 2)], vec![value(2, 3)]).well_formed());
    assert!(!about(vec![value(1, 1), value(1, 2)], vec![]).well_formed());
    assert!(!about(vec![], vec![value(1, 1), value(1, 2)]).well_formed());
    let mut broken = about(vec![value(1, 1)], vec![value(1, 1)]);
    broken.output[0].data.push(value(1, 1));
    assert!(!broken.well_formed());
}

#[test]
fn two_runs_on_one_prompt_are_the_same() {
    let driver = load(Some(8));
    // The state is what a model has cached: its answers depend on it until it is reset.
    let run = |cached: Element, ids: Vec<Element>| {
        driver.run_elements(
            cached,
            Tensor::from_vec(ids),
            |_: &Model<&'static str>, _: Element| 0,
            |_: &Model<&'static str>, _: Element| 0,
            |_: &Model<&'static str>, cached: Element, input: Tensor<Element>| {
                let data: Vec<Element> = input.get_data().iter().map(|t| t * 3 + cached).collect();
                (cached + 1, Ok(vec![Tensor::from_vec(data)]))
            },
            |_: &Model<&'static str>, cached: Element, sentence: Tensor<Element>, _: Option<&()>| {
                let mut outputs = sentence.get_data().clone();
                outputs.remove(0);
                outputs.push(cached);
                let outputs = vec![Tensor::from_vec(outputs)];
                let inputs = vec![sentence];
                (cached + 9, Ok::<Trace<()>, String>(Trace { inputs, outputs, steps: () }))
            },
        )
    };
    let (state, first) = run(0, vec![1, 2]);
    let (failed, refused) = run(state, vec![-5]);
    assert!(refused.is_err());
    let (last, second) = run(failed + 77, vec![1, 2]);
    let (first, second) = (first.unwrap(), second.unwrap());
    assert_eq!(first.inputs[0].get_data(), second.inputs[0].get_data());
    assert_eq!(first.outputs[0].get_data(), second.outputs[0].get_data());
    assert_eq!((state, last), (0, 0));
    assert_eq!(first.inputs[0].get_data().len(), 8);
}

#[test]
fn trackers_see_every_step() {
    let driver = load(Some(5));
    let ((_, seen), trace) = driver.run_elements_with_tracker(
        (),
        0usize,
        Tensor::from_vec(vec![1, 2]),
        |_: &Model<&'static str>, state: ((), usize)| state,
        |_: &Model<&'static str>, state: ((), usize)| state,
        |_: &Model<&'static str>, (_, seen): ((), usize), input: Tensor<Element>| {
            let data: Vec<Element> = input.get_data().iter().map(|t| next(*t, -1)).collect();
            (((), seen + 1), Ok(vec![Tensor::from_vec(data)]))
        },
        |_: &Model<&'static str>, state: ((), usize), sentence: Tensor<Element>, _: Option<&()>| {
            let data: Vec<Element> = sentence.get_data().iter().map(|t| next(*t, -1)).collect();
            let outputs = vec![Tensor::from_vec(data)];
            let inputs = vec![sentence];
            (state, Ok::<Trace<()>, String>(Trace { inputs, outputs, steps: () }))
        },
    );
    assert_eq!(*trace.unwrap().inputs[0].get_data(), vec![1, 2, 69, 2146, 16533]);
    assert_eq!(seen, 4);
}

#[test]
fn the_model_and_the_split_reach_the_last_run() {
    let driver = load(Some(5));
    let (_, trace) = driver.run_elements_with_split_info(
        (),
        Tensor::from_vec(vec![1, 2]),
        Some(&"attention"),
        |_: &Model<&'static str>, state: ()| state,
        |_: &Model<&'static str>, state: ()| state,
        |model: &Model<&'static str>, state: (), _: Tensor<Element>| {
            (state, Ok(vec![Tensor::from_vec(vec![model.graph.len() as Element])]))
        },
        |model: &Model<&'static str>,
         state: (),
         sentence: Tensor<Element>,
         split: Option<&&'static str>| {
            let steps = (model.graph, *split.unwrap());
            let outputs = vec![Tensor::from_vec(vec![0, 5, 5, 5, 5])];
            let inputs = vec![sentence];
            (state, Ok::<Trace<(&'static str, &'static str)>, String>(Trace { inputs, outputs, steps }))
        },
    );
    let trace = trace.unwrap();
    assert_eq!(*trace.inputs[0].get_data(), vec![1, 2, 5, 5, 5]);
    assert_eq!(trace.steps, ("float", "attention"));
}
