use zkml::axis::{AxesMapping, EquationError, ShapeError};
use zkml::cache::ConcatenationCache;
use zkml::einsum::{EinSum, EinSumError, TensorHandle};
use zkml::einsum_context::{EinSumContext, EinSumProofInfo, ProverLog, VerifierLog};
use zkml::shape::{PaddingMode, Shape};
use zkml::tensor::{Element, Tensor};

fn handle(key: &str, dims: Vec<usize>) -> TensorHandle<Element> {
    let len: usize = dims.iter().product();
    let data: Vec<Element> = (0..len).map(|i| i as Element).collect();
    TensorHandle::from_tensor(key.to_string(), Tensor::new(Shape::new(dims), data).unwrap())
}

fn shapes(dims: Vec<Vec<usize>>) -> Vec<Shape> {
    dims.into_iter().map(Shape::new).collect()
}

#[test]
fn test_einsum_larger_context() {
    let [a, b, c] = [3, 16, 32];
    let max_stack = 8;
    let runtime_stack = 4;
    let weight = handle("weight", vec![b, c]);
    let einsum = EinSum::new(
        "A(ijk)@B(kl)->C(ijl)".to_string(),
        vec![Some(weight)],
        vec![None],
    )
    .unwrap();
    for stack in [max_stack, runtime_stack] {
        let out = einsum
            .output_shapes(&shapes(vec![vec![stack, a, b]]), PaddingMode::NoPadding)
            .unwrap();
        assert_eq!(out, shapes(vec![vec![stack, a, c]]));
        let padded = einsum
            .output_shapes(&shapes(vec![vec![stack, a, b]]), PaddingMode::Padding)
            .unwrap();
        assert_eq!(padded, shapes(vec![vec![stack, 4, 32]]));
    }
}

#[test]
fn test_einsum_proving_with_bias_and_transpose() {
    let [a, b, d] = [300, 350, 256];
    let keyed_bias = handle("bias1", vec![d]);
    let einsum = EinSum::new(
        "A(ij)@B(kj)->C(ik)+BIAS(k)".to_string(),
        vec![None],
        vec![Some(keyed_bias)],
    )
    .unwrap();
    let out = einsum
        .output_shapes(
            &shapes(vec![vec![a, b], vec![d, b]]),
            PaddingMode::NoPadding,
        )
        .unwrap();
    assert_eq!(out, shapes(vec![vec![a, d]]));
    assert_eq!(
        einsum.bias_unpadded_shapes,
        vec![Some(Shape::new(vec![1, d]))]
    );
}

#[test]
fn test_proven_concat_matmul_einsum() {
    let einsum = EinSum::<Element>::new(
        "A(ijk)@B(ikl)->C(ijl)".to_string(),
        vec![None],
        vec![None],
    )
    .unwrap();
    let out = einsum
        .output_shapes(
            &shapes(vec![vec![5, 14, 27], vec![5, 27, 18]]),
            PaddingMode::NoPadding,
        )
        .unwrap();
    assert_eq!(out[0], Shape::new(vec![5, 14, 18]));
}

#[test]
fn test_proven_broadcasted_bias_einsum() {
    let bias = handle("qkv_bias.q", vec![5, 18]);
    let einsum = EinSum::new(
        "A(ijk)@B(ikl)->C(ijl)+BIAS(il)".to_string(),
        vec![None],
        vec![Some(bias)],
    )
    .unwrap();
    let out = einsum
        .output_shapes(
            &shapes(vec![vec![5, 14, 27], vec![5, 27, 18]]),
            PaddingMode::NoPadding,
        )
        .unwrap();
    assert_eq!(out[0], Shape::new(vec![5, 14, 18]));
    let spread = einsum.biases[0].as_ref().unwrap();
    assert_eq!(*spread.shape(), Shape::new(vec![5, 1, 18]));
    assert_eq!(spread.tensor.get_data().len(), 90);
}

#[test]
fn test_proven_qkv_einsum() {
    let num_inputs = 49;
    let embedding_size = 78;
    let hidden_size = 120;

    let q = handle("qkv_weight.q", vec![embedding_size, hidden_size]);
    let q_bias = handle("qkv_bias.q", vec![hidden_size]);
    let k = handle("qkv_weight.k", vec![embedding_size, hidden_size]);
    let k_bias = handle("qkv_bias.k", vec![hidden_size]);
    let v = handle("qkv_weight.v", vec![embedding_size, hidden_size]);
    let v_bias = handle("qkv_bias.v", vec![hidden_size]);

    let einsum_layer = EinSum::<Element>::new(
        "X(se)@WQ(eh):WK(eh):WV(eh)->Q(sh)+BIAS(h):K(sh)+BIAS(h):V(sh)+BIAS(h)".to_string(),
        vec![Some(q), Some(k), Some(v)],
        vec![Some(q_bias), Some(k_bias), Some(v_bias)],
    )
    .unwrap();
    let out = einsum_layer
        .output_shapes(
            &shapes(vec![vec![num_inputs, embedding_size]]),
            PaddingMode::NoPadding,
        )
        .unwrap();
    assert_eq!(
        out,
        shapes(vec![
            vec![num_inputs, hidden_size],
            vec![num_inputs, hidden_size],
            vec![num_inputs, hidden_size]
        ])
    );
    assert_eq!(einsum_layer.num_outputs(1), Ok(3));
}

#[test]
fn the_equation_of_the_documentation_is_read() {
    let mapping =
        AxesMapping::from_string("A(ijk)@B(ikl):C(himk):D(ik)->E(ijl)+BIAS(ij):F(hijm):G(ij)+BIAS(j)")
            .unwrap();
    assert_eq!(mapping.input_count(), 4);
    assert_eq!(mapping.output_count(), 3);
    assert_eq!(mapping.bias_count(), 2);
    assert_eq!(mapping.output_ranks(), vec![3, 4, 2]);
}

#[test]
fn texts_that_are_no_equation_are_refused() {
    let error = |text: &str| AxesMapping::from_string(text).unwrap_err();
    assert_eq!(error("A(ij)->B(ij)"), EquationError::Syntax);
    assert_eq!(error("A(ij)@B(jk) ->C(ik)"), EquationError::Syntax);
    assert_eq!(error("a(ij)@B(jk)->C(ik)"), EquationError::Syntax);
    assert_eq!(error("A(ij)@B(jk)->C(ik)+bias(k)"), EquationError::Syntax);
    assert_eq!(error(""), EquationError::Syntax);
    assert_eq!(error("A(ij)@BIAS(jk)->C(ik)"), EquationError::ReservedName);
    assert_eq!(error("A(ij)@A(jk)->C(ik)"), EquationError::RepeatedName);
    assert_eq!(error("A(ii)@B(jk)->C(ik)"), EquationError::RepeatedAxis);
    assert_eq!(error("A(ij)@B(jk)->C(iz)"), EquationError::UnknownAxis);
    // Each output is computed from the first input and its own partner alone.
    assert_eq!(error("A(ij)@B(jk):C(jl)->D(il):E(ik)"), EquationError::UnknownAxis);
    assert!(AxesMapping::from_string("A(ij)@B(jk):C(jl)->D(ik):E(il)").is_ok());
    assert_eq!(error("A(ij)@B(jk)->C(ik)+BIAS(j)"), EquationError::BiasAxis);
    assert_eq!(error("A(ijk)@B(kjl)->C(il)"), EquationError::ContractionOrder);
}

#[test]
fn layers_that_do_not_fit_their_equation_are_refused() {
    let error = |text: &str,
                 constants: Vec<Option<TensorHandle<Element>>>,
                 biases: Vec<Option<TensorHandle<Element>>>| {
        EinSum::new(text.to_string(), constants, biases).unwrap_err()
    };
    assert_eq!(
        error("A(ij)", vec![], vec![]),
        EinSumError::Equation(EquationError::Syntax)
    );
    assert_eq!(
        error("A(ij)@B(jk)->C(ik)", vec![], vec![None]),
        EinSumError::ConstantCount {
            given: 0,
            expected: 1
        }
    );
    assert_eq!(
        error("A(ij)@B(jk)->C(ik)", vec![None], vec![]),
        EinSumError::BiasCount {
            given: 0,
            expected: 1
        }
    );
    assert_eq!(
        error("A(ij)@B(jk)->C(ik)+BIAS(k)", vec![None], vec![None]),
        EinSumError::MissingBiases {
            given: 0,
            expected: 1
        }
    );
    assert_eq!(
        error("A(ij)@B(jk)->C(ik):D(ik)", vec![None], vec![None, None]),
        EinSumError::OutputCount {
            inputs: 2,
            outputs: 2
        }
    );
    assert_eq!(
        error(
            "A(ij)@B(jk):C(jk):D(jk):E(jk)->F(ik):G(ik):H(ik):I(ik)",
            vec![None, None, None, None],
            vec![None, None, None, None]
        ),
        EinSumError::TooManyInputs { inputs: 5 }
    );
    assert_eq!(
        error(
            "A(ij)@B(jk)->C(ik)+BIAS(k)",
            vec![None],
            vec![Some(handle("b", vec![2, 2]))]
        ),
        EinSumError::Shape(ShapeError::RankMismatch)
    );
    assert_eq!(
        error(
            "A(ij)@B(jk):C(jl)->D(ik)+BIAS(k):E(il)",
            vec![None, None],
            vec![None, Some(handle("b", vec![2]))]
        ),
        EinSumError::Shape(ShapeError::BiasAxis)
    );
}

#[test]
fn shapes_that_do_not_fit_the_equation_are_refused() {
    let einsum =
        EinSum::<Element>::new("A(ij)@B(jk)->C(ik)".to_string(), vec![None], vec![None]).unwrap();
    let error = |dims: Vec<Vec<usize>>| {
        einsum
            .output_shapes(&shapes(dims), PaddingMode::NoPadding)
            .unwrap_err()
    };
    assert_eq!(
        error(vec![vec![2, 3], vec![4, 5]]),
        EinSumError::Shape(ShapeError::AxisMismatch)
    );
    assert_eq!(
        error(vec![vec![2, 3, 1], vec![3, 5]]),
        EinSumError::Shape(ShapeError::RankMismatch)
    );
    assert_eq!(
        einsum.mapping.output_shapes(&shapes(vec![vec![2, 3]])),
        Err(ShapeError::InputCount)
    );
}

#[test]
fn caches_grow_the_output_shapes() {
    let weight = handle("w", vec![3, 4]);
    let mut einsum = EinSum::new(
        "A(ij)@B(jk)->C(ik)".to_string(),
        vec![Some(weight)],
        vec![None],
    )
    .unwrap();
    assert_eq!(
        einsum.with_caches(vec![]),
        Err(EinSumError::CacheCount {
            given: 0,
            expected: 1
        })
    );
    assert_eq!(
        einsum.with_caches(vec![Some(2)]),
        Err(EinSumError::CacheDimension { dim: 2, rank: 2 })
    );
    assert!(einsum.caches[0].is_none());
    einsum.with_caches(vec![Some(0)]).unwrap();
    let input = shapes(vec![vec![1, 3]]);
    let first = |einsum: &EinSum<Element>, mode: PaddingMode| {
        einsum.output_shapes(&input, mode).unwrap()[0].clone()
    };
    assert_eq!(first(&einsum, PaddingMode::NoPadding), Shape::new(vec![1, 4]));
    let row = Tensor::new(Shape::new(vec![1, 4]), vec![1, 2, 3, 4]).unwrap();
    for _ in 0..2 {
        let cache: &mut ConcatenationCache<Element> = einsum.caches[0].as_mut().unwrap();
        cache.concatenate(row.clone()).unwrap();
    }
    assert_eq!(first(&einsum, PaddingMode::NoPadding), Shape::new(vec![3, 4]));
    assert_eq!(first(&einsum, PaddingMode::Padding), Shape::new(vec![4, 4]));
    einsum.set_caches_disabled(true);
    assert_eq!(first(&einsum, PaddingMode::NoPadding), Shape::new(vec![1, 4]));
    einsum.set_caches_disabled(false);
    assert_eq!(first(&einsum, PaddingMode::NoPadding), Shape::new(vec![1, 4]));
    assert_eq!(einsum.caches[0].as_ref().unwrap().cache_info(), (2, 0));
    einsum.caches[0].as_mut().unwrap().concatenate(row).unwrap();
    einsum.reset_caches();
    assert!(!einsum.caches[0].as_ref().unwrap().is_initialized());
}

#[test]
fn names_and_flags_are_kept() {
    let einsum =
        EinSum::<Element>::new("A(ij)@B(jk)->C(ik)".to_string(), vec![None], vec![None]).unwrap();
    assert!(!einsum.check_name("query"));
    assert!(einsum.requantise());
    assert!(einsum.is_provable());
    assert_eq!(einsum.describe(), "EinSum(A(ij)@B(jk)->C(ik))");
    let einsum = einsum.with_name("query".to_string()).no_requant();
    assert!(einsum.check_name("query"));
    assert!(!einsum.check_name("key"));
    assert!(!einsum.requantise());
    let einsum =
        EinSum::<Element>::new("A(ij)@B(jk)->C(ik)".to_string(), vec![None], vec![None]).unwrap();
    assert!(!einsum.disable_requantisation().requantise());
}

#[test]
fn quantising_needs_a_scaling_per_output() {
    let layer = || {
        EinSum::<Element>::new("A(ij)@B(jk)->C(ik)".to_string(), vec![None], vec![None]).unwrap()
    };
    assert_eq!(
        layer().quantize_op(
            &[8u8],
            &[],
            &[1u8, 2],
            |_: EinSum<Element>, _: &[u8], _: &[u8], _: &[Shape]| Ok(()),
        ),
        Err(EinSumError::ScalingCount {
            given: 2,
            expected: 1
        })
    );
    let quantised = layer().quantize_op(
        &[8u8, 9],
        &[Shape::new(vec![5])],
        &[1u8],
        |layer: EinSum<Element>, inputs: &[u8], outputs: &[u8], shapes: &[Shape]| {
            let count = layer.mapping.input_count();
            Ok((count, inputs.to_vec(), outputs.to_vec(), shapes[0].dim(0)))
        },
    );
    assert_eq!(quantised, Ok((2, vec![8, 9], vec![1], 5)));
}

#[test]
fn splittable_layers_are_cut_into_chunks() {
    let layer = EinSum::new(
        "A(ij)@B(jk)->C(ik)".to_string(),
        vec![Some(handle("w", vec![3, 4]))],
        vec![None],
    )
    .unwrap();
    let context = layer.to_context(true);
    assert!(context.is_splittable());
    assert!(context.is_provable());
    assert_eq!(context.describe(), "EinSum(A(ij)@B(jk)->C(ik))");
    assert_eq!(context.num_outputs(1), Ok(1));
    assert_eq!(context.constant_keys, vec![Some("w".to_string())]);
    let chunks = |len: usize, size: Option<usize>| {
        context.ideal_num_chunks(&[Shape::new(vec![len, 3])], size)
    };
    assert_eq!(chunks(128, None), Some(1));
    assert_eq!(chunks(129, None), Some(2));
    assert_eq!(chunks(0, None), Some(0));
    assert_eq!(chunks(10, Some(3)), Some(4));
    assert_eq!(chunks(9, Some(3)), Some(3));
    assert_eq!(
        context
            .output_shapes(&[Shape::new(vec![5, 3])], PaddingMode::Padding)
            .unwrap(),
        shapes(vec![vec![8, 4]])
    );
    let whole = layer.to_context(false);
    assert_eq!(
        whole.ideal_num_chunks(&[Shape::new(vec![500, 3])], None),
        None
    );
}

#[test]
fn proofs_and_claims_are_entered_under_their_node() {
    let layer = EinSum::new(
        "A(ij)@B(jk)->C(ik)".to_string(),
        vec![Some(handle("w", vec![3, 4]))],
        vec![None],
    )
    .unwrap();
    type Info = EinSumProofInfo<i32, String, usize>;
    let context = layer.to_context(false);
    let prove = |node: usize, step: Vec<i32>, log: ProverLog<Vec<String>, String, usize>| {
        layer.prove(
            node,
            &context,
            vec![4, 5],
            &step,
            log,
            |step: &Vec<i32>| {
                if step.is_empty() {
                    Err("no inputs".to_string())
                } else {
                    Ok(step.iter().map(|x| x * 10).collect())
                }
            },
            |layer: &EinSum<Element>,
             context: &EinSumContext,
             mut claims: Vec<i32>,
             inputs: &Vec<i32>,
             mut transcript: Vec<String>| {
                transcript.push(format!("{} inputs", inputs.len()));
                claims.push(inputs[0]);
                if inputs.len() == 3 {
                    return (transcript, Err("no".to_string()));
                }
                let info = Info {
                    claims,
                    proof: context.describe(),
                    commitment_map: layer.constant_tensors.len(),
                };
                (transcript, Ok(info))
            },
        )
    };
    let (log, claims) = prove(7, vec![1, 2], ProverLog::new(vec!["start".to_string()]));
    assert_eq!(claims, Ok(vec![4, 5, 10]));
    assert_eq!(log.proofs, vec![(7, "EinSum(A(ij)@B(jk)->C(ik))".to_string())]);
    assert_eq!(log.common_claims, vec![(7, 1)]);
    assert_eq!(log.transcript, vec!["start", "2 inputs"]);
    let (log, failed) = prove(8, vec![1, 2, 3], log);
    assert_eq!(failed, Err("no".to_string()));
    assert_eq!((log.proofs.len(), log.common_claims.len()), (1, 1));
    assert_eq!(log.transcript, vec!["start", "2 inputs", "3 inputs"]);
    let (log, failed) = prove(9, vec![], log);
    assert_eq!(failed, Err("no inputs".to_string()));
    assert_eq!((log.proofs.len(), log.transcript.len()), (1, 3));

    let verify = |proof: &str, log: VerifierLog<usize, usize>, node: usize| {
        context.verify(
            &proof.to_string(),
            &[4, 5],
            log,
            &Shape::new(vec![6]),
            node,
            |context: &EinSumContext, proof: &String, last: &[usize], shape: &Shape, said: usize| {
                if proof == "proof" {
                    let claims = vec![last[0], last[1], shape.dim(0)];
                    (said + 1, Ok((claims, context.constant_keys.len())))
                } else {
                    (said + 100, Err(proof.clone()))
                }
            },
        )
    };
    let (log, verified) = verify("proof", VerifierLog::new(1), 7);
    assert_eq!(verified, Ok(vec![4, 5, 6]));
    assert_eq!((log.transcript, &log.common_claims), (2, &vec![(7, 1)]));
    let (log, refused) = verify("forged", log, 9);
    assert_eq!(refused, Err("forged".to_string()));
    assert_eq!((log.transcript, log.common_claims), (102, vec![(7, 1)]));
}

#[test]
fn copies_hold_the_same() {
    let mut layer = EinSum::new(
        "A(ij)@B(jk):C(jl)->D(ik)+BIAS(k):E(il)".to_string(),
        vec![Some(handle("w", vec![3, 4])), None],
        vec![Some(handle("b", vec![4])), None],
    )
    .unwrap();
    layer.with_caches(vec![Some(0), None]).unwrap();
    let mut copy = layer.clone();
    assert_eq!(copy.equation, layer.equation);
    assert_eq!(copy.mapping, layer.mapping);
    assert_eq!(copy.constant_unpadded_shapes, layer.constant_unpadded_shapes);
    assert_eq!(copy.bias_unpadded_shapes, layer.bias_unpadded_shapes);
    let (ours, theirs) = (&copy.constant_tensors[0], &layer.constant_tensors[0]);
    assert_eq!(ours.as_ref().unwrap().tensor, theirs.as_ref().unwrap().tensor);
    assert_eq!(copy.biases[0].as_ref().unwrap().key, "b");
    assert!(copy.constant_tensors[1].is_none() && copy.biases[1].is_none());
    assert!(copy.caches[0].is_some() && copy.caches[1].is_none());
    copy.requantise = !layer.requantise;
    assert_ne!(copy.requantise, layer.requantise);

    let context = layer.to_context(false);
    let copy = context.clone();
    assert_eq!(copy.constant_keys, vec![Some("w".to_string()), None]);
    assert_eq!(copy.bias_keys, context.bias_keys);
    assert_eq!(copy.constant_unpadded_shapes, context.constant_unpadded_shapes);
    assert_eq!(copy.describe(), context.describe());
}

#[test]
fn padding_the_inputs_pads_the_outputs() {
    let mut einsum = EinSum::new(
        "A(ijk)@B(kl):C(ikm)->D(ijl):E(ijm)".to_string(),
        vec![Some(handle("w", vec![6, 9])), None],
        vec![None, None],
    )
    .unwrap();
    einsum.with_caches(vec![Some(1), None]).unwrap();
    let given = shapes(vec![vec![3, 5, 6], vec![3, 6, 1]]);
    for disabled in [false, true] {
        einsum.set_caches_disabled(disabled);
        let plain = einsum.output_shapes(&given, PaddingMode::NoPadding).unwrap();
        let padded = einsum.output_shapes(&given, PaddingMode::Padding).unwrap();
        assert_eq!(plain, shapes(vec![vec![3, 5, 9], vec![3, 5, 1]]));
        assert_eq!(padded, shapes(vec![vec![4, 8, 16], vec![4, 8, 1]]));
        let rounded: Vec<Shape> = plain.iter().map(|shape| shape.next_power_of_two()).collect();
        assert_eq!(padded, rounded);
    }
}
