use zkml::bench::{
    compare_decoded, contexts, decode_tokens, inference_path, memory_peak, num_threads, parse_model,
    plan_runs, quantisation_path, sorted, BenchError, CacheMode, Contexts, Decoded, InferencePath,
    KvCacheMode, Model, QuantisationPath, Weights,
};

#[test]
fn names_are_those_of_the_command_line() {
    assert_eq!(Model::GPT2.name(), "gpt2");
    assert_eq!(Model::Gemma3.name(), "gemma3");
    assert_eq!(Model::Llama2.name(), "llama2");
    assert_eq!(CacheMode::PreRequant.name(), "pre-requant");
    assert_eq!(CacheMode::PostRequant.name(), "post-requant");
    assert_eq!(CacheMode::default(), CacheMode::PreRequant);
    assert_eq!(KvCacheMode::from(CacheMode::PostRequant), KvCacheMode::PostRequant);
    assert_eq!(KvCacheMode::from(CacheMode::PreRequant), KvCacheMode::PreRequant);
}

#[test]
fn threads_are_bounded_by_the_cores() {
    assert_eq!(num_threads(None, 16, 8), 16);
    assert_eq!(num_threads(Some(0), 16, 8), 8);
    assert_eq!(num_threads(Some(4), 16, 8), 4);
    assert_eq!(num_threads(Some(64), 16, 8), 16);
}

#[test]
fn a_window_plans_one_run() {
    let plan = plan_runs(Some(10), 3, &vec![]);
    assert_eq!(plan.max_context, 10);
    assert_eq!(plan.runs, vec![(3, 10)]);
}

#[test]
fn a_sequence_plans_a_run_per_length() {
    let plan = plan_runs(None, 1, &vec![64, 8, 1, 8, 2]);
    assert_eq!(plan.max_context, 64);
    assert_eq!(plan.runs, vec![(0, 1), (0, 2), (6, 8), (6, 8), (62, 64)]);
    assert_eq!(sorted(&vec![3, 1, 2]), vec![1, 2, 3]);
}

#[test]
fn decoding_needs_room_behind_the_prompt() {
    assert_eq!(decode_tokens(3, 10), Ok(7));
    assert_eq!(decode_tokens(10, 10), Err(BenchError::NothingToDecode));
    assert_eq!(decode_tokens(11, 10), Err(BenchError::NothingToDecode));
}

#[test]
fn workers_do_not_cache_after_requantisation() {
    assert_eq!(
        inference_path(true, CacheMode::PostRequant),
        Err(BenchError::DistributedPostRequant)
    );
    assert_eq!(
        inference_path(true, CacheMode::PreRequant),
        Ok(InferencePath::Distributed)
    );
    assert_eq!(
        inference_path(false, CacheMode::PostRequant),
        Ok(InferencePath::WithKvCache(KvCacheMode::PostRequant))
    );
    assert_eq!(inference_path(false, CacheMode::PreRequant), Ok(InferencePath::Plain));
}

#[test]
fn loaded_parameters_are_not_saved() {
    assert_eq!(contexts(true, true), Err(BenchError::LoadAndSave));
    assert_eq!(contexts(true, false), Ok(Contexts::Load));
    assert_eq!(contexts(false, true), Ok(Contexts::GenerateAndSave));
    assert_eq!(contexts(false, false), Ok(Contexts::Generate));
}

#[test]
fn accuracy_transforms_where_it_can() {
    assert_eq!(quantisation_path(true, Model::GPT2), QuantisationPath::Transform);
    assert_eq!(quantisation_path(true, Model::Gemma3), QuantisationPath::Transform);
    assert_eq!(quantisation_path(true, Model::Llama2), QuantisationPath::Observer);
    assert_eq!(quantisation_path(false, Model::GPT2), QuantisationPath::Observer);
}

#[test]
fn weights_come_from_a_file_or_a_hub() {
    let text = |s: &str| Some(s.to_string());
    assert!(matches!(
        parse_model(Model::GPT2, text("a.gguf"), text("b")),
        Ok(Weights::Gguf(file)) if file == "a.gguf"
    ));
    assert!(matches!(
        parse_model(Model::Gemma3, text("a.gguf"), None),
        Err(BenchError::UnsupportedFormat(Model::Gemma3))
    ));
    assert!(matches!(
        parse_model(Model::Llama2, None, text("b")),
        Ok(Weights::SafeTensors(name)) if name == "b"
    ));
    assert!(matches!(parse_model(Model::GPT2, None, None), Err(BenchError::NoWeights)));
}

#[test]
fn cache_modes_are_compared_to_the_last_bit() {
    let decoded = |tokens: Vec<i64>, captures: Vec<Vec<i64>>| Decoded {
        generated_tokens: tokens,
        layer_captures: captures,
    };
    let pre = decoded(vec![1, 2], vec![vec![3], vec![4, 5]]);
    assert_eq!(
        compare_decoded(&pre, &decoded(vec![1, 2], vec![vec![3], vec![4, 5]])),
        Ok(())
    );
    assert_eq!(
        compare_decoded(&pre, &decoded(vec![1, 3], vec![vec![3], vec![4, 5]])),
        Err(BenchError::TokensDiffer)
    );
    assert_eq!(
        compare_decoded(&pre, &decoded(vec![1], vec![])),
        Err(BenchError::TokensDiffer)
    );
    assert_eq!(
        compare_decoded(&pre, &decoded(vec![1, 2], vec![vec![3], vec![4, 6]])),
        Err(BenchError::CapturesDiffer)
    );
    assert_eq!(
        compare_decoded(&pre, &decoded(vec![1, 2], vec![vec![3]])),
        Err(BenchError::CapturesDiffer)
    );
}

#[test]
fn memory_is_counted_in_mebibytes() {
    assert_eq!(memory_peak(0, 3 * 1024 * 1024 + 5), (3, true));
    assert_eq!(memory_peak(7, 7), (0, false));
}
