//! The verified core of a zero-knowledge machine-learning stack: tensor shapes and
//! concatenation caches, the einsum layer, the driver of the autoregressive loop of a
//! language model, and the planning behind its benchmark.

pub mod arith;
pub mod axis;
pub mod axis_shapes;
pub mod bench;
pub mod bench_laws;
pub mod cache;
pub mod cache_laws;
pub mod distributed;
pub mod distributed_laws;
pub mod driver;
pub mod driver_laws;
pub mod einsum;
pub mod einsum_context;
pub mod einsum_input_laws;
pub mod einsum_laws;
pub mod einsum_layer_laws;
pub mod einsum_proof_laws;
pub mod equation;
pub mod equation_laws;
pub mod generation;
pub mod generation_laws;
pub mod gpt2;
pub mod gpt2_formats;
pub mod gpt2_laws;
pub mod gpt2_loading_laws;
pub mod gpt2_parse;
pub mod metadata;
pub mod session_laws;
pub mod shape;
pub mod shape_laws;
pub mod tensor;
pub mod tensor_laws;
pub mod verification;
pub mod verification_laws;
