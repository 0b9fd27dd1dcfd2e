# zkml

The verified core of a zero-knowledge machine-learning stack, written in Rust and Verus.

- `src/arith.rs`, `src/shape.rs`, `src/tensor.rs`: shapes, padding and row-major tensors.
- `src/cache.rs`: the cache that joins what a layer produces along its sequence dimension.
- `src/equation.rs`, `src/axis.rs`, `src/axis_shapes.rs`: the equations of einsum layers, how
  they are read, and the shapes that they give.
- `src/einsum.rs`, `src/einsum_context.rs`: the einsum layer and its context.
- `src/metadata.rs`, `src/driver.rs`, `src/generation.rs`: the driver of a language model and
  the loop that generates a sentence.
- `src/verification.rs`: the check that an accepted proof is about a sentence that was
  generated token by token from the user's prompt.
- `src/gpt2.rs`, `src/gpt2_parse.rs`, `src/gpt2_formats.rs`: the loader of the GPT-2 family.
- `src/bench.rs`, `src/distributed.rs`: what the benchmark decides, and proving over several
  workers.
- `src/*_laws.rs`: laws that relate several of the functions.

The engine that runs layers and the proof system are not part of the library. Where its
functions need them, they take closures, and their contracts say which calls are made, in
which order and with what, and what is returned for every outcome.

`app/` is the benchmark around the library: arguments, files, threads and measurements.
