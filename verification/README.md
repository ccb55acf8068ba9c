# siglip

The text tower of SigLIP, an embedding model, computed with `candle` on the CPU
and verified with Verus.

A batch of token sequences is padded to the number of positions the model was
trained on, with the token its tokenizer pads with. The padded batch is embedded
and run through a transformer encoder without an attention mask. Pooled
embeddings are read out at the final position and projected by the head; raw
embeddings are the hidden states of the real tokens.

## Layout

- `src/array.rs`: a mathematical model of tensors, and their sizes.
- `src/outcome.rs`: what floating-point operations can come to, row by row and
  element by element.
- `src/tensor.rs`: the operations of `candle` that the model uses. What is said
  of them is believed, not proved.
- `src/weights.rs`: named weights, and the builder that hands them out.
- `src/config.rs`, `src/tokenizer.rs`: the configuration, and which token pads.
- `src/batch.rs`: batches, how they are padded, and which rows are read out.
- `src/layers.rs`, `src/attention.rs`, `src/mlp.rs`, `src/encoder.rs`,
  `src/embeddings.rs`, `src/model.rs`: the parts of the model, and the model.
- `src/regroup.rs`, `src/masking.rs`, `src/laws.rs`: what holds when texts and
  positions are picked out or put in another order, what masks do, and what that
  means for a model's answers.
- `app/`: a backend that reads a model directory.

What matrix products, norms, softmax and the other functions of real numbers
compute rests on the machine. The contracts say which operation is applied to
what, in which order, on which dimensions; of rounding they say only that sums,
the conversion of weights and, in single precision, scalings come to the same
numbers wherever they are computed.
