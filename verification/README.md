# sentence_gpt_rs_mlx

A small character-level GPT trainer for simple story sentences. The library
under `src/` is written in Verus: every function carries a contract, and the
laws of the library are proof functions that Verus checks.

## Library (`src/`)

- `stories` — splitting stories into sentences, filtering and deduplicating
  them, grouping them by story, and the story-level train/validation split.
- `text` — document normalization (lowercase letters and single spaces).
- `random` — Fisher–Yates shuffling over a seeded ChaCha8 generator.
- `model` — the Transformer shape, the checkpoint layout of its parameter
  tensors, the parameter count, and the character tokenizer.
- `batching` — SplitMix64, reproducible indices and the token windows of a
  training batch.
- `session` — preparing the documents and vocabulary of a session, validation
  batches, and the decisions that end a chunk of training.
- `parameters` — the nested model parameters over any element type, their
  one flat order, rebuilding a model from flat values, the checkpoint
  tensors of a model and the save-and-restore round trip.
- `checkpoint` — checkpoint file framing, tensor checks, flattening, the
  legacy layout upgrade and restoring a saved training state.
- `sampling` — the prefix a generated sample starts with.
- `browser` — pages of documents and the document search with its ranking.
- `display`, `format` — labels and numbers shown to the user.
- `controls` — the commands of the terminal keys.
- `config` — backends and run configurations.

## Terminal program (`app/`)

The floating-point model (scalar autodiff, the forward pass, AdamW, sampling),
file and terminal I/O, and the serializable copies of the library's types.
It calls the library for everything the library covers.

## Tests (`tests/`)

Concrete scenarios for each module, run against the compiled library.
