# nexus

A verified core for running language models: reading and writing GGUF files, reading
safetensors headers, tokenizers and chat templates, quantized weight blocks, key-value
caches, memory pools, request scheduling, and the bookkeeping of generation.

The library in `src/` is written in Verus. Every function there states what it returns,
and the statements are proved. Floating-point numbers are held by their bits or as exact
integers; arithmetic on them, files and the network are the business of the program in
`app/`.

## Layout

- `src/gguf` reads GGUF files: from bytes in memory, and as a stream.
- `src/mlx` reads safetensors headers and payloads.
- `src/convert` writes GGUF files; its laws say that what is written is read back.
- `src/quant` has formats, packed codes, weight blocks and codebooks.
- `src/tokenizer` encodes and decodes text and renders chats.
- `src/engine` has caches, sampling order, routing, generation and what is loaded of a model.
- `src/scheduler` batches requests and hands out cache pages.
- `src/memory` accounts for memory by region.
- `src/server` makes prompts of requests and answers of outputs.
- `src/backend`, `src/cli.rs` and `src/download.rs` decide what the command line asks for.
- `src/text.rs`, `src/bytes.rs`, `src/names.rs`, `src/order.rs` and `src/json.rs` are what
  the others build on.
- `app/` is the `nexus` command.

Functions from outside that the library calls are declared where they are used:
`num_cpus::get`, `serde_json::from_slice` with `serde_json::Value`, and a few of the
standard library's text functions.
