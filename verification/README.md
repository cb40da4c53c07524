# spm_core

The verified core of a chat-serving runtime for Qwen3-VL and Llama-style
models, with a command line client for its OpenAI-style chat API.

Everything under `src/` is checked by Verus against its contracts:

- `chat` — chat messages: roles, plain-text or multi-part content.
- `prompt` — ChatML prompt layout with image placeholder spans, assembled
  with a tokenizer's encodings.
- `vision_input` — image payloads: base64 transport, `data:` URLs, the
  images of a conversation in prompt order, decoding to RGB pixels.
- `vision` — the vision encoder's integer planning: position grid, patch
  grid, position ids, resize bounds and grid-aligned targets.
- `embeds` — splicing image embeddings into prompt embeddings and merging
  patch blocks, stated on tensor shapes and elements.
- `dialog` — the prompt of a multimodal dialog: placeholder counts from
  each image's embeddings, the encoded history, spans paired with their
  embeddings.
- `tensor` — the tensor operations the library makes, stated on shapes,
  element types and elements in row-major order.
- `cache` — rotary tables, causal masks and the per-block key/value cache.
- `generation` — which tokens each forward pass feeds, block batching,
  layer names.
- `rknn` — input checks and NCHW/NHWC layout for an NPU vision encoder.
- `client`, `sse`, `reply` — the API client's request building, the
  server-sent event stream (framing and decoding), and reply accounting.
- `text` — character-sequence helpers.

`app/` holds the program: argument parsing, HTTP and file I/O, the JSON
forms of the library's types, and the floating-point model code (layers,
vision tower, image resampling) that works around the library.

`tests/` exercises the library on concrete values.
