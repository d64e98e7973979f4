# llmpager

Mixture-of-experts inference on one GPU, with the experts paged from disk: a
resident core stays in VRAM, the experts of each layer are fetched on demand into
a small VRAM cache, and an optional host-RAM tier stands between the two.

`src/` is the library, verified with Verus: file formats, caches, pagers, session
and model bookkeeping, launch plans and the HTTP surface as plain functions with
contracts. `app/` is the program around it: the CUDA driver, files, threads, HTTP
and floating-point arithmetic. `tests/` runs the library.

## Layout of `src/`

| Modules | What they hold |
|---|---|
| `cache`, `history`, `pager`, `profile`, `tier`, `ring`, `metrics` | the aged-LFU expert cache and runs of calls on it, the state of the async pager, fetch counts for pre-warming, the host-RAM tier, deferred release, counters |
| `pack`, `pack_file`, `quant`, `blob` | the `.llmpk` expert pack and the file that its writer makes, 4-bit regions and half floats, expert blobs |
| `st`, `checkpoint`, `names`, `convert`, `core_file` | safetensors headers, sharded checkpoints, the split of a checkpoint into experts and core, the core file |
| `gguf`, `shards` | GGUF headers, and models of several shards |
| `launch`, `model`, `decode`, `kimi`, `buffers`, `load`, `config`, `any`, `apart` | kernel launches, the launch plans of both engines, buffer sizes, core loading, model configs, and caches that share no memory |
| `steps`, `acts`, `program`, `dispatch`, `runnable` | steps as waves of experts, as acts and as programs; what each act launches |
| `lossless`, `resizing`, `parking`, `moving` | what waves, a cache resize and parked contexts keep |
| `rank`, `sample`, `drawing`, `repeatable`, `rng` | ranking, and sampling in steps that a seed repeats |
| `generate`, `tokens`, `codec` | token streams and batches, text to tokens and back, and which tokenizers take any text |
| `session`, `residency`, `registry`, `api`, `responses` | session contexts and who is resident, warm models, requests and responses |
| `json`, `text`, `order`, `table`, `bytes`, `flags` | documents, text, sorted tables, byte order, command-line flags |

Public proof functions named `law_...` state what holds across functions: that a
read gives back what a write wrote, that pinned experts are not evicted, that
every chosen expert is fetched once and served, that a session never claims
context its slot does not hold.

Floating-point numbers travel through the library as their bits: it compares
them, and leaves arithmetic on them to `app/`.

## Trusted items

The contracts of these are not proved: `serde_json` parsing, printing and values
(`json`), `String::from_utf8_lossy` (`gguf`), `String::push` (`text`), and the
`tokenizers` crate's encoding and decoding, with the descriptions of a tokenizer's
parts that say whether they may be called (`tokens`). Each says in its doc comment
what it claims. `tokenizers` is built with `fancy-regex`: its matches end where a
regex gives up, where `onig` panics.
