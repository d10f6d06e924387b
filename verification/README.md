# cherenkov

Local text inference for one mixture-of-experts model whose expert records stream from
disk, with a small OpenAI-style HTTP server, a control socket, and a terminal dashboard.

The library under `src/` holds what the program decides: which tokens a speculative
decoding step commits, which checkpoint of a prompt's prefix is reused, which expert records
stay resident and which are read, what each block of the model asks the device to launch,
what a request means, how a configuration is resolved, and what reports and the dashboard
show. Every item of it is verified: contracts speak of sequences, sets and integers, and the
properties that span functions are the proof functions whose names begin with `law_`.

## Layout

- `runner`, `runner/` – decoding with drafts, prefill in chunks, research dumps
- `prefix_cache`, `prefix_cache/` – checkpoints of prompts, and how a prompt is prepared
- `sampling`, `ranking`, `number` – sampling rules over floating-point bits
- `server`, `server/http` – requests, routes, responses
- `control`, `control/` – frames, replies, statistics, reloads
- `config`, `options`, `paths`, `units` – settings
- `prompt`, `json`, `text` – templates, JSON values, characters
- `qwen4_exp`, `qwen4_exp/` – the model's configuration and packed layout; under `gpu/` the
  expert pool, block service, launches, prefill plans, timing and activity counters
- `metal`, `download` – buffer rules, progress reports
- `cli_output`, `cli_output/` – reports, their layout, the dashboard's state

Calls into other crates stand behind small functions marked `external_body` (`json`,
`prompt`, `text`, `server/http`, `cli_output/report`, `cli_output/layout`); their doc
comments say what is taken on trust.

`app/` is the program around the library: arguments, sockets, terminal, floating point, and
the loops that drive the library's state machines. What it asks of the graphics device is the
trait `Backend` in `app/blocks.rs`; without a driver behind it a model cannot be loaded.
`tests/` runs the library on values.
