# llama_recipe_manager

A desktop launcher for `llama-server`: recipes (a command line and a model)
are stored locally, checked against a policy of flags the app manages itself,
turned into a server command line and run as one child process at a time.
It also lists local and HuggingFace `.gguf` models and reports the machine's
GPUs.

## Layout

- `src/` — the library, written and proved with Verus:
  - `validate` — the flag policy for recipe commands and the field hygiene rules;
  - `db` — recipes and settings as stored, the rules of create / update /
    duplicate, settings as key/value rows, schema migrations;
  - `process` — the server command line, the output log, and the state machine
    of the one running server (start, watch, stop);
  - `paths` — Unix path components, lexical normalisation, the containment
    check for model paths, and the search path of a GUI-launched app;
  - `models` — GGUF kinds, scan paging and the scan's directory walk,
    HuggingFace listings, download names and addresses;
  - `gpu`, `server_info`, `units` — parsers of `nvidia-smi`, `rocm-smi`,
    `system_profiler` and `llama-server --version`, and memory amounts;
  - `text`, `order`, `shell` — characters, string order and sorting, and the
    word splitting of `shell-words`.
- `tests/` — unit and scenario tests of the library.
- `app/` — the Tauri application: windows and commands, the SQLite store,
  processes, the network and the GPU tools, calling the library for every
  decision.

The library is verified with Verus; the tests run with `cargo test`.
