# buck2

The core logic of a build system as a verified library: what a daemon, its materializer, its
analysis and its command line decide, with every decision stated in a contract and proved with
Verus.

`src/` is the library. Work that only the outside can do (files, processes, the network, waiting) is
not in it: where such work and decisions alternate, a function takes a stage and what the work came
to, and gives the next stage and the next thing to do.

- `paths`, `file_tree`, `artifact`, `deferred`, `processor`, `commands`, `contents`, `run_loop`,
  `materializer_loop`, `accessor`: a materializer that puts artifacts on disk when they are needed.
- `labels`, `configured`, `configured_deps`, `configured_node`, `configured_flow`, `configured_forward`,
  `toolchains`:
  targets in a configuration and their dependencies.
- `action_key`, `analysis`, `anon_targets`, `anon_analysis`, `artifact_groups`, `lambda_params`,
  `platform_info`, `validation_spec`, `bxl_result`, `keep_going`, `materialize`, `late_bindings`:
  analysis and its results.
- `dice_ctx`: the contexts in which keys are computed.
- `server`, `server_flow`, `targets_command`, `proto_times`: the daemon.
- `immediate_config`, `config_path`, `stdio`, `system_warning`, `ttl`, `win_utils`: the client.
- `explain`, `explain_fbs`, `fbs_builder`: a description of targets in the FlatBuffers format.
- `load_module`, `source_attr`, `starlark_profiler`: the interpreter.
- `error`: errors with context.
- `develop`, `rust_project`, `build_info`: describing Rust targets to rust-analyzer.
- `text`: strings.

Functions whose names begin with `law_` state what holds across several functions. Functions and
types marked `external_body` are the boundary to other crates; what they claim is believed, and
stands in the comment above each.

`app/` is the program around the library, and `tests/` runs the library.
