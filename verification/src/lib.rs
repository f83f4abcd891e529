//! The core logic of a build system: its materializer, its analysis, its daemon and its client.
//!
//! Nothing here waits, reads or writes. Where decisions alternate with work of that kind, a function
//! takes a stage and what the work came to, and gives the next stage and the next thing to do.

pub mod accessor;
pub mod action_key;
pub mod analysis;
pub mod anon_analysis;
pub mod anon_targets;
pub mod artifact;
pub mod artifact_groups;
pub mod build_info;
pub mod bxl_result;
pub mod commands;
pub mod config_path;
pub mod configured;
pub mod configured_deps;
pub mod configured_flow;
pub mod configured_forward;
pub mod configured_node;
pub mod contents;
pub mod deferred;
pub mod develop;
pub mod dice_ctx;
pub mod error;
pub mod explain;
pub mod explain_fbs;
pub mod fbs_builder;
pub mod file_tree;
pub mod immediate_config;
pub mod keep_going;
pub mod labels;
pub mod lambda_params;
pub mod late_bindings;
pub mod load_module;
pub mod materialize;
pub mod materializer_loop;
pub mod paths;
pub mod platform_info;
pub mod processor;
pub mod proto_times;
pub mod run_loop;
pub mod rust_project;
pub mod server;
pub mod server_flow;
pub mod source_attr;
pub mod starlark_profiler;
pub mod stdio;
pub mod system_warning;
pub mod targets_command;
pub mod text;
pub mod toolchains;
pub mod ttl;
pub mod validation_spec;
pub mod win_utils;
