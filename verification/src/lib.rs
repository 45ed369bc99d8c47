//! The decision core of a terminal coding agent that talks to language models.

pub mod compaction;
pub mod config;
pub mod context_windows;
pub mod estimate;
pub mod json;
pub mod llama_cpp;
pub mod llama_cpp_server;
pub mod llama_cpp_sse;
pub mod message;
pub mod number;
pub mod order;
pub mod progress_bar;
pub mod span;
pub mod status_bar;
pub mod step_slider;
pub mod streaming;
pub mod text;
