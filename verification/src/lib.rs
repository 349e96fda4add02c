//! Agent runtime logic with machine-checked contracts.

pub mod acp_schema;
pub mod agent;
pub mod apps;
pub mod code_execution;
pub mod conversation;
pub mod dispatch;
pub mod declarative_providers;
pub mod discovery;
pub mod doctor;
pub mod download_manager;
pub mod env;
pub mod extension_manager;
pub mod extensions;
pub mod hooks;
pub mod http_client;
pub mod image;
pub mod json;
pub mod mcp_servers;
pub mod orchestrator;
pub mod paths;
pub mod patterns;
pub mod permission;
pub mod providers;
pub mod recipe;
pub mod reply;
pub mod reply_loop;
pub mod reply_machine;
pub mod reply_parts;
pub mod schedule;
pub mod seqs;
pub mod signup_nanogpt;
pub mod summarize;
pub mod text;
pub mod times;
pub mod tls;
pub mod tool_args;
pub mod tools;
