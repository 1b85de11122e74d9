//! A coding agent that works with a language model behind an OpenAI-compatible server.
//!
//! The library decides; the program around it reads, writes, runs and sends.
pub mod agent;
pub mod context;
pub mod json;
pub mod listing;
pub mod llm_client;
pub mod paths;
pub mod repl;
pub mod rounds;
pub mod schema;
pub mod skills;
pub mod text;
pub mod todo_manager;
pub mod tool_call_stream;
pub mod tools;
