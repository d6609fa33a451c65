//! Core logic of a local proxy that exposes a pool of chat models behind
//! OpenAI-style endpoints: the JSON documents it rewrites, the model pool
//! with priorities and fail-over order, the in-memory log, the session
//! table and the conversion of chat completions into Responses API events.
pub mod clock;
pub mod json;
pub mod log;
pub mod model_pool;
pub mod pool_laws;
pub mod responses;
pub mod seqs;
pub mod server;
pub mod text;
pub mod zen;
