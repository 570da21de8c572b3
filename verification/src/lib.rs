//! The conversation of an agent in the wire formats of two streaming model providers: the
//! Anthropic Messages API, and Nemotron on vLLM's Chat Completions API.

pub mod anthropic;
pub mod anthropic_event_laws;
pub mod anthropic_laws;
pub mod anthropic_request_laws;
pub mod anthropic_stream;
pub mod anthropic_stream_laws;
pub mod anthropic_types;
pub mod conversation;
pub mod conversation_laws;
pub mod error;
pub mod json;
pub mod models;
pub mod nemotron;
pub mod nemotron_event_laws;
pub mod nemotron_laws;
pub mod nemotron_stream;
pub mod nemotron_stream_laws;
pub mod nemotron_types;
pub mod retry;
pub mod retry_laws;
pub mod sent;
pub mod sent_laws;
pub mod text;
pub mod text_laws;
pub mod think;
pub mod think_laws;
pub mod tools;
