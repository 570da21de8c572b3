//! Tool definitions, and their form for each provider.

pub mod anthropic_tools;
pub mod flatten_laws;
pub mod laws;
pub mod nemotron_tools;
pub mod spec;
