//! Protocol logic of a proxy that serves a chat back end behind OpenAI and
//! Anthropic compatible interfaces.

pub mod anthropic_compat;
pub mod clock;
pub mod config;
pub mod copies;
pub mod ds_core;
pub mod encoding;
pub mod json;
pub mod openai_adapter;
pub mod server;
pub mod table;
pub mod text;
