//! Providers that speak the chat-completions protocol.
pub mod openai;
pub mod openai_compatible;
pub mod openrouter;
pub mod sse;
