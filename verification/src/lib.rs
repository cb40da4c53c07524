//! Verified core of a chat-serving runtime for Qwen3-VL / Llama-style models:
//! chat message model, ChatML prompt layout with image placeholders,
//! client-side request helpers, SSE framing, KV-cache bookkeeping,
//! token generation state, vision grid planning and RKNN input checks.

pub mod chat;
pub mod text;
pub mod prompt;
pub mod vision_input;
pub mod client;
pub mod sse;
pub mod reply;
pub mod rknn;
pub mod generation;
pub mod vision;
pub mod tensor;
pub mod cache;
pub mod embeds;
pub mod dialog;
