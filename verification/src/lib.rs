//! A small chat-turn library for a generative-language HTTP API.
//!
//! The library owns the logic of one chat turn: building the outbound
//! request from the conversation history, framing it as JSON bytes, and
//! classifying the raw response (or the failure that stood in its place)
//! into exactly one outcome value for the caller to render.

pub mod classify;
pub mod gemini;
pub mod json;
pub mod request;
