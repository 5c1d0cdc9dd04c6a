//! Streaming chat completions from an OpenAI-compatible gateway: the wire
//! frames, their decoding into events, and the per-stream state machine.
pub mod chatml;
pub mod frames;
pub mod local;
pub mod sse;
pub mod stream;
