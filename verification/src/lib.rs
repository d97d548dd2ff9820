//! Core logic of a minimal WebSocket server: handshake key derivation,
//! frame encoding and decoding, the per-connection session state machine,
//! and the job queue behind the worker pool.

pub mod codec;
pub mod handshake;
pub mod pool;
pub mod session;
pub mod text;
