//! A relay that carries TCP streams over WebSockets.
//!
//! A *bridge* takes TCP streams from local clients and carries each over a
//! WebSocket to an edge, through a TLS session. A *destination* takes streams
//! from the edge, over a WebSocket or raw, and carries each to a target. This
//! library holds what the two decide and compute; the program around it does
//! the reading, writing and waiting.
//!
//! - [`config`]: what a bridge is told, and what follows from it.
//! - [`chunking`]: the pieces in which the start of a stream is sent.
//! - [`relay`]: the two directions of a stream.
//! - [`rotation`]: the generations that the streams of a bridge belong to.
//! - [`retry`]: the attempts to reach the edge.
//! - [`tls`]: the TLS session to the edge.
//! - [`upgrade`]: the request for a WebSocket, and the answer to one.
//! - [`auth`]: how a destination tells its callers apart and checks raw ones.
//! - [`health`]: the health endpoint of both.
//! - [`text`]: text as sequences of characters.
pub mod auth;
pub mod chunking;
pub mod config;
pub mod health;
pub mod relay;
pub mod retry;
pub mod rotation;
pub mod text;
pub mod tls;
pub mod upgrade;
