//! A history-synchronized broadcast server for a shared drawing board,
//! together with the pure drawing-board helpers that feed it.
//!
//! Clients produce fixed-size canvas snapshots; the server keeps a bounded,
//! time-ordered, persisted log of recent snapshots and fans every accepted
//! snapshot out to the clients that have completed a catch-up handshake.
//! The wire framing, the log's eviction and ordering rules, the connection
//! registry, and the handshake state machine all live here, verified; the
//! sockets, threads and files that drive them stay outside.

pub mod catchup;
pub mod codec;
pub mod log;
pub mod pen;
pub mod record;
pub mod registry;
pub mod server;
pub mod trace;
pub mod typer;

pub use codec::CONTROL_FRAME_SIZE;
pub use codec::DATA_FRAME_SIZE;
