//! The core of a multi-player block-world game server speaking the
//! classic protocol: the wire codec with its 64-byte Code Page 437
//! string form, the chat wrapper, the voxel world with its placement
//! policy and gzip persistence, the shared server state with its
//! client table, broadcasts and operator commands, and the
//! per-connection handshake and dispatch decisions. The sockets, the
//! clock, the files and the floating-point terrain noise live with the
//! embedding program.

pub mod block;
pub mod chat;
pub mod client;
pub mod codec;
pub mod command;
pub mod config;
pub mod level;
pub mod packet;
pub mod server;
pub mod session;
pub mod strutil;
pub mod userdata;
