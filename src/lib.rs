//! A Mumble voice server's core: the voice wire format, the voice channel's
//! encryption with its replay window, and the server state that routes voice
//! between clients, with the decisions of its control, UDP and cleanup loops.
pub mod clean;
pub mod codec;
pub mod crypt;
pub mod error;
pub mod handler;
pub mod http;
pub mod proto;
pub mod state;
pub mod udp;
pub mod varint;
pub mod voice;
