//! The logic of a packet vacuum: it decides what a captured message is called,
//! what is kept of a stream, what is answered and what is written down. Sockets,
//! files and the clock belong to the program around it.
pub mod bytes;
pub mod catalogue;
pub mod classify;
pub mod config;
pub mod dns;
pub mod encoding;
pub mod endpoint;
pub mod hexdump;
pub mod listener;
pub mod log;
pub mod order;
pub mod origdst;
pub mod profile;
pub mod queries;
pub mod sockopt;
pub mod startup;
pub mod stream;
pub mod text;
pub mod transparent;
pub mod ts;
