//! Verified core of a game-server toolkit: the world state the server starts
//! from, the decisions of its connection handshake, and the patcher that
//! redirects a client executable to this server.

pub mod bytes;
pub mod config;
pub mod file_order;
pub mod handshake;
pub mod pe;
pub mod pe_writer;
pub mod patch;
pub mod patch_laws;
pub mod rebuild;
pub mod reloc_laws;
pub mod world;
