//! The verified core of the BearTV closed-captioning service: the TCP control
//! protocol, the caption datagrams, the server's per-connection session state
//! machine with its subscription table, and the client's decisions.

pub mod caption;
pub mod cli;
pub mod client;
pub mod protocol;
pub mod session;
