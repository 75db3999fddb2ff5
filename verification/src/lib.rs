//! A userspace TCP/IPv4 stack: reading and writing IPv4 and TCP headers, the
//! per-connection TCP state machine, and the table that hands each TCP segment
//! arriving on a TUN device to its connection.
pub mod demux;
pub mod ipv4;
pub mod tcp;
pub mod tcp_header;
pub mod tcp_laws;
pub mod wire;
