//! Verified core of a UDP hole-punching chat client.
//!
//! The library holds the logic of the rendezvous protocol: the registration
//! packet codec, the peer-address text format, the resolver retry state
//! machine, and the duplex-session decisions. All network and terminal I/O
//! lives outside, in the surrounding binary.

pub mod addr;
pub mod packet;
pub mod resolver;
pub mod session;
