//! The decision-making core of a QUIC endpoint.

pub mod addr;
pub mod buffer;
pub mod cid;
pub mod connections;
pub mod endpoint;
pub mod laws;
pub mod load;
pub mod recv;
pub mod size;
pub mod tables;
pub mod transport;
