//! Byte-stream packet framing for a fixed-header serial protocol, together
//! with the decisions of the serial transport that carries it.

pub mod display;
pub mod protocol;
pub mod settings;
pub mod stream;
pub mod transport;
