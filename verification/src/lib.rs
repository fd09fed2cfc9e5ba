//! A small binary message-framing protocol.
//!
//! A packet on the wire is a fixed-size header (a magic flag, the length of the
//! body and a tag that names the kind of payload) followed by the encoded
//! payload. All integers are little-endian and of fixed width; a string is its
//! UTF-8 length as a 64-bit integer followed by its UTF-8 bytes.

pub mod codec;
pub mod packable;
pub mod packet;
pub mod task;
pub mod wire;

pub use packable::{TiPack, TiUnPack};
pub use packet::{get_header_size, PackType, Packet, PacketHeader};
pub use task::{Task, TaskResult};
