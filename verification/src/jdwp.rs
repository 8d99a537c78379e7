//! The wire protocol: value codec, packet framing and the command/reply model.

pub mod bytes;
pub mod capabilities;
pub mod codec;
pub mod error;
pub mod packet;
pub mod protocol;

pub use capabilities::Capabilities;
pub use codec::{Deserializer, IDSizes, Serializer};
pub use error::Error;
pub use packet::{Header, Packet, PacketView};
pub use protocol::{Command, Reply, ReplyView};
