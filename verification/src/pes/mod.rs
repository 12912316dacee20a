//! Packetized elementary stream.
pub mod packet;
pub mod reader;

pub use self::packet::{PesHeader, PesPacket};
pub use self::reader::{PesPacketReader, ReadPesPacket};
