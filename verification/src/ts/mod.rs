//! Transport stream.
//!
//! # References
//!
//! - [MPEG transport stream](https://en.wikipedia.org/wiki/MPEG_transport_stream)
pub mod adaptation_field;
pub mod null;
pub mod packet;
pub mod pat;
pub mod pes;
pub mod pmt;
pub mod psi;
pub mod reader;
pub mod section;
pub mod types;
pub mod writer;

pub use self::adaptation_field::{AdaptationExtensionField, AdaptationField};
pub use self::packet::{TsHeader, TsPacket, TsPayload};
pub use self::pat::ProgramAssociation;
pub use self::pmt::{Descriptor, EsInfo};
pub use self::adaptation_field::{LegalTimeWindow, PiecewiseRate, SeamlessSplice};
pub use self::reader::{ReadTsPacket, TsPacketReader};
pub use self::types::{ContinuityCounter, Pid, TransportScramblingControl, VersionNumber};
pub use self::writer::{TsPacketWriter, WriteTsPacket};

/// Transport stream payloads.
pub mod payload;
