//! Transport stream payloads.
pub use super::null::Null;
pub use super::pat::Pat;
pub use super::pes::Pes;
pub use super::pmt::Pmt;
pub use super::section::Section;
pub use super::types::Bytes;
