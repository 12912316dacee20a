//! MPEG-2 transport stream and PES packet reading and writing, with
//! machine-checked contracts over the byte formats.
pub mod error;
pub mod es;
pub mod pes;
pub mod ts;

pub use crate::error::{Error, ErrorKind, Result};
pub mod crc;
pub mod time;
pub mod util;
