//! Elementary stream.
pub mod stream_id;
pub mod stream_type;

pub use self::stream_id::StreamId;
pub use self::stream_type::StreamType;
