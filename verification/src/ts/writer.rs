use crate::error::{ErrorKind, Result};
use crate::ts::packet::{ts_packet_write, TsPacket};
use vstd::prelude::*;

verus! {

/// The `WriteTsPacket` trait allows for writing TS packets to a destination.
pub trait WriteTsPacket {
    /// Writes a TS packet.
    fn write_ts_packet(&mut self, packet: &TsPacket) -> Result<()>;
}

/// TS packet writer over a byte buffer.
#[derive(Debug)]
pub struct TsPacketWriter {
    stream: Vec<u8>,
}

impl View for TsPacketWriter {
    type V = Seq<u8>;

    /// The bytes written so far, after those the writer was made with.
    closed spec fn view(&self) -> Seq<u8> {
        self.stream@
    }
}

impl TsPacketWriter {
    /// Makes a new `TsPacketWriter` instance that appends to `stream`.
    pub fn new(stream: Vec<u8>) -> (w: Self)
        ensures
            w@ == stream@,
    {
        TsPacketWriter { stream }
    }

    /// Returns a reference to the underlaying byte stream.
    pub fn stream(&self) -> (s: &Vec<u8>)
        ensures
            s@ == self@,
    {
        &self.stream
    }

    /// Converts `TsPacketWriter` into the underlaying byte stream.
    pub fn into_stream(self) -> (s: Vec<u8>)
        ensures
            s@ == self@,
    {
        self.stream
    }
}

impl WriteTsPacket for TsPacketWriter {
    /// Appends the 188 bytes of `packet`, as `ts_packet_write` says; on an error nothing is
    /// written.
    fn write_ts_packet(&mut self, packet: &TsPacket) -> (r: Result<()>)
        ensures
            match r {
                Ok(_) => {
                    &&& ts_packet_write(packet@) is Ok
                    &&& final(self)@ == old(self)@ + ts_packet_write(packet@)->Ok_0
                },
                Err(e) => {
                    &&& ts_packet_write(packet@) == Err::<Seq<u8>, ErrorKind>(e.kind)
                    &&& final(self)@ == old(self)@
                },
            },
    {
        packet.write_to(&mut self.stream)
    }
}

} // verus!
