use crate::error::{Error, ErrorKind, Result};
use vstd::prelude::*;

verus! {

/// Stream type: the kind of elementary stream that a PID of a program carries.
#[derive(Debug, Clone, Copy, PartialEq, Eq, Hash, PartialOrd, Ord)]
pub enum StreamType {
    /// ISO/IEC 11172-2 (MPEG-1) video.
    Mpeg1Video,
    /// Rec. ITU-T H.262 | ISO/IEC 13818-2 (MPEG-2) video.
    Mpeg2Video,
    /// ISO/IEC 11172-3 (MPEG-1) audio.
    Mpeg1Audio,
    /// ISO/IEC 13818-3 (MPEG-2 halved sample rate) audio.
    Mpeg2HalvedSampleRateAudio,
    /// Rec. ITU-T H.222.0 | ISO/IEC 13818-1 private sections.
    Mpeg2TabledData,
    /// Rec. ITU-T H.222.0 | ISO/IEC 13818-1 PES packets containing private data.
    Mpeg2PacketizedData,
    /// ISO/IEC 13522 MHEG.
    Mheg,
    /// Rec. ITU-T H.222.0 | ISO/IEC 13818-1 Annex A DSM-CC.
    DsmCc,
    /// Rec. ITU-T H.222.1.
    H2221,
    /// ISO/IEC 13818-6 type A (multiprotocol encapsulation).
    DsmCcMultiprotocolEncapsulation,
    /// ISO/IEC 13818-6 type B (DSM-CC U-N messages).
    DsmCcUnMessages,
    /// ISO/IEC 13818-6 type C (DSM-CC stream descriptors).
    DsmCcStreamDescriptors,
    /// ISO/IEC 13818-6 type D (DSM-CC tabled data).
    DsmCcTabledData,
    /// Rec. ITU-T H.222.0 | ISO/IEC 13818-1 auxiliary data.
    AuxiliaryData,
    /// ISO/IEC 13818-7 audio with ADTS transport syntax.
    AdtsAac,
    /// ISO/IEC 14496-2 (MPEG-4 H.263 based) video.
    Mpeg4H263BasedVideo,
    /// ISO/IEC 14496-3 audio with the LATM transport syntax.
    Mpeg4LoasMultiFormatFramedAudio,
    /// ISO/IEC 14496-1 SL-packetized or FlexMux stream in PES packets.
    Mpeg4FlexMux,
    /// ISO/IEC 14496-1 SL-packetized or FlexMux stream in sections.
    Mpeg4FlexMuxInTables,
    /// ISO/IEC 13818-6 synchronized download protocol.
    DsmCcSynchronizedDownloadProtocol,
    /// Metadata carried in PES packets.
    PacketizedMetadata,
    /// Metadata carried in metadata sections.
    SectionedMetadata,
    /// Metadata carried in an ISO/IEC 13818-6 data carousel.
    DsmCcDataCarouselMetadata,
    /// Metadata carried in an ISO/IEC 13818-6 object carousel.
    DsmCcObjectCarouselMetadata,
    /// Metadata carried in the ISO/IEC 13818-6 synchronized download protocol.
    SynchronizedDownloadProtocolMetadata,
    /// IPMP stream (ISO/IEC 13818-11).
    Mpeg2Ipmp,
    /// Rec. ITU-T H.264 | ISO/IEC 14496-10 video.
    H264,
    /// Rec. ITU-T H.265 | ISO/IEC 23008-2 video.
    H265,
    /// Chinese video standard (AVS).
    ChineseVideoStandard,
    /// IPMP stream.
    Ipmp,
    /// PCM audio (Blu-ray).
    PcmAudio,
    /// Dolby Digital (AC-3) audio, up to six channels.
    DolbyDigitalUpToSixChannelAudio,
    /// DTS audio, up to six channels.
    Dts6ChannelAudio,
    /// Dolby TrueHD lossless audio.
    DolbyTrueHdLosslessAudio,
    /// Dolby Digital Plus audio, up to sixteen channels.
    DolbyDigitalPlusUpTo16ChannelAudio,
    /// DTS-HD audio, up to eight channels.
    Dts8ChannelAudio,
    /// DTS-HD master audio (lossless), up to eight channels.
    Dts8ChannelLosslessAudio,
    /// Dolby Digital Plus (E-AC-3) audio.
    DolbyDigitalPlusAudio,
    /// Presentation graphic stream subtitles (Blu-ray).
    PresentationGraphicStreamSubtitle,
    /// Dirac video.
    DiracVideo,
    /// SMPTE VC-1 video.
    Vc1Video,
}

/// The stream type with the code `n`, if the code is known.
pub open spec fn spec_stream_type(n: u8) -> Option<StreamType> {
    match n {
        0x01 => Some(StreamType::Mpeg1Video),
        0x02 => Some(StreamType::Mpeg2Video),
        0x03 => Some(StreamType::Mpeg1Audio),
        0x04 => Some(StreamType::Mpeg2HalvedSampleRateAudio),
        0x05 => Some(StreamType::Mpeg2TabledData),
        0x06 => Some(StreamType::Mpeg2PacketizedData),
        0x07 => Some(StreamType::Mheg),
        0x08 => Some(StreamType::DsmCc),
        0x09 => Some(StreamType::H2221),
        0x0A => Some(StreamType::DsmCcMultiprotocolEncapsulation),
        0x0B => Some(StreamType::DsmCcUnMessages),
        0x0C => Some(StreamType::DsmCcStreamDescriptors),
        0x0D => Some(StreamType::DsmCcTabledData),
        0x0E => Some(StreamType::AuxiliaryData),
        0x0F => Some(StreamType::AdtsAac),
        0x10 => Some(StreamType::Mpeg4H263BasedVideo),
        0x11 => Some(StreamType::Mpeg4LoasMultiFormatFramedAudio),
        0x12 => Some(StreamType::Mpeg4FlexMux),
        0x13 => Some(StreamType::Mpeg4FlexMuxInTables),
        0x14 => Some(StreamType::DsmCcSynchronizedDownloadProtocol),
        0x15 => Some(StreamType::PacketizedMetadata),
        0x16 => Some(StreamType::SectionedMetadata),
        0x17 => Some(StreamType::DsmCcDataCarouselMetadata),
        0x18 => Some(StreamType::DsmCcObjectCarouselMetadata),
        0x19 => Some(StreamType::SynchronizedDownloadProtocolMetadata),
        0x1A => Some(StreamType::Mpeg2Ipmp),
        0x1B => Some(StreamType::H264),
        0x24 => Some(StreamType::H265),
        0x42 => Some(StreamType::ChineseVideoStandard),
        0x7F => Some(StreamType::Ipmp),
        0x80 => Some(StreamType::PcmAudio),
        0x81 => Some(StreamType::DolbyDigitalUpToSixChannelAudio),
        0x82 => Some(StreamType::Dts6ChannelAudio),
        0x83 => Some(StreamType::DolbyTrueHdLosslessAudio),
        0x84 => Some(StreamType::DolbyDigitalPlusUpTo16ChannelAudio),
        0x85 => Some(StreamType::Dts8ChannelAudio),
        0x86 => Some(StreamType::Dts8ChannelLosslessAudio),
        0x87 => Some(StreamType::DolbyDigitalPlusAudio),
        0x90 => Some(StreamType::PresentationGraphicStreamSubtitle),
        0xD1 => Some(StreamType::DiracVideo),
        0xEA => Some(StreamType::Vc1Video),
        _ => None,
    }
}

/// The code of a stream type.
pub open spec fn stream_type_code(t: StreamType) -> u8 {
    match t {
        StreamType::Mpeg1Video => 0x01,
        StreamType::Mpeg2Video => 0x02,
        StreamType::Mpeg1Audio => 0x03,
        StreamType::Mpeg2HalvedSampleRateAudio => 0x04,
        StreamType::Mpeg2TabledData => 0x05,
        StreamType::Mpeg2PacketizedData => 0x06,
        StreamType::Mheg => 0x07,
        StreamType::DsmCc => 0x08,
        StreamType::H2221 => 0x09,
        StreamType::DsmCcMultiprotocolEncapsulation => 0x0A,
        StreamType::DsmCcUnMessages => 0x0B,
        StreamType::DsmCcStreamDescriptors => 0x0C,
        StreamType::DsmCcTabledData => 0x0D,
        StreamType::AuxiliaryData => 0x0E,
        StreamType::AdtsAac => 0x0F,
        StreamType::Mpeg4H263BasedVideo => 0x10,
        StreamType::Mpeg4LoasMultiFormatFramedAudio => 0x11,
        StreamType::Mpeg4FlexMux => 0x12,
        StreamType::Mpeg4FlexMuxInTables => 0x13,
        StreamType::DsmCcSynchronizedDownloadProtocol => 0x14,
        StreamType::PacketizedMetadata => 0x15,
        StreamType::SectionedMetadata => 0x16,
        StreamType::DsmCcDataCarouselMetadata => 0x17,
        StreamType::DsmCcObjectCarouselMetadata => 0x18,
        StreamType::SynchronizedDownloadProtocolMetadata => 0x19,
        StreamType::Mpeg2Ipmp => 0x1A,
        StreamType::H264 => 0x1B,
        StreamType::H265 => 0x24,
        StreamType::ChineseVideoStandard => 0x42,
        StreamType::Ipmp => 0x7F,
        StreamType::PcmAudio => 0x80,
        StreamType::DolbyDigitalUpToSixChannelAudio => 0x81,
        StreamType::Dts6ChannelAudio => 0x82,
        StreamType::DolbyTrueHdLosslessAudio => 0x83,
        StreamType::DolbyDigitalPlusUpTo16ChannelAudio => 0x84,
        StreamType::Dts8ChannelAudio => 0x85,
        StreamType::Dts8ChannelLosslessAudio => 0x86,
        StreamType::DolbyDigitalPlusAudio => 0x87,
        StreamType::PresentationGraphicStreamSubtitle => 0x90,
        StreamType::DiracVideo => 0xD1,
        StreamType::Vc1Video => 0xEA,
    }
}

/// The code of a stream type converts back into the same stream type.
pub proof fn lemma_stream_type_code_roundtrip(t: StreamType)
    ensures
        spec_stream_type(stream_type_code(t)) == Some(t),
{
}

impl StreamType {
    /// Converts a stream type code into a `StreamType`.
    ///
    /// # Errors
    ///
    /// If the code is not a known stream type, it will return an `ErrorKind::InvalidInput` error.
    pub fn from_u8(n: u8) -> (r: Result<StreamType>)
        ensures
            match r {
                Ok(t) => spec_stream_type(n) == Some(t),
                Err(e) => spec_stream_type(n).is_none() && e.kind == ErrorKind::InvalidInput,
            },
    {
        match n {
            0x01 => Ok(StreamType::Mpeg1Video),
            0x02 => Ok(StreamType::Mpeg2Video),
            0x03 => Ok(StreamType::Mpeg1Audio),
            0x04 => Ok(StreamType::Mpeg2HalvedSampleRateAudio),
            0x05 => Ok(StreamType::Mpeg2TabledData),
            0x06 => Ok(StreamType::Mpeg2PacketizedData),
            0x07 => Ok(StreamType::Mheg),
            0x08 => Ok(StreamType::DsmCc),
            0x09 => Ok(StreamType::H2221),
            0x0A => Ok(StreamType::DsmCcMultiprotocolEncapsulation),
            0x0B => Ok(StreamType::DsmCcUnMessages),
            0x0C => Ok(StreamType::DsmCcStreamDescriptors),
            0x0D => Ok(StreamType::DsmCcTabledData),
            0x0E => Ok(StreamType::AuxiliaryData),
            0x0F => Ok(StreamType::AdtsAac),
            0x10 => Ok(StreamType::Mpeg4H263BasedVideo),
            0x11 => Ok(StreamType::Mpeg4LoasMultiFormatFramedAudio),
            0x12 => Ok(StreamType::Mpeg4FlexMux),
            0x13 => Ok(StreamType::Mpeg4FlexMuxInTables),
            0x14 => Ok(StreamType::DsmCcSynchronizedDownloadProtocol),
            0x15 => Ok(StreamType::PacketizedMetadata),
            0x16 => Ok(StreamType::SectionedMetadata),
            0x17 => Ok(StreamType::DsmCcDataCarouselMetadata),
            0x18 => Ok(StreamType::DsmCcObjectCarouselMetadata),
            0x19 => Ok(StreamType::SynchronizedDownloadProtocolMetadata),
            0x1A => Ok(StreamType::Mpeg2Ipmp),
            0x1B => Ok(StreamType::H264),
            0x24 => Ok(StreamType::H265),
            0x42 => Ok(StreamType::ChineseVideoStandard),
            0x7F => Ok(StreamType::Ipmp),
            0x80 => Ok(StreamType::PcmAudio),
            0x81 => Ok(StreamType::DolbyDigitalUpToSixChannelAudio),
            0x82 => Ok(StreamType::Dts6ChannelAudio),
            0x83 => Ok(StreamType::DolbyTrueHdLosslessAudio),
            0x84 => Ok(StreamType::DolbyDigitalPlusUpTo16ChannelAudio),
            0x85 => Ok(StreamType::Dts8ChannelAudio),
            0x86 => Ok(StreamType::Dts8ChannelLosslessAudio),
            0x87 => Ok(StreamType::DolbyDigitalPlusAudio),
            0x90 => Ok(StreamType::PresentationGraphicStreamSubtitle),
            0xD1 => Ok(StreamType::DiracVideo),
            0xEA => Ok(StreamType::Vc1Video),
            _ => Err(Error::invalid_input("Unknown stream type")),
        }
    }

    /// Returns the code of the stream type.
    pub fn as_u8(&self) -> (n: u8)
        ensures
            n == stream_type_code(*self),
    {
        match self {
            StreamType::Mpeg1Video => 0x01,
            StreamType::Mpeg2Video => 0x02,
            StreamType::Mpeg1Audio => 0x03,
            StreamType::Mpeg2HalvedSampleRateAudio => 0x04,
            StreamType::Mpeg2TabledData => 0x05,
            StreamType::Mpeg2PacketizedData => 0x06,
            StreamType::Mheg => 0x07,
            StreamType::DsmCc => 0x08,
            StreamType::H2221 => 0x09,
            StreamType::DsmCcMultiprotocolEncapsulation => 0x0A,
            StreamType::DsmCcUnMessages => 0x0B,
            StreamType::DsmCcStreamDescriptors => 0x0C,
            StreamType::DsmCcTabledData => 0x0D,
            StreamType::AuxiliaryData => 0x0E,
            StreamType::AdtsAac => 0x0F,
            StreamType::Mpeg4H263BasedVideo => 0x10,
            StreamType::Mpeg4LoasMultiFormatFramedAudio => 0x11,
            StreamType::Mpeg4FlexMux => 0x12,
            StreamType::Mpeg4FlexMuxInTables => 0x13,
            StreamType::DsmCcSynchronizedDownloadProtocol => 0x14,
            StreamType::PacketizedMetadata => 0x15,
            StreamType::SectionedMetadata => 0x16,
            StreamType::DsmCcDataCarouselMetadata => 0x17,
            StreamType::DsmCcObjectCarouselMetadata => 0x18,
            StreamType::SynchronizedDownloadProtocolMetadata => 0x19,
            StreamType::Mpeg2Ipmp => 0x1A,
            StreamType::H264 => 0x1B,
            StreamType::H265 => 0x24,
            StreamType::ChineseVideoStandard => 0x42,
            StreamType::Ipmp => 0x7F,
            StreamType::PcmAudio => 0x80,
            StreamType::DolbyDigitalUpToSixChannelAudio => 0x81,
            StreamType::Dts6ChannelAudio => 0x82,
            StreamType::DolbyTrueHdLosslessAudio => 0x83,
            StreamType::DolbyDigitalPlusUpTo16ChannelAudio => 0x84,
            StreamType::Dts8ChannelAudio => 0x85,
            StreamType::Dts8ChannelLosslessAudio => 0x86,
            StreamType::DolbyDigitalPlusAudio => 0x87,
            StreamType::PresentationGraphicStreamSubtitle => 0x90,
            StreamType::DiracVideo => 0xD1,
            StreamType::Vc1Video => 0xEA,
        }
    }
}

} // verus!
