use mpeg2ts::es::{StreamId, StreamType};
use mpeg2ts::pes::{PesHeader, PesPacketReader, ReadPesPacket};
use mpeg2ts::ts::payload;
use mpeg2ts::ts::{
    ContinuityCounter, Descriptor, EsInfo, Pid, ProgramAssociation, ReadTsPacket,
    TransportScramblingControl, TsHeader, TsPacket, TsPacketReader, TsPacketWriter, TsPayload,
    VersionNumber, WriteTsPacket,
};
use mpeg2ts::util::{WithCrc32, WriteBytesExt};

#[test]
fn pat() {
    let mut reader = TsPacketReader::new(pat_packet_bytes());
    let packet = reader.read_ts_packet().unwrap().unwrap();
    assert_eq!(packet, pat_packet());
    assert_eq!(reader.read_ts_packet().unwrap(), None);

    let mut writer = TsPacketWriter::new(Vec::new());
    writer.write_ts_packet(&packet).unwrap();

    let mut reader = TsPacketReader::new(&writer.stream()[..]);
    let packet = reader.read_ts_packet().unwrap().unwrap();
    assert_eq!(packet.header, pat_packet().header);
    assert_eq!(packet.payload, pat_packet().payload);
    assert_eq!(reader.read_ts_packet().unwrap(), None);
}

fn pat_packet_bytes() -> &'static [u8] {
    &[
        71, 64, 0, 17, 0, 0, 176, 13, 0, 0, 195, 0, 0, 0, 1, 225, 224, 232, 95, 116, 236, 255,
        255, 255, 255, 255, 255, 255, 255, 255, 255, 255, 255, 255, 255, 255, 255, 255, 255,
        255, 255, 255, 255, 255, 255, 255, 255, 255, 255, 255, 255, 255, 255, 255, 255, 255,
        255, 255, 255, 255, 255, 255, 255, 255, 255, 255, 255, 255, 255, 255, 255, 255, 255,
        255, 255, 255, 255, 255, 255, 255, 255, 255, 255, 255, 255, 255, 255, 255, 255, 255,
        255, 255, 255, 255, 255, 255, 255, 255, 255, 255, 255, 255, 255, 255, 255, 255, 255,
        255, 255, 255, 255, 255, 255, 255, 255, 255, 255, 255, 255, 255, 255, 255, 255, 255,
        255, 255, 255, 255, 255, 255, 255, 255, 255, 255, 255, 255, 255, 255, 255, 255, 255,
        255, 255, 255, 255, 255, 255, 255, 255, 255, 255, 255, 255, 255, 255, 255, 255, 255,
        255, 255, 255, 255, 255, 255, 255, 255, 255, 255, 255, 255, 255, 255, 255, 255, 255,
        255, 255, 255, 255, 255, 255, 255, 255, 255, 255, 255, 255, 255,
    ][..]
}

fn pat_packet() -> TsPacket {
    TsPacket {
        header: TsHeader {
            transport_error_indicator: false,
            transport_priority: false,
            pid: Pid::from(0),
            transport_scrambling_control: TransportScramblingControl::NotScrambled,
            continuity_counter: ContinuityCounter::from_u8(1).unwrap(),
        },
        adaptation_field: None,
        payload: Some(TsPayload::Pat(payload::Pat {
            transport_stream_id: 0,
            version_number: VersionNumber::from_u8(1).unwrap(),
            table: vec![ProgramAssociation {
                program_num: 1,
                program_map_pid: Pid::new(480).unwrap(),
            }],
        })),
    }
}

#[test]
fn pmt() {
    let mut bytes = Vec::new();
    bytes.extend(pat_packet_bytes());
    bytes.extend(pmt_packet_bytes());
    let mut reader = TsPacketReader::new(&bytes[..]);
    let mut writer = TsPacketWriter::new(Vec::new());

    let packet = reader.read_ts_packet().unwrap().unwrap();
    writer.write_ts_packet(&packet).unwrap();

    let packet = reader.read_ts_packet().unwrap().unwrap();
    assert_eq!(packet.header, pmt_packet().header);
    assert_eq!(packet.payload, pmt_packet().payload);
    writer.write_ts_packet(&packet).unwrap();

    let mut reader = TsPacketReader::new(&writer.stream()[..]);
    reader.read_ts_packet().unwrap().unwrap();
    let packet = reader.read_ts_packet().unwrap().unwrap();
    assert_eq!(packet.header, pmt_packet().header);
    assert_eq!(packet.payload, pmt_packet().payload);
    assert_eq!(reader.read_ts_packet().unwrap(), None);
}

#[test]
fn split_pmt() {
    let mut bytes = Vec::new();
    bytes.extend(pat_packet_bytes());
    bytes.extend(split_pmt_packet_bytes());
    let mut reader = TsPacketReader::new(&bytes[..]);

    let packet = reader.read_ts_packet().unwrap().unwrap();
    assert_eq!(packet.payload, pat_packet().payload);

    let packet = reader.read_ts_packet().unwrap().unwrap();
    assert!(matches!(packet.payload, Some(TsPayload::Raw(_))));

    let packet = reader.read_ts_packet().unwrap().unwrap();
    let Some(TsPayload::Pmt(pmt)) = packet.payload else {
        panic!("expected split PMT to be reassembled");
    };
    assert_eq!(pmt.program_num, 1);
    assert_eq!(pmt.pcr_pid, Some(Pid::new(258).unwrap()));
    assert_eq!(pmt.es_info.len(), 2);
    assert_eq!(pmt.es_info[0].stream_type, StreamType::AdtsAac);
    assert_eq!(pmt.es_info[0].elementary_pid, Pid::new(257).unwrap());
    assert_eq!(pmt.es_info[1].stream_type, StreamType::H264);
    assert_eq!(pmt.es_info[1].elementary_pid, Pid::new(258).unwrap());
}

fn split_pmt_packet_bytes() -> Vec<u8> {
    let section = long_pmt_section();
    assert!(section.len() > 183);

    let mut bytes = Vec::new();
    bytes.extend([0x47, 0x41, 0xE0, 0x10]);
    bytes.push(0); // pointer field
    bytes.extend(&section[..183]);

    bytes.extend([0x47, 0x01, 0xE0, 0x11]);
    bytes.extend(&section[183..]);
    bytes.resize(188 * 2, 0xFF);
    bytes
}

fn long_pmt_section() -> Vec<u8> {
    const DESCRIPTOR_DATA_LEN: usize = 160;
    let program_info_len = 2 + DESCRIPTOR_DATA_LEN;
    let table_data_len = 2 + 2 + program_info_len + 5 + 5;
    let syntax_section_len = 2 + 1 + 1 + 1 + table_data_len + 4;

    let mut writer = WithCrc32::new(Vec::new());
    writer.write_u8(0x02);
    writer.write_u16(0xB000 | syntax_section_len as u16);
    writer.write_u16(1);
    writer.write_u8(0xC1);
    writer.write_u8(0);
    writer.write_u8(0);
    writer.write_u16(0xE000 | 258);
    writer.write_u16(0xF000 | program_info_len as u16);
    writer.write_u8(5);
    writer.write_u8(DESCRIPTOR_DATA_LEN as u8);
    writer.write_all(&[0; DESCRIPTOR_DATA_LEN]);
    writer.write_u8(StreamType::AdtsAac.as_u8());
    writer.write_u16(0xE000 | 257);
    writer.write_u16(0xF000);
    writer.write_u8(StreamType::H264.as_u8());
    writer.write_u16(0xE000 | 258);
    writer.write_u16(0xF000);
    let crc32 = writer.crc32();
    let mut section = writer.into_stream();
    section.write_u32(crc32);
    section
}

fn pmt_packet_bytes() -> &'static [u8] {
    &[
        71, 65, 224, 48, 0, 0, 2, 176, 34, 0, 1, 193, 0, 0, 225, 2, 240, 6, 5, 4, 67, 85, 69,
        73, 134, 225, 3, 240, 0, 15, 225, 1, 240, 0, 27, 225, 2, 240, 0, 225, 243, 90, 60, 255,
        255, 255, 255, 255, 255, 255, 255, 255, 255, 255, 255, 255, 255, 255, 255, 255, 255,
        255, 255, 255, 255, 255, 255, 255, 255, 255, 255, 255, 255, 255, 255, 255, 255, 255,
        255, 255, 255, 255, 255, 255, 255, 255, 255, 255, 255, 255, 255, 255, 255, 255, 255,
        255, 255, 255, 255, 255, 255, 255, 255, 255, 255, 255, 255, 255, 255, 255, 255, 255,
        255, 255, 255, 255, 255, 255, 255, 255, 255, 255, 255, 255, 255, 255, 255, 255, 255,
        255, 255, 255, 255, 255, 255, 255, 255, 255, 255, 255, 255, 255, 255, 255, 255, 255,
        255, 255, 255, 255, 255, 255, 255, 255, 255, 255, 255, 255, 255, 255, 255, 255, 255,
        255, 255, 255, 255, 255, 255, 255, 255, 255, 255, 255, 255, 255, 255, 255, 255, 255,
        255, 255, 255, 255, 255, 255, 255, 255,
    ][..]
}

fn pmt_packet() -> TsPacket {
    TsPacket {
        header: TsHeader {
            transport_error_indicator: false,
            transport_priority: false,
            pid: Pid::new(480).unwrap(),
            transport_scrambling_control: TransportScramblingControl::NotScrambled,
            continuity_counter: ContinuityCounter::from_u8(0).unwrap(),
        },
        adaptation_field: None,
        payload: Some(TsPayload::Pmt(payload::Pmt {
            program_num: 1,
            pcr_pid: Some(Pid::new(258).unwrap()),
            version_number: VersionNumber::new(),
            program_info: vec![Descriptor {
                tag: 5,
                data: b"CUEI".to_vec(),
            }],
            es_info: vec![
                EsInfo {
                    stream_type: StreamType::Dts8ChannelLosslessAudio,
                    elementary_pid: Pid::new(259).unwrap(),
                    descriptors: vec![],
                },
                EsInfo {
                    stream_type: StreamType::AdtsAac,
                    elementary_pid: Pid::new(257).unwrap(),
                    descriptors: vec![],
                },
                EsInfo {
                    stream_type: StreamType::H264,
                    elementary_pid: Pid::new(258).unwrap(),
                    descriptors: vec![],
                },
            ],
        })),
    }
}

#[test]
fn pes_start_and_continuation_are_reassembled() {
    let pid = Pid::new(258).unwrap();
    let header = PesHeader {
        stream_id: StreamId::new_video(StreamId::VIDEO_MIN).unwrap(),
        priority: false,
        data_alignment_indicator: false,
        copyright: false,
        original_or_copy: false,
        pts: None,
        dts: None,
        escr: None,
    };
    let pes = payload::Pes {
        header,
        pes_packet_len: 7,
        data: payload::Bytes::new(&[1, 2]).unwrap(),
    };
    let start_packet = TsPacket {
        header: TsHeader {
            transport_error_indicator: false,
            transport_priority: false,
            pid,
            transport_scrambling_control: TransportScramblingControl::NotScrambled,
            continuity_counter: ContinuityCounter::from_u8(0).unwrap(),
        },
        adaptation_field: None,
        payload: Some(TsPayload::PesStart(pes)),
    };
    let continuation_packet = TsPacket {
        header: TsHeader {
            transport_error_indicator: false,
            transport_priority: false,
            pid,
            transport_scrambling_control: TransportScramblingControl::NotScrambled,
            continuity_counter: ContinuityCounter::from_u8(1).unwrap(),
        },
        adaptation_field: None,
        payload: Some(TsPayload::PesContinuation(
            payload::Bytes::new(&[3, 4]).unwrap(),
        )),
    };

    let mut writer = TsPacketWriter::new(Vec::new());
    writer.write_ts_packet(&pat_packet()).unwrap();
    writer.write_ts_packet(&pmt_packet()).unwrap();
    writer.write_ts_packet(&start_packet).unwrap();
    writer.write_ts_packet(&continuation_packet).unwrap();
    let stream = writer.into_stream();

    let mut reader = PesPacketReader::new(TsPacketReader::new(&stream[..]));
    let packet = reader.read_pes_packet().unwrap().unwrap();
    assert_eq!(packet.data, vec![1, 2, 3, 4]);
    assert!(reader.read_pes_packet().unwrap().is_none());
}

#[test]
fn pid17() {
    let mut reader = TsPacketReader::new(pid17_packet_bytes());
    let packet = reader.read_ts_packet().unwrap().unwrap();
    assert_eq!(packet.header.pid, Pid::from(17));
}

fn pid17_packet_bytes() -> &'static [u8] {
    &[
        71, 64, 17, 16, 0, 66, 240, 42, 0, 1, 193, 0, 0, 0, 1, 255, 0, 1, 252, 128, 25, 72, 23,
        1, 6, 70, 70, 109, 112, 101, 103, 14, 66, 105, 103, 32, 66, 117, 99, 107, 32, 66, 117,
        110, 110, 121, 182, 64, 83, 76, 255, 255, 255, 255, 255, 255, 255, 255, 255, 255, 255,
        255, 255, 255, 255, 255, 255, 255, 255, 255, 255, 255, 255, 255, 255, 255, 255, 255,
        255, 255, 255, 255, 255, 255, 255, 255, 255, 255, 255, 255, 255, 255, 255, 255, 255,
        255, 255, 255, 255, 255, 255, 255, 255, 255, 255, 255, 255, 255, 255, 255, 255, 255,
        255, 255, 255, 255, 255, 255, 255, 255, 255, 255, 255, 255, 255, 255, 255, 255, 255,
        255, 255, 255, 255, 255, 255, 255, 255, 255, 255, 255, 255, 255, 255, 255, 255, 255,
        255, 255, 255, 255, 255, 255, 255, 255, 255, 255, 255, 255, 255, 255, 255, 255, 255,
        255, 255, 255, 255, 255, 255, 255, 255, 255, 255, 255, 255, 255, 255, 255, 255, 255,
        255, 255, 255, 255, 255, 255, 255, 25,
    ][..]
}
