use mpeg2ts::crc::Crc32;
use mpeg2ts::es::{StreamId, StreamType};
use mpeg2ts::pes::{PesHeader, PesPacketReader, ReadPesPacket};
use mpeg2ts::time::{ClockReference, Timestamp};
use mpeg2ts::ts::payload;
use mpeg2ts::ts::psi::{Psi, PsiTable, PsiTableHeader, PsiTableSyntax};
use mpeg2ts::ts::{
    AdaptationExtensionField, AdaptationField, ContinuityCounter, LegalTimeWindow, Pid,
    PiecewiseRate, ProgramAssociation, ReadTsPacket, SeamlessSplice, TransportScramblingControl,
    TsHeader, TsPacket, TsPacketReader, TsPacketWriter, TsPayload, VersionNumber, WriteTsPacket,
};
use mpeg2ts::util::{consume_stuffing_bytes, WithCrc32};
use mpeg2ts::ErrorKind;

fn header(pid: u16, counter: u8) -> TsHeader {
    TsHeader {
        transport_error_indicator: false,
        transport_priority: false,
        pid: Pid::new(pid).unwrap(),
        transport_scrambling_control: TransportScramblingControl::NotScrambled,
        continuity_counter: ContinuityCounter::from_u8(counter).unwrap(),
    }
}

fn pat_packet(pmt_pid: u16) -> TsPacket {
    TsPacket {
        header: header(0, 0),
        adaptation_field: None,
        payload: Some(TsPayload::Pat(payload::Pat {
            transport_stream_id: 1,
            version_number: VersionNumber::new(),
            table: vec![ProgramAssociation {
                program_num: 1,
                program_map_pid: Pid::new(pmt_pid).unwrap(),
            }],
        })),
    }
}

fn pmt_packet(pmt_pid: u16, es_pid: u16) -> TsPacket {
    TsPacket {
        header: header(pmt_pid, 0),
        adaptation_field: None,
        payload: Some(TsPayload::Pmt(payload::Pmt {
            program_num: 1,
            pcr_pid: Some(Pid::new(es_pid).unwrap()),
            version_number: VersionNumber::new(),
            program_info: vec![],
            es_info: vec![mpeg2ts::ts::EsInfo {
                stream_type: StreamType::H264,
                elementary_pid: Pid::new(es_pid).unwrap(),
                descriptors: vec![],
            }],
        })),
    }
}

fn video_header() -> PesHeader {
    PesHeader {
        stream_id: StreamId::new_video(StreamId::VIDEO_MIN).unwrap(),
        priority: false,
        data_alignment_indicator: false,
        copyright: false,
        original_or_copy: false,
        pts: None,
        dts: None,
        escr: None,
    }
}

fn write_all(packets: &[TsPacket]) -> Vec<u8> {
    let mut writer = TsPacketWriter::new(Vec::new());
    for p in packets {
        writer.write_ts_packet(p).unwrap();
    }
    writer.into_stream()
}

#[test]
fn written_packets_are_188_bytes_long() {
    let packets = [
        pat_packet(480),
        pmt_packet(480, 258),
        TsPacket {
            header: header(0x1FFF, 3),
            adaptation_field: None,
            payload: Some(TsPayload::Null(payload::Null)),
        },
        TsPacket {
            header: header(100, 4),
            adaptation_field: None,
            payload: Some(TsPayload::Raw(payload::Bytes::new(&[0xAB; 184]).unwrap())),
        },
    ];
    for p in &packets {
        let mut writer = TsPacketWriter::new(Vec::new());
        writer.write_ts_packet(p).unwrap();
        assert_eq!(writer.stream().len(), TsPacket::SIZE);
        assert_eq!(writer.stream()[0], TsPacket::SYNC_BYTE);
    }
}

#[test]
fn header_fields_read_back() {
    let packet = TsPacket {
        header: TsHeader {
            transport_error_indicator: true,
            transport_priority: true,
            pid: Pid::new(0x1234).unwrap(),
            transport_scrambling_control: TransportScramblingControl::ScrambledWithOddKey,
            continuity_counter: ContinuityCounter::from_u8(15).unwrap(),
        },
        adaptation_field: None,
        payload: Some(TsPayload::Raw(payload::Bytes::new(&[1, 2, 3]).unwrap())),
    };
    let bytes = write_all(&[packet.clone()]);
    assert_eq!(&bytes[..4], &[0x47, 0xB2, 0x34, 0xFF]);
    let mut reader = TsPacketReader::new(&bytes);
    let read = reader.read_ts_packet().unwrap().unwrap();
    assert_eq!(read.header, packet.header);
    assert_eq!(read.payload, packet.payload);
}

#[test]
fn adaptation_field_reads_back() {
    let af = AdaptationField {
        discontinuity_indicator: true,
        random_access_indicator: false,
        es_priority_indicator: true,
        pcr: Some(ClockReference::new(27_000_000).unwrap()),
        opcr: Some(ClockReference::new(299).unwrap()),
        splice_countdown: Some(-3),
        transport_private_data: vec![9, 8, 7],
        extension: Some(AdaptationExtensionField {
            legal_time_window: Some(LegalTimeWindow::new(true, 0x1234).unwrap()),
            piecewise_rate: Some(PiecewiseRate::new(0x3F_0001).unwrap()),
            seamless_splice: Some(
                SeamlessSplice::new(5, Timestamp::new(0x1_2345_6789).unwrap()).unwrap(),
            ),
        }),
    };
    let packet = TsPacket {
        header: header(300, 7),
        adaptation_field: Some(af.clone()),
        payload: Some(TsPayload::Raw(payload::Bytes::new(&[0x55; 100]).unwrap())),
    };
    let bytes = write_all(&[packet]);
    assert_eq!(bytes.len(), 188);
    let mut reader = TsPacketReader::new(&bytes);
    let read = reader.read_ts_packet().unwrap().unwrap();
    assert_eq!(read.adaptation_field, Some(af));
    assert_eq!(
        read.payload,
        Some(TsPayload::Raw(payload::Bytes::new(&[0x55; 100]).unwrap()))
    );
}

#[test]
fn stuffing_reads_as_an_empty_adaptation_field() {
    let packet = TsPacket {
        header: header(300, 0),
        adaptation_field: None,
        payload: Some(TsPayload::Raw(payload::Bytes::new(&[1; 10]).unwrap())),
    };
    let bytes = write_all(&[packet]);
    assert_eq!(bytes[4], 173);
    assert_eq!(bytes[5], 0);
    let mut reader = TsPacketReader::new(&bytes);
    let read = reader.read_ts_packet().unwrap().unwrap();
    let af = read.adaptation_field.unwrap();
    assert!(!af.discontinuity_indicator && af.pcr.is_none() && af.extension.is_none());
    assert!(af.transport_private_data.is_empty());
}

#[test]
fn pes_packet_of_declared_length_is_reassembled() {
    let pes = payload::Pes {
        header: video_header(),
        pes_packet_len: 3 + 6,
        data: payload::Bytes::new(&[1, 2]).unwrap(),
    };
    let packets = [
        pat_packet(480),
        pmt_packet(480, 258),
        TsPacket {
            header: header(258, 0),
            adaptation_field: None,
            payload: Some(TsPayload::PesStart(pes)),
        },
        TsPacket {
            header: header(258, 1),
            adaptation_field: None,
            payload: Some(TsPayload::PesContinuation(payload::Bytes::new(&[3]).unwrap())),
        },
        TsPacket {
            header: header(258, 2),
            adaptation_field: None,
            payload: Some(TsPayload::PesContinuation(
                payload::Bytes::new(&[4, 5, 6]).unwrap(),
            )),
        },
    ];
    let bytes = write_all(&packets);
    let mut reader = PesPacketReader::new(TsPacketReader::new(&bytes));
    let packet = reader.read_pes_packet().unwrap().unwrap();
    assert_eq!(packet.header, video_header());
    assert_eq!(packet.data, vec![1, 2, 3, 4, 5, 6]);
    assert!(reader.read_pes_packet().unwrap().is_none());
}

#[test]
fn unbounded_pes_packet_ends_at_next_start() {
    let start = |data: &[u8], counter: u8| TsPacket {
        header: header(258, counter),
        adaptation_field: None,
        payload: Some(TsPayload::PesStart(payload::Pes {
            header: video_header(),
            pes_packet_len: 0,
            data: payload::Bytes::new(data).unwrap(),
        })),
    };
    let packets = [
        pat_packet(480),
        pmt_packet(480, 258),
        start(&[1], 0),
        TsPacket {
            header: header(258, 1),
            adaptation_field: None,
            payload: Some(TsPayload::PesContinuation(payload::Bytes::new(&[2]).unwrap())),
        },
        start(&[7, 7], 2),
    ];
    let bytes = write_all(&packets);
    let mut reader = PesPacketReader::new(TsPacketReader::new(&bytes));
    assert_eq!(reader.read_pes_packet().unwrap().unwrap().data, vec![1, 2]);
    assert_eq!(reader.read_pes_packet().unwrap().unwrap().data, vec![7, 7]);
    assert!(reader.read_pes_packet().unwrap().is_none());
}

#[test]
fn incomplete_pes_packet_at_end_is_an_error() {
    let packets = [
        pat_packet(480),
        pmt_packet(480, 258),
        TsPacket {
            header: header(258, 0),
            adaptation_field: None,
            payload: Some(TsPayload::PesStart(payload::Pes {
                header: video_header(),
                pes_packet_len: 3 + 10,
                data: payload::Bytes::new(&[1, 2]).unwrap(),
            })),
        },
    ];
    let bytes = write_all(&packets);
    let mut reader = PesPacketReader::new(TsPacketReader::new(&bytes));
    let err = reader.read_pes_packet().unwrap_err();
    assert_eq!(err.kind, ErrorKind::InvalidInput);
    assert!(reader.read_pes_packet().unwrap().is_none());
}

#[test]
fn pes_continuation_without_start_is_an_error() {
    let packets = [
        pat_packet(480),
        pmt_packet(480, 258),
        TsPacket {
            header: header(258, 0),
            adaptation_field: None,
            payload: Some(TsPayload::PesContinuation(payload::Bytes::new(&[1]).unwrap())),
        },
    ];
    let bytes = write_all(&packets);
    let mut reader = PesPacketReader::new(TsPacketReader::new(&bytes));
    assert_eq!(reader.read_pes_packet().unwrap_err().kind, ErrorKind::InvalidInput);
}

#[test]
fn too_much_pes_data_is_an_error() {
    let packets = [
        pat_packet(480),
        pmt_packet(480, 258),
        TsPacket {
            header: header(258, 0),
            adaptation_field: None,
            payload: Some(TsPayload::PesStart(payload::Pes {
                header: video_header(),
                pes_packet_len: 3 + 2,
                data: payload::Bytes::new(&[1]).unwrap(),
            })),
        },
        TsPacket {
            header: header(258, 1),
            adaptation_field: None,
            payload: Some(TsPayload::PesContinuation(payload::Bytes::new(&[2, 3]).unwrap())),
        },
    ];
    let bytes = write_all(&packets);
    let mut reader = PesPacketReader::new(TsPacketReader::new(&bytes));
    assert_eq!(reader.read_pes_packet().unwrap_err().kind, ErrorKind::InvalidInput);
}

#[test]
fn section_pid_payloads_are_read_as_sections() {
    let packets = [
        TsPacket {
            header: header(0x20, 0),
            adaptation_field: None,
            payload: Some(TsPayload::Section(payload::Section {
                pointer_field: 0,
                data: payload::Bytes::new(&[0x42, 0xF0, 0x01, 0x00]).unwrap(),
            })),
        },
        TsPacket {
            header: header(0x20, 1),
            adaptation_field: None,
            payload: Some(TsPayload::Raw(payload::Bytes::new(&[9, 9]).unwrap())),
        },
    ];
    let bytes = write_all(&packets);
    let mut reader = TsPacketReader::new(&bytes);
    reader.add_section_pid(Pid::new(0x20).unwrap());
    let first = reader.read_ts_packet().unwrap().unwrap();
    assert_eq!(
        first.payload,
        Some(TsPayload::Section(payload::Section {
            pointer_field: 0,
            data: payload::Bytes::new(&[0x42, 0xF0, 0x01, 0x00]).unwrap(),
        }))
    );
    let second = reader.read_ts_packet().unwrap().unwrap();
    assert_eq!(
        second.payload,
        Some(TsPayload::Section(payload::Section {
            pointer_field: 0,
            data: payload::Bytes::new(&[9, 9]).unwrap(),
        }))
    );
}

#[test]
fn unregistered_pid_payload_is_raw() {
    let packet = TsPacket {
        header: header(0x33, 0),
        adaptation_field: None,
        payload: Some(TsPayload::Raw(payload::Bytes::new(&[4, 5, 6]).unwrap())),
    };
    let bytes = write_all(&[packet.clone()]);
    let mut reader = TsPacketReader::new(&bytes);
    assert_eq!(reader.read_ts_packet().unwrap().unwrap().payload, packet.payload);
}

#[test]
fn wrong_sync_byte_is_an_error() {
    let mut bytes = write_all(&[pat_packet(480)]);
    bytes[0] = 0x46;
    let mut reader = TsPacketReader::new(&bytes);
    assert_eq!(reader.read_ts_packet().unwrap_err().kind, ErrorKind::InvalidInput);
    assert_eq!(reader.read_ts_packet().unwrap(), None);
}

#[test]
fn short_stream_ends_without_error() {
    let bytes = write_all(&[pat_packet(480)]);
    let mut reader = TsPacketReader::new(&bytes[..187]);
    assert_eq!(reader.read_ts_packet().unwrap(), None);
    assert!(reader.stream().is_empty());
}

#[test]
fn crc_mismatch_is_an_error() {
    let mut bytes = write_all(&[pat_packet(480)]);
    bytes[187] ^= 1;
    let mut reader = TsPacketReader::new(&bytes);
    assert_eq!(reader.read_ts_packet().unwrap_err().kind, ErrorKind::InvalidInput);
}

#[test]
fn nonzero_pointer_field_is_unsupported() {
    let mut section = vec![1, 0xFF];
    section.extend([0x00, 0xB0, 0x0D, 0, 1, 0xC1, 0, 0, 0, 1, 0xE1, 0xE0, 0, 0, 0, 0]);
    assert_eq!(
        payload::Pat::read_from(&section).unwrap_err().kind,
        ErrorKind::Unsupported
    );
}

#[test]
fn oversized_adaptation_field_is_an_error() {
    let packet = TsPacket {
        header: header(300, 0),
        adaptation_field: Some(AdaptationField {
            discontinuity_indicator: false,
            random_access_indicator: false,
            es_priority_indicator: false,
            pcr: None,
            opcr: None,
            splice_countdown: None,
            transport_private_data: vec![],
            extension: None,
        }),
        payload: Some(TsPayload::Raw(payload::Bytes::new(&[0; 184]).unwrap())),
    };
    let mut writer = TsPacketWriter::new(Vec::new());
    assert_eq!(
        writer.write_ts_packet(&packet).unwrap_err().kind,
        ErrorKind::InvalidInput
    );
    assert!(writer.stream().is_empty());
}

#[test]
fn field_constructors_reject_out_of_range_values() {
    assert_eq!(Pid::new(0x2000).unwrap_err().kind, ErrorKind::InvalidInput);
    assert_eq!(Pid::new(0x1FFF).unwrap().as_u16(), 0x1FFF);
    assert_eq!(ContinuityCounter::from_u8(16).unwrap_err().kind, ErrorKind::InvalidInput);
    assert_eq!(VersionNumber::from_u8(32).unwrap_err().kind, ErrorKind::InvalidInput);
    assert_eq!(
        TransportScramblingControl::from_u8(1).unwrap_err().kind,
        ErrorKind::InvalidInput
    );
    assert_eq!(payload::Bytes::new(&[0; 185]).unwrap_err().kind, ErrorKind::InvalidInput);
    assert_eq!(Timestamp::new(1 << 33).unwrap_err().kind, ErrorKind::InvalidInput);
    assert_eq!(StreamId::new_audio(0xE0).unwrap_err().kind, ErrorKind::InvalidInput);
    assert_eq!(StreamId::new_video(0xC0).unwrap_err().kind, ErrorKind::InvalidInput);
    assert_eq!(StreamType::from_u8(0x0F).unwrap(), StreamType::AdtsAac);
    assert_eq!(StreamType::H264.as_u8(), 0x1B);
}

#[test]
fn stream_id_kinds() {
    let audio = StreamId::new_audio(0xC3).unwrap();
    assert!(audio.is_audio() && !audio.is_video());
    let video = StreamId::new_video(0xEF).unwrap();
    assert!(video.is_video() && !video.is_audio());
    assert_eq!(video.as_u8(), 0xEF);
    assert!(!StreamId::new(0xBD).is_audio());
}

#[test]
fn counters_wrap() {
    let mut c = ContinuityCounter::from_u8(15).unwrap();
    c.increment();
    assert_eq!(c.as_u8(), 0);
    let mut v = VersionNumber::from_u8(31).unwrap();
    v.increment();
    assert_eq!(v.as_u8(), 0);
}

#[test]
fn crc32_of_pat_section() {
    let mut crc = Crc32::new();
    crc.update(&[0, 176, 13, 0, 0, 195, 0, 0, 0, 1, 225, 224]);
    assert_eq!(crc.value(), 0xE85F74EC);
    assert_eq!(Crc32::new().value(), 0xFFFF_FFFF);
}

#[test]
fn timestamp_and_clock_reference_read_back() {
    let t = Timestamp::new(0x1_8765_4321).unwrap();
    let mut out = Vec::new();
    t.write_to(&mut out, 2);
    assert_eq!(out.len(), 5);
    let mut r: &[u8] = &out;
    assert_eq!(Timestamp::read_from(&mut r, 2).unwrap(), t);
    let mut r: &[u8] = &out;
    assert_eq!(Timestamp::read_from(&mut r, 3).unwrap_err().kind, ErrorKind::InvalidInput);

    let c = ClockReference::new(27_000_000 * 60 + 123).unwrap();
    let mut out = Vec::new();
    c.write_pcr_to(&mut out);
    assert_eq!(out.len(), 6);
    let mut r: &[u8] = &out;
    assert_eq!(ClockReference::read_pcr_from(&mut r).unwrap(), c);
    let mut out = Vec::new();
    c.write_escr_to(&mut out);
    let mut r: &[u8] = &out;
    assert_eq!(ClockReference::read_escr_from(&mut r).unwrap(), c);
}

#[test]
fn pes_header_reads_back() {
    let header = PesHeader {
        stream_id: StreamId::new_audio(0xC0).unwrap(),
        priority: true,
        data_alignment_indicator: true,
        copyright: false,
        original_or_copy: true,
        pts: Some(Timestamp::new(90_000).unwrap()),
        dts: Some(Timestamp::new(80_000).unwrap()),
        escr: Some(ClockReference::new(1234).unwrap()),
    };
    let mut out = Vec::new();
    header.write_to(&mut out, 100).unwrap();
    assert_eq!(out.len(), 6 + 3 + 5 + 5 + 6);
    assert_eq!(header.optional_header_len(), 3 + 5 + 5 + 6);
    let mut r: &[u8] = &out;
    assert_eq!(PesHeader::read_from(&mut r).unwrap(), (header, 100));
    assert!(r.is_empty());
}

#[test]
fn psi_with_two_tables_reads_back() {
    let psi = Psi {
        tables: vec![
            PsiTable {
                header: PsiTableHeader {
                    table_id: 0x42,
                    private_bit: true,
                },
                syntax: Some(PsiTableSyntax {
                    table_id_extension: 0x1234,
                    version_number: VersionNumber::from_u8(7).unwrap(),
                    current_next_indicator: true,
                    section_number: 0,
                    last_section_number: 1,
                    table_data: vec![1, 2, 3],
                }),
            },
            PsiTable {
                header: PsiTableHeader {
                    table_id: 0x70,
                    private_bit: false,
                },
                syntax: None,
            },
        ],
    };
    let mut out = Vec::new();
    psi.write_to(&mut out).unwrap();
    assert_eq!(out.len(), 1 + (3 + 5 + 3 + 4) + 3);
    let read = Psi::read_from(&out).unwrap();
    assert_eq!(read.tables.len(), 2);
    assert_eq!(read.tables[0].header, psi.tables[0].header);
    let syntax = read.tables[0].syntax.as_ref().unwrap();
    assert_eq!(syntax.table_id_extension, 0x1234);
    assert_eq!(syntax.version_number.as_u8(), 7);
    assert!(syntax.current_next_indicator);
    assert_eq!((syntax.section_number, syntax.last_section_number), (0, 1));
    assert_eq!(syntax.table_data, vec![1, 2, 3]);
    assert_eq!(read.tables[1].header, psi.tables[1].header);
    assert!(read.tables[1].syntax.is_none());
}

#[test]
fn interleaved_pes_streams_are_kept_apart() {
    let pmt = TsPacket {
        header: header(480, 0),
        adaptation_field: None,
        payload: Some(TsPayload::Pmt(payload::Pmt {
            program_num: 1,
            pcr_pid: None,
            version_number: VersionNumber::new(),
            program_info: vec![],
            es_info: vec![
                mpeg2ts::ts::EsInfo {
                    stream_type: StreamType::AdtsAac,
                    elementary_pid: Pid::new(257).unwrap(),
                    descriptors: vec![],
                },
                mpeg2ts::ts::EsInfo {
                    stream_type: StreamType::H264,
                    elementary_pid: Pid::new(258).unwrap(),
                    descriptors: vec![],
                },
            ],
        })),
    };
    let start = |pid: u16, data: &[u8]| TsPacket {
        header: header(pid, 0),
        adaptation_field: None,
        payload: Some(TsPayload::PesStart(payload::Pes {
            header: video_header(),
            pes_packet_len: 3 + 4,
            data: payload::Bytes::new(data).unwrap(),
        })),
    };
    let cont = |pid: u16, data: &[u8]| TsPacket {
        header: header(pid, 1),
        adaptation_field: None,
        payload: Some(TsPayload::PesContinuation(payload::Bytes::new(data).unwrap())),
    };
    let packets = [
        pat_packet(480),
        pmt,
        start(257, &[1, 1]),
        start(258, &[2, 2]),
        cont(258, &[2, 2]),
        cont(257, &[1, 1]),
    ];
    let bytes = write_all(&packets);
    let mut reader = PesPacketReader::new(TsPacketReader::new(&bytes));
    assert_eq!(reader.read_pes_packet().unwrap().unwrap().data, vec![2, 2, 2, 2]);
    assert_eq!(reader.read_pes_packet().unwrap().unwrap().data, vec![1, 1, 1, 1]);
    assert!(reader.read_pes_packet().unwrap().is_none());
}

#[test]
fn failed_header_reads_leave_the_reader_after_what_they_read() {
    let bytes = [0x00, 0x00, 0x02, 0xE0, 0x00, 0x00];
    let mut r: &[u8] = &bytes;
    assert_eq!(PesHeader::read_from(&mut r).unwrap_err().kind, ErrorKind::InvalidInput);
    assert_eq!(r, &[0xE0, 0x00, 0x00]);

    let bytes = [0x46, 0x40, 0x00, 0x10, 0x00];
    let mut r: &[u8] = &bytes;
    assert_eq!(TsHeader::read_from(&mut r).unwrap_err().kind, ErrorKind::InvalidInput);
    assert_eq!(r, &[0x40, 0x00, 0x10, 0x00]);

    let bytes = [0x47, 0x40];
    let mut r: &[u8] = &bytes;
    assert_eq!(TsHeader::read_from(&mut r).unwrap_err().kind, ErrorKind::Other);
    assert!(r.is_empty());
}

#[test]
fn consume_stuffing_stops_after_the_first_other_byte() {
    let mut r: &[u8] = &[];
    assert!(consume_stuffing_bytes(&mut r).is_ok());
    let mut r: &[u8] = &[0xFF, 0xFF];
    assert!(consume_stuffing_bytes(&mut r).is_ok());
    assert!(r.is_empty());
    let mut r: &[u8] = &[0xFF, 0x00, 0xFF];
    assert_eq!(consume_stuffing_bytes(&mut r).unwrap_err().kind, ErrorKind::InvalidInput);
    assert_eq!(r, &[0xFF]);
}

#[test]
fn crc_of_section_with_its_crc_is_zero() {
    let mut crc = Crc32::new();
    crc.update(&[0, 176, 13, 0, 0, 195, 0, 0, 0, 1, 225, 224, 0xE8, 0x5F, 0x74, 0xEC]);
    assert_eq!(crc.value(), 0);
}

#[test]
fn psi_followed_by_stuffing_reads_back() {
    let psi = Psi {
        tables: vec![PsiTable {
            header: PsiTableHeader {
                table_id: 0,
                private_bit: false,
            },
            syntax: Some(PsiTableSyntax {
                table_id_extension: 1,
                version_number: VersionNumber::new(),
                current_next_indicator: true,
                section_number: 0,
                last_section_number: 0,
                table_data: vec![0, 1, 0xE1, 0xE0],
            }),
        }],
    };
    let mut out = Vec::new();
    psi.write_to(&mut out).unwrap();
    out.extend([0xFF; 20]);
    let read = Psi::read_from(&out).unwrap();
    assert_eq!(read.tables.len(), 1);
    assert_eq!(read.tables[0].syntax.as_ref().unwrap().table_data, vec![0, 1, 0xE1, 0xE0]);
}

#[test]
fn network_pid_is_not_a_pmt_pid() {
    let pat = TsPacket {
        header: header(0, 0),
        adaptation_field: None,
        payload: Some(TsPayload::Pat(payload::Pat {
            transport_stream_id: 1,
            version_number: VersionNumber::new(),
            table: vec![
                ProgramAssociation {
                    program_num: 0,
                    program_map_pid: Pid::new(0x10).unwrap(),
                },
                ProgramAssociation {
                    program_num: 1,
                    program_map_pid: Pid::new(480).unwrap(),
                },
            ],
        })),
    };
    let on_network_pid = TsPacket {
        header: header(0x10, 0),
        adaptation_field: None,
        payload: Some(TsPayload::Raw(payload::Bytes::new(&[0, 1, 2]).unwrap())),
    };
    let bytes = write_all(&[pat, on_network_pid.clone(), pmt_packet(480, 258)]);
    let mut reader = TsPacketReader::new(&bytes);
    reader.read_ts_packet().unwrap().unwrap();
    let read = reader.read_ts_packet().unwrap().unwrap();
    assert_eq!(read.payload, on_network_pid.payload);
    let read = reader.read_ts_packet().unwrap().unwrap();
    assert!(matches!(read.payload, Some(TsPayload::Pmt(_))));
}

#[test]
fn pes_reader_after_end_keeps_returning_none() {
    let bytes = write_all(&[pat_packet(480), pmt_packet(480, 258)]);
    let mut reader = PesPacketReader::new(TsPacketReader::new(&bytes));
    assert!(reader.read_pes_packet().unwrap().is_none());
    assert!(reader.read_pes_packet().unwrap().is_none());
    assert!(reader.ts_packet_reader().stream().is_empty());
}

#[test]
fn crc_over_reads_in_pieces() {
    let section: &[u8] = &[0, 176, 13, 0, 0, 195, 0, 0, 0, 1, 225, 224, 0xE8, 0x5F, 0x74, 0xEC];
    let mut reader = WithCrc32::new(section);
    assert_eq!(reader.read(5), vec![0, 176, 13, 0, 0]);
    assert_eq!(reader.read(7).len(), 7);
    assert_eq!(reader.crc32(), {
        let mut crc = Crc32::new();
        crc.update(&section[..12]);
        crc.value()
    });
    assert_eq!(reader.crc32(), 0xE85F74EC);
    assert_eq!(reader.read(100), vec![0xE8, 0x5F, 0x74, 0xEC]);
    assert_eq!(reader.crc32(), 0);
    assert!(reader.read(1).is_empty());
}

#[test]
fn psi_header_and_pid_errors_leave_the_reader_after_what_they_read() {
    let bytes = [0x00, 0x80, 0x00, 0x42];
    let mut r: &[u8] = &bytes;
    assert_eq!(PsiTableHeader::read_from(&mut r).unwrap_err().kind, ErrorKind::InvalidInput);
    assert_eq!(r, &[0x42]);

    let bytes = [0x00, 0xB0];
    let mut r: &[u8] = &bytes;
    assert_eq!(PsiTableHeader::read_from(&mut r).unwrap_err().kind, ErrorKind::Other);
    assert!(r.is_empty());

    let bytes = [0x00, 0xB0, 0x02, 0x99];
    let mut r: &[u8] = &bytes;
    assert_eq!(PsiTable::read_from(&mut r).unwrap_err().kind, ErrorKind::InvalidInput);
    assert_eq!(r, &[0x99]);

    let bytes = [0x00, 0x01, 0x01, 0xE0, 0x77];
    let mut r: &[u8] = &bytes;
    assert_eq!(ProgramAssociation::read_from(&mut r).unwrap_err().kind, ErrorKind::InvalidInput);
    assert_eq!(r, &[0x77]);

    let bytes = [0x01, 0xE0, 0x77];
    let mut r: &[u8] = &bytes;
    assert_eq!(Pid::read_from(&mut r).unwrap_err().kind, ErrorKind::InvalidInput);
    assert_eq!(r, &[0x77]);
}

#[test]
fn stream_fed_in_chunks_reads_as_a_whole() {
    let bytes = write_all(&[pat_packet(480), pmt_packet(480, 258)]);
    let mut whole = TsPacketReader::new(&bytes);
    let first = whole.read_ts_packet().unwrap().unwrap();
    let second = whole.read_ts_packet().unwrap().unwrap();

    let mut reader = TsPacketReader::new(&[]);
    reader.extend(&bytes[..100]);
    assert_eq!(reader.stream().len(), 100);
    reader.extend(&bytes[100..200]);
    assert_eq!(reader.read_ts_packet().unwrap().unwrap(), first);
    assert_eq!(reader.stream(), &bytes[188..200]);
    reader.extend(&bytes[200..]);
    assert_eq!(reader.read_ts_packet().unwrap().unwrap(), second);
    assert_eq!(reader.read_ts_packet().unwrap(), None);
}
