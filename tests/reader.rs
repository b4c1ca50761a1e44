use dogstatsd_utils::dogstatsdreader::{
    input_type_of, Analytics, DogStatsDReader, DogStatsDReaderError, InputType, Transport, Utf8DogStatsDReader,
};
use dogstatsd_utils::pcapreader::PcapReaderError;
use dogstatsd_utils::replay::ReplayReaderError;

const TWO_MSGS_ONE_LINE_EACH: &[u8] = &[
        0xd4, 0x74, 0xd0, 0x60, 0xf3, 0xff, 0x00, 0x00, 0x93, 0x00, 0x00, 0x00, 0x08, 0x84, 0xe2,
        0x88, 0x8a, 0xe0, 0xb6, 0x87, 0xbf, 0x17, 0x10, 0x83, 0x01, 0x1a, 0x83, 0x01, 0x73, 0x74,
        0x61, 0x74, 0x73, 0x64, 0x2e, 0x65, 0x78, 0x61, 0x6d, 0x70, 0x6c, 0x65, 0x2e, 0x74, 0x69,
        0x6d, 0x65, 0x2e, 0x6d, 0x69, 0x63, 0x72, 0x6f, 0x73, 0x3a, 0x32, 0x2e, 0x33, 0x39, 0x32,
        0x38, 0x33, 0x7c, 0x64, 0x7c, 0x40, 0x31, 0x2e, 0x30, 0x30, 0x30, 0x30, 0x30, 0x30, 0x7c,
        0x23, 0x65, 0x6e, 0x76, 0x69, 0x72, 0x6f, 0x6e, 0x6d, 0x65, 0x6e, 0x74, 0x3a, 0x64, 0x65,
        0x76, 0x7c, 0x63, 0x3a, 0x32, 0x61, 0x32, 0x35, 0x66, 0x37, 0x66, 0x63, 0x38, 0x66, 0x62,
        0x66, 0x35, 0x37, 0x33, 0x64, 0x36, 0x32, 0x30, 0x35, 0x33, 0x64, 0x37, 0x32, 0x36, 0x33,
        0x64, 0x64, 0x32, 0x64, 0x34, 0x34, 0x30, 0x63, 0x30, 0x37, 0x62, 0x36, 0x61, 0x62, 0x34,
        0x64, 0x32, 0x62, 0x31, 0x30, 0x37, 0x65, 0x35, 0x30, 0x62, 0x30, 0x64, 0x34, 0x64, 0x66,
        0x31, 0x66, 0x32, 0x65, 0x65, 0x31, 0x35, 0x66, 0x0a, 0x93, 0x00, 0x00, 0x00, 0x08, 0x9f,
        0xe9, 0xbd, 0x83, 0xe3, 0xb6, 0x87, 0xbf, 0x17, 0x10, 0x83, 0x01, 0x1a, 0x83, 0x01, 0x73,
        0x74, 0x61, 0x74, 0x73, 0x64, 0x2e, 0x65, 0x78, 0x61, 0x6d, 0x70, 0x6c, 0x65, 0x2e, 0x74,
        0x69, 0x6d, 0x65, 0x2e, 0x6d, 0x69, 0x63, 0x72, 0x6f, 0x73, 0x3a, 0x32, 0x2e, 0x33, 0x39,
        0x32, 0x38, 0x33, 0x7c, 0x64, 0x7c, 0x40, 0x31, 0x2e, 0x30, 0x30, 0x30, 0x30, 0x30, 0x30,
        0x7c, 0x23, 0x65, 0x6e, 0x76, 0x69, 0x72, 0x6f, 0x6e, 0x6d, 0x65, 0x6e, 0x74, 0x3a, 0x64,
        0x65, 0x76, 0x7c, 0x63, 0x3a, 0x32, 0x61, 0x32, 0x35, 0x66, 0x37, 0x66, 0x63, 0x38, 0x66,
        0x62, 0x66, 0x35, 0x37, 0x33, 0x64, 0x36, 0x32, 0x30, 0x35, 0x33, 0x64, 0x37, 0x32, 0x36,
        0x33, 0x64, 0x64, 0x32, 0x64, 0x34, 0x34, 0x30, 0x63, 0x30, 0x37, 0x62, 0x36, 0x61, 0x62,
        0x34, 0x64, 0x32, 0x62, 0x31, 0x30, 0x37, 0x65, 0x35, 0x30, 0x62, 0x30, 0x64, 0x34, 0x64,
        0x66, 0x31, 0x66, 0x32, 0x65, 0x65, 0x31, 0x35, 0x66, 0x0a, 0x00, 0x00, 0x00, 0x00, 0x00,
        0x00, 0x00, 0x00,
    ];

const PCAP_SLL2_SINGLE_UDP_PACKET: &[u8] = &[
        0xd4, 0xc3, 0xb2, 0xa1, 0x02, 0x00, 0x04, 0x00, 0x00, 0x00, 0x00, 0x00, 0x00, 0x00, 0x00,
        0x00, 0x00, 0x00, 0x04, 0x00, 0x14, 0x01, 0x00, 0x00, 0xef, 0xc0, 0x9d, 0x65, 0xb2, 0xbc,
        0x0a, 0x00, 0x4f, 0x00, 0x00, 0x00, 0x4f, 0x00, 0x00, 0x00, 0x08, 0x00, 0x00, 0x00, 0x00,
        0x00, 0x00, 0x01, 0x03, 0x04, 0x00, 0x06, 0x00, 0x00, 0x00, 0x00, 0x00, 0x00, 0x00, 0x00,
        0x45, 0x00, 0x00, 0x3b, 0x30, 0xf0, 0x40, 0x00, 0x40, 0x11, 0x0b, 0xc0, 0x7f, 0x00, 0x00,
        0x01, 0x7f, 0x00, 0x00, 0x01, 0x8d, 0x81, 0x1f, 0xbd, 0x00, 0x27, 0xfe, 0x3a, 0x61, 0x62,
        0x63, 0x2e, 0x6d, 0x79, 0x2e, 0x66, 0x61, 0x76, 0x2e, 0x6d, 0x65, 0x74, 0x72, 0x69, 0x63,
        0x3a, 0x31, 0x7c, 0x63, 0x7c, 0x23, 0x68, 0x6f, 0x73, 0x74, 0x3a, 0x66, 0x6f, 0x6f,
    ];

const LINE: &str = "statsd.example.time.micros:2.39283|d|@1.000000|#environment:dev|c:2a25f7fc8fbf573d62053d7263dd2d440c07b6ab4d2b107e50b0d4df1f2ee15f";

#[test]
fn utf8_single_msg() {
    let payload = b"my.metric:1|g";
    let mut reader = DogStatsDReader::new(payload.to_vec())
        .expect("could create dogstatsd reader from static bytes");
    let mut s = String::new();
    let num_read = reader.read_msg(&mut s).unwrap();
    assert_eq!(s.as_str(), "my.metric:1|g");
    assert_eq!(num_read, 1);
    s.clear();
    assert_eq!(reader.read_msg(&mut s).unwrap(), 0);
}

#[test]
fn utf8_single_msg_trailing_newline() {
    let payload = b"my.metric:1|g\n";
    let mut reader = DogStatsDReader::new(payload.to_vec())
        .expect("could create dogstatsd reader from static bytes");
    let mut s = String::new();
    let num_read = reader.read_msg(&mut s).unwrap();
    assert_eq!(s.as_str(), "my.metric:1|g");
    assert_eq!(num_read, 1);
    s.clear();
    assert_eq!(reader.read_msg(&mut s).unwrap(), 0);
}

#[test]
fn utf8_multi_msg() {
    let payload = b"my.metric:1|g\nmy.metric:2|g";
    let mut reader = DogStatsDReader::new(payload.to_vec())
        .expect("could create dogstatsd reader from static bytes");
    let mut s = String::new();
    let num_read = reader.read_msg(&mut s).unwrap();
    assert_eq!(s.as_str(), "my.metric:1|g");
    assert_eq!(num_read, 1);
    s.clear();
    reader.read_msg(&mut s).unwrap();
    assert_eq!(s.as_str(), "my.metric:2|g");
    s.clear();
    assert_eq!(reader.read_msg(&mut s).unwrap(), 0);
}

#[test]
fn utf8_multi_msg_msg_trailing_newline() {
    let payload = b"my.metric:1|g\nmy.metric:2|g\n";
    let mut reader = DogStatsDReader::new(payload.to_vec())
        .expect("could create dogstatsd reader from static bytes");
    let mut s = String::new();
    let num_read = reader.read_msg(&mut s).unwrap();
    assert_eq!(s.as_str(), "my.metric:1|g");
    assert_eq!(num_read, 1);
    s.clear();
    reader.read_msg(&mut s).unwrap();
    assert_eq!(s.as_str(), "my.metric:2|g");
    s.clear();
    assert_eq!(reader.read_msg(&mut s).unwrap(), 0);
}

#[test]
fn utf8_example() {
    let payload = b"my.metric:1|g\nmy.metric:2|g\nother.metric:20|d|#env:staging\nother.thing:10|d|#datacenter:prod\n";
    let mut reader = DogStatsDReader::new(payload.to_vec())
        .expect("could create dogstatsd reader from static bytes");
    let mut s = String::new();
    let mut iters = 0;
    loop {
        match reader.read_msg(&mut s) {
            Ok(num_read) => {
                if num_read == 0 {
                    break;
                }
                iters += 1;
                println!("{}", s);
                assert!(s.len() < 40);
                s.clear();
            }
            Err(e) => {
                panic!("unexpected err {:?}", e)
            }
        }
    }
    assert_eq!(iters, 4);
}

#[test]
fn zstd_utf8_reader_single_msg() {
    let payload = &[
        0x28, 0xb5, 0x2f, 0xfd, 0x04, 0x58, 0x69, 0x00, 0x00, 0x6d, 0x79, 0x2e, 0x6d, 0x65,
        0x74, 0x72, 0x69, 0x63, 0x3a, 0x31, 0x7c, 0x67, 0x1e, 0xc8, 0x48, 0xb4,
    ];
    let mut reader = DogStatsDReader::new(payload.to_vec())
        .expect("could create dogstatsd reader from static bytes");
    let mut s = String::new();
    let num_read = reader.read_msg(&mut s).unwrap();
    assert_eq!(s.as_str(), "my.metric:1|g");
    assert_eq!(num_read, 1);
    assert_eq!(reader.read_msg(&mut s).unwrap(), 0);
}

#[test]
fn zstd_utf8_single_msg_trailing_newline() {
    let payload = &[
        0x28, 0xb5, 0x2f, 0xfd, 0x04, 0x58, 0x71, 0x00, 0x00, 0x6d, 0x79, 0x2e, 0x6d, 0x65,
        0x74, 0x72, 0x69, 0x63, 0x3a, 0x31, 0x7c, 0x67, 0x0a, 0x00, 0x72, 0x2c, 0x42,
    ];
    let mut reader = DogStatsDReader::new(payload.to_vec())
        .expect("could create dogstatsd reader from static bytes");
    let mut s = String::new();
    let num_read = reader.read_msg(&mut s).unwrap();
    assert_eq!(s.as_str(), "my.metric:1|g");
    assert_eq!(num_read, 1);
    assert_eq!(reader.read_msg(&mut s).unwrap(), 0);
}

const FOUR_MSGS_ZSTD: &[u8] = &[
    0x28, 0xb5, 0x2f, 0xfd, 0x04, 0x58, 0x6d, 0x02, 0x00, 0xe4, 0x03, 0x6d, 0x79, 0x2e,
    0x6d, 0x65, 0x74, 0x72, 0x69, 0x63, 0x3a, 0x31, 0x7c, 0x67, 0x0a, 0x32, 0x7c, 0x67,
    0x0a, 0x6f, 0x74, 0x68, 0x65, 0x72, 0x30, 0x7c, 0x64, 0x7c, 0x23, 0x65, 0x6e, 0x76,
    0x3a, 0x73, 0x74, 0x61, 0x67, 0x69, 0x6e, 0x74, 0x68, 0x69, 0x6e, 0x67, 0x3a, 0x31,
    0x64, 0x61, 0x74, 0x61, 0x63, 0x65, 0x6e, 0x74, 0x65, 0x72, 0x3a, 0x70, 0x72, 0x6f,
    0x64, 0x0a, 0x0a, 0x04, 0x00, 0x41, 0x09, 0x43, 0x28, 0x52, 0x69, 0x16, 0x39, 0xb6,
    0xa9, 0x04, 0xb6, 0x9f, 0x86, 0x7f,
];

#[test]
fn zstd_utf8_four_msg_trailing_newline() {
    let mut reader = DogStatsDReader::new(FOUR_MSGS_ZSTD.to_vec())
        .expect("could create dogstatsd reader from static bytes");
    let mut s = String::new();
    let num_read = reader.read_msg(&mut s).unwrap();
    assert_eq!(s.as_str(), "my.metric:1|g");
    assert_eq!(num_read, 1);
    s.clear();
    let num_read = reader.read_msg(&mut s).unwrap();
    assert_eq!(s.as_str(), "my.metric:2|g");
    assert_eq!(num_read, 1);
    s.clear();
    let num_read = reader.read_msg(&mut s).unwrap();
    assert_eq!(s.as_str(), "other.metric:20|d|#env:staging");
    assert_eq!(num_read, 1);
    s.clear();
    let num_read = reader.read_msg(&mut s).unwrap();
    assert_eq!(s.as_str(), "other.thing:10|d|#datacenter:prod");
    assert_eq!(num_read, 1);
    s.clear();
    assert_eq!(reader.read_msg(&mut s).unwrap(), 0);
}

#[test]
fn dsdreplay_two_msg_two_lines() {
    let mut replay = DogStatsDReader::new(TWO_MSGS_ONE_LINE_EACH.to_vec())
        .expect("could create dogstatsd reader from static bytes");
    let mut s = String::new();
    let res = replay.read_msg(&mut s).unwrap();
    assert_eq!(res, 1);
    assert_eq!(LINE, s);
    s.clear();
    let res = replay.read_msg(&mut s).unwrap();
    assert_eq!(res, 1);
    assert_eq!(LINE, s);
    let res = replay.read_msg(&mut s).unwrap();
    assert_eq!(res, 0);
}

#[test]
fn pcap_single_message() {
    let mut reader = DogStatsDReader::new(PCAP_SLL2_SINGLE_UDP_PACKET.to_vec())
        .expect("could create dogstatsd reader from static bytes");
    let mut s = String::new();
    let res = reader.read_msg(&mut s).unwrap();
    assert_eq!(res, 1);
    assert_eq!("abc.my.fav.metric:1|c|#host:foo", s);
    s.clear();
    let res = reader.read_msg(&mut s).unwrap();
    assert_eq!(res, 0);
}

#[test]
fn replay_fixture_reads_two_lines_then_ends() {
    let mut reader = DogStatsDReader::new(TWO_MSGS_ONE_LINE_EACH.to_vec()).unwrap();
    let mut s = String::new();
    assert_eq!(reader.read_msg(&mut s).unwrap(), 1);
    assert_eq!(s, LINE);
    assert_eq!(reader.read_msg(&mut s).unwrap(), 1);
    assert_eq!(s, LINE);
    assert_eq!(reader.read_msg(&mut s).unwrap(), 0);
    assert_eq!(reader.read_msg(&mut s).unwrap(), 0);
    let a = reader.get_analytics().unwrap();
    assert_eq!(a.total_packets, 2);
    assert_eq!(a.total_messages, 2);
    assert_eq!(a.total_bytes, 2 * 131);
    assert_eq!(a.earliest_timestamp, 1692823177480253700);
    assert_eq!(a.latest_timestamp, 1692823178271749279);
    assert_eq!(a.duration(), 1692823178271749279 - 1692823177480253700);
    assert_eq!(a.bytes_per_second(), 0);
    assert_eq!(a.transport_type, Transport::UnixDatagram);
}

#[test]
fn pcap_fixture_reads_one_line() {
    let mut reader = DogStatsDReader::new(PCAP_SLL2_SINGLE_UDP_PACKET.to_vec()).unwrap();
    let mut s = String::new();
    assert_eq!(reader.read_msg(&mut s).unwrap(), 1);
    assert_eq!(s, "abc.my.fav.metric:1|c|#host:foo");
    assert_eq!(reader.read_msg(&mut s).unwrap(), 0);
    let a = reader.get_analytics().unwrap();
    assert_eq!(a.total_packets, 1);
    assert_eq!(a.total_bytes, 31);
    assert_eq!(a.transport_type, Transport::Udp);
}

#[test]
fn text_has_no_analytics_and_skips_blank_lines() {
    let mut reader = DogStatsDReader::new(b"a:1|g\r\n\n   \nb:2|c\n".to_vec()).unwrap();
    assert!(reader.get_analytics().is_none());
    let mut s = String::new();
    assert_eq!(reader.read_msg(&mut s).unwrap(), 1);
    assert_eq!(s, "a:1|g");
    assert_eq!(reader.read_msg(&mut s).unwrap(), 1);
    assert_eq!(s, "b:2|c");
    assert_eq!(reader.read_msg(&mut s).unwrap(), 0);
}

#[test]
fn opening_errors() {
    assert_eq!(DogStatsDReader::new(b"short".to_vec()).err(), Some(DogStatsDReaderError::UnexpectedEof));
    let bad_zstd = vec![0x28, 0xb5, 0x2f, 0xfd, 0xff, 0xff, 0xff, 0xff, 0xff];
    assert_eq!(DogStatsDReader::new(bad_zstd).err(), Some(DogStatsDReaderError::Decompression));
    let mut pcap_other_link = PCAP_SLL2_SINGLE_UDP_PACKET.to_vec();
    pcap_other_link[20] = 0x71;
    pcap_other_link[21] = 0x00;
    assert_eq!(
        DogStatsDReader::new(pcap_other_link).err(),
        Some(DogStatsDReaderError::Pcap(PcapReaderError::UnsupportedDatalinkType(0x71)))
    );
    let short_pcap = PCAP_SLL2_SINGLE_UDP_PACKET[..12].to_vec();
    assert_eq!(
        DogStatsDReader::new(short_pcap).err(),
        Some(DogStatsDReaderError::Pcap(PcapReaderError::BadHeader))
    );
}

#[test]
fn reading_errors() {
    let mut invalid = DogStatsDReader::new(b"ab\xff\xfecd:1|g\n".to_vec()).unwrap();
    let mut s = String::new();
    assert_eq!(invalid.read_msg(&mut s), Err(DogStatsDReaderError::InvalidUtf8));
    let mut cut = TWO_MSGS_ONE_LINE_EACH[..40].to_vec();
    cut.truncate(40);
    let mut replay = DogStatsDReader::new(cut).unwrap();
    assert_eq!(replay.read_msg(&mut s), Err(DogStatsDReaderError::Replay(ReplayReaderError::ShortRead)));
    let mut pcap_cut = PCAP_SLL2_SINGLE_UDP_PACKET.to_vec();
    pcap_cut.truncate(60);
    let mut pcap = DogStatsDReader::new(pcap_cut).unwrap();
    assert_eq!(pcap.read_msg(&mut s), Err(DogStatsDReaderError::Pcap(PcapReaderError::ShortRead)));
}

#[test]
fn classification_of_headers() {
    assert_eq!(input_type_of(&TWO_MSGS_ONE_LINE_EACH[..8]), InputType::Replay);
    assert_eq!(input_type_of(&PCAP_SLL2_SINGLE_UDP_PACKET[..8]), InputType::Pcap);
    assert_eq!(input_type_of(&[0xA1, 0xB2, 0xC3, 0xD4, 0, 0, 0, 0]), InputType::Pcap);
    assert_eq!(input_type_of(b"my.metri"), InputType::Utf8);
    // A replay header of another version falls through to text.
    assert_eq!(input_type_of(&[0xD4, 0x74, 0xD0, 0x60, 0xF2, 0xFF, 0, 0]), InputType::Utf8);
}

#[test]
fn utf8_reader_directly() {
    let mut r = Utf8DogStatsDReader::new(b"x:1|c".to_vec());
    let mut s = String::new();
    assert_eq!(r.read_msg(&mut s).unwrap(), 1);
    assert_eq!(s, "x:1|c");
    assert_eq!(r.read_msg(&mut s).unwrap(), 0);
}

#[test]
fn analytics_counts_packets_and_widens_time_bounds() {
    let mut a = Analytics::new(Transport::Udp);
    assert_eq!((a.total_packets, a.total_bytes, a.total_messages), (0, 0, 0));
    a.note_packet(100, 5_000_000_000);
    assert_eq!((a.earliest_timestamp, a.latest_timestamp), (5_000_000_000, 5_000_000_000));
    a.note_packet(50, 2_000_000_000);
    a.note_packet(150, 9_000_000_000);
    assert_eq!(a.total_packets, 3);
    assert_eq!(a.total_bytes, 300);
    assert_eq!(a.earliest_timestamp, 2_000_000_000);
    assert_eq!(a.latest_timestamp, 9_000_000_000);
    assert_eq!(a.duration(), 7_000_000_000);
    assert_eq!(a.bytes_per_second(), 300 / 7);
}
