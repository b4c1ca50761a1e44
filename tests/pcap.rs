use dogstatsd_utils::pcapreader::{get_udp_payload_from_packet, is_pcap, PcapReader, PcapReaderError};

const PCAP_SLLV2_SINGLE_UDP_PACKET: &[u8] = &[
        0xd4, 0xc3, 0xb2, 0xa1, 0x02, 0x00, 0x04, 0x00, 0x00, 0x00, 0x00, 0x00, 0x00, 0x00, 0x00,
        0x00, 0x00, 0x00, 0x04, 0x00, 0x14, 0x01, 0x00, 0x00, 0xef, 0xc0, 0x9d, 0x65, 0xb2, 0xbc,
        0x0a, 0x00, 0x4f, 0x00, 0x00, 0x00, 0x4f, 0x00, 0x00, 0x00, 0x08, 0x00, 0x00, 0x00, 0x00,
        0x00, 0x00, 0x01, 0x03, 0x04, 0x00, 0x06, 0x00, 0x00, 0x00, 0x00, 0x00, 0x00, 0x00, 0x00,
        0x45, 0x00, 0x00, 0x3b, 0x30, 0xf0, 0x40, 0x00, 0x40, 0x11, 0x0b, 0xc0, 0x7f, 0x00, 0x00,
        0x01, 0x7f, 0x00, 0x00, 0x01, 0x8d, 0x81, 0x1f, 0xbd, 0x00, 0x27, 0xfe, 0x3a, 0x61, 0x62,
        0x63, 0x2e, 0x6d, 0x79, 0x2e, 0x66, 0x61, 0x76, 0x2e, 0x6d, 0x65, 0x74, 0x72, 0x69, 0x63,
        0x3a, 0x31, 0x7c, 0x63, 0x7c, 0x23, 0x68, 0x6f, 0x73, 0x74, 0x3a, 0x66, 0x6f, 0x6f,
    ];

const PCAP_ETH1_SINGLE_UDP_PACKET: &[u8] = &[
        0xd4, 0xc3, 0xb2, 0xa1, 0x02, 0x00, 0x04, 0x00, 0x00, 0x00, 0x00, 0x00, 0x00, 0x00, 0x00,
        0x00, 0x00, 0x00, 0x04, 0x00, 0x01, 0x00, 0x00, 0x00, 0x11, 0xbe, 0xa1, 0x65, 0x07, 0x14,
        0x0c, 0x00, 0x49, 0x00, 0x00, 0x00, 0x49, 0x00, 0x00, 0x00, 0x00, 0x00, 0x00, 0x00, 0x00,
        0x00, 0x00, 0x00, 0x00, 0x00, 0x00, 0x00, 0x08, 0x00, 0x45, 0x00, 0x00, 0x3b, 0xf7, 0x5a,
        0x40, 0x00, 0x40, 0x11, 0x45, 0x55, 0x7f, 0x00, 0x00, 0x01, 0x7f, 0x00, 0x00, 0x01, 0x9c,
        0x60, 0x1f, 0xbd, 0x00, 0x27, 0xfe, 0x3a, 0x61, 0x62, 0x63, 0x2e, 0x6d, 0x79, 0x2e, 0x66,
        0x61, 0x76, 0x2e, 0x6d, 0x65, 0x74, 0x72, 0x69, 0x63, 0x3a, 0x31, 0x7c, 0x63, 0x7c, 0x23,
        0x68, 0x6f, 0x73, 0x74, 0x3a, 0x66, 0x6f, 0x6f,
    ];

const DSD_RECAP_PARTIAL: &[u8] = &[
    0xd4, 0x74, 0xd0, 0x60, 0xf3, 0xff, 0x00, 0x00, 0x93, 0x00, 0x00, 0x00, 0x08,
];

const EXPECTED_UDP_PAYLOAD: &[u8] = &[
    0x61, 0x62, 0x63, 0x2e, 0x6d, 0x79, 0x2e, 0x66, 0x61, 0x76, 0x2e, 0x6d, 0x65, 0x74,
    0x72, 0x69, 0x63, 0x3a, 0x31, 0x7c, 0x63, 0x7c, 0x23, 0x68, 0x6f, 0x73, 0x74, 0x3a,
    0x66, 0x6f, 0x6f,
];

#[test]
fn can_detect_pcap() {
    is_pcap(PCAP_SLLV2_SINGLE_UDP_PACKET).unwrap();
    is_pcap(PCAP_ETH1_SINGLE_UDP_PACKET).unwrap();
}

#[test]
fn can_read_single_packet() {
    let mut reader = PcapReader::new(PCAP_SLLV2_SINGLE_UDP_PACKET.to_vec()).unwrap();
    let packet = reader.read_frame().unwrap().unwrap();
    assert_eq!(packet.data.len(), 79);
}

#[test]
fn can_read_udp_from_sll2_packet() {
    let mut reader = PcapReader::new(PCAP_SLLV2_SINGLE_UDP_PACKET.to_vec()).unwrap();
    let datalink = reader.datalink();
    let packet = reader.read_frame().unwrap().unwrap();
    let udp_payload = get_udp_payload_from_packet(datalink, &packet.data).unwrap();
    assert_eq!(udp_payload, EXPECTED_UDP_PAYLOAD);
}

#[test]
fn can_read_udp_from_eth1_packet() {
    let mut reader = PcapReader::new(PCAP_ETH1_SINGLE_UDP_PACKET.to_vec()).unwrap();
    let datalink = reader.datalink();
    let packet = reader.read_frame().unwrap().unwrap();
    let udp_payload = get_udp_payload_from_packet(datalink, &packet.data).unwrap();
    assert_eq!(udp_payload, EXPECTED_UDP_PAYLOAD);
}

#[test]
fn can_reject_utf8() {
    let err = is_pcap(b"abcdefg").unwrap_err();
    match err {
        PcapReaderError::BadHeader => {}
        _ => panic!("Unexpected error reason"),
    }
}

#[test]
fn can_reject_dsdreplay() {
    let err = is_pcap(DSD_RECAP_PARTIAL).unwrap_err();
    match err {
        PcapReaderError::BadHeader => {}
        _ => panic!("Unexpected error reason"),
    }
}

#[test]
fn datagrams_carry_payload_and_time() {
    let mut reader = PcapReader::new(PCAP_ETH1_SINGLE_UDP_PACKET.to_vec()).unwrap();
    assert_eq!(reader.datalink(), 1);
    let p = reader.read_packet().unwrap().unwrap();
    assert_eq!(p.payload, EXPECTED_UDP_PAYLOAD.to_vec());
    assert_eq!(p.timestamp, 0x65a1be11u64 * 1_000_000_000 + 0x000c1407u64 * 1000);
    assert!(reader.read_packet().unwrap().is_none());
}

#[test]
fn non_ipv4_frames_are_passed_over() {
    let mut bytes = PCAP_ETH1_SINGLE_UDP_PACKET.to_vec();
    bytes[24 + 16 + 12] = 0x86;
    bytes[24 + 16 + 13] = 0xDD;
    let mut reader = PcapReader::new(bytes.clone()).unwrap();
    assert!(reader.read_packet().unwrap().is_none());
    assert!(get_udp_payload_from_packet(1, &bytes[40..]).is_none());
    assert!(get_udp_payload_from_packet(276, &[0u8; 4]).is_none());
    assert!(get_udp_payload_from_packet(7, &bytes[40..]).is_none());
}

#[test]
fn record_longer_than_its_original_is_malformed() {
    let mut bytes = PCAP_ETH1_SINGLE_UDP_PACKET.to_vec();
    // orig_len (bytes 36..40) below incl_len
    bytes[36] = 0x10;
    let mut reader = PcapReader::new(bytes).unwrap();
    assert!(matches!(reader.read_frame(), Err(PcapReaderError::MalformedRecord)));
    assert!(matches!(reader.read_packet(), Err(PcapReaderError::MalformedRecord)));
}

#[test]
fn headers_that_pcap_file_refuses() {
    assert!(matches!(PcapReader::new(PCAP_ETH1_SINGLE_UDP_PACKET[..20].to_vec()), Err(PcapReaderError::BadHeader)));
    let mut other_magic = PCAP_ETH1_SINGLE_UDP_PACKET.to_vec();
    other_magic[0] = 0x00;
    assert!(matches!(PcapReader::new(other_magic), Err(PcapReaderError::BadHeader)));
    let mut raw_ip = PCAP_ETH1_SINGLE_UDP_PACKET.to_vec();
    raw_ip[20] = 101;
    assert!(matches!(PcapReader::new(raw_ip), Err(PcapReaderError::UnsupportedDatalinkType(101))));
}
