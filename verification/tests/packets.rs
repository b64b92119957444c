use snmidi::data_packet::{Kind, Packet};

fn datagram(kind: u8, seqnum: u32, payload: &[u8]) -> Vec<u8> {
    let mut bytes = vec![b'S', b'N', b'M', kind];
    bytes.extend_from_slice(&seqnum.to_be_bytes());
    bytes.extend_from_slice(payload);
    bytes
}

#[test]
fn reads_an_instant_header() {
    let bytes = datagram(b'i', 0xDEAD_BEEF, &[0x90, 0x3C, 0x7F]);
    let packet = Packet::parse_header(&bytes).unwrap();
    assert_eq!(packet.seqnum, 0xDEAD_BEEF);
    assert!(matches!(packet.kind, Kind::Instant { reset_queue: false }));
    assert_eq!(packet.data, &[0x90, 0x3C, 0x7F]);
}

#[test]
fn reads_a_reset_header() {
    let bytes = datagram(b'r', 7, &[]);
    let packet = Packet::parse_header(&bytes).unwrap();
    assert_eq!(packet.seqnum, 7);
    assert!(matches!(packet.kind, Kind::Instant { reset_queue: true }));
    assert!(packet.data.is_empty());
}

#[test]
fn reads_a_queue_header() {
    let bytes = datagram(b'q', 0x0102_0304, &[1]);
    let packet = Packet::parse_header(&bytes).unwrap();
    assert_eq!(packet.seqnum, 0x0102_0304);
    assert!(matches!(packet.kind, Kind::Queue));
    assert_eq!(packet.data, &[1]);
}

#[test]
fn header_read_back_for_every_byte_of_the_number() {
    for seqnum in [0, 1, 0xFF, 0x100, 0xFFFF, 0x1_0000, 0xFF_FFFF, 0x100_0000, u32::MAX] {
        let bytes = datagram(b'i', seqnum, &[9, 8]);
        assert_eq!(Packet::parse_header(&bytes).unwrap().seqnum, seqnum);
    }
}

#[test]
fn refuses_short_datagrams() {
    let bytes = datagram(b'i', 0, &[]);
    for len in 0..8 {
        assert!(Packet::parse_header(&bytes[..len]).is_none());
    }
    assert!(Packet::parse_header(&bytes).is_some());
}

#[test]
fn refuses_a_wrong_magic() {
    for at in 0..3 {
        let mut bytes = datagram(b'i', 0, &[]);
        bytes[at] += 1;
        assert!(Packet::parse_header(&bytes).is_none());
    }
}

#[test]
fn refuses_an_unknown_kind() {
    for kind in 0..=255u8 {
        let known = [b'i', b'q', b'r'].contains(&kind);
        let bytes = datagram(kind, 0, &[]);
        assert_eq!(Packet::parse_header(&bytes).is_some(), known);
    }
}
