//! Address, frame and KISS codec tests.

use rax25::state::{DEFAULT_MTU_OUT, DEFAULT_SRT_MS};
use rax25::{escape, find_frame, kisser_read, unescape};
use rax25::{Addr, AddrError, Iframe, Packet, PacketType, ParseError, Sabm, Ua};

#[test]
fn addr_serial() {
    let a = Addr::new("M0THC").unwrap().serialize(true, false, false, false);
    assert_eq!(a, vec![154, 96, 168, 144, 134, 64, 97]);
    assert_eq!(Addr::parse(&a).unwrap().call(), "M0THC");

    let a = Addr::new("M0THC-0").unwrap().serialize(true, false, false, false);
    assert_eq!(a, vec![154, 96, 168, 144, 134, 64, 97]);
    assert_eq!(Addr::parse(&a).unwrap().call(), "M0THC");

    let a = Addr::new("M0THC-1").unwrap().serialize(true, false, false, false);
    assert_eq!(a, vec![154, 96, 168, 144, 134, 64, 99]);
    assert_eq!(Addr::parse(&a).unwrap().call(), "M0THC-1");

    let a = Addr::new("M0THC-2").unwrap().serialize(false, true, false, false);
    assert_eq!(a, vec![154, 96, 168, 144, 134, 64, 100 + 0x80]);
    assert_eq!(Addr::parse(&a).unwrap().call(), "M0THC-2");

    let a = Addr::new("M0THC-3").unwrap().serialize(false, false, true, false);
    assert_eq!(a, vec![154, 96, 168, 144, 134, 64, 38]);
    assert_eq!(Addr::parse(&a).unwrap().call(), "M0THC-3");

    let a = Addr::new("M0THC-4").unwrap().serialize(false, false, false, true);
    assert_eq!(a, vec![154, 96, 168, 144, 134, 64, 72]);
    assert_eq!(Addr::parse(&a).unwrap().call(), "M0THC-4");
}

#[test]
fn serialize_sabm() {
    let src = Addr::new("M0THC-1").unwrap();
    let dst = Addr::new("M0THC-2").unwrap();
    assert_eq!(
        Packet {
            src: src.clone(),
            dst: dst.clone(),
            command_response: true,
            command_response_la: false,
            rr_dist1: false,
            rr_extseq: false,
            digipeater: vec![],
            packet_type: PacketType::Sabm(Sabm { poll: true })
        }
        .serialize(false),
        vec![154, 96, 168, 144, 134, 64, 228, 154, 96, 168, 144, 134, 64, 99, 63],
    );
    assert_eq!(
        Packet {
            command_response: true,
            command_response_la: false,
            digipeater: vec![],
            rr_dist1: false,
            rr_extseq: false,
            src,
            dst,
            packet_type: PacketType::Sabm(Sabm { poll: false })
        }
        .serialize(false),
        vec![154, 96, 168, 144, 134, 64, 228, 154, 96, 168, 144, 134, 64, 99, 47],
    );
}

#[test]
fn addr_rejects_bad_callsigns() {
    assert_eq!(Addr::new("M0"), Err(AddrError::InvalidCallsign));
    assert_eq!(Addr::new("TOOLONGCALL"), Err(AddrError::InvalidCallsign));
    assert_eq!(Addr::new("M0THC-16"), Err(AddrError::InvalidCallsign));
    assert_eq!(Addr::new("M0 THC"), Err(AddrError::InvalidCallsign));
    assert_eq!(Addr::new(""), Err(AddrError::InvalidCallsign));
    assert!(Addr::new("m0thc-9").is_ok());
    assert_eq!(Addr::new("m0thc-9").unwrap().call(), "M0THC-9");
    assert_eq!(
        Addr::parse(&[154, 96, 168]),
        Err(AddrError::InvalidLength)
    );
}

#[test]
fn parse_error_cases() {
    assert_eq!(Packet::parse(&[0u8; 5]), Err(ParseError::TooShort));
    // A one-octet U control that no frame type uses: 0b0101_0111.
    let src = Addr::new("M0THC-1").unwrap();
    let dst = Addr::new("M0THC-2").unwrap();
    let mut bytes = dst.serialize(false, true, false, false);
    bytes.extend(src.serialize(true, false, false, false));
    bytes.push(0b0101_0111);
    assert_eq!(Packet::parse(&bytes), Err(ParseError::UnknownControl));
    // Address bytes that decode to no grammatical callsign.
    let mut bad = vec![1, 1, 1, 1, 1, 1, 1];
    bad.extend(src.serialize(true, false, false, false));
    bad.push(0x3F);
    assert_eq!(Packet::parse(&bad), Err(ParseError::BadAddress));
}

#[test]
fn packet_parse_serialize_round_trip() {
    // An I frame with payload survives a parse, serialize, re-parse cycle.
    let src = Addr::new("M0THC-1").unwrap();
    let dst = Addr::new("M0THC-2").unwrap();
    let p = Packet {
        src,
        dst,
        command_response: true,
        command_response_la: false,
        rr_dist1: false,
        rr_extseq: false,
        digipeater: vec![],
        packet_type: PacketType::Iframe(Iframe {
            nr: 3,
            ns: 5,
            poll: true,
            pid: 0xF0,
            payload: vec![9, 8, 7],
        }),
    };
    let bytes = p.serialize(false);
    // Parsing reads the address bits off the wire, so the first parse is
    // compared field by field; after that the parsed image is a fixpoint.
    let q = Packet::parse(&bytes).unwrap();
    assert_eq!(q.packet_type, p.packet_type);
    assert_eq!(q.src.call(), "M0THC-1");
    assert_eq!(q.dst.call(), "M0THC-2");
    assert!(q.command_response);
    assert!(!q.command_response_la);
    let again = Packet::parse(&q.serialize(false)).unwrap();
    assert_eq!(q, again);
}

#[test]
fn extended_sabm_serializes_as_sabme() {
    let src = Addr::new("M0THC-1").unwrap();
    let dst = Addr::new("M0THC-2").unwrap();
    let p = Packet {
        src,
        dst,
        command_response: true,
        command_response_la: false,
        rr_dist1: false,
        rr_extseq: true,
        digipeater: vec![],
        packet_type: PacketType::Sabm(Sabm { poll: false }),
    };
    let bytes = p.serialize(true);
    assert_eq!(*bytes.last().unwrap(), 0b0110_1111);
    // The reserved bit of the source address marks extended mode (inverted).
    assert_eq!(bytes[13] & 0b0100_0000, 0);
    let q = Packet::parse(&bytes).unwrap();
    assert!(matches!(q.packet_type, PacketType::Sabme(_)));
    assert!(q.rr_extseq);
}

#[test]
fn extended_iframe_round_trip() {
    let src = Addr::new("M0THC-1").unwrap();
    let dst = Addr::new("M0THC-2").unwrap();
    let p = Packet {
        src,
        dst,
        command_response: true,
        command_response_la: false,
        rr_dist1: false,
        rr_extseq: true,
        digipeater: vec![],
        packet_type: PacketType::Iframe(Iframe {
            nr: 100,
            ns: 77,
            poll: true,
            pid: 0xF0,
            payload: vec![1, 2, 3, 4],
        }),
    };
    let bytes = p.serialize(true);
    let q = Packet::parse(&bytes).unwrap();
    assert_eq!(q.packet_type, p.packet_type);
    assert!(q.rr_extseq);
    let again = Packet::parse(&q.serialize(true)).unwrap();
    assert_eq!(q, again);
}

#[test]
fn kiss_escape_unescape() {
    let frame = vec![1, 0xC0, 2, 0xDB, 3];
    let escaped = escape(&frame);
    assert_eq!(escaped[0], 0xC0);
    assert_eq!(escaped[1], 0);
    assert_eq!(*escaped.last().unwrap(), 0xC0);
    // The inner bytes unescape back to the frame.
    let inner = &escaped[2..escaped.len() - 1];
    assert_eq!(unescape(inner), Some(frame));
    // A dangling escape is an error.
    assert_eq!(unescape(&[1, 2, 0xDB]), None);
    assert_eq!(unescape(&[0xDB, 0x55]), None);
}

#[test]
fn find_frame_locates_delimiters() {
    let buf = vec![7, 0xC0, 1, 2, 3, 0xC0, 9];
    assert_eq!(find_frame(&buf), Some((1, 5)));
    assert_eq!(find_frame(&vec![1, 2, 3]), None);
    assert_eq!(find_frame(&vec![0xC0, 1, 2]), None);
}

#[test]
fn kisser_read_extracts_packets() {
    let src = Addr::new("M0THC-1").unwrap();
    let dst = Addr::new("M0THC-2").unwrap();
    let p = Packet {
        src,
        dst,
        command_response: true,
        command_response_la: false,
        rr_dist1: false,
        rr_extseq: false,
        digipeater: vec![],
        packet_type: PacketType::Ua(Ua { poll: true }),
    };
    let mut buf = escape(&p.serialize(false));
    buf.push(0x55);
    let packets = kisser_read(&mut buf);
    assert_eq!(packets.len(), 1);
    assert_eq!(packets[0].packet_type, p.packet_type);
    assert_eq!(packets[0].src.call(), "M0THC-1");
    assert_eq!(packets[0].dst.call(), "M0THC-2");
    // The trailing junk byte is the unconsumed tail.
    assert_eq!(buf, vec![0xC0, 0x55]);
    // Junk shorter than a frame is dropped; a lone delimiter may remain.
    let mut junk = vec![0xC0, 1, 2, 0xC0];
    assert_eq!(kisser_read(&mut junk).len(), 0);
}

#[test]
fn kisser_read_keeps_stream_order() {
    // Two back-to-back frames come out as two packets, oldest first.
    let src = Addr::new("M0THC-1").unwrap();
    let dst = Addr::new("M0THC-2").unwrap();
    let mk = |nr: u8| Packet {
        src: src.clone(),
        dst: dst.clone(),
        command_response: false,
        command_response_la: true,
        rr_dist1: false,
        rr_extseq: false,
        digipeater: vec![],
        packet_type: PacketType::Rr(rax25::Rr { poll: false, nr }),
    };
    let mut buf = escape(&mk(1).serialize(false));
    buf.extend(escape(&mk(2).serialize(false)));
    let packets = kisser_read(&mut buf);
    assert_eq!(packets.len(), 2);
    assert_eq!(packets[0].packet_type, PacketType::Rr(rax25::Rr { poll: false, nr: 1 }));
    assert_eq!(packets[1].packet_type, PacketType::Rr(rax25::Rr { poll: false, nr: 2 }));
}

#[test]
fn iframe_pid_comes_off_the_wire() {
    // The PID is the first byte after the control field; a non-default PID
    // survives parsing.
    let src = Addr::new("M0THC-1").unwrap();
    let dst = Addr::new("M0THC-2").unwrap();
    let p = Packet {
        src,
        dst,
        command_response: true,
        command_response_la: false,
        rr_dist1: false,
        rr_extseq: false,
        digipeater: vec![],
        packet_type: PacketType::Iframe(Iframe {
            nr: 0,
            ns: 0,
            poll: false,
            pid: 0xCC,
            payload: vec![5, 6],
        }),
    };
    let q = Packet::parse(&p.serialize(false)).unwrap();
    match q.packet_type {
        PacketType::Iframe(f) => {
            assert_eq!(f.pid, 0xCC);
            assert_eq!(f.payload, vec![5, 6]);
        }
        other => panic!("unexpected frame {other:?}"),
    }
}

#[test]
fn pcap_byte_format() {
    let header = rax25::pcap::pcap_header();
    assert_eq!(header.len(), 24);
    assert_eq!(&header[0..4], &[0xd4, 0xc3, 0xb2, 0xa1]);
    assert_eq!(&header[4..8], &[2, 0, 4, 0]);
    assert_eq!(&header[16..20], &[0xff, 0xff, 0, 0]);
    assert_eq!(&header[20..24], &[3, 0, 0, 0]);
    let rec = rax25::pcap::pcap_record_header(0x01020304, 7, 42);
    assert_eq!(&rec[0..4], &[4, 3, 2, 1]);
    assert_eq!(&rec[4..8], &[7, 0, 0, 0]);
    assert_eq!(&rec[8..12], &[42, 0, 0, 0]);
    assert_eq!(&rec[12..16], &[42, 0, 0, 0]);
    let mut out = Vec::new();
    rax25::pcap::write_u16(&mut out, 0xABCD);
    rax25::pcap::write_u32(&mut out, 0x11223344);
    assert_eq!(out, vec![0xCD, 0xAB, 0x44, 0x33, 0x22, 0x11]);
}

#[test]
fn defaults_are_as_documented() {
    assert_eq!(DEFAULT_MTU_OUT, 256);
    assert_eq!(DEFAULT_SRT_MS, 3000);
}
