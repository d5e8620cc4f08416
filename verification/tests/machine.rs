//! State-machine tests: connection establishment, data flow, timers and
//! teardown, driven through `handle`.

use rax25::state::{
    handle, in_range, new, AwaitingRelease, Connected, ConnectedState, Data, Disconnected, Event,
    Res, ReturnEvent, State,
};
use rax25::{Addr, Iframe, Packet, PacketType, Rr, Sabm, Ua};

fn assert_all(want: &[ReturnEvent], got: &[ReturnEvent], more: &str) {
    for w in want {
        let mut found = false;
        for g in got {
            if g == w {
                found = true;
                break;
            }
        }
        assert!(found, "Did not find {w:?}\ngot: {got:?}");
    }
    assert_eq!(
        want.len(),
        got.len(),
        "got and want different lengths for {more}:\nwant: {want:?}\ngot: {got:?}"
    );
}

fn addr(s: &str) -> Addr {
    Addr::new(s).unwrap()
}

#[test]
fn disconnected_outgoing_timeout() {
    let mut data = Data::new(addr("M0THC-1"));
    let con = State::Disconnected(Disconnected::new());

    // First attempt.
    let (con, events) = handle(
        &con,
        &mut data,
        &Event::Connect { addr: addr("M0THC-2"), ext: false },
        0,
    );
    let con = con.unwrap();
    assert_eq!(con.name(), "AwaitingConnection");
    assert_eq!(data.peer, Some(addr("M0THC-2")));
    assert_all(
        &[ReturnEvent::Packet(Packet {
            src: addr("M0THC-1"),
            dst: addr("M0THC-2"),
            command_response: true,
            command_response_la: false,
            digipeater: vec![],
            rr_dist1: false,
            rr_extseq: false,
            packet_type: PacketType::Sabm(Sabm { poll: true }),
        })],
        &events,
        "connect",
    );

    for retry in 1i32.. {
        let (c2, events) = handle(&con, &mut data, &Event::T1, 0);
        if retry == 10 {
            assert_eq!(c2.unwrap().name(), "Disconnected");
            assert_eq!(data.peer, None);
            break;
        } else {
            assert!(matches!(c2, None));
            assert_eq!(data.peer, Some(addr("M0THC-2")));
            assert_all(
                &[ReturnEvent::Packet(Packet {
                    src: addr("M0THC-1"),
                    dst: addr("M0THC-2"),
                    command_response: true,
                    command_response_la: false,
                    digipeater: vec![],
                    rr_dist1: false,
                    rr_extseq: false,
                    packet_type: PacketType::Sabm(Sabm { poll: true }),
                })],
                &events,
                "connect",
            );
        }
    }
}

#[test]
fn disconnected_incoming() {
    let mut data = Data::new(addr("M0THC-1"));
    data.able_to_establish = true;
    let con = State::Disconnected(Disconnected::new());

    let (con, events) = handle(
        &con,
        &mut data,
        &Event::Sabm(Sabm { poll: true }, addr("M0THC-2")),
        0,
    );
    let con = con.unwrap();
    assert_eq!(con.name(), "Connected");
    assert_eq!(data.peer, Some(addr("M0THC-2")));
    assert_all(
        &[ReturnEvent::Packet(Packet {
            src: addr("M0THC-1"),
            dst: addr("M0THC-2"),
            command_response: false,
            command_response_la: true,
            digipeater: vec![],
            rr_dist1: false,
            rr_extseq: false,
            packet_type: PacketType::Ua(Ua { poll: true }),
        })],
        &events,
        "connect",
    );
}

#[test]
fn connected() {
    let mut data = Data::new(addr("M0THC-1"));
    data.peer = Some(addr("M0THC-2"));
    let con = State::Connected(Connected::new(ConnectedState::Connected));

    // Receive data packet.
    let (c2, events) = handle(
        &con,
        &mut data,
        &Event::Iframe(
            Iframe { nr: 0, ns: 0, poll: true, pid: 0xF0, payload: vec![1, 2, 3] },
            true,
        ),
        0,
    );
    assert!(matches!(c2, None));
    assert_all(
        &[
            ReturnEvent::Data(Res::Bytes(vec![1, 2, 3])),
            ReturnEvent::Packet(Packet {
                src: addr("M0THC-1"),
                dst: addr("M0THC-2"),
                command_response: false,
                command_response_la: true,
                digipeater: vec![],
                rr_dist1: false,
                rr_extseq: false,
                packet_type: PacketType::Rr(Rr { poll: true, nr: 1 }),
            }),
        ],
        &events,
        "iframe",
    );

    // Receive repeated packet.
    let (c2, events) = handle(
        &con,
        &mut data,
        &Event::Iframe(
            Iframe { nr: 0, ns: 0, poll: true, pid: 0xF0, payload: vec![1, 2, 3] },
            true,
        ),
        0,
    );
    assert!(matches!(c2, None));
    assert_all(
        &[ReturnEvent::Packet(Packet {
            src: addr("M0THC-1"),
            dst: addr("M0THC-2"),
            command_response: false,
            command_response_la: true,
            digipeater: vec![],
            rr_dist1: false,
            rr_extseq: false,
            packet_type: PacketType::Rej(rax25::Rej { poll: true, nr: 1 }),
        })],
        &events,
        "iframe",
    );

    // Receive next packet.
    let (c2, events) = handle(
        &con,
        &mut data,
        &Event::Iframe(
            Iframe { nr: 0, ns: 1, poll: true, pid: 0xF0, payload: vec![11, 22, 33] },
            true,
        ),
        0,
    );
    assert!(matches!(c2, None));
    assert_all(
        &[
            ReturnEvent::Data(Res::Bytes(vec![11, 22, 33])),
            ReturnEvent::Packet(Packet {
                src: addr("M0THC-1"),
                dst: addr("M0THC-2"),
                command_response: false,
                command_response_la: true,
                digipeater: vec![],
                rr_dist1: false,
                rr_extseq: false,
                packet_type: PacketType::Rr(Rr { poll: true, nr: 2 }),
            }),
        ],
        &events,
        "iframe",
    );
}

#[test]
fn disconnect() {
    let mut data = Data::new(addr("M0THC-1"));
    data.peer = Some(addr("M0THC-2"));
    let con = State::Connected(Connected::new(ConnectedState::Connected));
    let (c2, events) = handle(&con, &mut data, &Event::Disc(rax25::Disc { poll: true }), 0);
    assert_eq!(c2.unwrap().name(), "Disconnected");
    assert_eq!(data.peer, None);
    assert_all(
        &[
            ReturnEvent::Data(Res::EOF),
            ReturnEvent::Packet(Packet {
                src: addr("M0THC-1"),
                dst: addr("M0THC-2"),
                command_response: false,
                command_response_la: true,
                digipeater: vec![],
                rr_dist1: false,
                rr_extseq: false,
                packet_type: PacketType::Ua(Ua { poll: true }),
            }),
        ],
        &events,
        "disconnect",
    );
}

#[test]
fn write_fragments_and_conserves_bytes() {
    // A 600-byte write in a fresh connection: the window allows all of it,
    // the default MTU cuts it into 256+256+88, and the concatenated frame
    // payloads are the written bytes in order.
    let mut data = Data::new(addr("M0THC-1"));
    data.listen(true);
    let con = new();
    let (con, _events) = handle(
        &con,
        &mut data,
        &Event::Sabm(Sabm { poll: true }, addr("M0THC-2")),
        0,
    );
    let con = con.unwrap();
    assert_eq!(con.name(), "Connected");
    let payload: Vec<u8> = (0..600u32).map(|i| (i % 251) as u8).collect();
    let (c2, events) = handle(&con, &mut data, &Event::Data(payload.clone()), 0);
    assert!(matches!(c2, None));
    let mut sent: Vec<u8> = Vec::new();
    let mut expected_ns: u8 = 0;
    for e in &events {
        match e {
            ReturnEvent::Packet(p) => match &p.packet_type {
                PacketType::Iframe(f) => {
                    assert_eq!(f.ns, expected_ns);
                    assert_eq!(f.nr, 0);
                    assert_eq!(f.pid, 0xF0);
                    assert!(f.payload.len() <= 256);
                    expected_ns += 1;
                    sent.extend(&f.payload);
                }
                other => panic!("unexpected frame {other:?}"),
            },
            other => panic!("unexpected event {other:?}"),
        }
    }
    assert_eq!(expected_ns, 3);
    assert_eq!(sent, payload);

    // An empty write sends nothing.
    let (_c2, events) = handle(&con, &mut data, &Event::Data(vec![]), 0);
    assert_eq!(events.len(), 0);
}

#[test]
fn window_blocks_fifth_frame() {
    // Mod-8 uses a window of four outstanding frames: a fifth frame's worth
    // of bytes stays buffered until an acknowledgement arrives.
    let mut data = Data::new(addr("M0THC-1"));
    data.listen(true);
    let con = new();
    let (con, _ev) = handle(
        &con,
        &mut data,
        &Event::Sabm(Sabm { poll: true }, addr("M0THC-2")),
        0,
    );
    let con = con.unwrap();
    let payload: Vec<u8> = vec![7; 256 * 5];
    let (_c2, events) = handle(&con, &mut data, &Event::Data(payload), 0);
    assert_eq!(events.len(), 4);
    assert_eq!(data.buffered(), 256);
    // Acknowledge the first two frames; the fifth goes out.
    let (_c2, events) = handle(&con, &mut data, &Event::Rr(Rr { poll: false, nr: 2 }, false), 0);
    assert_eq!(events.len(), 1);
    match &events[0] {
        ReturnEvent::Packet(p) => match &p.packet_type {
            PacketType::Iframe(f) => {
                assert_eq!(f.ns, 4);
                assert_eq!(f.payload.len(), 256);
            }
            other => panic!("unexpected frame {other:?}"),
        },
        other => panic!("unexpected event {other:?}"),
    }
}

#[test]
fn in_range_window_checks() {
    // An acknowledgement of nothing is always in range.
    assert!(in_range(0, 0, 5, 8));
    assert!(in_range(6, 6, 2, 8));
    // The full acknowledgement is accepted too.
    assert!(in_range(0, 5, 5, 8));
    // Past the send mark is out of range, as is anything at or above the
    // modulus.
    assert!(!in_range(0, 6, 5, 8));
    assert!(!in_range(0, 8, 5, 8));
    // Wrapped windows.
    assert!(in_range(6, 0, 2, 8));
    assert!(!in_range(6, 3, 2, 8));
}

#[test]
fn timer_recovery_round_trip() {
    // T1 expiry in Connected probes the peer and enters TimerRecovery; the
    // F-bit RR answer with everything acknowledged returns to Connected.
    let mut data = Data::new(addr("M0THC-1"));
    data.listen(true);
    let con = new();
    let (con, _ev) = handle(
        &con,
        &mut data,
        &Event::Sabm(Sabm { poll: true }, addr("M0THC-2")),
        0,
    );
    let con = con.unwrap();
    let (_c, _ev) = handle(&con, &mut data, &Event::Data(vec![1, 2, 3]), 0);
    assert!(data.t1_expired(1_000_000));
    let (c2, events) = handle(&con, &mut data, &Event::T1, 1_000_000);
    let con = c2.unwrap();
    assert_eq!(con.name(), "TimerRecovery");
    assert_all(
        &[ReturnEvent::Packet(Packet {
            src: addr("M0THC-1"),
            dst: addr("M0THC-2"),
            command_response: true,
            command_response_la: false,
            digipeater: vec![],
            rr_dist1: false,
            rr_extseq: false,
            packet_type: PacketType::Rr(Rr { poll: true, nr: 0 }),
        })],
        &events,
        "enquiry",
    );
    let (c2, events) = handle(
        &con,
        &mut data,
        &Event::Rr(Rr { poll: true, nr: 1 }, false),
        1_000_001,
    );
    assert_eq!(c2.unwrap().name(), "Connected");
    assert_eq!(events.len(), 0);
}

#[test]
fn awaiting_release_confirms() {
    let mut data = Data::new(addr("M0THC-1"));
    data.peer = Some(addr("M0THC-2"));
    let con = State::Connected(Connected::new(ConnectedState::Connected));
    let (c2, events) = handle(&con, &mut data, &Event::Disconnect, 0);
    let con = c2.unwrap();
    assert_eq!(con.name(), "AwaitingRelease");
    assert_all(
        &[ReturnEvent::Packet(Packet {
            src: addr("M0THC-1"),
            dst: addr("M0THC-2"),
            command_response: true,
            command_response_la: false,
            digipeater: vec![],
            rr_dist1: false,
            rr_extseq: false,
            packet_type: PacketType::Disc(rax25::Disc { poll: true }),
        })],
        &events,
        "disc",
    );
    let (c2, _events) = handle(&con, &mut data, &Event::Ua(Ua { poll: true }), 1);
    assert_eq!(c2.unwrap().name(), "Disconnected");
    let _ = AwaitingRelease::new();
}

#[test]
fn refused_without_able_to_establish() {
    // An incoming SABM is refused with DM while nothing listens, and the
    // refusal leaves the connection data untouched. The DM reply is
    // addressed to the peer the driver recorded; without one the machine
    // has no addressee and stays silent.
    let mut data = Data::new(addr("M0THC-1"));
    let con = new();
    let (c2, events) = handle(
        &con,
        &mut data,
        &Event::Sabm(Sabm { poll: true }, addr("M0THC-2")),
        0,
    );
    assert!(matches!(c2, None));
    assert_eq!(events.len(), 0);
    assert_eq!(data.peer, None);
    data.peer = Some(addr("M0THC-2"));
    let (c2, events) = handle(
        &con,
        &mut data,
        &Event::Sabm(Sabm { poll: true }, addr("M0THC-2")),
        0,
    );
    assert!(matches!(c2, None));
    assert_all(
        &[ReturnEvent::Packet(Packet {
            src: addr("M0THC-1"),
            dst: addr("M0THC-2"),
            command_response: false,
            command_response_la: true,
            digipeater: vec![],
            rr_dist1: false,
            rr_extseq: false,
            packet_type: PacketType::Dm(rax25::Dm { poll: true }),
        })],
        &events,
        "dm",
    );
}

#[test]
fn timers_and_events() {
    let mut data = Data::new(addr("M0THC-1"));
    assert_eq!(data.next_timer_remaining(0), None);
    assert!(!data.t1_expired(0));
    assert!(!data.t3_expired(0));
    assert_eq!(data.active_timers(0).len(), 0);
    assert!(!data.ext());
    // Connecting starts T1 with the default smoothed round-trip time.
    let con = new();
    let (_c2, _ev) = handle(
        &con,
        &mut data,
        &Event::Connect { addr: addr("M0THC-2"), ext: false },
        1000,
    );
    assert_eq!(data.next_timer_remaining(1000), Some(3000));
    assert_eq!(data.next_timer_remaining(2500), Some(1500));
    assert!(!data.t1_expired(4000));
    assert!(data.t1_expired(4001));
    let fired = data.active_timers(5000);
    assert_eq!(fired.len(), 1);
    assert!(matches!(fired[0], Event::T1));
}

#[test]
fn extended_connect_uses_mod_128() {
    let mut data = Data::new(addr("M0THC-1"));
    let con = new();
    let (c2, _ev) = handle(
        &con,
        &mut data,
        &Event::Connect { addr: addr("M0THC-2"), ext: true },
        0,
    );
    assert_eq!(c2.unwrap().name(), "AwaitingConnection");
    assert!(data.ext());
}

#[test]
fn dlerror_messages_name_their_code() {
    assert!(rax25::state::DlError::J.message().starts_with("J:"));
    assert!(rax25::state::DlError::G.message().contains("timed out"));
}
