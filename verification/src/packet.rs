//! AX.25 frames: the packet data model and the wire codec for U, S and I
//! frames, in both mod-8 and mod-128 (extended) control-field layouts.

use vstd::prelude::*;

use crate::addr::{ser_addr, spec_parse_addr, Addr, AddrV};

verus! {

// Unnumbered-frame control values (low two bits 11), poll bit masked off.
pub const CONTROL_SABM: u8 = 0x2F;

pub const CONTROL_SABME: u8 = 0x6F;

pub const CONTROL_UI: u8 = 0x03;

pub const CONTROL_DISC: u8 = 0x43;

pub const CONTROL_DM: u8 = 0x0F;

pub const CONTROL_UA: u8 = 0x63;

pub const CONTROL_TEST: u8 = 0xE3;

pub const CONTROL_XID: u8 = 0xAF;

pub const CONTROL_FRMR: u8 = 0x87;

// Supervisory-frame control values (low two bits 01).
pub const CONTROL_RR: u8 = 0x01;

pub const CONTROL_RNR: u8 = 0x05;

pub const CONTROL_REJ: u8 = 0x09;

pub const CONTROL_SREJ: u8 = 0x0D;

// Information frames have a zero low bit.
pub const CONTROL_IFRAME: u8 = 0x00;

/// The poll/final bit of a one-octet control field.
pub const CONTROL_POLL: u8 = 0x10;

/// The N(R) bits of a one-octet control field.
pub const NR_MASK: u8 = 0xE0;

/// The frame-class bits of the first control octet.
pub const TYPE_MASK: u8 = 0x03;

/// PID for "no layer 3".
pub const NO_L3: u8 = 0xF0;

/// Errors from frame parsing.
#[derive(Debug, Clone, Copy, PartialEq, Eq)]
pub enum ParseError {
    /// The frame is shorter than its layout requires.
    TooShort,
    /// An address field does not decode to a valid callsign.
    BadAddress,
    /// The control field names an unnumbered frame this codec does not know.
    UnknownControl,
}

/// SABM - Set Asynchronous Balanced Mode.
#[derive(Clone, Copy, Debug, PartialEq, Eq)]
pub struct Sabm {
    pub poll: bool,
}

/// SABME - Set Asynchronous Balanced Mode Extended.
#[derive(Clone, Copy, Debug, PartialEq, Eq)]
pub struct Sabme {
    pub poll: bool,
}

/// RR - Receiver Ready: an acknowledgement carrying N(R).
#[derive(Clone, Copy, Debug, PartialEq, Eq)]
pub struct Rr {
    pub poll: bool,
    pub nr: u8,
}

/// REJ - Reject: ask for retransmission from N(R).
#[derive(Clone, Copy, Debug, PartialEq, Eq)]
pub struct Rej {
    pub poll: bool,
    pub nr: u8,
}

/// SREJ - Selective reject: ask for retransmission of a single frame.
#[derive(Clone, Copy, Debug, PartialEq, Eq)]
pub struct Srej {
    pub poll: bool,
    pub nr: u8,
}

/// RNR - Receiver Not Ready: like RR, but asks the sender to pause.
#[derive(Clone, Copy, Debug, PartialEq, Eq)]
pub struct Rnr {
    pub poll: bool,
    pub nr: u8,
}

/// FRMR - deprecated error report; parsed but never generated.
#[derive(Clone, Copy, Debug, PartialEq, Eq)]
pub struct Frmr {
    pub poll: bool,
}

/// XID - Exchange Identification; recognised but not negotiated.
#[derive(Clone, Copy, Debug, PartialEq, Eq)]
pub struct Xid {
    pub poll: bool,
}

/// UA - Unnumbered Acknowledge.
#[derive(Clone, Copy, Debug, PartialEq, Eq)]
pub struct Ua {
    pub poll: bool,
}

/// DM - Disconnected Mode.
#[derive(Clone, Copy, Debug, PartialEq, Eq)]
pub struct Dm {
    pub poll: bool,
}

/// DISC - Disconnect.
#[derive(Clone, Copy, Debug, PartialEq, Eq)]
pub struct Disc {
    pub poll: bool,
}

/// TEST - a ping whose payload is mirrored back.
#[derive(Debug, PartialEq, Eq)]
pub struct Test {
    pub poll: bool,
    pub payload: Vec<u8>,
}

/// UI - Unnumbered Information, outside the sequenced data flow.
#[derive(Debug, PartialEq, Eq)]
pub struct Ui {
    pub push: bool,
    pub payload: Vec<u8>,
}

/// I frame - sequenced information, carrying N(S), N(R) and a payload.
#[derive(Debug, PartialEq, Eq)]
pub struct Iframe {
    pub nr: u8,
    pub ns: u8,
    pub poll: bool,
    pub pid: u8,
    pub payload: Vec<u8>,
}

/// The view of a TEST frame.
pub ghost struct TestV {
    pub poll: bool,
    pub payload: Seq<u8>,
}

/// The view of a UI frame.
pub ghost struct UiV {
    pub push: bool,
    pub payload: Seq<u8>,
}

/// The view of an I frame.
pub ghost struct IframeV {
    pub nr: u8,
    pub ns: u8,
    pub poll: bool,
    pub pid: u8,
    pub payload: Seq<u8>,
}

impl View for Test {
    type V = TestV;

    open spec fn view(&self) -> TestV {
        TestV { poll: self.poll, payload: self.payload@ }
    }
}

impl View for Ui {
    type V = UiV;

    open spec fn view(&self) -> UiV {
        UiV { push: self.push, payload: self.payload@ }
    }
}

impl View for Iframe {
    type V = IframeV;

    open spec fn view(&self) -> IframeV {
        IframeV {
            nr: self.nr,
            ns: self.ns,
            poll: self.poll,
            pid: self.pid,
            payload: self.payload@,
        }
    }
}

impl Clone for Test {
    fn clone(&self) -> (r: Self)
        ensures
            r@ == self@,
    {
        Test { poll: self.poll, payload: crate::addr::copy_bytes_vec(&self.payload) }
    }
}

impl Clone for Ui {
    fn clone(&self) -> (r: Self)
        ensures
            r@ == self@,
    {
        Ui { push: self.push, payload: crate::addr::copy_bytes_vec(&self.payload) }
    }
}

impl Clone for Iframe {
    fn clone(&self) -> (r: Self)
        ensures
            r@ == self@,
    {
        Iframe {
            nr: self.nr,
            ns: self.ns,
            poll: self.poll,
            pid: self.pid,
            payload: crate::addr::copy_bytes_vec(&self.payload),
        }
    }
}

/// All frame types.
#[derive(Debug, PartialEq, Eq)]
pub enum PacketType {
    Sabm(Sabm),
    Sabme(Sabme),
    Ua(Ua),
    Dm(Dm),
    Disc(Disc),
    Iframe(Iframe),
    Rr(Rr),
    Rnr(Rnr),
    Rej(Rej),
    Srej(Srej),
    Frmr(Frmr),
    Xid(Xid),
    Ui(Ui),
    Test(Test),
}

/// The view of a frame type.
pub ghost enum PacketTypeV {
    Sabm(Sabm),
    Sabme(Sabme),
    Ua(Ua),
    Dm(Dm),
    Disc(Disc),
    Iframe(IframeV),
    Rr(Rr),
    Rnr(Rnr),
    Rej(Rej),
    Srej(Srej),
    Frmr(Frmr),
    Xid(Xid),
    Ui(UiV),
    Test(TestV),
}

impl View for PacketType {
    type V = PacketTypeV;

    open spec fn view(&self) -> PacketTypeV {
        match self {
            PacketType::Sabm(p) => PacketTypeV::Sabm(*p),
            PacketType::Sabme(p) => PacketTypeV::Sabme(*p),
            PacketType::Ua(p) => PacketTypeV::Ua(*p),
            PacketType::Dm(p) => PacketTypeV::Dm(*p),
            PacketType::Disc(p) => PacketTypeV::Disc(*p),
            PacketType::Iframe(p) => PacketTypeV::Iframe(p@),
            PacketType::Rr(p) => PacketTypeV::Rr(*p),
            PacketType::Rnr(p) => PacketTypeV::Rnr(*p),
            PacketType::Rej(p) => PacketTypeV::Rej(*p),
            PacketType::Srej(p) => PacketTypeV::Srej(*p),
            PacketType::Frmr(p) => PacketTypeV::Frmr(*p),
            PacketType::Xid(p) => PacketTypeV::Xid(*p),
            PacketType::Ui(p) => PacketTypeV::Ui(p@),
            PacketType::Test(p) => PacketTypeV::Test(p@),
        }
    }
}

/// An AX.25 packet of any type.
#[derive(Debug, PartialEq, Eq)]
pub struct Packet {
    pub src: Addr,
    pub dst: Addr,
    pub digipeater: Vec<Addr>,
    pub rr_extseq: bool,
    pub command_response: bool,
    pub command_response_la: bool,
    pub rr_dist1: bool,
    pub packet_type: PacketType,
}

/// The view of a packet.
pub ghost struct PacketV {
    pub src: AddrV,
    pub dst: AddrV,
    pub digipeater: Seq<AddrV>,
    pub rr_extseq: bool,
    pub command_response: bool,
    pub command_response_la: bool,
    pub rr_dist1: bool,
    pub packet_type: PacketTypeV,
}

impl View for Packet {
    type V = PacketV;

    open spec fn view(&self) -> PacketV {
        PacketV {
            src: self.src@,
            dst: self.dst@,
            digipeater: self.digipeater@.map_values(|a: Addr| a@),
            rr_extseq: self.rr_extseq,
            command_response: self.command_response,
            command_response_la: self.command_response_la,
            rr_dist1: self.rr_dist1,
            packet_type: self.packet_type@,
        }
    }
}

/// The poll/final bit as a one-octet control-field mask.
pub open spec fn poll_bit(poll: bool) -> u8 {
    if poll {
        CONTROL_POLL
    } else {
        0
    }
}

/// The second control octet of an extended S or I frame: 7-bit N(R) shifted
/// up, poll/final at the bottom.
pub open spec fn ext_ctl2(nr: u8, poll: bool) -> u8 {
    ((nr << 1) & 0xFE) | (if poll {
        1u8
    } else {
        0u8
    })
}

/// A one-octet S-frame control field: type bits, poll bit, 3-bit N(R) on top.
pub open spec fn s_ctl8(base: u8, nr: u8, poll: bool) -> u8 {
    base | poll_bit(poll) | ((nr << 5) & NR_MASK)
}

/// The control and information bytes of a frame body, after the address
/// fields.
pub open spec fn ser_body(t: PacketTypeV, ext: bool) -> Seq<u8> {
    match t {
        PacketTypeV::Sabm(s) => seq![
            (if ext {
                CONTROL_SABME
            } else {
                CONTROL_SABM
            }) | poll_bit(s.poll),
        ],
        PacketTypeV::Sabme(s) => seq![CONTROL_SABME | poll_bit(s.poll)],
        PacketTypeV::Ua(s) => seq![CONTROL_UA | poll_bit(s.poll)],
        PacketTypeV::Disc(s) => seq![CONTROL_DISC | poll_bit(s.poll)],
        PacketTypeV::Dm(s) => seq![CONTROL_DM | poll_bit(s.poll)],
        PacketTypeV::Frmr(s) => seq![CONTROL_FRMR | poll_bit(s.poll)],
        PacketTypeV::Ui(s) => seq![CONTROL_UI | poll_bit(s.push)] + s.payload,
        PacketTypeV::Xid(s) => seq![CONTROL_XID | poll_bit(s.poll)],
        PacketTypeV::Test(s) => seq![CONTROL_TEST | poll_bit(s.poll)] + s.payload,
        PacketTypeV::Rr(s) => if ext {
            seq![CONTROL_RR, ext_ctl2(s.nr, s.poll)]
        } else {
            seq![s_ctl8(CONTROL_RR, s.nr, s.poll)]
        },
        PacketTypeV::Rnr(s) => if ext {
            seq![CONTROL_RNR, ext_ctl2(s.nr, s.poll)]
        } else {
            seq![s_ctl8(CONTROL_RNR, s.nr, s.poll)]
        },
        PacketTypeV::Rej(s) => if ext {
            seq![CONTROL_REJ, ext_ctl2(s.nr, s.poll)]
        } else {
            seq![s_ctl8(CONTROL_REJ, s.nr, s.poll)]
        },
        PacketTypeV::Srej(s) => if ext {
            seq![CONTROL_SREJ, ext_ctl2(s.nr, s.poll)]
        } else {
            seq![s_ctl8(CONTROL_SREJ, s.nr, s.poll)]
        },
        PacketTypeV::Iframe(s) => (if ext {
            seq![CONTROL_IFRAME | ((s.ns << 1) & 0xFE), ext_ctl2(s.nr, s.poll)]
        } else {
            seq![CONTROL_IFRAME | poll_bit(s.poll) | ((s.nr << 5) & NR_MASK) | ((s.ns << 1) & 0x0E)]
        }) + seq![s.pid] + s.payload,
    }
}

/// The full wire form of a packet: destination and source address fields,
/// then the frame body.
pub open spec fn ser_packet(p: PacketV, ext: bool) -> Seq<u8> {
    ser_addr(p.dst.call, false, p.command_response, p.rr_dist1, false) + ser_addr(
        p.src.call,
        p.digipeater.len() == 0,
        p.command_response_la,
        ext,
        false,
    ) + ser_body(p.packet_type, ext)
}

/// Classify and decode the frame body once the addresses and control fields
/// are in hand. `rest` is everything after the control octets.
pub open spec fn spec_parse_body(
    c1: u8,
    poll: bool,
    nr: u8,
    ns: u8,
    rest: Seq<u8>,
) -> Result<PacketTypeV, ParseError> {
    if c1 & TYPE_MASK == 0 || c1 & TYPE_MASK == 2 {
        if rest.len() < 1 {
            Err(ParseError::TooShort)
        } else {
            Ok(
                PacketTypeV::Iframe(
                    IframeV { ns, nr, poll, pid: rest[0], payload: rest.skip(1) },
                ),
            )
        }
    } else if c1 & TYPE_MASK == 1 {
        let s = c1 & !NR_MASK & !CONTROL_POLL;
        if s == CONTROL_RR {
            Ok(PacketTypeV::Rr(Rr { nr, poll }))
        } else if s == CONTROL_RNR {
            Ok(PacketTypeV::Rnr(Rnr { nr, poll }))
        } else if s == CONTROL_REJ {
            Ok(PacketTypeV::Rej(Rej { nr, poll }))
        } else {
            Ok(PacketTypeV::Srej(Srej { nr, poll }))
        }
    } else {
        let u = c1 & !CONTROL_POLL;
        if u == CONTROL_SABME {
            Ok(PacketTypeV::Sabme(Sabme { poll }))
        } else if u == CONTROL_SABM {
            Ok(PacketTypeV::Sabm(Sabm { poll }))
        } else if u == CONTROL_UA {
            Ok(PacketTypeV::Ua(Ua { poll }))
        } else if u == CONTROL_DISC {
            Ok(PacketTypeV::Disc(Disc { poll }))
        } else if u == CONTROL_DM {
            Ok(PacketTypeV::Dm(Dm { poll }))
        } else if u == CONTROL_FRMR {
            Ok(PacketTypeV::Frmr(Frmr { poll }))
        } else if u == CONTROL_UI {
            Ok(PacketTypeV::Ui(UiV { push: poll, payload: rest }))
        } else if u == CONTROL_XID {
            Ok(PacketTypeV::Xid(Xid { poll }))
        } else if u == CONTROL_TEST {
            Ok(PacketTypeV::Test(TestV { poll, payload: rest }))
        } else {
            Err(ParseError::UnknownControl)
        }
    }
}

/// What parsing a byte string as an AX.25 frame yields. The source address's
/// extended bit selects the mod-128 control layout for S and I frames.
pub open spec fn spec_parse_packet(b: Seq<u8>) -> Result<PacketV, ParseError> {
    if b.len() < 15 {
        Err(ParseError::TooShort)
    } else {
        match (spec_parse_addr(b.subrange(0, 7)), spec_parse_addr(b.subrange(7, 14))) {
            (Some(dst), Some(src)) => {
                let ext = src.rbit_ext;
                let c1 = b[14];
                let body = if !ext || c1 & TYPE_MASK == 3 {
                    spec_parse_body(
                        c1,
                        c1 & CONTROL_POLL == CONTROL_POLL,
                        (c1 >> 5) & 7,
                        (c1 >> 1) & 7,
                        b.subrange(15, b.len() as int),
                    )
                } else if b.len() < 16 {
                    Err(ParseError::TooShort)
                } else {
                    let c2 = b[15];
                    spec_parse_body(
                        c1,
                        c2 & 1 == 1,
                        (c2 >> 1) & 127,
                        (c1 >> 1) & 127,
                        b.subrange(16, b.len() as int),
                    )
                };
                match body {
                    Ok(t) => Ok(
                        PacketV {
                            src,
                            dst,
                            digipeater: Seq::empty(),
                            command_response: dst.highbit,
                            command_response_la: src.highbit,
                            rr_dist1: dst.rbit_ext,
                            rr_extseq: ext,
                            packet_type: t,
                        },
                    ),
                    Err(e) => Err(e),
                }
            },
            _ => Err(ParseError::BadAddress),
        }
    }
}

/// A packet that can appear on the wire as this codec writes it: addresses
/// are grammatical with no `-0` suffix, the packet-level flags agree with the
/// address bits they are carried in, exactly one of the command/response bits
/// is set, and sequence numbers fit the modulus. An extended SABM is
/// excluded: it serializes as SABME.
pub open spec fn wire_wf(p: PacketV) -> bool {
    &&& crate::addr::valid_call(p.dst.call)
    &&& crate::addr::valid_call(p.src.call)
    &&& (crate::addr::has_dash(p.dst.call) ==> crate::addr::ssid_of(p.dst.call) != 0)
    &&& (crate::addr::has_dash(p.src.call) ==> crate::addr::ssid_of(p.src.call) != 0)
    &&& p.dst.lowbit == false
    &&& p.dst.rbit_dama == false
    &&& p.dst.highbit == p.command_response
    &&& p.dst.rbit_ext == p.rr_dist1
    &&& p.src.lowbit == true
    &&& p.src.rbit_dama == false
    &&& p.src.highbit == p.command_response_la
    &&& p.src.rbit_ext == p.rr_extseq
    &&& p.command_response != p.command_response_la
    &&& p.digipeater.len() == 0
    &&& (p.packet_type matches PacketTypeV::Iframe(s) ==> (if p.rr_extseq {
        s.nr < 128 && s.ns < 128
    } else {
        s.nr < 8 && s.ns < 8
    }))
    &&& (p.packet_type matches PacketTypeV::Rr(s) ==> (if p.rr_extseq {
        s.nr < 128
    } else {
        s.nr < 8
    }))
    &&& (p.packet_type matches PacketTypeV::Rnr(s) ==> (if p.rr_extseq {
        s.nr < 128
    } else {
        s.nr < 8
    }))
    &&& (p.packet_type matches PacketTypeV::Rej(s) ==> (if p.rr_extseq {
        s.nr < 128
    } else {
        s.nr < 8
    }))
    &&& (p.packet_type matches PacketTypeV::Srej(s) ==> (if p.rr_extseq {
        s.nr < 128
    } else {
        s.nr < 8
    }))
    &&& !(p.packet_type is Sabm && p.rr_extseq)
}

/// Unnumbered control bytes keep their class and value under the poll bit.
proof fn lemma_u_ctl(pb: u8)
    by (bit_vector)
    requires
        pb == 0 || pb == 0x10,
    ensures
        (0x2Fu8 | pb) & 3 == 3 && (0x2Fu8 | pb) & !0x10u8 == 0x2Fu8,
        (0x6Fu8 | pb) & 3 == 3 && (0x6Fu8 | pb) & !0x10u8 == 0x6Fu8,
        (0x03u8 | pb) & 3 == 3 && (0x03u8 | pb) & !0x10u8 == 0x03u8,
        (0x43u8 | pb) & 3 == 3 && (0x43u8 | pb) & !0x10u8 == 0x43u8,
        (0x0Fu8 | pb) & 3 == 3 && (0x0Fu8 | pb) & !0x10u8 == 0x0Fu8,
        (0x63u8 | pb) & 3 == 3 && (0x63u8 | pb) & !0x10u8 == 0x63u8,
        (0xE3u8 | pb) & 3 == 3 && (0xE3u8 | pb) & !0x10u8 == 0xE3u8,
        (0xAFu8 | pb) & 3 == 3 && (0xAFu8 | pb) & !0x10u8 == 0xAFu8,
        (0x87u8 | pb) & 3 == 3 && (0x87u8 | pb) & !0x10u8 == 0x87u8,
        ((0x2Fu8 | pb) & 0x10 == 0x10) == (pb == 0x10),
        ((0x6Fu8 | pb) & 0x10 == 0x10) == (pb == 0x10),
        ((0x03u8 | pb) & 0x10 == 0x10) == (pb == 0x10),
        ((0x43u8 | pb) & 0x10 == 0x10) == (pb == 0x10),
        ((0x0Fu8 | pb) & 0x10 == 0x10) == (pb == 0x10),
        ((0x63u8 | pb) & 0x10 == 0x10) == (pb == 0x10),
        ((0xE3u8 | pb) & 0x10 == 0x10) == (pb == 0x10),
        ((0xAFu8 | pb) & 0x10 == 0x10) == (pb == 0x10),
        ((0x87u8 | pb) & 0x10 == 0x10) == (pb == 0x10),
{
}

/// A one-octet supervisory control byte unpacks to its type, N(R) and poll.
proof fn lemma_s_ctl8(base: u8, nr: u8, pb: u8)
    by (bit_vector)
    requires
        base == 1 || base == 5 || base == 9 || base == 13,
        nr < 8,
        pb == 0 || pb == 0x10,
    ensures
        (base | pb | ((nr << 5) & 0xE0u8)) & 3 == 1,
        (base | pb | ((nr << 5) & 0xE0u8)) & !0xE0u8 & !0x10u8 == base,
        ((base | pb | ((nr << 5) & 0xE0u8)) >> 5) & 7 == nr,
        ((base | pb | ((nr << 5) & 0xE0u8)) & 0x10 == 0x10) == (pb == 0x10),
{
}

/// The bare supervisory control bytes of the extended layout classify as
/// supervisory, and the second control octet unpacks to N(R) and poll/final.
proof fn lemma_ext_ctl2(nr: u8, pb: u8)
    by (bit_vector)
    requires
        nr < 128,
        pb == 0 || pb == 1,
    ensures
        0x01u8 & 3 == 1 && 0x01u8 & !0xE0u8 & !0x10u8 == 0x01u8,
        0x05u8 & 3 == 1 && 0x05u8 & !0xE0u8 & !0x10u8 == 0x05u8,
        0x09u8 & 3 == 1 && 0x09u8 & !0xE0u8 & !0x10u8 == 0x09u8,
        0x0Du8 & 3 == 1 && 0x0Du8 & !0xE0u8 & !0x10u8 == 0x0Du8,
        ((((nr << 1) & 0xFEu8) | pb) & 1 == 1) == (pb == 1),
        ((((nr << 1) & 0xFEu8) | pb) >> 1) & 127 == nr,
{
}

/// A one-octet information control byte unpacks to N(R), N(S) and poll.
proof fn lemma_i_ctl8(nr: u8, ns: u8, pb: u8)
    by (bit_vector)
    requires
        nr < 8,
        ns < 8,
        pb == 0 || pb == 0x10,
    ensures
        (CONTROL_IFRAME | pb | ((nr << 5) & NR_MASK) | ((ns << 1) & 0x0Eu8)) & 3 == 0 || (
        CONTROL_IFRAME | pb | ((nr << 5) & NR_MASK) | ((ns << 1) & 0x0Eu8)) & 3 == 2,
        ((CONTROL_IFRAME | pb | ((nr << 5) & NR_MASK) | ((ns << 1) & 0x0Eu8)) >> 5) & 7 == nr,
        ((CONTROL_IFRAME | pb | ((nr << 5) & NR_MASK) | ((ns << 1) & 0x0Eu8)) >> 1) & 7 == ns,
        ((CONTROL_IFRAME | pb | ((nr << 5) & NR_MASK) | ((ns << 1) & 0x0Eu8)) & 0x10 == 0x10) == (
        pb == 0x10),
{
}

/// The first control octet of an extended information frame classifies as
/// information and carries the 7-bit N(S).
proof fn lemma_i_ext(ns: u8)
    by (bit_vector)
    requires
        ns < 128,
    ensures
        (CONTROL_IFRAME | ((ns << 1) & 0xFEu8)) & 3 == 0 || (CONTROL_IFRAME | ((ns << 1)
            & 0xFEu8)) & 3 == 2,
        ((CONTROL_IFRAME | ((ns << 1) & 0xFEu8)) >> 1) & 127 == ns,
{
}

/// The frame codec round-trips: serializing a well-formed packet in its own
/// modulus and parsing the bytes back yields the same packet. `wire_wf`
/// names the frames for which this holds; a parse result can also carry
/// stray address bits (a set last-address bit on the destination, a clear
/// reserved bit, equal command/response bits) or an abnormal callsign, and
/// such frames do not reproduce their wire form.
/// The shared first step of the round-trip proof: the two address fields of
/// a serialized packet parse back to the packet's addresses.
proof fn lemma_rt_addrs(p: PacketV)
    requires
        wire_wf(p),
    ensures
        ({
            let b = ser_packet(p, p.rr_extseq);
            &&& b.len() == 14 + ser_body(p.packet_type, p.rr_extseq).len()
            &&& ser_body(p.packet_type, p.rr_extseq).len() >= 1
            &&& spec_parse_addr(b.subrange(0, 7)) == Some(p.dst)
            &&& spec_parse_addr(b.subrange(7, 14)) == Some(p.src)
            &&& b[14] == ser_body(p.packet_type, p.rr_extseq)[0]
            &&& p.digipeater == Seq::<AddrV>::empty()
        }),
{
    let ext = p.rr_extseq;
    let b = ser_packet(p, ext);
    let da = ser_addr(p.dst.call, false, p.command_response, p.rr_dist1, false);
    let sa = ser_addr(p.src.call, true, p.command_response_la, ext, false);
    assert(da.len() == 7 && sa.len() == 7);
    assert(b.subrange(0, 7) =~= da);
    assert(b.subrange(7, 14) =~= sa);
    crate::addr::lemma_addr_round_trip(p.dst.call, false, p.command_response, p.rr_dist1, false);
    crate::addr::lemma_addr_round_trip(p.src.call, true, p.command_response_la, ext, false);
    assert(p.digipeater =~= Seq::<AddrV>::empty());
}

/// Round trip for unnumbered frames.
proof fn lemma_rt_u(p: PacketV)
    requires
        wire_wf(p),
        !(p.packet_type is Iframe),
        !(p.packet_type is Rr),
        !(p.packet_type is Rnr),
        !(p.packet_type is Rej),
        !(p.packet_type is Srej),
    ensures
        spec_parse_packet(ser_packet(p, p.rr_extseq)) == Ok::<PacketV, ParseError>(p),
{
    let ext = p.rr_extseq;
    let b = ser_packet(p, ext);
    lemma_rt_addrs(p);
    let c1 = b[14];
    let rest1 = b.subrange(15, b.len() as int);
    match p.packet_type {
        PacketTypeV::Sabm(s) => {
            lemma_u_ctl(poll_bit(s.poll));
            assert(rest1 =~= Seq::<u8>::empty());
            assert(spec_parse_body(c1, c1 & CONTROL_POLL == CONTROL_POLL, (c1 >> 5) & 7, (c1 >> 1) & 7, rest1)
                == Ok::<PacketTypeV, ParseError>(PacketTypeV::Sabm(Sabm { poll: s.poll })));
            assert(spec_parse_packet(b) == Ok::<PacketV, ParseError>(p));
        },
        PacketTypeV::Sabme(s) => {
            lemma_u_ctl(poll_bit(s.poll));
            assert(rest1 =~= Seq::<u8>::empty());
            assert(spec_parse_body(c1, c1 & CONTROL_POLL == CONTROL_POLL, (c1 >> 5) & 7, (c1 >> 1) & 7, rest1)
                == Ok::<PacketTypeV, ParseError>(PacketTypeV::Sabme(Sabme { poll: s.poll })));
            assert(spec_parse_packet(b) == Ok::<PacketV, ParseError>(p));
        },
        PacketTypeV::Ua(s) => {
            lemma_u_ctl(poll_bit(s.poll));
            assert(rest1 =~= Seq::<u8>::empty());
            assert(spec_parse_body(c1, c1 & CONTROL_POLL == CONTROL_POLL, (c1 >> 5) & 7, (c1 >> 1) & 7, rest1)
                == Ok::<PacketTypeV, ParseError>(PacketTypeV::Ua(Ua { poll: s.poll })));
            assert(spec_parse_packet(b) == Ok::<PacketV, ParseError>(p));
        },
        PacketTypeV::Dm(s) => {
            lemma_u_ctl(poll_bit(s.poll));
            assert(rest1 =~= Seq::<u8>::empty());
            assert(spec_parse_body(c1, c1 & CONTROL_POLL == CONTROL_POLL, (c1 >> 5) & 7, (c1 >> 1) & 7, rest1)
                == Ok::<PacketTypeV, ParseError>(PacketTypeV::Dm(Dm { poll: s.poll })));
            assert(spec_parse_packet(b) == Ok::<PacketV, ParseError>(p));
        },
        PacketTypeV::Disc(s) => {
            lemma_u_ctl(poll_bit(s.poll));
            assert(rest1 =~= Seq::<u8>::empty());
            assert(spec_parse_body(c1, c1 & CONTROL_POLL == CONTROL_POLL, (c1 >> 5) & 7, (c1 >> 1) & 7, rest1)
                == Ok::<PacketTypeV, ParseError>(PacketTypeV::Disc(Disc { poll: s.poll })));
            assert(spec_parse_packet(b) == Ok::<PacketV, ParseError>(p));
        },
        PacketTypeV::Frmr(s) => {
            lemma_u_ctl(poll_bit(s.poll));
            assert(rest1 =~= Seq::<u8>::empty());
            assert(spec_parse_body(c1, c1 & CONTROL_POLL == CONTROL_POLL, (c1 >> 5) & 7, (c1 >> 1) & 7, rest1)
                == Ok::<PacketTypeV, ParseError>(PacketTypeV::Frmr(Frmr { poll: s.poll })));
            assert(spec_parse_packet(b) == Ok::<PacketV, ParseError>(p));
        },
        PacketTypeV::Xid(s) => {
            lemma_u_ctl(poll_bit(s.poll));
            assert(rest1 =~= Seq::<u8>::empty());
            assert(spec_parse_body(c1, c1 & CONTROL_POLL == CONTROL_POLL, (c1 >> 5) & 7, (c1 >> 1) & 7, rest1)
                == Ok::<PacketTypeV, ParseError>(PacketTypeV::Xid(Xid { poll: s.poll })));
            assert(spec_parse_packet(b) == Ok::<PacketV, ParseError>(p));
        },
        PacketTypeV::Ui(s) => {
            lemma_u_ctl(poll_bit(s.push));
            assert(rest1 =~= s.payload);
            assert(spec_parse_body(c1, c1 & CONTROL_POLL == CONTROL_POLL, (c1 >> 5) & 7, (c1 >> 1) & 7, rest1)
                == Ok::<PacketTypeV, ParseError>(PacketTypeV::Ui(UiV { push: s.push, payload: s.payload })));
            assert(spec_parse_packet(b) == Ok::<PacketV, ParseError>(p));
        },
        PacketTypeV::Test(s) => {
            lemma_u_ctl(poll_bit(s.poll));
            assert(rest1 =~= s.payload);
            assert(spec_parse_body(c1, c1 & CONTROL_POLL == CONTROL_POLL, (c1 >> 5) & 7, (c1 >> 1) & 7, rest1)
                == Ok::<PacketTypeV, ParseError>(PacketTypeV::Test(TestV { poll: s.poll, payload: s.payload })));
            assert(spec_parse_packet(b) == Ok::<PacketV, ParseError>(p));
        },
        _ => {},
    }
}

/// Round trip for supervisory frames.
proof fn lemma_rt_s(p: PacketV)
    requires
        wire_wf(p),
        p.packet_type is Rr || p.packet_type is Rnr || p.packet_type is Rej || p.packet_type
            is Srej,
    ensures
        spec_parse_packet(ser_packet(p, p.rr_extseq)) == Ok::<PacketV, ParseError>(p),
{
    let ext = p.rr_extseq;
    let b = ser_packet(p, ext);
    lemma_rt_addrs(p);
    let c1 = b[14];
    let rest1 = b.subrange(15, b.len() as int);
    match p.packet_type {
        PacketTypeV::Rr(s) => {
            if ext {
                let pb2: u8 = if s.poll { 1 } else { 0 };
                lemma_ext_ctl2(s.nr, pb2);
                let c2 = b[15];
                assert(c2 == ser_body(p.packet_type, ext)[1]);
                assert(spec_parse_body(c1, c2 & 1 == 1, (c2 >> 1) & 127, (c1 >> 1) & 127, b.subrange(16, b.len() as int))
                    == Ok::<PacketTypeV, ParseError>(PacketTypeV::Rr(Rr { nr: s.nr, poll: s.poll })));
            } else {
                lemma_s_ctl8(CONTROL_RR, s.nr, poll_bit(s.poll));
                assert(spec_parse_body(c1, c1 & CONTROL_POLL == CONTROL_POLL, (c1 >> 5) & 7, (c1 >> 1) & 7, rest1)
                    == Ok::<PacketTypeV, ParseError>(PacketTypeV::Rr(Rr { nr: s.nr, poll: s.poll })));
            }
            assert(spec_parse_packet(b) == Ok::<PacketV, ParseError>(p));
        },
        PacketTypeV::Rnr(s) => {
            if ext {
                let pb2: u8 = if s.poll { 1 } else { 0 };
                lemma_ext_ctl2(s.nr, pb2);
                let c2 = b[15];
                assert(c2 == ser_body(p.packet_type, ext)[1]);
                assert(spec_parse_body(c1, c2 & 1 == 1, (c2 >> 1) & 127, (c1 >> 1) & 127, b.subrange(16, b.len() as int))
                    == Ok::<PacketTypeV, ParseError>(PacketTypeV::Rnr(Rnr { nr: s.nr, poll: s.poll })));
            } else {
                lemma_s_ctl8(CONTROL_RNR, s.nr, poll_bit(s.poll));
                assert(spec_parse_body(c1, c1 & CONTROL_POLL == CONTROL_POLL, (c1 >> 5) & 7, (c1 >> 1) & 7, rest1)
                    == Ok::<PacketTypeV, ParseError>(PacketTypeV::Rnr(Rnr { nr: s.nr, poll: s.poll })));
            }
            assert(spec_parse_packet(b) == Ok::<PacketV, ParseError>(p));
        },
        PacketTypeV::Rej(s) => {
            if ext {
                let pb2: u8 = if s.poll { 1 } else { 0 };
                lemma_ext_ctl2(s.nr, pb2);
                let c2 = b[15];
                assert(c2 == ser_body(p.packet_type, ext)[1]);
                assert(spec_parse_body(c1, c2 & 1 == 1, (c2 >> 1) & 127, (c1 >> 1) & 127, b.subrange(16, b.len() as int))
                    == Ok::<PacketTypeV, ParseError>(PacketTypeV::Rej(Rej { nr: s.nr, poll: s.poll })));
            } else {
                lemma_s_ctl8(CONTROL_REJ, s.nr, poll_bit(s.poll));
                assert(spec_parse_body(c1, c1 & CONTROL_POLL == CONTROL_POLL, (c1 >> 5) & 7, (c1 >> 1) & 7, rest1)
                    == Ok::<PacketTypeV, ParseError>(PacketTypeV::Rej(Rej { nr: s.nr, poll: s.poll })));
            }
            assert(spec_parse_packet(b) == Ok::<PacketV, ParseError>(p));
        },
        PacketTypeV::Srej(s) => {
            if ext {
                let pb2: u8 = if s.poll { 1 } else { 0 };
                lemma_ext_ctl2(s.nr, pb2);
                let c2 = b[15];
                assert(c2 == ser_body(p.packet_type, ext)[1]);
                assert(spec_parse_body(c1, c2 & 1 == 1, (c2 >> 1) & 127, (c1 >> 1) & 127, b.subrange(16, b.len() as int))
                    == Ok::<PacketTypeV, ParseError>(PacketTypeV::Srej(Srej { nr: s.nr, poll: s.poll })));
            } else {
                lemma_s_ctl8(CONTROL_SREJ, s.nr, poll_bit(s.poll));
                assert(spec_parse_body(c1, c1 & CONTROL_POLL == CONTROL_POLL, (c1 >> 5) & 7, (c1 >> 1) & 7, rest1)
                    == Ok::<PacketTypeV, ParseError>(PacketTypeV::Srej(Srej { nr: s.nr, poll: s.poll })));
            }
            assert(spec_parse_packet(b) == Ok::<PacketV, ParseError>(p));
        },
        _ => {},
    }
}

/// Round trip for information frames.
proof fn lemma_rt_i(p: PacketV)
    requires
        wire_wf(p),
        p.packet_type is Iframe,
    ensures
        spec_parse_packet(ser_packet(p, p.rr_extseq)) == Ok::<PacketV, ParseError>(p),
{
    let ext = p.rr_extseq;
    let b = ser_packet(p, ext);
    lemma_rt_addrs(p);
    let c1 = b[14];
    let rest1 = b.subrange(15, b.len() as int);
    match p.packet_type {
        PacketTypeV::Iframe(s) => {
            if ext {
                let pb2: u8 = if s.poll { 1 } else { 0 };
                lemma_i_ext(s.ns);
                lemma_ext_ctl2(s.nr, pb2);
                let c2 = b[15];
                assert(c2 == ser_body(p.packet_type, ext)[1]);
                let rest = b.subrange(16, b.len() as int);
                assert(rest =~= seq![s.pid] + s.payload);
                assert(rest.skip(1) =~= s.payload);
                assert(rest[0] == s.pid);
                assert(spec_parse_body(c1, c2 & 1 == 1, (c2 >> 1) & 127, (c1 >> 1) & 127, rest)
                    == Ok::<PacketTypeV, ParseError>(PacketTypeV::Iframe(IframeV { ns: s.ns, nr: s.nr, poll: s.poll, pid: s.pid, payload: s.payload })));
            } else {
                lemma_i_ctl8(s.nr, s.ns, poll_bit(s.poll));
                assert(rest1 =~= seq![s.pid] + s.payload);
                assert(rest1.skip(1) =~= s.payload);
                assert(rest1[0] == s.pid);
                assert(spec_parse_body(c1, c1 & CONTROL_POLL == CONTROL_POLL, (c1 >> 5) & 7, (c1 >> 1) & 7, rest1)
                    == Ok::<PacketTypeV, ParseError>(PacketTypeV::Iframe(IframeV { ns: s.ns, nr: s.nr, poll: s.poll, pid: s.pid, payload: s.payload })));
            }
            assert(spec_parse_packet(b) == Ok::<PacketV, ParseError>(p));
        },
        _ => {},
    }
}

/// The frame codec round-trips: serializing a well-formed packet in its own
/// modulus and parsing the bytes back yields the same packet. `wire_wf`
/// names the frames for which this holds; a parse result can also carry
/// stray address bits (a set last-address bit on the destination, a clear
/// reserved bit, equal command/response bits) or an abnormal callsign, and
/// such frames do not reproduce their wire form.
pub proof fn lemma_packet_round_trip(p: PacketV)
    requires
        wire_wf(p),
    ensures
        spec_parse_packet(ser_packet(p, p.rr_extseq)) == Ok::<PacketV, ParseError>(p),
{
    match p.packet_type {
        PacketTypeV::Iframe(_) => lemma_rt_i(p),
        PacketTypeV::Rr(_) => lemma_rt_s(p),
        PacketTypeV::Rnr(_) => lemma_rt_s(p),
        PacketTypeV::Rej(_) => lemma_rt_s(p),
        PacketTypeV::Srej(_) => lemma_rt_s(p),
        _ => lemma_rt_u(p),
    }
}

impl Packet {
    /// Serialize a packet, as standard mod-8, or as extended mod-128 when
    /// `ext` is set. Exactly one of the two command/response bits must be
    /// set. The output carries no KISS framing and no FCS; those belong to
    /// the transport.
    pub fn serialize(&self, ext: bool) -> (r: Vec<u8>)
        requires
            self@.command_response != self@.command_response_la,
        ensures
            r@ == ser_packet(self@, ext),
    {
        let mut ret: Vec<u8> = Vec::new();
        let mut d = self.dst.serialize(false, self.command_response, self.rr_dist1, false);
        ret.append(&mut d);
        let mut s = self.src.serialize(
            self.digipeater.len() == 0,
            self.command_response_la,
            ext,
            false,
        );
        ret.append(&mut s);
        match &self.packet_type {
            PacketType::Sabm(p) => {
                if ext {
                    ret.push(CONTROL_SABME | if p.poll {
                        CONTROL_POLL
                    } else {
                        0
                    });
                } else {
                    ret.push(CONTROL_SABM | if p.poll {
                        CONTROL_POLL
                    } else {
                        0
                    });
                }
            },
            PacketType::Sabme(p) => {
                ret.push(CONTROL_SABME | if p.poll {
                    CONTROL_POLL
                } else {
                    0
                });
            },
            PacketType::Ua(p) => {
                ret.push(CONTROL_UA | if p.poll {
                    CONTROL_POLL
                } else {
                    0
                });
            },
            PacketType::Disc(p) => {
                ret.push(CONTROL_DISC | if p.poll {
                    CONTROL_POLL
                } else {
                    0
                });
            },
            PacketType::Dm(p) => {
                ret.push(CONTROL_DM | if p.poll {
                    CONTROL_POLL
                } else {
                    0
                });
            },
            PacketType::Frmr(p) => {
                ret.push(CONTROL_FRMR | if p.poll {
                    CONTROL_POLL
                } else {
                    0
                });
            },
            PacketType::Ui(p) => {
                ret.push(CONTROL_UI | if p.push {
                    CONTROL_POLL
                } else {
                    0
                });
                ret.extend_from_slice(p.payload.as_slice());
            },
            PacketType::Xid(p) => {
                ret.push(CONTROL_XID | if p.poll {
                    CONTROL_POLL
                } else {
                    0
                });
            },
            PacketType::Test(p) => {
                ret.push(CONTROL_TEST | if p.poll {
                    CONTROL_POLL
                } else {
                    0
                });
                ret.extend_from_slice(p.payload.as_slice());
            },
            PacketType::Rr(p) => {
                if ext {
                    ret.push(CONTROL_RR);
                    ret.push(((p.nr << 1) & 0xFE) | if p.poll {
                        1
                    } else {
                        0
                    });
                } else {
                    ret.push(CONTROL_RR | (if p.poll {
                        CONTROL_POLL
                    } else {
                        0
                    }) | ((p.nr << 5) & NR_MASK));
                }
            },
            PacketType::Rnr(p) => {
                if ext {
                    ret.push(CONTROL_RNR);
                    ret.push(((p.nr << 1) & 0xFE) | if p.poll {
                        1
                    } else {
                        0
                    });
                } else {
                    ret.push(CONTROL_RNR | (if p.poll {
                        CONTROL_POLL
                    } else {
                        0
                    }) | ((p.nr << 5) & NR_MASK));
                }
            },
            PacketType::Rej(p) => {
                if ext {
                    ret.push(CONTROL_REJ);
                    ret.push(((p.nr << 1) & 0xFE) | if p.poll {
                        1
                    } else {
                        0
                    });
                } else {
                    ret.push(CONTROL_REJ | (if p.poll {
                        CONTROL_POLL
                    } else {
                        0
                    }) | ((p.nr << 5) & NR_MASK));
                }
            },
            PacketType::Srej(p) => {
                if ext {
                    ret.push(CONTROL_SREJ);
                    ret.push(((p.nr << 1) & 0xFE) | if p.poll {
                        1
                    } else {
                        0
                    });
                } else {
                    ret.push(CONTROL_SREJ | (if p.poll {
                        CONTROL_POLL
                    } else {
                        0
                    }) | ((p.nr << 5) & NR_MASK));
                }
            },
            PacketType::Iframe(p) => {
                if ext {
                    ret.push(CONTROL_IFRAME | ((p.ns << 1) & 0xFE));
                    ret.push(((p.nr << 1) & 0xFE) | if p.poll {
                        1
                    } else {
                        0
                    });
                } else {
                    ret.push(
                        CONTROL_IFRAME | (if p.poll {
                            CONTROL_POLL
                        } else {
                            0
                        }) | ((p.nr << 5) & NR_MASK) | ((p.ns << 1) & 0x0E),
                    );
                }
                ret.push(p.pid);
                ret.extend_from_slice(p.payload.as_slice());
            },
        }
        proof {
            assert(ret@ =~= ser_packet(self@, ext));
        }
        ret
    }

    /// Parse a frame from bytes. The source address's extended bit selects
    /// the mod-128 control layout, as the Linux implementation does. An I
    /// frame's PID is the first byte after the control field; the rest is
    /// its payload.
    pub fn parse(bytes: &[u8]) -> (r: Result<Self, ParseError>)
        ensures
            r matches Ok(p) ==> spec_parse_packet(bytes@) matches Ok(pv) && p@ == pv,
            r matches Err(e) ==> spec_parse_packet(bytes@) == Err::<PacketV, ParseError>(e),
    {
        if bytes.len() < 15 {
            return Err(ParseError::TooShort);
        }
        let dst = match Addr::parse(vstd::slice::slice_subrange(bytes, 0, 7)) {
            Ok(a) => a,
            Err(_) => {
                return Err(ParseError::BadAddress);
            },
        };
        let src = match Addr::parse(vstd::slice::slice_subrange(bytes, 7, 14)) {
            Ok(a) => a,
            Err(_) => {
                return Err(ParseError::BadAddress);
            },
        };
        let ext = src.rbit_ext();
        let c1 = *vstd::slice::slice_index_get(bytes, 14);
        let use_one_octet = !ext || c1 & TYPE_MASK == 3;
        if !use_one_octet && bytes.len() < 16 {
            return Err(ParseError::TooShort);
        }
        let (poll, nr, ns, off): (bool, u8, u8, usize) = if use_one_octet {
            (c1 & CONTROL_POLL == CONTROL_POLL, (c1 >> 5) & 7, (c1 >> 1) & 7, 15)
        } else {
            let c2 = *vstd::slice::slice_index_get(bytes, 15);
            (c2 & 1 == 1, (c2 >> 1) & 127, (c1 >> 1) & 127, 16)
        };
        let rest = vstd::slice::slice_subrange(bytes, off, bytes.len());
        let packet_type: PacketType = if c1 & TYPE_MASK == 0 || c1 & TYPE_MASK == 2 {
            if rest.len() < 1 {
                return Err(ParseError::TooShort);
            }
            let pid = *vstd::slice::slice_index_get(rest, 0);
            let payload = vstd::slice::slice_to_vec(
                vstd::slice::slice_subrange(rest, 1, rest.len()),
            );
            PacketType::Iframe(Iframe { ns, nr, poll, pid, payload })
        } else if c1 & TYPE_MASK == 1 {
            let s = c1 & !NR_MASK & !CONTROL_POLL;
            if s == CONTROL_RR {
                PacketType::Rr(Rr { nr, poll })
            } else if s == CONTROL_RNR {
                PacketType::Rnr(Rnr { nr, poll })
            } else if s == CONTROL_REJ {
                PacketType::Rej(Rej { nr, poll })
            } else {
                PacketType::Srej(Srej { nr, poll })
            }
        } else {
            let u = c1 & !CONTROL_POLL;
            if u == CONTROL_SABME {
                PacketType::Sabme(Sabme { poll })
            } else if u == CONTROL_SABM {
                PacketType::Sabm(Sabm { poll })
            } else if u == CONTROL_UA {
                PacketType::Ua(Ua { poll })
            } else if u == CONTROL_DISC {
                PacketType::Disc(Disc { poll })
            } else if u == CONTROL_DM {
                PacketType::Dm(Dm { poll })
            } else if u == CONTROL_FRMR {
                PacketType::Frmr(Frmr { poll })
            } else if u == CONTROL_UI {
                PacketType::Ui(Ui { push: poll, payload: vstd::slice::slice_to_vec(rest) })
            } else if u == CONTROL_XID {
                PacketType::Xid(Xid { poll })
            } else if u == CONTROL_TEST {
                PacketType::Test(Test { poll, payload: vstd::slice::slice_to_vec(rest) })
            } else {
                return Err(ParseError::UnknownControl);
            }
        };
        let command_response = dst.highbit();
        let command_response_la = src.highbit();
        let rr_dist1 = dst.rbit_ext();
        let p = Packet {
            src,
            dst,
            command_response,
            command_response_la,
            rr_dist1,
            rr_extseq: ext,
            digipeater: Vec::new(),
            packet_type,
        };
        proof {
            assert(p@.digipeater =~= Seq::<AddrV>::empty());
        }
        Ok(p)
    }
}

} // verus!
