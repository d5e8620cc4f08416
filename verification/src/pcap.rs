//! The pcap capture-file byte format, little endian, with the AX.25 link
//! type: the file header and the per-record header that frame a captured
//! packet.

use vstd::prelude::*;

verus! {

/// pcap major version.
pub const VERSION_MAJOR: u16 = 2;

/// pcap minor version.
pub const VERSION_MINOR: u16 = 4;

/// The pcap link type for AX.25 frames.
pub const LINKTYPE_AX25: u32 = 3;

/// Snapshot length: whole packets are always captured.
pub const SNAPLEN: u32 = 65535;

/// A 16-bit value as two little-endian bytes.
pub open spec fn le16(v: u16) -> Seq<u8> {
    seq![(v % 256) as u8, (v / 256) as u8]
}

/// A 32-bit value as four little-endian bytes.
pub open spec fn le32(v: u32) -> Seq<u8> {
    seq![
        (v % 256) as u8,
        ((v / 0x100) % 256) as u8,
        ((v / 0x10000) % 256) as u8,
        ((v / 0x1000000) % 256) as u8,
    ]
}

/// The little-endian pcap magic number.
pub open spec fn spec_pcap_magic() -> Seq<u8> {
    seq![0xd4u8, 0xc3u8, 0xb2u8, 0xa1u8]
}

/// The 24-byte pcap file header: magic, version, zero GMT offset and
/// accuracy, the snapshot length, and the AX.25 link type.
pub open spec fn spec_pcap_header() -> Seq<u8> {
    spec_pcap_magic() + le16(VERSION_MAJOR) + le16(VERSION_MINOR) + le32(0) + le32(0) + le32(
        SNAPLEN,
    ) + le32(LINKTYPE_AX25)
}

/// The 16-byte per-record header: timestamp seconds and microseconds, then
/// the captured and original lengths, which are equal here.
pub open spec fn spec_pcap_record_header(ts_sec: u32, ts_usec: u32, len: u32) -> Seq<u8> {
    le32(ts_sec) + le32(ts_usec) + le32(len) + le32(len)
}

/// Append a 16-bit value, little endian.
pub fn write_u16(out: &mut Vec<u8>, v: u16)
    ensures
        final(out)@ == old(out)@ + le16(v),
{
    out.push((v % 256) as u8);
    out.push((v / 256) as u8);
    proof {
        assert(out@ =~= old(out)@ + le16(v));
    }
}

/// Append a 32-bit value, little endian.
pub fn write_u32(out: &mut Vec<u8>, v: u32)
    ensures
        final(out)@ == old(out)@ + le32(v),
{
    out.push((v % 256) as u8);
    out.push(((v / 0x100) % 256) as u8);
    out.push(((v / 0x10000) % 256) as u8);
    out.push(((v / 0x1000000) % 256) as u8);
    proof {
        assert(out@ =~= old(out)@ + le32(v));
    }
}

/// Build the pcap file header.
pub fn pcap_header() -> (r: Vec<u8>)
    ensures
        r@ == spec_pcap_header(),
{
    let mut out: Vec<u8> = Vec::new();
    out.push(0xd4);
    out.push(0xc3);
    out.push(0xb2);
    out.push(0xa1);
    proof {
        assert(out@ =~= spec_pcap_magic());
    }
    write_u16(&mut out, VERSION_MAJOR);
    write_u16(&mut out, VERSION_MINOR);
    write_u32(&mut out, 0);
    write_u32(&mut out, 0);
    write_u32(&mut out, SNAPLEN);
    write_u32(&mut out, LINKTYPE_AX25);
    proof {
        assert(out@ =~= spec_pcap_header());
    }
    out
}

/// Build the header that precedes one captured packet.
pub fn pcap_record_header(ts_sec: u32, ts_usec: u32, len: u32) -> (r: Vec<u8>)
    ensures
        r@ == spec_pcap_record_header(ts_sec, ts_usec, len),
{
    let mut out: Vec<u8> = Vec::new();
    write_u32(&mut out, ts_sec);
    write_u32(&mut out, ts_usec);
    write_u32(&mut out, len);
    write_u32(&mut out, len);
    proof {
        assert(out@ =~= spec_pcap_record_header(ts_sec, ts_usec, len));
    }
    out
}

} // verus!
