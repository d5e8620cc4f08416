//! Connected-mode AX.25 data-link engine: frame codec, sequence-number
//! accounting, timers, and the data-link state machine, layered over a KISS
//! byte transport that the caller provides.

mod addr;
mod kiss;
mod packet;
pub mod pcap;
pub mod state;

pub use addr::Addr;
pub use addr::AddrError;
pub use kiss::{escape, find_frame, kisser_read, unescape};
pub use packet::{
    Disc, Dm, Frmr, Iframe, Packet, PacketType, ParseError, Rej, Rnr, Rr, Sabm, Sabme, Srej, Test,
    Ua, Ui, Xid,
};
