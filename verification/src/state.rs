//! The AX.25 connected-mode data-link state machine: connection data,
//! timers, events in, actions out, and one handler per state and event.
//!
//! The machine is a pure function from a state, the connection data and an
//! event to a new state and a list of actions. Time enters only through the
//! `now_ms` argument: a monotonic clock reading in milliseconds that the
//! driver supplies.

use vstd::prelude::*;

use crate::addr::{Addr, AddrV};
use crate::packet::{
    Disc, Dm, Frmr, Iframe, IframeV, Packet, PacketType, PacketTypeV, PacketV, Rej, Rnr, Rr, Sabm,
    Sabme, Srej, Test, Ua, Ui, Xid, NO_L3,
};

verus! {

/// Default smoothed round-trip time, in milliseconds.
pub const DEFAULT_SRT_MS: u64 = 3000;

/// Default idle-timer (T3) duration, in milliseconds.
pub const DEFAULT_T3V_MS: u64 = 10000;

/// Default maximum outgoing I-frame payload.
pub const DEFAULT_MTU_OUT: usize = 256;

/// Default maximum accepted incoming I-frame payload.
pub const DEFAULT_MTU_IN: usize = 65535;

/// Hard cap on the outgoing byte buffer.
pub const MAX_OBUF_SIZE: usize = 100000000;

/// Default maximum retry count.
pub const DEFAULT_N2: u8 = 10;

/// Milliseconds added per retry when backing off the round-trip estimate.
pub const SRT_RETRY_STEP_MS: u64 = 250;

/// Incoming events: a peer frame, or a command from the application.
#[derive(Debug)]
pub enum Event {
    Connect { addr: Addr, ext: bool },
    Disconnect,
    Data(Vec<u8>),
    T1,
    T3,
    Sabm(Sabm, Addr),
    Sabme(Sabme, Addr),
    Disc(Disc),
    Dm(Dm),
    Ua(Ua),
    Frmr(Frmr),
    Ui(Ui, bool),
    Test(Test, bool),
    Xid(Xid, bool),
    Rr(Rr, bool),
    Rnr(Rnr, bool),
    Rej(Rej),
    Srej(Srej),
    Iframe(Iframe, bool),
}

/// Data delivered to the application: nothing yet, end of stream, or bytes.
#[derive(Debug, PartialEq, Eq)]
pub enum Res {
    Empty,
    EOF,
    Bytes(Vec<u8>),
}

/// The view of a delivery.
pub ghost enum ResV {
    Empty,
    EOF,
    Bytes(Seq<u8>),
}

impl View for Res {
    type V = ResV;

    open spec fn view(&self) -> ResV {
        match self {
            Res::Empty => ResV::Empty,
            Res::EOF => ResV::EOF,
            Res::Bytes(v) => ResV::Bytes(v@),
        }
    }
}

/// Protocol error codes, as the specification's appendix names them.
#[derive(Debug, Copy, Clone, PartialEq, Eq)]
pub enum DlError {
    A,
    B,
    C,
    D,
    E,
    F,
    G,
    H,
    I,
    J,
    K,
    L,
    M,
    N,
    O,
    P,
    Q,
    R,
    S,
    T,
    U,
    V,
}

impl DlError {
    /// A human-readable description of the error code.
    pub fn message(&self) -> &'static str {
        match self {
            DlError::A => "A: F=1 received but P=1 not outstanding",
            DlError::B => "B: Unexpected DM with F=1 in states 3,4,5",
            DlError::C => "C: Unexpected UA in states 3, 4, 5",
            DlError::D => "D: UA received without F=1 when SABM or DISC was sent P=1",
            DlError::E => "E: DM received in states 3, 4, 5",
            DlError::F => "F: Data link reset; i.e., SABM received in states 3, 4, 5",
            DlError::G => "G: Connection timed out",
            DlError::H => "H: Connection timed out while disconnecting",
            DlError::I => "I: N2 timeouts; unacknowledged data",
            DlError::J => "J: N(r) sequence error",
            DlError::K => "K: Unexpected frame received",
            DlError::L => "L: Control field invalid or not implemented",
            DlError::M => "M: Information field was received in a U- or S-type frame",
            DlError::N => "N: Length of frame incorrect for frame type",
            DlError::O => "O: I frame exceeded maximum allowed length",
            DlError::P => "P: N(s) out of the window",
            DlError::Q => "Q: UI response received, or UI command with P=1 received",
            DlError::R => "R: UI frame exceeded maximum allowed length",
            DlError::S => "S: I response received",
            DlError::T => "T: N2 timeout; no response to enquiry",
            DlError::U => "U: N2 timeouts; extended peer busy condition",
            DlError::V => "V: No DL machines available to establish connection",
        }
    }
}

/// The disconnected state: no connection.
#[derive(Debug, Clone, Copy, PartialEq, Eq)]
pub struct Disconnected {}

impl Disconnected {
    pub fn new() -> (r: Self)
        ensures
            r == (Disconnected {  }),
    {
        Disconnected {  }
    }
}

/// A SABM or SABME has been sent; waiting for the UA.
#[derive(Debug, Clone, Copy, PartialEq, Eq)]
pub struct AwaitingConnection {}

impl AwaitingConnection {
    pub fn new() -> (r: Self)
        ensures
            r == (AwaitingConnection {  }),
    {
        AwaitingConnection {  }
    }
}

/// A DISC has been sent; waiting for the UA or DM.
#[derive(Debug, Clone, Copy, PartialEq, Eq)]
pub struct AwaitingRelease {}

impl AwaitingRelease {
    pub fn new() -> (r: Self)
        ensures
            r == (AwaitingRelease {  }),
    {
        AwaitingRelease {  }
    }
}

/// The two flavours of the data phase: steady state, and probing after a T1
/// expiry.
#[derive(Debug, Clone, Copy, PartialEq, Eq)]
pub enum ConnectedState {
    Connected,
    TimerRecovery,
}

/// The data phase.
#[derive(Debug, Clone, Copy, PartialEq, Eq)]
pub struct Connected {
    pub connected_state: ConnectedState,
}

impl Connected {
    pub fn new(connected_state: ConnectedState) -> (r: Self)
        ensures
            r == (Connected { connected_state }),
    {
        Connected { connected_state }
    }
}

/// The state of a connection.
#[derive(Debug, Clone, Copy, PartialEq, Eq)]
pub enum State {
    Disconnected(Disconnected),
    AwaitingConnection(AwaitingConnection),
    AwaitingRelease(AwaitingRelease),
    Connected(Connected),
}

impl State {
    /// The state's name.
    pub fn name(&self) -> (r: &'static str)
        ensures
            r@ == spec_state_name(*self),
    {
        match self {
            State::Disconnected(_) => "Disconnected",
            State::AwaitingConnection(_) => "AwaitingConnection",
            State::AwaitingRelease(_) => "AwaitingRelease",
            State::Connected(c) => match c.connected_state {
                ConnectedState::Connected => "Connected",
                ConnectedState::TimerRecovery => "TimerRecovery",
            },
        }
    }

    /// True in the data phase, in both of its flavours.
    pub fn is_state_connected(&self) -> (r: bool)
        ensures
            r == (self is Connected),
    {
        match self {
            State::Connected(_) => true,
            _ => false,
        }
    }

    /// True when no connection exists.
    pub fn is_state_disconnected(&self) -> (r: bool)
        ensures
            r == (self is Disconnected),
    {
        match self {
            State::Disconnected(_) => true,
            _ => false,
        }
    }
}

pub open spec fn spec_state_name(s: State) -> Seq<char> {
    match s {
        State::Disconnected(_) => "Disconnected"@,
        State::AwaitingConnection(_) => "AwaitingConnection"@,
        State::AwaitingRelease(_) => "AwaitingRelease"@,
        State::Connected(c) => match c.connected_state {
            ConnectedState::Connected => "Connected"@,
            ConnectedState::TimerRecovery => "TimerRecovery"@,
        },
    }
}

/// Create a new state machine, starting in `Disconnected`.
pub fn new() -> (r: State)
    ensures
        r == State::Disconnected(Disconnected {  }),
{
    State::Disconnected(Disconnected::new())
}

/// What the state machine asks the driver to do, besides mutating the
/// connection data: change state, report an error, send a frame, deliver
/// bytes, or signal end of stream.
#[derive(Debug)]
pub enum Action {
    State(State),
    DlError(DlError),
    SendUa { pf: bool },
    SendRr { pf: bool, nr: u8, command: bool },
    SendRej { pf: bool, nr: u8 },
    SendRnr { pf: bool, nr: u8, command: bool },
    SendDisc { pf: bool },
    SendIframe(Iframe),
    SendDm { pf: bool },
    SendSabm { pf: bool },
    Deliver(Vec<u8>),
    EOF,
}

/// The view of an action.
pub ghost enum ActionV {
    State(State),
    DlError(DlError),
    SendUa { pf: bool },
    SendRr { pf: bool, nr: u8, command: bool },
    SendRej { pf: bool, nr: u8 },
    SendRnr { pf: bool, nr: u8, command: bool },
    SendDisc { pf: bool },
    SendIframe(IframeV),
    SendDm { pf: bool },
    SendSabm { pf: bool },
    Deliver(Seq<u8>),
    EOF,
}

impl View for Action {
    type V = ActionV;

    open spec fn view(&self) -> ActionV {
        match self {
            Action::State(s) => ActionV::State(*s),
            Action::DlError(e) => ActionV::DlError(*e),
            Action::SendUa { pf } => ActionV::SendUa { pf: *pf },
            Action::SendRr { pf, nr, command } => ActionV::SendRr {
                pf: *pf,
                nr: *nr,
                command: *command,
            },
            Action::SendRej { pf, nr } => ActionV::SendRej { pf: *pf, nr: *nr },
            Action::SendRnr { pf, nr, command } => ActionV::SendRnr {
                pf: *pf,
                nr: *nr,
                command: *command,
            },
            Action::SendDisc { pf } => ActionV::SendDisc { pf: *pf },
            Action::SendIframe(i) => ActionV::SendIframe(i@),
            Action::SendDm { pf } => ActionV::SendDm { pf: *pf },
            Action::SendSabm { pf } => ActionV::SendSabm { pf: *pf },
            Action::Deliver(v) => ActionV::Deliver(v@),
            Action::EOF => ActionV::EOF,
        }
    }
}

/// What the state machine tells the world: a frame to send, an error code,
/// or a delivery to the application.
#[derive(Debug, PartialEq, Eq)]
pub enum ReturnEvent {
    Packet(Packet),
    DlError(DlError),
    Data(Res),
}

/// The view of a return event.
pub ghost enum ReturnEventV {
    Packet(PacketV),
    DlError(DlError),
    Data(ResV),
}

impl View for ReturnEvent {
    type V = ReturnEventV;

    open spec fn view(&self) -> ReturnEventV {
        match self {
            ReturnEvent::Packet(p) => ReturnEventV::Packet(p@),
            ReturnEvent::DlError(e) => ReturnEventV::DlError(*e),
            ReturnEvent::Data(d) => ReturnEventV::Data(d@),
        }
    }
}

impl ReturnEvent {
    /// Serialize a return event: only frames have a wire form.
    pub fn serialize(&self, ext: bool) -> (r: Option<Vec<u8>>)
        requires
            self matches ReturnEvent::Packet(p) ==> p@.command_response
                != p@.command_response_la,
        ensures
            match self {
                ReturnEvent::Packet(p) => r matches Some(v) && v@ == crate::packet::ser_packet(
                    p@,
                    ext,
                ),
                _ => r is None,
            },
    {
        match self {
            ReturnEvent::Packet(p) => Some(p.serialize(ext)),
            ReturnEvent::DlError(_) => None,
            ReturnEvent::Data(_) => None,
        }
    }
}

/// Saturating 64-bit addition.
pub open spec fn sat_add64(a: u64, b: u64) -> u64 {
    if a + b > u64::MAX {
        u64::MAX
    } else {
        (a + b) as u64
    }
}

/// A deadline timer: T1 (retransmit) and T3 (idle) are two of these. The
/// timer stores an absolute monotonic deadline in milliseconds.
#[derive(Debug, Clone, Copy)]
pub struct Timer {
    pub running: bool,
    pub expiry_ms: u64,
}

/// A started timer, expiring `v_ms` after `now_ms`.
pub open spec fn timer_started(now_ms: u64, v_ms: u64) -> Timer {
    Timer { running: true, expiry_ms: sat_add64(now_ms, v_ms) }
}

/// A timer with its running flag cleared.
pub open spec fn timer_stopped(t: Timer) -> Timer {
    Timer { running: false, ..t }
}

impl Timer {
    /// A stopped timer.
    pub fn new() -> (r: Self)
        ensures
            r == (Timer { running: false, expiry_ms: 0 }),
    {
        Timer { running: false, expiry_ms: 0 }
    }

    /// Start the timer: it expires `v_ms` after `now_ms`.
    pub fn start(&mut self, now_ms: u64, v_ms: u64)
        ensures
            *final(self) == timer_started(now_ms, v_ms),
    {
        if v_ms > u64::MAX - now_ms {
            self.expiry_ms = u64::MAX;
        } else {
            self.expiry_ms = now_ms + v_ms;
        }
        self.running = true;
    }

    /// Stop the timer.
    pub fn stop(&mut self)
        ensures
            *final(self) == timer_stopped(*old(self)),
    {
        self.running = false;
    }

    /// Restart the timer; the same as starting it.
    pub fn restart(&mut self, now_ms: u64, v_ms: u64)
        ensures
            *final(self) == timer_started(now_ms, v_ms),
    {
        self.start(now_ms, v_ms);
    }

    /// `None` when the timer is not running; otherwise whether the deadline
    /// has passed.
    pub fn is_expired(&self, now_ms: u64) -> (r: Option<bool>)
        ensures
            r == (if self.running {
                Some(now_ms > self.expiry_ms)
            } else {
                None::<bool>
            }),
    {
        if !self.running {
            return None;
        }
        Some(now_ms > self.expiry_ms)
    }

    /// `None` when the timer is not running; otherwise the time left, which
    /// is zero once the deadline has passed.
    pub fn remaining(&self, now_ms: u64) -> (r: Option<u64>)
        ensures
            r == (if self.running {
                Some(
                    if self.expiry_ms >= now_ms {
                        (self.expiry_ms - now_ms) as u64
                    } else {
                        0u64
                    },
                )
            } else {
                None::<u64>
            }),
    {
        if !self.running {
            return None;
        }
        if self.expiry_ms >= now_ms {
            Some(self.expiry_ms - now_ms)
        } else {
            Some(0)
        }
    }
}

/// One step forward in sequence-number space.
pub open spec fn incr_mod(a: u8, m: u8) -> u8 {
    if a + 1 == m {
        0
    } else {
        (a + 1) as u8
    }
}

/// `(a + b) % m` for `a < m`, `b < m`.
pub open spec fn add_mod(a: u8, b: u8, m: u8) -> u8 {
    if a + b >= m {
        (a + b - m) as u8
    } else {
        (a + b) as u8
    }
}

/// How many forward steps lead from `a` to `b`, modulo `m`.
pub open spec fn mod_dist(a: u8, b: u8, m: u8) -> int {
    if b >= a {
        b - a
    } else {
        b - a + m
    }
}

/// Does stepping forward from `va` reach `nr` no later than `vs`? This is
/// how a received N(R) is checked against the window of outstanding frames:
/// it must lie in `[V(A) .. V(S)]`, both ends included.
pub open spec fn spec_in_range(va: u8, nr: u8, vs: u8, modulus: u8) -> bool {
    nr < modulus && mod_dist(va, nr, modulus) <= mod_dist(va, vs, modulus)
}

/// The view of the per-connection data.
pub ghost struct DataV {
    pub me: AddrV,
    pub peer: Option<AddrV>,
    pub layer3_initiated: bool,
    pub t1: Timer,
    pub t3: Timer,
    pub t3v_ms: u64,
    pub vs: u8,
    pub va: u8,
    pub vr: u8,
    pub srt_default_ms: u64,
    pub srt_ms: u64,
    pub t1v_ms: u64,
    pub n1: usize,
    pub n2: u8,
    pub rc: u8,
    pub modulus: u8,
    pub peer_receiver_busy: bool,
    pub reject_exception: bool,
    pub able_to_establish: bool,
    pub sreject_exception: u32,
    pub own_receiver_busy: bool,
    pub acknowledge_pending: bool,
    pub srej_enabled: bool,
    pub k: u8,
    pub obuf: Seq<u8>,
    pub mtu_out: usize,
    pub iframe_resend_queue: Seq<IframeV>,
}

/// Well-formed connection data. The central clause is the resend-queue law:
/// the queue holds exactly the I-frames between `V(A)` and `V(S)`, so its
/// length is `(V(S) - V(A)) mod modulus`, and that never exceeds the window
/// `K`.
pub open spec fn data_wf(d: DataV) -> bool {
    &&& (d.modulus == 8 || d.modulus == 128)
    &&& d.vs < 128 && d.va < 128 && d.vr < 128
    &&& d.iframe_resend_queue.len() == mod_dist(d.va, d.vs, d.modulus)
    &&& mod_dist(d.va, d.vs, d.modulus) <= d.k
    &&& 0 < d.k < d.modulus
    &&& d.mtu_out >= 1
    &&& d.obuf.len() <= MAX_OBUF_SIZE
    &&& d.n2 == DEFAULT_N2
    &&& d.rc <= d.n2
    &&& !d.srej_enabled
}

/// Sequence numbers fit the modulus; holds whenever the machine is in the
/// data phase.
pub open spec fn seqs_in_modulus(d: DataV) -> bool {
    d.vs < d.modulus && d.va < d.modulus && d.vr < d.modulus
}

/// The timer discipline: T1 and T3 never run together; nothing runs while
/// disconnected; T1 runs while a SABM or DISC awaits its answer; and in the
/// steady data phase T3 (idle) runs exactly when nothing awaits an
/// acknowledgement from a ready peer.
pub open spec fn timers_inv(s: State, d: DataV) -> bool {
    &&& !(d.t1.running && d.t3.running)
    &&& (s is Disconnected ==> !d.t1.running && !d.t3.running)
    &&& (s is AwaitingConnection ==> d.t1.running)
    &&& (s is AwaitingRelease ==> d.t1.running)
    &&& (s is Connected ==> (d.va != d.vs ==> (d.t1.running && !d.t3.running)))
    &&& (s matches State::Connected(c) && c.connected_state is Connected ==> ((d.va == d.vs
        && !d.peer_receiver_busy) ==> (!d.t1.running && d.t3.running)))
}

/// The full state-machine invariant, preserved by `handle`.
pub open spec fn inv(s: State, d: DataV) -> bool {
    &&& data_wf(d)
    &&& (s is Connected ==> seqs_in_modulus(d))
    &&& (s is Disconnected ==> d.va == d.vs)
    &&& (s is AwaitingRelease ==> d.va == d.vs)
    &&& (s is Disconnected <==> d.peer is None)
    &&& (s matches State::Connected(c) && c.connected_state is TimerRecovery ==> d.rc < d.n2)
    &&& timers_inv(s, d)
}

/// Per-connection data: identities, sequence variables, timers, windows,
/// exception flags, the outgoing byte buffer and the unacknowledged-frame
/// queue.
#[derive(Debug)]
pub struct Data {
    /// The local address.
    pub me: Addr,
    /// The remote address; set while a connection is being made or exists.
    pub peer: Option<Addr>,
    /// Whether incoming SABM/SABME may establish a connection.
    pub able_to_establish: bool,
    layer3_initiated: bool,
    t1: Timer,
    t3: Timer,
    t3v_ms: u64,
    vs: u8,
    va: u8,
    vr: u8,
    srt_default_ms: u64,
    srt_ms: u64,
    t1v_ms: u64,
    n1: usize,
    n2: u8,
    rc: u8,
    modulus: u8,
    peer_receiver_busy: bool,
    reject_exception: bool,
    sreject_exception: u32,
    own_receiver_busy: bool,
    acknowledge_pending: bool,
    srej_enabled: bool,
    k: u8,
    obuf: Vec<u8>,
    mtu_out: usize,
    iframe_resend_queue: Vec<Iframe>,
}

impl View for Data {
    type V = DataV;

    closed spec fn view(&self) -> DataV {
        DataV {
            me: self.me@,
            peer: match self.peer {
                Some(ref a) => Some(a@),
                None => None,
            },
            layer3_initiated: self.layer3_initiated,
            t1: self.t1,
            t3: self.t3,
            t3v_ms: self.t3v_ms,
            vs: self.vs,
            va: self.va,
            vr: self.vr,
            srt_default_ms: self.srt_default_ms,
            srt_ms: self.srt_ms,
            t1v_ms: self.t1v_ms,
            n1: self.n1,
            n2: self.n2,
            rc: self.rc,
            modulus: self.modulus,
            peer_receiver_busy: self.peer_receiver_busy,
            reject_exception: self.reject_exception,
            able_to_establish: self.able_to_establish,
            sreject_exception: self.sreject_exception,
            own_receiver_busy: self.own_receiver_busy,
            acknowledge_pending: self.acknowledge_pending,
            srej_enabled: self.srej_enabled,
            k: self.k,
            obuf: self.obuf@,
            mtu_out: self.mtu_out,
            iframe_resend_queue: self.iframe_resend_queue@.map_values(|i: Iframe| i@),
        }
    }
}

/// Fresh connection data for a local address: mod-8, default timers and
/// windows, no peer, both timers stopped.
pub open spec fn spec_new_data(me: AddrV) -> DataV {
    DataV {
        me,
        peer: None,
        layer3_initiated: false,
        t1: Timer { running: false, expiry_ms: 0 },
        t3: Timer { running: false, expiry_ms: 0 },
        t3v_ms: DEFAULT_T3V_MS,
        vs: 0,
        va: 0,
        vr: 0,
        srt_default_ms: DEFAULT_SRT_MS,
        srt_ms: DEFAULT_SRT_MS,
        t1v_ms: DEFAULT_SRT_MS,
        n1: DEFAULT_MTU_IN,
        n2: DEFAULT_N2,
        rc: 0,
        modulus: 8,
        peer_receiver_busy: false,
        reject_exception: false,
        able_to_establish: false,
        sreject_exception: 0,
        own_receiver_busy: false,
        acknowledge_pending: false,
        srej_enabled: false,
        k: 7,
        obuf: Seq::empty(),
        mtu_out: DEFAULT_MTU_OUT,
        iframe_resend_queue: Seq::empty(),
    }
}

// ---------------------------------------------------------------------------
// The specification model: one pure function per helper of the machine.
// ---------------------------------------------------------------------------

/// Clearing exception conditions on a connection reset.
pub open spec fn spec_clear_exception_conditions(d: DataV) -> DataV {
    DataV {
        peer_receiver_busy: false,
        reject_exception: false,
        own_receiver_busy: false,
        acknowledge_pending: false,
        sreject_exception: 0,
        ..d
    }
}

/// Dropping the unacknowledged-frame queue: the frames will never be resent,
/// so the acknowledged mark catches up with the send mark.
pub open spec fn spec_clear_iframe_queue(d: DataV) -> DataV {
    DataV { iframe_resend_queue: Seq::empty(), va: d.vs, ..d }
}

/// Establishing (or re-establishing) the link: exceptions cleared, first
/// try counted, T3 stopped, T1 restarted; a SABM or SABME goes out.
pub open spec fn spec_establish_data_link(d: DataV, now_ms: u64) -> DataV {
    let d1 = spec_clear_exception_conditions(d);
    DataV { rc: 1, t3: timer_stopped(d1.t3), t1: timer_started(now_ms, d1.srt_ms), ..d1 }
}

/// Mod-8 parameters.
pub open spec fn spec_set_version_2(d: DataV) -> DataV {
    DataV { modulus: 8, k: 4, n2: DEFAULT_N2, ..d }
}

/// Mod-128 (extended) parameters.
pub open spec fn spec_set_version_2_2(d: DataV) -> DataV {
    DataV { modulus: 128, k: 32, n2: DEFAULT_N2, ..d }
}

/// Choosing the next T1 duration: fresh connections reset the estimate; a
/// timed-out T1 backs it off by doubling plus a per-retry step. T1V tracks
/// the estimate.
pub open spec fn spec_select_t1_value(d: DataV, now_ms: u64) -> DataV {
    if d.rc == 0 {
        DataV { srt_ms: d.srt_default_ms, t1v_ms: d.srt_default_ms, ..d }
    } else if d.t1.running && now_ms > d.t1.expiry_ms {
        let srt = sat_add64(
            ((d.rc as u64) * SRT_RETRY_STEP_MS) as u64,
            sat_add64(d.srt_ms, d.srt_ms),
        );
        DataV { srt_ms: srt, t1v_ms: srt, ..d }
    } else {
        d
    }
}

/// Answering an enquiry: RR, or RNR while our receiver is busy, always as a
/// response.
pub open spec fn spec_enquiry_response(d: DataV, pf: bool) -> (DataV, ActionV) {
    let d1 = DataV { acknowledge_pending: false, ..d };
    if d.own_receiver_busy {
        (d1, ActionV::SendRnr { pf, nr: d.vr, command: false })
    } else {
        (d1, ActionV::SendRr { pf, nr: d.vr, command: false })
    }
}

/// Asking the peer where it stands: RR or RNR as a command with P set, and
/// T1 running for the answer.
pub open spec fn spec_transmit_enquiry(d: DataV, now_ms: u64) -> (DataV, ActionV) {
    let d1 = DataV {
        acknowledge_pending: false,
        t1: timer_started(now_ms, d.t1v_ms),
        ..d
    };
    if d.own_receiver_busy {
        (d1, ActionV::SendRnr { pf: true, nr: d.vr, command: true })
    } else {
        (d1, ActionV::SendRr { pf: true, nr: d.vr, command: true })
    }
}

/// An out-of-window N(R): report the sequence error and re-establish.
pub open spec fn spec_nr_error_recovery(d: DataV, now_ms: u64) -> (DataV, Seq<ActionV>) {
    let d1 = spec_establish_data_link(DataV { layer3_initiated: false, ..d }, now_ms);
    (d1, seq![ActionV::DlError(DlError::J), ActionV::SendSabm { pf: true }])
}

/// A command with P set demands a response with F set; an unexpected F is
/// reported.
pub open spec fn spec_check_need_for_response(d: DataV, command: bool, pf: bool) -> (
    DataV,
    Seq<ActionV>,
) {
    if command && pf {
        let (d1, a) = spec_enquiry_response(d, true);
        (d1, seq![a])
    } else if !command && pf {
        (d, seq![ActionV::DlError(DlError::A)])
    } else {
        (d, seq![])
    }
}

/// Validation of a UI frame: it must be a command and fit the incoming
/// size limit.
pub open spec fn spec_ui_check(d: DataV, command: bool, len: int) -> Seq<ActionV> {
    if !command {
        seq![ActionV::DlError(DlError::Q)]
    } else if len > d.n1 {
        seq![ActionV::DlError(DlError::K)]
    } else {
        seq![]
    }
}

/// Resending the whole unacknowledged queue, oldest first.
pub open spec fn spec_invoke_retransmission(d: DataV) -> Seq<ActionV> {
    d.iframe_resend_queue.map_values(|i: IframeV| ActionV::SendIframe(i))
}

/// Advancing the acknowledged mark to `nr`, dropping one queued frame per
/// step.
pub open spec fn spec_update_ack(d: DataV, nr: u8) -> DataV
    decreases mod_dist(d.va, nr, d.modulus),
    when d.va < d.modulus && nr < d.modulus
{
    if d.va == nr {
        d
    } else {
        spec_update_ack(
            DataV {
                va: incr_mod(d.va, d.modulus),
                iframe_resend_queue: d.iframe_resend_queue.skip(1),
                ..d
            },
            nr,
        )
    }
}

/// Draining the outgoing buffer into I-frames while the window has room and
/// the peer is ready: each frame takes up to one MTU of bytes, carries the
/// next send sequence number, and is remembered for retransmission. Sending
/// the first frame moves the connection from idle (T3) to pending-ack (T1).
pub open spec fn spec_flush(d: DataV, now_ms: u64) -> (DataV, Seq<ActionV>)
    decreases d.obuf.len(),
    when d.mtu_out >= 1
{
    if d.peer_receiver_busy || d.obuf.len() == 0 || d.vs == add_mod(d.va, d.k, d.modulus) {
        (d, seq![])
    } else {
        let take = if d.obuf.len() < d.mtu_out {
            d.obuf.len() as int
        } else {
            d.mtu_out as int
        };
        let i = IframeV { ns: d.vs, nr: d.vr, poll: false, pid: NO_L3, payload: d.obuf.take(take) };
        let (d2, rest) = spec_flush(spec_flush_step(d, now_ms), now_ms);
        (d2, seq![ActionV::SendIframe(i)] + rest)
    }
}

/// One sending step of the drain: one frame's worth of bytes leaves the
/// buffer, the frame joins the resend queue, and T1 takes over from T3 if it
/// was not already running.
pub open spec fn spec_flush_step(d: DataV, now_ms: u64) -> DataV {
    let take = if d.obuf.len() < d.mtu_out {
        d.obuf.len() as int
    } else {
        d.mtu_out as int
    };
    let i = IframeV { ns: d.vs, nr: d.vr, poll: false, pid: NO_L3, payload: d.obuf.take(take) };
    DataV {
        obuf: d.obuf.skip(take),
        vs: incr_mod(d.vs, d.modulus),
        acknowledge_pending: false,
        t1: if d.t1.running {
            d.t1
        } else {
            timer_started(now_ms, d.srt_ms)
        },
        t3: if d.t1.running {
            d.t3
        } else {
            timer_stopped(d.t3)
        },
        iframe_resend_queue: d.iframe_resend_queue.push(i),
        ..d
    }
}

/// Advance the acknowledged mark, then send whatever the freed window
/// allows.
pub open spec fn spec_update_ack_flush(d: DataV, nr: u8, now_ms: u64) -> (DataV, Seq<ActionV>) {
    spec_flush(spec_update_ack(d, nr), now_ms)
}

/// Bookkeeping when an acknowledgement arrives: a busy peer keeps T1
/// running; a complete acknowledgement moves back to idle (T3); partial
/// progress restarts T1.
pub open spec fn spec_check_iframe_acked(d: DataV, nr: u8, now_ms: u64) -> (DataV, Seq<ActionV>) {
    if d.peer_receiver_busy {
        let d1 = DataV {
            t3: timer_stopped(d.t3),
            t1: if d.t1.running {
                d.t1
            } else {
                timer_started(now_ms, d.srt_ms)
            },
            ..d
        };
        spec_update_ack_flush(d1, nr, now_ms)
    } else if nr == d.vs {
        let d1 = DataV { t1: timer_stopped(d.t1), t3: timer_started(now_ms, d.t3v_ms), ..d };
        let d2 = spec_select_t1_value(d1, now_ms);
        spec_update_ack_flush(d2, nr, now_ms)
    } else if nr != d.va {
        let d1 = DataV { t1: timer_started(now_ms, d.srt_ms), ..d };
        spec_update_ack_flush(d1, nr, now_ms)
    } else {
        (d, seq![])
    }
}

/// Saturating 64-bit addition.
fn sat_add(a: u64, b: u64) -> (r: u64)
    ensures
        r == sat_add64(a, b),
{
    if b > u64::MAX - a {
        u64::MAX
    } else {
        a + b
    }
}

/// Check whether a received N(R) lies inside the window `[va .. vs]`,
/// stepping forward modulo `modulus`.
pub fn in_range(va: u8, nr: u8, vs: u8, modulus: u8) -> (r: bool)
    requires
        va < modulus,
        vs < modulus,
    ensures
        r == spec_in_range(va, nr, vs, modulus),
{
    if nr >= modulus {
        return false;
    }
    let dist_nr = if nr >= va {
        nr - va
    } else {
        nr + (modulus - va)
    };
    let dist_vs = if vs >= va {
        vs - va
    } else {
        vs + (modulus - va)
    };
    dist_nr <= dist_vs
}

impl Data {
    /// Create new connection data with the given local address.
    pub fn new(me: Addr) -> (r: Self)
        ensures
            r@ == spec_new_data(me@),
    {
        let r = Data {
            me,
            peer: None,
            able_to_establish: false,
            layer3_initiated: false,
            t1: Timer::new(),
            t3: Timer::new(),
            t3v_ms: DEFAULT_T3V_MS,
            vs: 0,
            va: 0,
            vr: 0,
            srt_default_ms: DEFAULT_SRT_MS,
            srt_ms: DEFAULT_SRT_MS,
            t1v_ms: DEFAULT_SRT_MS,
            n1: DEFAULT_MTU_IN,
            n2: DEFAULT_N2,
            rc: 0,
            modulus: 8,
            peer_receiver_busy: false,
            reject_exception: false,
            sreject_exception: 0,
            own_receiver_busy: false,
            acknowledge_pending: false,
            srej_enabled: false,
            k: 7,
            obuf: Vec::new(),
            mtu_out: DEFAULT_MTU_OUT,
            iframe_resend_queue: Vec::new(),
        };
        proof {
            assert(r@.iframe_resend_queue =~= Seq::<IframeV>::empty());
            assert(r@.obuf =~= Seq::<u8>::empty());
        }
        r
    }

    /// Set the default smoothed round-trip time, used for T1, in
    /// milliseconds.
    pub fn srt_default(&mut self, v_ms: u64)
        ensures
            final(self)@ == (DataV {
                srt_default_ms: v_ms,
                srt_ms: v_ms,
                t1v_ms: v_ms,
                ..old(self)@
            }),
    {
        self.srt_default_ms = v_ms;
        self.srt_ms = v_ms;
        self.t1v_ms = v_ms;
    }

    /// Set the idle-timer (T3) duration, in milliseconds.
    pub fn t3v(&mut self, v_ms: u64)
        ensures
            final(self)@ == (DataV { t3v_ms: v_ms, ..old(self)@ }),
    {
        self.t3v_ms = v_ms;
    }

    /// Set the outgoing MTU.
    pub fn mtu(&mut self, v: usize)
        requires
            v >= 1,
        ensures
            final(self)@ == (DataV { mtu_out: v, ..old(self)@ }),
    {
        self.mtu_out = v;
    }

    /// True when the connection uses the extended, mod-128 numbering.
    pub fn ext(&self) -> (r: bool)
        ensures
            r == (self@.modulus == 128),
    {
        self.modulus == 128
    }

    /// True when T1 is running and has passed its deadline.
    pub fn t1_expired(&self, now_ms: u64) -> (r: bool)
        ensures
            r == (self@.t1.running && now_ms > self@.t1.expiry_ms),
    {
        match self.t1.is_expired(now_ms) {
            Some(b) => b,
            None => false,
        }
    }

    /// True when T3 is running and has passed its deadline.
    pub fn t3_expired(&self, now_ms: u64) -> (r: bool)
        ensures
            r == (self@.t3.running && now_ms > self@.t3.expiry_ms),
    {
        match self.t3.is_expired(now_ms) {
            Some(b) => b,
            None => false,
        }
    }

    /// The timer events that have fired by `now_ms`: T1 first, then T3,
    /// each present exactly when its timer runs and has passed its deadline.
    pub fn active_timers(&self, now_ms: u64) -> (r: Vec<Event>)
        ensures
            r@ == spec_active_timers(self@, now_ms),
    {
        let mut ret: Vec<Event> = Vec::new();
        if self.t1_expired(now_ms) {
            ret.push(Event::T1);
        }
        if self.t3_expired(now_ms) {
            ret.push(Event::T3);
        }
        proof {
            assert(ret@ =~= spec_active_timers(self@, now_ms));
        }
        ret
    }

    /// Allow, or stop allowing, incoming SABM and SABME to establish a
    /// connection.
    pub fn listen(&mut self, v: bool)
        ensures
            final(self)@ == (DataV { able_to_establish: v, ..old(self)@ }),
    {
        self.able_to_establish = v;
    }

    /// The number of bytes waiting in the outgoing buffer. A caller checks
    /// this before an application write, so the buffer's hard cap is never
    /// exceeded.
    pub fn buffered(&self) -> (r: usize)
        ensures
            r == self@.obuf.len(),
    {
        self.obuf.len()
    }

    /// Time until the nearest running timer expires; `None` when neither
    /// timer runs.
    pub fn next_timer_remaining(&self, now_ms: u64) -> (r: Option<u64>)
        ensures
            r is Some <==> (self@.t1.running || self@.t3.running),
            r matches Some(v) ==> ((self@.t1.running && v == timer_left(self@.t1, now_ms))
                || (self@.t3.running && v == timer_left(self@.t3, now_ms))),
            r matches Some(v) ==> (self@.t1.running ==> v <= timer_left(self@.t1, now_ms))
                && (self@.t3.running ==> v <= timer_left(self@.t3, now_ms)),
    {
        let r1 = self.t1.remaining(now_ms);
        let r3 = self.t3.remaining(now_ms);
        match (r1, r3) {
            (Some(a), Some(b)) => if a < b {
                Some(a)
            } else {
                Some(b)
            },
            (Some(a), None) => Some(a),
            (None, Some(b)) => Some(b),
            (None, None) => None,
        }
    }
}

/// The timer events due at `now_ms`: T1 before T3.
pub open spec fn spec_active_timers(d: DataV, now_ms: u64) -> Seq<Event> {
    let t1x = d.t1.running && now_ms > d.t1.expiry_ms;
    let t3x = d.t3.running && now_ms > d.t3.expiry_ms;
    if t1x && t3x {
        seq![Event::T1, Event::T3]
    } else if t1x {
        seq![Event::T1]
    } else if t3x {
        seq![Event::T3]
    } else {
        Seq::empty()
    }
}

/// The time a running timer still has left at `now_ms`.
pub open spec fn timer_left(t: Timer, now_ms: u64) -> u64 {
    if t.expiry_ms >= now_ms {
        (t.expiry_ms - now_ms) as u64
    } else {
        0
    }
}

/// The fields that the window machinery (`flush`, `update_ack`) relies on:
/// well-formed sequence numbers, the queue-length law, and a positive MTU.
pub open spec fn data_ready(d: DataV) -> bool {
    &&& (d.modulus == 8 || d.modulus == 128)
    &&& d.vs < d.modulus && d.va < d.modulus && d.vr < d.modulus
    &&& d.iframe_resend_queue.len() == mod_dist(d.va, d.vs, d.modulus)
    &&& mod_dist(d.va, d.vs, d.modulus) <= d.k
    &&& 0 < d.k < d.modulus
    &&& d.mtu_out >= 1
    &&& d.obuf.len() <= MAX_OBUF_SIZE
}

/// The fields that the window machinery leaves alone.
pub open spec fn non_window_fields_eq(a: DataV, b: DataV) -> bool {
    &&& a.me == b.me
    &&& a.peer == b.peer
    &&& a.layer3_initiated == b.layer3_initiated
    &&& a.t3v_ms == b.t3v_ms
    &&& a.vr == b.vr
    &&& a.srt_default_ms == b.srt_default_ms
    &&& a.srt_ms == b.srt_ms
    &&& a.t1v_ms == b.t1v_ms
    &&& a.n1 == b.n1
    &&& a.n2 == b.n2
    &&& a.rc == b.rc
    &&& a.modulus == b.modulus
    &&& a.peer_receiver_busy == b.peer_receiver_busy
    &&& a.reject_exception == b.reject_exception
    &&& a.able_to_establish == b.able_to_establish
    &&& a.sreject_exception == b.sreject_exception
    &&& a.own_receiver_busy == b.own_receiver_busy
    &&& a.srej_enabled == b.srej_enabled
    &&& a.k == b.k
    &&& a.mtu_out == b.mtu_out
}

/// The payload bytes of a list of actions, in order; frames only.
pub open spec fn concat_payloads(acts: Seq<ActionV>) -> Seq<u8>
    decreases acts.len(),
{
    if acts.len() == 0 {
        Seq::empty()
    } else {
        (match acts[0] {
            ActionV::SendIframe(i) => i.payload,
            _ => Seq::empty(),
        }) + concat_payloads(acts.skip(1))
    }
}

/// Appending an action appends its payload.
proof fn lemma_concat_payloads_snoc(acts: Seq<ActionV>, a: ActionV)
    ensures
        concat_payloads(acts.push(a)) == concat_payloads(acts) + (match a {
            ActionV::SendIframe(i) => i.payload,
            _ => Seq::<u8>::empty(),
        }),
    decreases acts.len(),
{
    let tail = (match a {
        ActionV::SendIframe(i) => i.payload,
        _ => Seq::<u8>::empty(),
    });
    if acts.len() == 0 {
        assert(acts.push(a).skip(1) =~= Seq::<ActionV>::empty());
        assert(acts.push(a)[0] == a);
        assert(concat_payloads(Seq::<ActionV>::empty()) =~= Seq::<u8>::empty());
        assert(concat_payloads(acts.push(a)) =~= concat_payloads(acts) + tail);
    } else {
        assert(acts.push(a).skip(1) =~= acts.skip(1).push(a));
        lemma_concat_payloads_snoc(acts.skip(1), a);
        assert(concat_payloads(acts.push(a)) =~= concat_payloads(acts) + tail);
    }
}

impl Data {
    /// Clear the exception flags on a connection reset.
    fn clear_exception_conditions(&mut self)
        ensures
            final(self)@ == spec_clear_exception_conditions(old(self)@),
    {
        self.peer_receiver_busy = false;
        self.reject_exception = false;
        self.own_receiver_busy = false;
        self.acknowledge_pending = false;
        self.sreject_exception = 0;
    }

    /// Drop the unacknowledged-frame queue; the connection is resetting or
    /// shutting down and the frames will never be resent.
    pub fn clear_iframe_queue(&mut self)
        ensures
            final(self)@ == spec_clear_iframe_queue(old(self)@),
    {
        self.iframe_resend_queue = Vec::new();
        self.va = self.vs;
        proof {
            assert(self@.iframe_resend_queue =~= Seq::<IframeV>::empty());
        }
    }

    /// Start (or restart) establishing the link; a SABM (or SABME under
    /// mod-128) goes out.
    fn establish_data_link(&mut self, now_ms: u64) -> (a: Action)
        ensures
            final(self)@ == spec_establish_data_link(old(self)@, now_ms),
            a == (Action::SendSabm { pf: true }),
    {
        self.clear_exception_conditions();
        self.rc = 1;
        self.t3.stop();
        self.t1.restart(now_ms, self.srt_ms);
        Action::SendSabm { pf: true }
    }

    /// Switch to mod-8 parameters.
    fn set_version_2(&mut self)
        ensures
            final(self)@ == spec_set_version_2(old(self)@),
    {
        self.modulus = 8;
        self.k = 4;
        self.n2 = DEFAULT_N2;
    }

    /// Switch to mod-128 (extended) parameters.
    pub fn set_version_2_2(&mut self)
        ensures
            final(self)@ == spec_set_version_2_2(old(self)@),
    {
        self.modulus = 128;
        self.k = 32;
        self.n2 = DEFAULT_N2;
    }

    /// Choose the next T1 duration from the round-trip estimate.
    fn select_t1_value(&mut self, now_ms: u64)
        ensures
            final(self)@ == spec_select_t1_value(old(self)@, now_ms),
    {
        if self.rc == 0 {
            self.srt_ms = self.srt_default_ms;
            self.t1v_ms = self.srt_default_ms;
        } else if self.t1_expired(now_ms) {
            let t = (self.rc as u64) * SRT_RETRY_STEP_MS;
            let doubled = sat_add(self.srt_ms, self.srt_ms);
            self.srt_ms = sat_add(t, doubled);
            self.t1v_ms = self.srt_ms;
        }
    }

    /// Answer a peer's enquiry with RR, or RNR while busy, as a response.
    fn enquiry_response(&mut self, pf: bool) -> (a: Action)
        ensures
            final(self)@ == spec_enquiry_response(old(self)@, pf).0,
            a@ == spec_enquiry_response(old(self)@, pf).1,
    {
        self.acknowledge_pending = false;
        if self.own_receiver_busy {
            Action::SendRnr { pf, nr: self.vr, command: false }
        } else {
            Action::SendRr { pf, nr: self.vr, command: false }
        }
    }

    /// Ask the peer where it stands, starting T1 for the answer.
    fn transmit_enquiry(&mut self, now_ms: u64) -> (a: Action)
        ensures
            final(self)@ == spec_transmit_enquiry(old(self)@, now_ms).0,
            a@ == spec_transmit_enquiry(old(self)@, now_ms).1,
    {
        self.acknowledge_pending = false;
        self.t1.start(now_ms, self.t1v_ms);
        if self.own_receiver_busy {
            Action::SendRnr { pf: true, nr: self.vr, command: true }
        } else {
            Action::SendRr { pf: true, nr: self.vr, command: true }
        }
    }

    /// Recover from an out-of-window N(R).
    fn nr_error_recovery(&mut self, now_ms: u64) -> (r: Vec<Action>)
        ensures
            final(self)@ == spec_nr_error_recovery(old(self)@, now_ms).0,
            r@.map_values(|x: Action| x@) == spec_nr_error_recovery(old(self)@, now_ms).1,
    {
        self.layer3_initiated = false;
        let a = self.establish_data_link(now_ms);
        let mut r: Vec<Action> = Vec::new();
        r.push(Action::DlError(DlError::J));
        r.push(a);
        proof {
            assert(r@.map_values(|x: Action| x@) =~= spec_nr_error_recovery(
                old(self)@,
                now_ms,
            ).1);
        }
        r
    }

    /// Respond when a command frame carries the poll bit.
    fn check_need_for_response(&mut self, command: bool, pf: bool) -> (r: Vec<Action>)
        ensures
            final(self)@ == spec_check_need_for_response(old(self)@, command, pf).0,
            r@.map_values(|x: Action| x@) == spec_check_need_for_response(
                old(self)@,
                command,
                pf,
            ).1,
    {
        let mut r: Vec<Action> = Vec::new();
        if command && pf {
            let a = self.enquiry_response(true);
            r.push(a);
        } else if !command && pf {
            r.push(Action::DlError(DlError::A));
        }
        proof {
            assert(r@.map_values(|x: Action| x@) =~= spec_check_need_for_response(
                old(self)@,
                command,
                pf,
            ).1);
        }
        r
    }

    /// Validate a received UI frame.
    fn ui_check(&self, command: bool, len: usize) -> (r: Vec<Action>)
        ensures
            r@.map_values(|x: Action| x@) == spec_ui_check(self@, command, len as int),
    {
        let mut r: Vec<Action> = Vec::new();
        if !command {
            r.push(Action::DlError(DlError::Q));
        } else if len > self.n1 {
            r.push(Action::DlError(DlError::K));
        }
        proof {
            assert(r@.map_values(|x: Action| x@) =~= spec_ui_check(self@, command, len as int));
        }
        r
    }

    /// Resend everything that is still unacknowledged, oldest first.
    fn invoke_retransmission(&self) -> (r: Vec<Action>)
        ensures
            r@.map_values(|x: Action| x@) == spec_invoke_retransmission(self@),
    {
        let mut r: Vec<Action> = Vec::new();
        let mut i: usize = 0;
        let n = self.iframe_resend_queue.len();
        while i < n
            invariant
                0 <= i <= n,
                n == self@.iframe_resend_queue.len(),
                self@.iframe_resend_queue == self.iframe_resend_queue@.map_values(
                    |x: Iframe| x@,
                ),
                r@.len() == i,
                forall|j: int|
                    0 <= j < i ==> (#[trigger] r@[j])@ == ActionV::SendIframe(
                        self@.iframe_resend_queue[j],
                    ),
            decreases n - i,
        {
            let f = self.iframe_resend_queue[i].clone();
            proof {
                assert(f@ == self@.iframe_resend_queue[i as int]);
            }
            r.push(Action::SendIframe(f));
            i += 1;
        }
        proof {
            assert(r@.map_values(|x: Action| x@) =~= spec_invoke_retransmission(self@));
        }
        r
    }

    /// True while `flush` has bytes to send, window room, and a ready peer.
    fn flush_can_send(&self) -> (b: bool)
        requires
            self@.va < self@.modulus,
            self@.vs < self@.modulus,
            0 < self@.k < self@.modulus,
        ensures
            b == (!self@.peer_receiver_busy && self@.obuf.len() > 0 && self@.vs != add_mod(
                self@.va,
                self@.k,
                self@.modulus,
            )),
    {
        let window_edge = if self.va >= self.modulus - self.k {
            self.va - (self.modulus - self.k)
        } else {
            self.va + self.k
        };
        !self.peer_receiver_busy && self.obuf.len() > 0 && self.vs != window_edge
    }

    /// Send as many I-frames as the window and the peer allow.
    #[verifier::rlimit(100)]
    fn flush(&mut self, now_ms: u64) -> (r: Vec<Action>)
        requires
            data_ready(old(self)@),
            !(old(self)@.t1.running && old(self)@.t3.running),
        ensures
            final(self)@ == spec_flush(old(self)@, now_ms).0,
            r@.map_values(|x: Action| x@) == spec_flush(old(self)@, now_ms).1,
            data_ready(final(self)@),
            non_window_fields_eq(old(self)@, final(self)@),
            final(self)@.va == old(self)@.va,
            final(self)@.vs == old(self)@.vs ==> final(self)@ == old(self)@ && r@.len() == 0,
            final(self)@.vs != old(self)@.vs ==> final(self)@.t1.running
                && !final(self)@.t3.running && !final(self)@.acknowledge_pending && final(
            self)@.va != final(self)@.vs,
            concat_payloads(r@.map_values(|x: Action| x@)) + final(self)@.obuf == old(
                self,
            )@.obuf,
            forall|j: int| 0 <= j < r@.len() ==> (#[trigger] r@[j]@) is SendIframe,
    {
        let mut acts: Vec<Action> = Vec::new();
        let ghost d0 = old(self)@;
        proof {
            assert(concat_payloads(Seq::<ActionV>::empty()) + self@.obuf =~= self@.obuf);
        }
        while self.flush_can_send()
            invariant
                data_ready(self@),
                non_window_fields_eq(d0, self@),
                self@.va == d0.va,
                mod_dist(d0.va, self@.vs, self@.modulus) == mod_dist(d0.va, d0.vs, d0.modulus)
                    + acts@.len(),
                spec_flush(d0, now_ms) == {
                    let (d2, rest) = spec_flush(self@, now_ms);
                    (d2, acts@.map_values(|x: Action| x@) + rest)
                },
                !(self@.t1.running && self@.t3.running),
                acts@.len() == 0 ==> self@ == d0,
                acts@.len() != 0 ==> self@.t1.running && !self@.t3.running
                    && !self@.acknowledge_pending,
                concat_payloads(acts@.map_values(|x: Action| x@)) + self@.obuf == d0.obuf,
                forall|j: int| 0 <= j < acts@.len() ==> (#[trigger] acts@[j]@) is SendIframe,
            decreases self@.obuf.len(),
        {
            let ghost pre = self@;
            let ghost acts0 = acts@.map_values(|x: Action| x@);
            let take = if self.obuf.len() < self.mtu_out {
                self.obuf.len()
            } else {
                self.mtu_out
            };
            let payload = vstd::slice::slice_to_vec(
                vstd::slice::slice_subrange(self.obuf.as_slice(), 0, take),
            );
            crate::kiss::drain_front(&mut self.obuf, take);
            let frame = Iframe { ns: self.vs, nr: self.vr, poll: false, pid: NO_L3, payload };
            self.vs = if self.vs + 1 == self.modulus {
                0
            } else {
                self.vs + 1
            };
            self.acknowledge_pending = false;
            if !self.t1.running {
                self.t3.stop();
                self.t1.start(now_ms, self.srt_ms);
            }
            let queued = frame.clone();
            self.iframe_resend_queue.push(queued);
            acts.push(Action::SendIframe(frame));
            proof {
                let fv = IframeV {
                    ns: pre.vs,
                    nr: pre.vr,
                    poll: false,
                    pid: NO_L3,
                    payload: pre.obuf.take(take as int),
                };
                assert(pre.obuf.subrange(0, take as int) =~= pre.obuf.take(take as int));
                assert(frame@ == fv);
                assert(self@.iframe_resend_queue =~= pre.iframe_resend_queue.push(fv));
                assert(self@ == spec_flush_step(pre, now_ms));
                assert(spec_flush(pre, now_ms) == (
                    spec_flush(self@, now_ms).0,
                    seq![ActionV::SendIframe(fv)] + spec_flush(self@, now_ms).1,
                ));
                assert(acts@.map_values(|x: Action| x@) =~= acts0.push(ActionV::SendIframe(fv)));
                lemma_concat_payloads_snoc(acts0, ActionV::SendIframe(fv));
                assert(concat_payloads(acts0) + (fv.payload + self@.obuf) =~= (concat_payloads(
                    acts0,
                ) + fv.payload) + self@.obuf);
                assert(fv.payload + self@.obuf =~= pre.obuf);
                assert(acts0 + (seq![ActionV::SendIframe(fv)] + spec_flush(self@, now_ms).1)
                    =~= acts0.push(ActionV::SendIframe(fv)) + spec_flush(self@, now_ms).1);
            }
        }
        proof {
            assert(spec_flush(self@, now_ms).1 =~= Seq::<ActionV>::empty());
            assert(acts@.map_values(|x: Action| x@) + Seq::<ActionV>::empty() =~= acts@.map_values(
                |x: Action| x@,
            ));
            if acts@.len() != 0 {
                assert(self@.vs != d0.vs);
            }
        }
        acts
    }

    /// Advance the acknowledged mark to `nr`, dropping acknowledged frames
    /// from the queue, then refill the window.
    fn update_ack(&mut self, nr: u8, now_ms: u64) -> (r: Vec<Action>)
        requires
            data_ready(old(self)@),
            nr < old(self)@.modulus,
            mod_dist(old(self)@.va, nr, old(self)@.modulus) <= mod_dist(
                old(self)@.va,
                old(self)@.vs,
                old(self)@.modulus,
            ),
            !(old(self)@.t1.running && old(self)@.t3.running),
        ensures
            final(self)@ == spec_update_ack_flush(old(self)@, nr, now_ms).0,
            r@.map_values(|x: Action| x@) == spec_update_ack_flush(old(self)@, nr, now_ms).1,
            data_ready(final(self)@),
            final(self)@.va == nr,
            final(self)@.vr == old(self)@.vr,
            non_window_fields_eq(old(self)@, final(self)@),
            final(self)@.t1 == spec_flush(spec_update_ack(old(self)@, nr), now_ms).0.t1,
            spec_update_ack(old(self)@, nr) == (DataV {
                va: nr,
                iframe_resend_queue: spec_update_ack(old(self)@, nr).iframe_resend_queue,
                ..old(self)@
            }),
            final(self)@.vs == old(self)@.vs ==> (final(self)@ == spec_update_ack(
                old(self)@,
                nr,
            ) && r@.len() == 0),
            final(self)@.vs != old(self)@.vs ==> final(self)@.t1.running
                && !final(self)@.t3.running && final(self)@.va != final(self)@.vs,
            forall|j: int| 0 <= j < r@.len() ==> (#[trigger] r@[j]@) is SendIframe,
    {
        let ghost d0 = old(self)@;
        while self.va != nr
            invariant
                data_ready(self@),
                nr < self@.modulus,
                mod_dist(self@.va, nr, self@.modulus) <= mod_dist(
                    self@.va,
                    self@.vs,
                    self@.modulus,
                ),
                spec_update_ack(d0, nr) == spec_update_ack(self@, nr),
                self@ == (DataV { va: self@.va, iframe_resend_queue: self@.iframe_resend_queue, ..d0 }),
            decreases mod_dist(self@.va, nr, self@.modulus),
        {
            let ghost pre = self@;
            self.iframe_resend_queue.remove(0);
            self.va = if self.va + 1 == self.modulus {
                0
            } else {
                self.va + 1
            };
            proof {
                assert(self@.iframe_resend_queue =~= pre.iframe_resend_queue.skip(1));
                assert(self@ == (DataV {
                    va: incr_mod(pre.va, pre.modulus),
                    iframe_resend_queue: pre.iframe_resend_queue.skip(1),
                    ..pre
                }));
            }
        }
        proof {
            assert(spec_update_ack(self@, nr) == self@);
        }
        self.flush(now_ms)
    }

    /// Bookkeeping when an in-window acknowledgement arrives.
    fn check_iframe_acked(&mut self, nr: u8, now_ms: u64) -> (r: Vec<Action>)
        requires
            data_ready(old(self)@),
            spec_in_range(old(self)@.va, nr, old(self)@.vs, old(self)@.modulus),
            !(old(self)@.t1.running && old(self)@.t3.running),
            old(self)@.va != old(self)@.vs ==> old(self)@.t1.running && !old(self)@.t3.running,
        ensures
            final(self)@ == spec_check_iframe_acked(old(self)@, nr, now_ms).0,
            r@.map_values(|x: Action| x@) == spec_check_iframe_acked(old(self)@, nr, now_ms).1,
            data_ready(final(self)@),
            final(self)@.vr == old(self)@.vr,
            final(self)@.peer_receiver_busy == old(self)@.peer_receiver_busy,
            final(self)@.own_receiver_busy == old(self)@.own_receiver_busy,
            final(self)@.reject_exception == old(self)@.reject_exception,
            final(self)@.rc == old(self)@.rc,
            final(self)@.n1 == old(self)@.n1,
            final(self)@.n2 == old(self)@.n2,
            final(self)@.modulus == old(self)@.modulus,
            final(self)@.sreject_exception == old(self)@.sreject_exception,
            final(self)@.srej_enabled == old(self)@.srej_enabled,
            final(self)@.me == old(self)@.me,
            final(self)@.peer == old(self)@.peer,
            final(self)@.able_to_establish == old(self)@.able_to_establish,
            final(self)@.layer3_initiated == old(self)@.layer3_initiated,
            !(final(self)@.t1.running && final(self)@.t3.running),
            final(self)@.va != final(self)@.vs ==> final(self)@.t1.running
                && !final(self)@.t3.running,
            old(self)@.peer_receiver_busy ==> final(self)@.t1.running
                && !final(self)@.t3.running,
            !old(self)@.peer_receiver_busy && nr == old(self)@.vs ==> ((final(self)@.va == final(
                self)@.vs && !final(self)@.t1.running && final(self)@.t3.running) || (final(
                self)@.va != final(self)@.vs && final(self)@.t1.running
                && !final(self)@.t3.running)),
            !old(self)@.peer_receiver_busy && nr == old(self)@.va && nr != old(self)@.vs ==> (
            final(self)@ == old(self)@ && r@.len() == 0),
            !old(self)@.peer_receiver_busy && nr != old(self)@.va && nr != old(self)@.vs ==> (
            final(self)@.va != final(self)@.vs && final(self)@.t1.running
                && !final(self)@.t3.running),
            forall|j: int| 0 <= j < r@.len() ==> (#[trigger] r@[j]@) is SendIframe,
    {
        let ghost d0 = old(self)@;
        if self.peer_receiver_busy {
            self.t3.stop();
            if !self.t1.running {
                self.t1.start(now_ms, self.srt_ms);
            }
            let r = self.update_ack(nr, now_ms);
            proof {
                assert(r@.map_values(|x: Action| x@) == spec_check_iframe_acked(
                    d0,
                    nr,
                    now_ms,
                ).1);
            }
            r
        } else if nr == self.vs {
            self.t1.stop();
            self.t3.start(now_ms, self.t3v_ms);
            self.select_t1_value(now_ms);
            let r = self.update_ack(nr, now_ms);
            proof {
                assert(r@.map_values(|x: Action| x@) == spec_check_iframe_acked(
                    d0,
                    nr,
                    now_ms,
                ).1);
            }
            r
        } else if nr != self.va {
            self.t1.restart(now_ms, self.srt_ms);
            let r = self.update_ack(nr, now_ms);
            proof {
                assert(r@.map_values(|x: Action| x@) == spec_check_iframe_acked(
                    d0,
                    nr,
                    now_ms,
                ).1);
            }
            r
        } else {
            let r: Vec<Action> = Vec::new();
            proof {
                assert(r@.map_values(|x: Action| x@) =~= Seq::<ActionV>::empty());
            }
            r
        }
    }
}

// ---------------------------------------------------------------------------
// Per-state, per-event transitions: the model, then the handlers.
// ---------------------------------------------------------------------------

/// The first state change among a list of actions, if any.
pub open spec fn first_state_change(acts: Seq<ActionV>) -> Option<State>
    decreases acts.len(),
{
    if acts.len() == 0 {
        None
    } else {
        match acts[0] {
            ActionV::State(s) => Some(s),
            _ => first_state_change(acts.skip(1)),
        }
    }
}

/// The state after a handler ran: the first state change, or the old state.
pub open spec fn next_state(s: State, acts: Seq<ActionV>) -> State {
    match first_state_change(acts) {
        Some(s2) => s2,
        None => s,
    }
}

/// Shorthand for the states.
pub open spec fn st_disconnected() -> State {
    State::Disconnected(Disconnected {  })
}

pub open spec fn st_awaiting_connection() -> State {
    State::AwaitingConnection(AwaitingConnection {  })
}

pub open spec fn st_awaiting_release() -> State {
    State::AwaitingRelease(AwaitingRelease {  })
}

pub open spec fn st_connected() -> State {
    State::Connected(Connected { connected_state: ConnectedState::Connected })
}

pub open spec fn st_timer_recovery() -> State {
    State::Connected(Connected { connected_state: ConnectedState::TimerRecovery })
}

/// A local connect request while disconnected: pick the modulus, remember
/// the peer, and send SABM (or SABME under mod-128).
pub open spec fn spec_disconnected_connect(d: DataV, addr: AddrV, ext: bool, now_ms: u64) -> (
    DataV,
    Seq<ActionV>,
) {
    let dv = if ext {
        spec_set_version_2_2(d)
    } else {
        spec_set_version_2(d)
    };
    let d1 = DataV {
        peer: Some(addr),
        srt_ms: dv.srt_default_ms,
        t1v_ms: sat_add64(dv.srt_default_ms, dv.srt_default_ms),
        layer3_initiated: true,
        ..dv
    };
    let d2 = spec_establish_data_link(d1, now_ms);
    (
        d2,
        seq![
            ActionV::State(st_awaiting_connection()),
            ActionV::SendSabm { pf: true },
        ],
    )
}

/// An incoming SABM or SABME while disconnected: refuse with DM unless
/// this connection may accept, else reset the variables and answer UA.
pub open spec fn spec_disconnected_sabm(d: DataV, src: AddrV, pf: bool, now_ms: u64) -> (
    DataV,
    Seq<ActionV>,
) {
    if !d.able_to_establish {
        (d, seq![ActionV::SendDm { pf }])
    } else {
        let d1 = spec_clear_exception_conditions(DataV { peer: Some(src), ..d });
        let d2 = DataV {
            vs: 0,
            va: 0,
            vr: 0,
            srt_ms: d.srt_default_ms,
            t1v_ms: sat_add64(d.srt_default_ms, d.srt_default_ms),
            t3: timer_started(now_ms, d.t3v_ms),
            rc: 0,
            iframe_resend_queue: Seq::empty(),
            ..d1
        };
        (d2, seq![ActionV::SendUa { pf }, ActionV::State(st_connected())])
    }
}

/// A received UI frame while disconnected.
pub open spec fn spec_disconnected_ui(d: DataV, push: bool, command: bool, len: int) -> Seq<
    ActionV,
> {
    let acts = spec_ui_check(d, command, len);
    if push {
        acts + seq![ActionV::SendDm { pf: true }]
    } else {
        acts
    }
}

/// A T1 expiry while awaiting the connection's UA: give up after N2 tries,
/// otherwise count the retry and send the SABM again.
pub open spec fn spec_ac_t1(d: DataV, now_ms: u64) -> (DataV, Seq<ActionV>) {
    let d1 = DataV { t1: timer_stopped(d.t1), ..d };
    if d.rc == d.n2 {
        let d2 = DataV { peer: None, ..spec_clear_iframe_queue(d1) };
        (d2, seq![ActionV::DlError(DlError::G), ActionV::State(st_disconnected())])
    } else {
        let d2 = spec_select_t1_value(DataV { rc: (d1.rc + 1) as u8, ..d1 }, now_ms);
        let d3 = DataV { t1: timer_started(now_ms, d2.srt_ms), ..d2 };
        (d3, seq![ActionV::SendSabm { pf: true }])
    }
}

/// The awaited UA: with F set the connection is up; without it the frame is
/// a protocol error.
pub open spec fn spec_ac_ua(d: DataV, f: bool, now_ms: u64) -> (DataV, Seq<ActionV>) {
    if !f {
        (d, seq![ActionV::DlError(DlError::D)])
    } else {
        let d1 = if d.layer3_initiated {
            d
        } else if d.vs != d.va {
            DataV {
                srt_ms: d.srt_default_ms,
                t1v_ms: sat_add64(d.srt_default_ms, d.srt_default_ms),
                ..d
            }
        } else {
            d
        };
        let d2 = DataV {
            t1: timer_stopped(d1.t1),
            t3: timer_started(now_ms, d1.t3v_ms),
            vs: 0,
            va: 0,
            vr: 0,
            rc: 0,
            iframe_resend_queue: Seq::empty(),
            ..d1
        };
        let d3 = spec_select_t1_value(d2, now_ms);
        (d3, seq![ActionV::State(st_connected())])
    }
}

/// A local disconnect while awaiting the connection.
pub open spec fn spec_ac_disconnect(d: DataV) -> (DataV, Seq<ActionV>) {
    let d1 = spec_clear_iframe_queue(DataV { t1: timer_stopped(d.t1), peer: None, ..d });
    (d1, seq![ActionV::SendDisc { pf: true }, ActionV::State(st_disconnected())])
}

/// The awaited release confirmation (DM).
pub open spec fn spec_ar_dm(d: DataV, f: bool) -> (DataV, Seq<ActionV>) {
    if !f {
        (d, seq![])
    } else {
        (
            DataV { t1: timer_stopped(d.t1), peer: None, ..d },
            seq![ActionV::State(st_disconnected())],
        )
    }
}

/// The awaited release confirmation (UA).
pub open spec fn spec_ar_ua(d: DataV, f: bool) -> (DataV, Seq<ActionV>) {
    if !f {
        (d, seq![ActionV::DlError(DlError::D)])
    } else {
        (
            DataV { t1: timer_stopped(d.t1), peer: None, ..d },
            seq![ActionV::State(st_disconnected())],
        )
    }
}

/// A T1 expiry while awaiting the release.
pub open spec fn spec_ar_t1(d: DataV, now_ms: u64) -> (DataV, Seq<ActionV>) {
    let d1 = DataV { t1: timer_stopped(d.t1), ..d };
    if d.rc == d.n2 {
        let d2 = DataV { t3: timer_stopped(d1.t3), peer: None, ..d1 };
        (d2, seq![ActionV::DlError(DlError::H), ActionV::State(st_disconnected())])
    } else {
        let d2 = spec_select_t1_value(DataV { rc: (d1.rc + 1) as u8, ..d1 }, now_ms);
        let d3 = DataV { t1: timer_started(now_ms, d2.t1v_ms), ..d2 };
        (d3, seq![ActionV::SendDisc { pf: true }])
    }
}

/// A local disconnect while already awaiting the release.
pub open spec fn spec_ar_disconnect(d: DataV) -> (DataV, Seq<ActionV>) {
    (
        DataV { t1: timer_stopped(d.t1), peer: None, ..d },
        seq![ActionV::SendDm { pf: false }, ActionV::State(st_disconnected())],
    )
}

/// Append a byte slice to a buffer.
fn append_bytes(v: &mut Vec<u8>, s: &[u8])
    ensures
        final(v)@ == old(v)@ + s@,
{
    let mut i: usize = 0;
    while i < s.len()
        invariant
            0 <= i <= s@.len(),
            v@ =~= old(v)@ + s@.take(i as int),
        decreases s@.len() - i,
    {
        v.push(*vstd::slice::slice_index_get(s, i));
        proof {
            assert(v@ =~= old(v)@ + s@.take(i + 1));
        }
        i += 1;
    }
    proof {
        assert(v@ =~= old(v)@ + s@);
    }
}

/// A list without a state-change action changes no state.
proof fn lemma_no_state_change(acts: Seq<ActionV>)
    requires
        forall|j: int| 0 <= j < acts.len() ==> !((#[trigger] acts[j]) is State),
    ensures
        first_state_change(acts) is None,
    decreases acts.len(),
{
    if acts.len() > 0 {
        lemma_no_state_change(acts.skip(1));
    }
}

/// The first state change of a concatenation.
proof fn lemma_first_state_concat(a: Seq<ActionV>, b: Seq<ActionV>)
    ensures
        first_state_change(a + b) == (match first_state_change(a) {
            Some(s) => Some(s),
            None => first_state_change(b),
        }),
    decreases a.len(),
{
    if a.len() == 0 {
        assert(a + b =~= b);
    } else {
        assert((a + b).skip(1) =~= a.skip(1) + b);
        assert((a + b)[0] == a[0]);
        lemma_first_state_concat(a.skip(1), b);
    }
}

impl Disconnected {
    /// Shared handling of incoming SABM and SABME.
    fn sabm_and_sabme(&self, data: &mut Data, src: Addr, pf: bool, now_ms: u64) -> (r: Vec<
        Action,
    >)
        requires
            inv(st_disconnected(), old(data)@),
        ensures
            final(data)@ == spec_disconnected_sabm(old(data)@, src@, pf, now_ms).0,
            r@.map_values(|x: Action| x@) == spec_disconnected_sabm(old(data)@, src@, pf, now_ms).1,
            inv(
                next_state(st_disconnected(), spec_disconnected_sabm(old(data)@, src@, pf, now_ms).1),
                final(data)@,
            ),
    {
        let ghost d0 = old(data)@;
        if !data.able_to_establish {
            let mut r: Vec<Action> = Vec::new();
            r.push(Action::SendDm { pf });
            proof {
                reveal_with_fuel(first_state_change, 3);
                assert(r@.map_values(|x: Action| x@) =~= spec_disconnected_sabm(
                    d0,
                    src@,
                    pf,
                    now_ms,
                ).1);
            }
            return r;
        }
        data.peer = Some(src);
        data.clear_exception_conditions();
        data.vs = 0;
        data.va = 0;
        data.vr = 0;
        data.srt_ms = data.srt_default_ms;
        data.t1v_ms = sat_add(data.srt_default_ms, data.srt_default_ms);
        data.t3.start(now_ms, data.t3v_ms);
        data.rc = 0;
        data.iframe_resend_queue = Vec::new();
        let mut r: Vec<Action> = Vec::new();
        r.push(Action::SendUa { pf });
        r.push(Action::State(State::Connected(Connected::new(ConnectedState::Connected))));
        proof {
            reveal_with_fuel(first_state_change, 3);
            assert(data@.iframe_resend_queue =~= Seq::<IframeV>::empty());
            assert(r@.map_values(|x: Action| x@) =~= spec_disconnected_sabm(
                d0,
                src@,
                pf,
                now_ms,
            ).1);
        }
        r
    }

    /// A local connect request.
    pub fn connect(&self, data: &mut Data, addr: &Addr, ext: bool, now_ms: u64) -> (r: Vec<
        Action,
    >)
        requires
            inv(st_disconnected(), old(data)@),
        ensures
            final(data)@ == spec_disconnected_connect(old(data)@, addr@, ext, now_ms).0,
            r@.map_values(|x: Action| x@) == spec_disconnected_connect(
                old(data)@,
                addr@,
                ext,
                now_ms,
            ).1,
            inv(st_awaiting_connection(), final(data)@),
    {
        let ghost d0 = old(data)@;
        if ext {
            data.set_version_2_2();
        } else {
            data.set_version_2();
        }
        data.peer = Some(addr.clone());
        data.srt_ms = data.srt_default_ms;
        data.t1v_ms = sat_add(data.srt_default_ms, data.srt_default_ms);
        data.layer3_initiated = true;
        let a = data.establish_data_link(now_ms);
        let mut r: Vec<Action> = Vec::new();
        r.push(Action::State(State::AwaitingConnection(AwaitingConnection::new())));
        r.push(a);
        proof {
            assert(r@.map_values(|x: Action| x@) =~= spec_disconnected_connect(
                d0,
                addr@,
                ext,
                now_ms,
            ).1);
        }
        r
    }

    /// A received UI frame.
    pub fn ui(&self, data: &mut Data, cr: bool, packet: &Ui) -> (r: Vec<Action>)
        ensures
            final(data)@ == old(data)@,
            r@.map_values(|x: Action| x@) == spec_disconnected_ui(
                old(data)@,
                packet@.push,
                cr,
                packet@.payload.len() as int,
            ),
    {
        let mut r = data.ui_check(cr, packet.payload.len());
        if packet.push {
            r.push(Action::SendDm { pf: true });
        }
        proof {
            assert(r@.map_values(|x: Action| x@) =~= spec_disconnected_ui(
                old(data)@,
                packet@.push,
                cr,
                packet@.payload.len() as int,
            ));
        }
        r
    }
}

impl AwaitingConnection {
    /// T1 expired: retry the SABM, or give up after N2 tries.
    pub fn t1(&self, data: &mut Data, now_ms: u64) -> (r: Vec<Action>)
        requires
            inv(st_awaiting_connection(), old(data)@),
        ensures
            final(data)@ == spec_ac_t1(old(data)@, now_ms).0,
            r@.map_values(|x: Action| x@) == spec_ac_t1(old(data)@, now_ms).1,
            inv(next_state(st_awaiting_connection(), spec_ac_t1(old(data)@, now_ms).1), final(data)@),
    {
        let ghost d0 = old(data)@;
        data.t1.stop();
        if data.rc == data.n2 {
            data.clear_iframe_queue();
            data.peer = None;
            let mut r: Vec<Action> = Vec::new();
            r.push(Action::DlError(DlError::G));
            r.push(Action::State(State::Disconnected(Disconnected::new())));
            proof {
                reveal_with_fuel(first_state_change, 3);
                assert(r@.map_values(|x: Action| x@) =~= spec_ac_t1(d0, now_ms).1);
            }
            r
        } else {
            data.rc = data.rc + 1;
            data.select_t1_value(now_ms);
            data.t1.start(now_ms, data.srt_ms);
            let mut r: Vec<Action> = Vec::new();
            r.push(Action::SendSabm { pf: true });
            proof {
                reveal_with_fuel(first_state_change, 2);
                assert(r@.map_values(|x: Action| x@) =~= spec_ac_t1(d0, now_ms).1);
            }
            r
        }
    }

    /// The awaited UA arrived.
    pub fn ua(&self, data: &mut Data, packet: &Ua, now_ms: u64) -> (r: Vec<Action>)
        requires
            inv(st_awaiting_connection(), old(data)@),
        ensures
            final(data)@ == spec_ac_ua(old(data)@, packet.poll, now_ms).0,
            r@.map_values(|x: Action| x@) == spec_ac_ua(old(data)@, packet.poll, now_ms).1,
            inv(
                next_state(st_awaiting_connection(), spec_ac_ua(old(data)@, packet.poll, now_ms).1),
                final(data)@,
            ),
    {
        let ghost d0 = old(data)@;
        if !packet.poll {
            let mut r: Vec<Action> = Vec::new();
            r.push(Action::DlError(DlError::D));
            proof {
                reveal_with_fuel(first_state_change, 2);
                assert(r@.map_values(|x: Action| x@) =~= spec_ac_ua(d0, packet.poll, now_ms).1);
            }
            return r;
        }
        if data.layer3_initiated {
        } else if data.vs != data.va {
            data.srt_ms = data.srt_default_ms;
            data.t1v_ms = sat_add(data.srt_default_ms, data.srt_default_ms);
        }
        data.t1.stop();
        data.t3.start(now_ms, data.t3v_ms);
        data.vs = 0;
        data.va = 0;
        data.vr = 0;
        data.rc = 0;
        data.iframe_resend_queue = Vec::new();
        data.select_t1_value(now_ms);
        let mut r: Vec<Action> = Vec::new();
        r.push(Action::State(State::Connected(Connected::new(ConnectedState::Connected))));
        proof {
            reveal_with_fuel(first_state_change, 2);
            assert(data@.iframe_resend_queue =~= Seq::<IframeV>::empty());
            assert(r@.map_values(|x: Action| x@) =~= spec_ac_ua(d0, packet.poll, now_ms).1);
        }
        r
    }

    /// A colliding SABM is acknowledged; the connection attempt stands.
    pub fn sabm(&self, data: &mut Data, packet: &Sabm) -> (r: Vec<Action>)
        ensures
            final(data)@ == old(data)@,
            r@.map_values(|x: Action| x@) == seq![ActionV::SendUa { pf: packet.poll }],
    {
        let mut r: Vec<Action> = Vec::new();
        r.push(Action::SendUa { pf: packet.poll });
        proof {
            assert(r@.map_values(|x: Action| x@) =~= seq![ActionV::SendUa { pf: packet.poll }]);
        }
        r
    }

    /// A colliding SABME is refused; only mod-8 was asked for.
    pub fn sabme(&self, data: &mut Data, packet: &Sabme) -> (r: Vec<Action>)
        ensures
            final(data)@ == old(data)@,
            r@.map_values(|x: Action| x@) == seq![ActionV::SendDm { pf: packet.poll }],
    {
        let mut r: Vec<Action> = Vec::new();
        r.push(Action::SendDm { pf: packet.poll });
        proof {
            assert(r@.map_values(|x: Action| x@) =~= seq![ActionV::SendDm { pf: packet.poll }]);
        }
        r
    }

    /// A local disconnect before the connection came up.
    pub fn disconnect(&self, data: &mut Data) -> (r: Vec<Action>)
        requires
            inv(st_awaiting_connection(), old(data)@),
        ensures
            final(data)@ == spec_ac_disconnect(old(data)@).0,
            r@.map_values(|x: Action| x@) == spec_ac_disconnect(old(data)@).1,
            inv(st_disconnected(), final(data)@),
    {
        let ghost d0 = old(data)@;
        data.t1.stop();
        data.peer = None;
        data.clear_iframe_queue();
        let mut r: Vec<Action> = Vec::new();
        r.push(Action::SendDisc { pf: true });
        r.push(Action::State(State::Disconnected(Disconnected::new())));
        proof {
            assert(r@.map_values(|x: Action| x@) =~= spec_ac_disconnect(d0).1);
        }
        r
    }
}

impl AwaitingRelease {
    /// The release was answered with DM.
    pub fn dm(&self, data: &mut Data, p: &Dm) -> (r: Vec<Action>)
        requires
            inv(st_awaiting_release(), old(data)@),
        ensures
            final(data)@ == spec_ar_dm(old(data)@, p.poll).0,
            r@.map_values(|x: Action| x@) == spec_ar_dm(old(data)@, p.poll).1,
            inv(next_state(st_awaiting_release(), spec_ar_dm(old(data)@, p.poll).1), final(data)@),
    {
        let ghost d0 = old(data)@;
        let mut r: Vec<Action> = Vec::new();
        if !p.poll {
            proof {
                reveal_with_fuel(first_state_change, 2);
                assert(r@.map_values(|x: Action| x@) =~= spec_ar_dm(d0, p.poll).1);
            }
            return r;
        }
        data.t1.stop();
        data.peer = None;
        r.push(Action::State(State::Disconnected(Disconnected::new())));
        proof {
            reveal_with_fuel(first_state_change, 2);
            assert(r@.map_values(|x: Action| x@) =~= spec_ar_dm(d0, p.poll).1);
        }
        r
    }

    /// The release was answered with UA.
    pub fn ua(&self, data: &mut Data, p: &Ua) -> (r: Vec<Action>)
        requires
            inv(st_awaiting_release(), old(data)@),
        ensures
            final(data)@ == spec_ar_ua(old(data)@, p.poll).0,
            r@.map_values(|x: Action| x@) == spec_ar_ua(old(data)@, p.poll).1,
            inv(next_state(st_awaiting_release(), spec_ar_ua(old(data)@, p.poll).1), final(data)@),
    {
        let ghost d0 = old(data)@;
        let mut r: Vec<Action> = Vec::new();
        if !p.poll {
            r.push(Action::DlError(DlError::D));
            proof {
                reveal_with_fuel(first_state_change, 2);
                assert(r@.map_values(|x: Action| x@) =~= spec_ar_ua(d0, p.poll).1);
            }
            return r;
        }
        data.t1.stop();
        data.peer = None;
        r.push(Action::State(State::Disconnected(Disconnected::new())));
        proof {
            reveal_with_fuel(first_state_change, 2);
            assert(r@.map_values(|x: Action| x@) =~= spec_ar_ua(d0, p.poll).1);
        }
        r
    }

    /// T1 expired while awaiting the release.
    pub fn t1(&self, data: &mut Data, now_ms: u64) -> (r: Vec<Action>)
        requires
            inv(st_awaiting_release(), old(data)@),
        ensures
            final(data)@ == spec_ar_t1(old(data)@, now_ms).0,
            r@.map_values(|x: Action| x@) == spec_ar_t1(old(data)@, now_ms).1,
            inv(next_state(st_awaiting_release(), spec_ar_t1(old(data)@, now_ms).1), final(data)@),
    {
        let ghost d0 = old(data)@;
        data.t1.stop();
        if data.rc == data.n2 {
            data.t3.stop();
            data.peer = None;
            let mut r: Vec<Action> = Vec::new();
            r.push(Action::DlError(DlError::H));
            r.push(Action::State(State::Disconnected(Disconnected::new())));
            proof {
                reveal_with_fuel(first_state_change, 3);
                assert(r@.map_values(|x: Action| x@) =~= spec_ar_t1(d0, now_ms).1);
            }
            r
        } else {
            data.rc = data.rc + 1;
            data.select_t1_value(now_ms);
            data.t1.start(now_ms, data.t1v_ms);
            let mut r: Vec<Action> = Vec::new();
            r.push(Action::SendDisc { pf: true });
            proof {
                reveal_with_fuel(first_state_change, 2);
                assert(r@.map_values(|x: Action| x@) =~= spec_ar_t1(d0, now_ms).1);
            }
            r
        }
    }

    /// A second local disconnect: answer ourselves with DM and go down.
    pub fn disconnect(&self, data: &mut Data) -> (r: Vec<Action>)
        requires
            inv(st_awaiting_release(), old(data)@),
        ensures
            final(data)@ == spec_ar_disconnect(old(data)@).0,
            r@.map_values(|x: Action| x@) == spec_ar_disconnect(old(data)@).1,
            inv(st_disconnected(), final(data)@),
    {
        let ghost d0 = old(data)@;
        data.t1.stop();
        data.peer = None;
        let mut r: Vec<Action> = Vec::new();
        r.push(Action::SendDm { pf: false });
        r.push(Action::State(State::Disconnected(Disconnected::new())));
        proof {
            assert(r@.map_values(|x: Action| x@) =~= spec_ar_disconnect(d0).1);
        }
        r
    }
}

/// A local disconnect in the data phase: drop the queue and send DISC.
pub open spec fn spec_connected_disconnect(d: DataV, now_ms: u64) -> (DataV, Seq<ActionV>) {
    let d1 = spec_clear_iframe_queue(d);
    let d2 = DataV {
        rc: 0,
        t1: timer_started(now_ms, d1.srt_ms),
        t3: timer_stopped(d1.t3),
        ..d1
    };
    (d2, seq![ActionV::SendDisc { pf: true }, ActionV::State(st_awaiting_release())])
}

/// An application write: buffer the bytes, then send what the window
/// allows.
pub open spec fn spec_connected_data(d: DataV, payload: Seq<u8>, now_ms: u64) -> (
    DataV,
    Seq<ActionV>,
) {
    spec_flush(DataV { obuf: d.obuf + payload, ..d }, now_ms)
}

/// A SABM or SABME in the data phase: the peer reset the link.
pub open spec fn spec_connected_sabm(d: DataV, poll: bool, tr: bool, now_ms: u64) -> (
    DataV,
    Seq<ActionV>,
) {
    let d1 = spec_clear_exception_conditions(d);
    let d2 = DataV {
        t1: timer_stopped(d1.t1),
        t3: timer_started(now_ms, d1.t3v_ms),
        va: 0,
        vs: 0,
        vr: 0,
        iframe_resend_queue: Seq::empty(),
        ..d1
    };
    let d3 = if !tr {
        DataV { rc: 0, ..d2 }
    } else {
        d2
    };
    (
        d3,
        seq![
            ActionV::DlError(DlError::F),
            ActionV::SendUa { pf: poll },
            ActionV::State(st_connected()),
        ],
    )
}

/// A DM in the data phase: the peer is gone.
pub open spec fn spec_connected_dm(d: DataV) -> (DataV, Seq<ActionV>) {
    let d1 = spec_clear_iframe_queue(d);
    let d2 = DataV { t1: timer_stopped(d1.t1), t3: timer_stopped(d1.t3), peer: None, ..d1 };
    (d2, seq![ActionV::DlError(DlError::E), ActionV::State(st_disconnected())])
}

/// A DISC in the data phase: acknowledge, signal end of stream, go down.
pub open spec fn spec_connected_disc(d: DataV, pf: bool) -> (DataV, Seq<ActionV>) {
    let d1 = spec_clear_iframe_queue(d);
    let d2 = DataV { t1: timer_stopped(d1.t1), t3: timer_stopped(d1.t3), peer: None, ..d1 };
    (
        d2,
        seq![ActionV::SendUa { pf }, ActionV::EOF, ActionV::State(st_disconnected())],
    )
}

/// An unexpected UA in the data phase: re-establish.
pub open spec fn spec_connected_ua(d: DataV, now_ms: u64) -> (DataV, Seq<ActionV>) {
    let d1 = spec_establish_data_link(DataV { layer3_initiated: false, ..d }, now_ms);
    (
        d1,
        seq![
            ActionV::DlError(DlError::C),
            ActionV::SendSabm { pf: true },
            ActionV::State(st_awaiting_connection()),
        ],
    )
}

/// A FRMR in the data phase: re-establish.
pub open spec fn spec_connected_frmr(d: DataV, now_ms: u64) -> (DataV, Seq<ActionV>) {
    let d1 = spec_establish_data_link(DataV { layer3_initiated: false, ..d }, now_ms);
    (
        d1,
        seq![
            ActionV::DlError(DlError::K),
            ActionV::SendSabm { pf: true },
            ActionV::State(st_awaiting_connection()),
        ],
    )
}

/// A received UI frame in the data phase.
pub open spec fn spec_connected_ui(d: DataV, push: bool, command: bool, len: int) -> (
    DataV,
    Seq<ActionV>,
) {
    let acts = spec_ui_check(d, command, len);
    if push {
        let (d1, a) = spec_enquiry_response(d, true);
        (d1, acts + seq![a])
    } else {
        (d, acts)
    }
}

/// T1 expired in the data phase: probe the peer, or give up after N2 tries.
pub open spec fn spec_connected_t1(d: DataV, tr: bool, now_ms: u64) -> (DataV, Seq<ActionV>) {
    let d1 = DataV { t1: timer_stopped(d.t1), ..d };
    let rc2: u8 = if !tr {
        1u8
    } else {
        (d.rc + 1) as u8
    };
    let d2 = DataV { rc: rc2, ..d1 };
    if rc2 != d.n2 {
        let (d3, a) = spec_transmit_enquiry(d2, now_ms);
        (d3, seq![a, ActionV::State(st_timer_recovery())])
    } else {
        let err = if d.vs != d.va {
            DlError::I
        } else if d.peer_receiver_busy {
            DlError::U
        } else {
            DlError::T
        };
        let d3 = DataV { peer: None, ..spec_clear_iframe_queue(d2) };
        (
            d3,
            seq![
                ActionV::DlError(err),
                ActionV::SendDm { pf: false },
                ActionV::State(st_disconnected()),
            ],
        )
    }
}

/// T3 (idle) expired: probe the peer.
pub open spec fn spec_connected_t3(d: DataV, now_ms: u64) -> (DataV, Seq<ActionV>) {
    let d1 = DataV { t3: timer_stopped(d.t3), rc: 1, ..d };
    let (d2, a) = spec_transmit_enquiry(d1, now_ms);
    (d2, seq![ActionV::State(st_timer_recovery()), a])
}

/// An RR or RNR in the steady data phase: note the peer's readiness, answer
/// an enquiry, and account the acknowledgement.
pub open spec fn spec_connected_sframe(
    d: DataV,
    nr: u8,
    poll: bool,
    cr: bool,
    busy: bool,
    now_ms: u64,
) -> (DataV, Seq<ActionV>) {
    let d0 = DataV { peer_receiver_busy: busy, ..d };
    let (d1, acts1) = spec_check_need_for_response(d0, cr, poll);
    if !spec_in_range(d0.va, nr, d0.vs, d0.modulus) {
        let (d2, acts2) = spec_nr_error_recovery(d1, now_ms);
        (d2, acts1 + acts2 + seq![ActionV::State(st_awaiting_connection())])
    } else {
        let (d2, acts2) = spec_check_iframe_acked(d1, nr, now_ms);
        (d2, acts1 + acts2)
    }
}

/// An F-bit RR or RNR response during timer recovery ends the probe:
/// everything acknowledged returns to steady state; otherwise the whole
/// queue is retransmitted.
pub open spec fn spec_tr_f_response(d0: DataV, nr: u8, now_ms: u64) -> (DataV, Seq<ActionV>) {
    let d1 = DataV { t1: timer_stopped(d0.t1), ..d0 };
    let d2 = spec_select_t1_value(d1, now_ms);
    if !spec_in_range(d0.va, nr, d0.vs, d0.modulus) {
        let (d3, acts) = spec_nr_error_recovery(d2, now_ms);
        (d3, acts + seq![ActionV::State(st_awaiting_connection())])
    } else {
        spec_tr_f_ack(d2, nr, now_ms)
    }
}

/// The accounting half of an F-bit response whose N(R) is in the window.
pub open spec fn spec_tr_f_ack(d2: DataV, nr: u8, now_ms: u64) -> (DataV, Seq<ActionV>) {
    let (d3, facts) = spec_update_ack_flush(d2, nr, now_ms);
    if d3.vs == d3.va {
        let d4 = DataV { t3: timer_started(now_ms, d3.t3v_ms), rc: 0, ..d3 };
        (d4, facts + seq![ActionV::State(st_connected())])
    } else {
        let racts = spec_invoke_retransmission(d3);
        let d4 = DataV {
            t3: timer_stopped(d3.t3),
            t1: timer_started(now_ms, d3.t1v_ms),
            acknowledge_pending: true,
            ..d3
        };
        (d4, facts + racts)
    }
}

/// Any other RR or RNR during timer recovery: answer an enquiry and account
/// the acknowledgement.
pub open spec fn spec_tr_other(d0: DataV, nr: u8, poll: bool, cr: bool, now_ms: u64) -> (
    DataV,
    Seq<ActionV>,
) {
    let step1 = if cr && poll {
        let (dd, a) = spec_enquiry_response(d0, true);
        (dd, seq![a])
    } else {
        (d0, seq![])
    };
    let d1 = step1.0;
    let acts1 = step1.1;
    if spec_in_range(d0.va, nr, d0.vs, d0.modulus) {
        let (d2, acts2) = spec_update_ack_flush(d1, nr, now_ms);
        (d2, acts1 + acts2)
    } else {
        let (d2, acts2) = spec_nr_error_recovery(d1, now_ms);
        (d2, acts1 + acts2 + seq![ActionV::State(st_awaiting_connection())])
    }
}

/// An RR or RNR during timer recovery: an F-bit response ends the probe;
/// anything else is accounted like steady state.
pub open spec fn spec_tr_sframe(
    d: DataV,
    nr: u8,
    poll: bool,
    cr: bool,
    busy: bool,
    now_ms: u64,
) -> (DataV, Seq<ActionV>) {
    let d0 = DataV { peer_receiver_busy: busy, ..d };
    if !cr && poll {
        spec_tr_f_response(d0, nr, now_ms)
    } else {
        spec_tr_other(d0, nr, poll, cr, now_ms)
    }
}

/// An incoming I-frame in the data phase: account its N(R); deliver its
/// payload when it is the next frame in sequence; otherwise ask once for a
/// resend (REJ) and drop duplicates until the sequence recovers.
pub open spec fn spec_connected_iframe(d: DataV, p: IframeV, cr: bool, now_ms: u64) -> (
    DataV,
    Seq<ActionV>,
) {
    if !cr {
        (d, seq![ActionV::DlError(DlError::S)])
    } else if p.payload.len() > d.n1 {
        let d1 = spec_establish_data_link(DataV { layer3_initiated: false, ..d }, now_ms);
        (
            d1,
            seq![
                ActionV::SendSabm { pf: true },
                ActionV::DlError(DlError::O),
                ActionV::State(st_awaiting_connection()),
            ],
        )
    } else if !spec_in_range(d.va, p.nr, d.vs, d.modulus) {
        let (d1, acts) = spec_nr_error_recovery(d, now_ms);
        (d1, acts + seq![ActionV::State(st_awaiting_connection())])
    } else {
        let step = spec_check_iframe_acked(d, p.nr, now_ms);
        let d1 = step.0;
        let acts1 = step.1;
        if d1.own_receiver_busy {
            if p.poll {
                let d2 = DataV { acknowledge_pending: false, ..d1 };
                (
                    d2,
                    acts1 + seq![
                        ActionV::SendRnr { pf: true, nr: d1.vr, command: false },
                    ],
                )
            } else {
                (d1, acts1)
            }
        } else if p.ns == d1.vr {
            let d2 = DataV {
                vr: incr_mod(d1.vr, d1.modulus),
                reject_exception: false,
                sreject_exception: if d1.sreject_exception > 0 {
                    (d1.sreject_exception - 1) as u32
                } else {
                    0
                },
                ..d1
            };
            if p.poll {
                let d3 = DataV { acknowledge_pending: false, ..d2 };
                (
                    d3,
                    acts1 + seq![
                        ActionV::Deliver(p.payload),
                        ActionV::SendRr { pf: true, nr: d2.vr, command: false },
                    ],
                )
            } else {
                let d3 = DataV { acknowledge_pending: true, ..d2 };
                (d3, acts1 + seq![ActionV::Deliver(p.payload)])
            }
        } else if d1.reject_exception {
            if p.poll {
                let d2 = DataV { acknowledge_pending: false, ..d1 };
                (
                    d2,
                    acts1 + seq![ActionV::SendRr { pf: true, nr: d1.vr, command: false }],
                )
            } else {
                (d1, acts1)
            }
        } else {
            let d2 = DataV { reject_exception: true, acknowledge_pending: false, ..d1 };
            (d2, acts1 + seq![ActionV::SendRej { pf: p.poll, nr: d1.vr }])
        }
    }
}

impl Connected {
    /// True in the timer-recovery flavour of the data phase.
    fn is_tr(&self) -> (r: bool)
        ensures
            r == (self.connected_state is TimerRecovery),
    {
        match self.connected_state {
            ConnectedState::TimerRecovery => true,
            ConnectedState::Connected => false,
        }
    }

    /// The state value this handler set belongs to.
    pub open spec fn st(self) -> State {
        State::Connected(self)
    }

    /// A local disconnect.
    pub fn disconnect(&self, data: &mut Data, now_ms: u64) -> (r: Vec<Action>)
        requires
            inv(self.st(), old(data)@),
        ensures
            final(data)@ == spec_connected_disconnect(old(data)@, now_ms).0,
            r@.map_values(|x: Action| x@) == spec_connected_disconnect(old(data)@, now_ms).1,
            inv(st_awaiting_release(), final(data)@),
    {
        let ghost d0 = old(data)@;
        data.clear_iframe_queue();
        data.rc = 0;
        data.t1.start(now_ms, data.srt_ms);
        data.t3.stop();
        let mut r: Vec<Action> = Vec::new();
        r.push(Action::SendDisc { pf: true });
        r.push(Action::State(State::AwaitingRelease(AwaitingRelease::new())));
        proof {
            assert(r@.map_values(|x: Action| x@) =~= spec_connected_disconnect(d0, now_ms).1);
        }
        r
    }

    /// An application write.
    pub fn data(&self, data: &mut Data, payload: &[u8], now_ms: u64) -> (r: Vec<Action>)
        requires
            inv(self.st(), old(data)@),
            old(data)@.obuf.len() + payload@.len() <= MAX_OBUF_SIZE,
        ensures
            final(data)@ == spec_connected_data(old(data)@, payload@, now_ms).0,
            r@.map_values(|x: Action| x@) == spec_connected_data(old(data)@, payload@, now_ms).1,
            inv(
                next_state(self.st(), spec_connected_data(old(data)@, payload@, now_ms).1),
                final(data)@,
            ),
            final(data)@.vr == old(data)@.vr,
    {
        let ghost d0 = old(data)@;
        append_bytes(&mut data.obuf, payload);
        proof {
            assert(data@ == (DataV { obuf: d0.obuf + payload@, ..d0 }));
        }
        let r = data.flush(now_ms);
        proof {
            let acts = r@.map_values(|x: Action| x@);
            assert(acts == spec_connected_data(d0, payload@, now_ms).1);
            assert(forall|j: int| 0 <= j < acts.len() ==> !((#[trigger] acts[j]) is State));
            lemma_no_state_change(acts);
        }
        r
    }

    /// A SABM or SABME: the peer reset the link.
    fn sabm_or_sabme(&self, data: &mut Data, poll: bool, now_ms: u64) -> (r: Vec<Action>)
        requires
            old(data)@.peer is Some,
            old(data)@.modulus == 8 || old(data)@.modulus == 128,
            0 < old(data)@.k < old(data)@.modulus,
            old(data)@.mtu_out >= 1,
            old(data)@.obuf.len() <= MAX_OBUF_SIZE,
            old(data)@.n2 == DEFAULT_N2,
            old(data)@.rc <= old(data)@.n2,
            !old(data)@.srej_enabled,
        ensures
            final(data)@ == spec_connected_sabm(old(data)@, poll, self.connected_state is TimerRecovery, now_ms).0,
            r@.map_values(|x: Action| x@) == spec_connected_sabm(
                old(data)@,
                poll,
                self.connected_state is TimerRecovery,
                now_ms,
            ).1,
            inv(st_connected(), final(data)@),
    {
        let ghost d0 = old(data)@;
        data.clear_exception_conditions();
        data.t1.stop();
        data.t3.start(now_ms, data.t3v_ms);
        data.va = 0;
        data.vs = 0;
        data.vr = 0;
        data.iframe_resend_queue = Vec::new();
        if !self.is_tr() {
            data.rc = 0;
        }
        let mut r: Vec<Action> = Vec::new();
        r.push(Action::DlError(DlError::F));
        r.push(Action::SendUa { pf: poll });
        r.push(Action::State(State::Connected(Connected::new(ConnectedState::Connected))));
        proof {
            assert(data@.iframe_resend_queue =~= Seq::<IframeV>::empty());
            assert(r@.map_values(|x: Action| x@) =~= spec_connected_sabm(
                d0,
                poll,
                self.connected_state is TimerRecovery,
                now_ms,
            ).1);
        }
        r
    }

    /// SABM received: reset to mod-8.
    pub fn sabm(&self, data: &mut Data, packet: &Sabm, now_ms: u64) -> (r: Vec<Action>)
        requires
            inv(self.st(), old(data)@),
        ensures
            final(data)@ == spec_connected_sabm(
                spec_set_version_2(old(data)@),
                packet.poll,
                self.connected_state is TimerRecovery,
                now_ms,
            ).0,
            r@.map_values(|x: Action| x@) == spec_connected_sabm(
                spec_set_version_2(old(data)@),
                packet.poll,
                self.connected_state is TimerRecovery,
                now_ms,
            ).1,
            inv(st_connected(), final(data)@),
    {
        data.set_version_2();
        self.sabm_or_sabme(data, packet.poll, now_ms)
    }

    /// SABME received: reset to mod-128.
    pub fn sabme(&self, data: &mut Data, packet: &Sabme, now_ms: u64) -> (r: Vec<Action>)
        requires
            inv(self.st(), old(data)@),
        ensures
            final(data)@ == spec_connected_sabm(
                spec_set_version_2_2(old(data)@),
                packet.poll,
                self.connected_state is TimerRecovery,
                now_ms,
            ).0,
            r@.map_values(|x: Action| x@) == spec_connected_sabm(
                spec_set_version_2_2(old(data)@),
                packet.poll,
                self.connected_state is TimerRecovery,
                now_ms,
            ).1,
            inv(st_connected(), final(data)@),
    {
        data.set_version_2_2();
        self.sabm_or_sabme(data, packet.poll, now_ms)
    }

    /// DM received: the peer is gone.
    pub fn dm(&self, data: &mut Data) -> (r: Vec<Action>)
        requires
            inv(self.st(), old(data)@),
        ensures
            final(data)@ == spec_connected_dm(old(data)@).0,
            r@.map_values(|x: Action| x@) == spec_connected_dm(old(data)@).1,
            inv(st_disconnected(), final(data)@),
    {
        let ghost d0 = old(data)@;
        data.clear_iframe_queue();
        data.t1.stop();
        data.t3.stop();
        data.peer = None;
        let mut r: Vec<Action> = Vec::new();
        r.push(Action::DlError(DlError::E));
        r.push(Action::State(State::Disconnected(Disconnected::new())));
        proof {
            assert(r@.map_values(|x: Action| x@) =~= spec_connected_dm(d0).1);
        }
        r
    }

    /// DISC received: acknowledge and go down.
    pub fn disc(&self, data: &mut Data, p: &Disc) -> (r: Vec<Action>)
        requires
            inv(self.st(), old(data)@),
        ensures
            final(data)@ == spec_connected_disc(old(data)@, p.poll).0,
            r@.map_values(|x: Action| x@) == spec_connected_disc(old(data)@, p.poll).1,
            inv(st_disconnected(), final(data)@),
    {
        let ghost d0 = old(data)@;
        data.clear_iframe_queue();
        data.t1.stop();
        data.t3.stop();
        data.peer = None;
        let mut r: Vec<Action> = Vec::new();
        r.push(Action::SendUa { pf: p.poll });
        r.push(Action::EOF);
        r.push(Action::State(State::Disconnected(Disconnected::new())));
        proof {
            assert(r@.map_values(|x: Action| x@) =~= spec_connected_disc(d0, p.poll).1);
        }
        r
    }

    /// An unexpected UA: re-establish.
    pub fn ua(&self, data: &mut Data, now_ms: u64) -> (r: Vec<Action>)
        requires
            inv(self.st(), old(data)@),
        ensures
            final(data)@ == spec_connected_ua(old(data)@, now_ms).0,
            r@.map_values(|x: Action| x@) == spec_connected_ua(old(data)@, now_ms).1,
            inv(st_awaiting_connection(), final(data)@),
    {
        let ghost d0 = old(data)@;
        data.layer3_initiated = false;
        let a = data.establish_data_link(now_ms);
        let mut r: Vec<Action> = Vec::new();
        r.push(Action::DlError(DlError::C));
        r.push(a);
        r.push(Action::State(State::AwaitingConnection(AwaitingConnection::new())));
        proof {
            assert(r@.map_values(|x: Action| x@) =~= spec_connected_ua(d0, now_ms).1);
        }
        r
    }

    /// A FRMR: re-establish.
    pub fn frmr(&self, data: &mut Data, now_ms: u64) -> (r: Vec<Action>)
        requires
            inv(self.st(), old(data)@),
        ensures
            final(data)@ == spec_connected_frmr(old(data)@, now_ms).0,
            r@.map_values(|x: Action| x@) == spec_connected_frmr(old(data)@, now_ms).1,
            inv(st_awaiting_connection(), final(data)@),
    {
        let ghost d0 = old(data)@;
        data.layer3_initiated = false;
        let a = data.establish_data_link(now_ms);
        let mut r: Vec<Action> = Vec::new();
        r.push(Action::DlError(DlError::K));
        r.push(a);
        r.push(Action::State(State::AwaitingConnection(AwaitingConnection::new())));
        proof {
            assert(r@.map_values(|x: Action| x@) =~= spec_connected_frmr(d0, now_ms).1);
        }
        r
    }

    /// A received UI frame.
    pub fn ui(&self, data: &mut Data, cr: bool, packet: &Ui) -> (r: Vec<Action>)
        requires
            inv(self.st(), old(data)@),
        ensures
            final(data)@ == spec_connected_ui(
                old(data)@,
                packet@.push,
                cr,
                packet@.payload.len() as int,
            ).0,
            r@.map_values(|x: Action| x@) == spec_connected_ui(
                old(data)@,
                packet@.push,
                cr,
                packet@.payload.len() as int,
            ).1,
            inv(self.st(), final(data)@),
    {
        let ghost d0 = old(data)@;
        let mut r = data.ui_check(cr, packet.payload.len());
        if packet.push {
            let a = data.enquiry_response(true);
            r.push(a);
        }
        proof {
            assert(r@.map_values(|x: Action| x@) =~= spec_connected_ui(
                d0,
                packet@.push,
                cr,
                packet@.payload.len() as int,
            ).1);
        }
        r
    }

    /// T1 expired: enter (or continue) timer recovery, or give up.
    pub fn t1(&self, data: &mut Data, now_ms: u64) -> (r: Vec<Action>)
        requires
            inv(self.st(), old(data)@),
            old(data)@.t1.running,
        ensures
            final(data)@ == spec_connected_t1(
                old(data)@,
                self.connected_state is TimerRecovery,
                now_ms,
            ).0,
            r@.map_values(|x: Action| x@) == spec_connected_t1(
                old(data)@,
                self.connected_state is TimerRecovery,
                now_ms,
            ).1,
            inv(
                next_state(
                    self.st(),
                    spec_connected_t1(
                        old(data)@,
                        self.connected_state is TimerRecovery,
                        now_ms,
                    ).1,
                ),
                final(data)@,
            ),
    {
        let ghost d0 = old(data)@;
        let ghost tr = self.connected_state is TimerRecovery;
        data.t1.stop();
        let was_unacked = data.vs != data.va;
        let was_busy = data.peer_receiver_busy;
        data.rc = if self.is_tr() {
            data.rc + 1
        } else {
            1
        };
        if data.rc != data.n2 {
            let a = data.transmit_enquiry(now_ms);
            let mut r: Vec<Action> = Vec::new();
            r.push(a);
            r.push(
                Action::State(State::Connected(Connected::new(ConnectedState::TimerRecovery))),
            );
            proof {
                reveal_with_fuel(first_state_change, 3);
                assert(r@.map_values(|x: Action| x@) =~= spec_connected_t1(d0, tr, now_ms).1);
            }
            r
        } else {
            let err = if was_unacked {
                DlError::I
            } else if was_busy {
                DlError::U
            } else {
                DlError::T
            };
            data.clear_iframe_queue();
            data.peer = None;
            let mut r: Vec<Action> = Vec::new();
            r.push(Action::DlError(err));
            r.push(Action::SendDm { pf: false });
            r.push(Action::State(State::Disconnected(Disconnected::new())));
            proof {
                reveal_with_fuel(first_state_change, 4);
                assert(r@.map_values(|x: Action| x@) =~= spec_connected_t1(d0, tr, now_ms).1);
            }
            r
        }
    }

    /// T3 (idle) expired: probe the peer.
    pub fn t3(&self, data: &mut Data, now_ms: u64) -> (r: Vec<Action>)
        requires
            inv(self.st(), old(data)@),
            old(data)@.t3.running,
        ensures
            final(data)@ == spec_connected_t3(old(data)@, now_ms).0,
            r@.map_values(|x: Action| x@) == spec_connected_t3(old(data)@, now_ms).1,
            inv(st_timer_recovery(), final(data)@),
    {
        let ghost d0 = old(data)@;
        data.t3.stop();
        data.rc = 1;
        let a = data.transmit_enquiry(now_ms);
        let mut r: Vec<Action> = Vec::new();
        r.push(Action::State(State::Connected(Connected::new(ConnectedState::TimerRecovery))));
        r.push(a);
        proof {
            assert(r@.map_values(|x: Action| x@) =~= spec_connected_t3(d0, now_ms).1);
        }
        r
    }

    /// An RR or RNR in the steady data phase.
    #[verifier::rlimit(100)]
    pub fn rr_connected(
        &self,
        data: &mut Data,
        nr: u8,
        poll: bool,
        cr: bool,
        busy: bool,
        now_ms: u64,
    ) -> (r: Vec<Action>)
        requires
            inv(st_connected(), old(data)@),
        ensures
            final(data)@ == spec_connected_sframe(old(data)@, nr, poll, cr, busy, now_ms).0,
            r@.map_values(|x: Action| x@) == spec_connected_sframe(
                old(data)@,
                nr,
                poll,
                cr,
                busy,
                now_ms,
            ).1,
            inv(
                next_state(
                    st_connected(),
                    spec_connected_sframe(old(data)@, nr, poll, cr, busy, now_ms).1,
                ),
                final(data)@,
            ),
            final(data)@.vr == old(data)@.vr,
    {
        let ghost d0 = old(data)@;
        data.peer_receiver_busy = busy;
        let ghost db = DataV { peer_receiver_busy: busy, ..d0 };
        proof {
            assert(data@ == db);
        }
        let ghost step1 = spec_check_need_for_response(db, cr, poll);
        let mut r = data.check_need_for_response(cr, poll);
        proof {
            assert(data@ == step1.0);
            assert(r@.map_values(|x: Action| x@) == step1.1);
        }
        if !in_range(data.va, nr, data.vs, data.modulus) {
            let ghost step2 = spec_nr_error_recovery(step1.0, now_ms);
            let ghost r1 = r@.map_values(|x: Action| x@);
            let mut acts2 = data.nr_error_recovery(now_ms);
            r.append(&mut acts2);
            r.push(Action::State(State::AwaitingConnection(AwaitingConnection::new())));
            proof {
                reveal_with_fuel(first_state_change, 4);
                let whole = r1 + step2.1 + seq![ActionV::State(st_awaiting_connection())];
                assert(r@.map_values(|x: Action| x@) =~= whole);
                assert(forall|j: int| 0 <= j < r1.len() ==> !((#[trigger] r1[j]) is State));
                lemma_no_state_change(r1);
                lemma_first_state_concat(r1, step2.1 + seq![ActionV::State(st_awaiting_connection())]);
                lemma_first_state_concat(step2.1, seq![ActionV::State(st_awaiting_connection())]);
                assert(forall|j: int|
                    0 <= j < step2.1.len() ==> !((#[trigger] step2.1[j]) is State));
                lemma_no_state_change(step2.1);
                assert(r1 + step2.1 + seq![ActionV::State(st_awaiting_connection())] =~= r1 + (
                step2.1 + seq![ActionV::State(st_awaiting_connection())]));
                assert(first_state_change(whole) == Some(st_awaiting_connection()));
            }
            r
        } else {
            let ghost step2 = spec_check_iframe_acked(step1.0, nr, now_ms);
            let ghost r1 = r@.map_values(|x: Action| x@);
            let mut acts2 = data.check_iframe_acked(nr, now_ms);
            r.append(&mut acts2);
            proof {
                let whole = r1 + step2.1;
                assert(r@.map_values(|x: Action| x@) =~= whole);
                assert(forall|j: int| 0 <= j < r1.len() ==> !((#[trigger] r1[j]) is State));
                assert(forall|j: int|
                    0 <= j < step2.1.len() ==> !((#[trigger] step2.1[j]) is State));
                assert(forall|j: int| 0 <= j < whole.len() ==> !((#[trigger] whole[j]) is State));
                lemma_no_state_change(whole);
                assert(data_wf(data@));
                assert(seqs_in_modulus(data@));
                assert(!(data@.t1.running && data@.t3.running));
                assert(data@.va != data@.vs ==> data@.t1.running && !data@.t3.running);
                assert((data@.va == data@.vs && !data@.peer_receiver_busy) ==> (!data@.t1.running
                    && data@.t3.running));
            }
            r
        }
    }
}

/// An RR or RNR in the data phase, in whichever flavour it is in.
pub open spec fn spec_connected_rr(
    tr: bool,
    d: DataV,
    nr: u8,
    poll: bool,
    cr: bool,
    busy: bool,
    now_ms: u64,
) -> (DataV, Seq<ActionV>) {
    if tr {
        spec_tr_sframe(d, nr, poll, cr, busy, now_ms)
    } else {
        spec_connected_sframe(d, nr, poll, cr, busy, now_ms)
    }
}

impl Connected {
    /// The F-bit response path of `rr_timer_recovery`.
    #[verifier::rlimit(100)]
    fn tr_f_response(&self, data: &mut Data, nr: u8, now_ms: u64) -> (r: Vec<Action>)
        requires
            old(data)@.peer is Some,
            data_wf(old(data)@),
            seqs_in_modulus(old(data)@),
            old(data)@.rc < old(data)@.n2,
            !(old(data)@.t1.running && old(data)@.t3.running),
            old(data)@.va != old(data)@.vs ==> old(data)@.t1.running && !old(data)@.t3.running,
        ensures
            final(data)@ == spec_tr_f_response(old(data)@, nr, now_ms).0,
            r@.map_values(|x: Action| x@) == spec_tr_f_response(old(data)@, nr, now_ms).1,
            inv(
                next_state(st_timer_recovery(), spec_tr_f_response(old(data)@, nr, now_ms).1),
                final(data)@,
            ),
            final(data)@.vr == old(data)@.vr,
    {
        let ghost d0 = old(data)@;
        data.t1.stop();
        data.select_t1_value(now_ms);
        let ghost d2 = spec_select_t1_value(DataV { t1: timer_stopped(d0.t1), ..d0 }, now_ms);
        proof {
            assert(data@ == d2);
        }
        if !in_range(data.va, nr, data.vs, data.modulus) {
            let ghost step2 = spec_nr_error_recovery(d2, now_ms);
            let mut r = data.nr_error_recovery(now_ms);
            r.push(Action::State(State::AwaitingConnection(AwaitingConnection::new())));
            proof {
                reveal_with_fuel(first_state_change, 4);
                assert(r@.map_values(|x: Action| x@) =~= step2.1 + seq![
                    ActionV::State(st_awaiting_connection()),
                ]);
            }
            return r;
        }
        self.tr_f_ack(data, nr, now_ms)
    }

    /// Account an in-window F-bit acknowledgement: caught up means back to
    /// the steady state; anything outstanding is retransmitted whole.
    #[verifier::rlimit(100)]
    fn tr_f_ack(&self, data: &mut Data, nr: u8, now_ms: u64) -> (r: Vec<Action>)
        requires
            old(data)@.peer is Some,
            data_wf(old(data)@),
            seqs_in_modulus(old(data)@),
            old(data)@.rc < old(data)@.n2,
            !old(data)@.t1.running,
            old(data)@.va != old(data)@.vs ==> !old(data)@.t3.running,
            spec_in_range(old(data)@.va, nr, old(data)@.vs, old(data)@.modulus),
        ensures
            final(data)@ == spec_tr_f_ack(old(data)@, nr, now_ms).0,
            r@.map_values(|x: Action| x@) == spec_tr_f_ack(old(data)@, nr, now_ms).1,
            inv(
                next_state(st_timer_recovery(), spec_tr_f_ack(old(data)@, nr, now_ms).1),
                final(data)@,
            ),
            final(data)@.vr == old(data)@.vr,
    {
        let ghost d2 = old(data)@;
        let ghost step = spec_update_ack_flush(d2, nr, now_ms);
        let mut r = data.update_ack(nr, now_ms);
        proof {
            assert(data@ == step.0);
            assert(r@.map_values(|x: Action| x@) == step.1);
            assert(forall|j: int| 0 <= j < step.1.len() ==> !((#[trigger] step.1[j]) is State));
            lemma_no_state_change(step.1);
        }
        if data.vs == data.va {
            data.t3.start(now_ms, data.t3v_ms);
            data.rc = 0;
            let ghost r1 = r@.map_values(|x: Action| x@);
            r.push(Action::State(State::Connected(Connected::new(ConnectedState::Connected))));
            proof {
                assert(r@.map_values(|x: Action| x@) =~= r1 + seq![
                    ActionV::State(st_connected()),
                ]);
                lemma_first_state_concat(r1, seq![ActionV::State(st_connected())]);
            }
            return r;
        }
        let ghost r1 = r@.map_values(|x: Action| x@);
        let mut racts = data.invoke_retransmission();
        r.append(&mut racts);
        data.t3.stop();
        data.t1.start(now_ms, data.t1v_ms);
        data.acknowledge_pending = true;
        proof {
            let whole = r1 + spec_invoke_retransmission(step.0);
            assert(r@.map_values(|x: Action| x@) =~= whole);
            assert(forall|j: int| 0 <= j < whole.len() ==> !((#[trigger] whole[j]) is State));
            lemma_no_state_change(whole);
        }
        r
    }

    /// The remaining paths of `rr_timer_recovery`.
    #[verifier::rlimit(100)]
    fn tr_other(&self, data: &mut Data, nr: u8, poll: bool, cr: bool, now_ms: u64) -> (r: Vec<
        Action,
    >)
        requires
            old(data)@.peer is Some,
            data_wf(old(data)@),
            seqs_in_modulus(old(data)@),
            old(data)@.rc < old(data)@.n2,
            !(old(data)@.t1.running && old(data)@.t3.running),
            old(data)@.va != old(data)@.vs ==> old(data)@.t1.running && !old(data)@.t3.running,
        ensures
            final(data)@ == spec_tr_other(old(data)@, nr, poll, cr, now_ms).0,
            r@.map_values(|x: Action| x@) == spec_tr_other(old(data)@, nr, poll, cr, now_ms).1,
            inv(
                next_state(st_timer_recovery(), spec_tr_other(old(data)@, nr, poll, cr, now_ms).1),
                final(data)@,
            ),
            final(data)@.vr == old(data)@.vr,
    {
        let ghost d0 = old(data)@;
        let mut r: Vec<Action> = Vec::new();
        if cr && poll {
            let a = data.enquiry_response(true);
            r.push(a);
        }
        let ghost er = spec_enquiry_response(d0, true);
        let ghost d1 = if cr && poll {
            er.0
        } else {
            d0
        };
        let ghost acts1 = if cr && poll {
            seq![er.1]
        } else {
            Seq::<ActionV>::empty()
        };
        proof {
            assert(data@ == d1);
            assert(r@.map_values(|x: Action| x@) =~= acts1);
        }
        if in_range(data.va, nr, data.vs, data.modulus) {
            let ghost step2 = spec_update_ack_flush(d1, nr, now_ms);
            let mut acts2 = data.update_ack(nr, now_ms);
            r.append(&mut acts2);
            proof {
                let whole = acts1 + step2.1;
                assert(r@.map_values(|x: Action| x@) =~= whole);
                assert(forall|j: int| 0 <= j < whole.len() ==> !((#[trigger] whole[j]) is State));
                lemma_no_state_change(whole);
            }
            r
        } else {
            let ghost step2 = spec_nr_error_recovery(d1, now_ms);
            let mut acts2 = data.nr_error_recovery(now_ms);
            r.append(&mut acts2);
            r.push(Action::State(State::AwaitingConnection(AwaitingConnection::new())));
            proof {
                reveal_with_fuel(first_state_change, 4);
                let whole = acts1 + step2.1 + seq![ActionV::State(st_awaiting_connection())];
                assert(r@.map_values(|x: Action| x@) =~= whole);
                assert(whole =~= acts1 + (step2.1 + seq![
                    ActionV::State(st_awaiting_connection()),
                ]));
                assert(forall|j: int| 0 <= j < acts1.len() ==> !((#[trigger] acts1[j]) is State));
                lemma_no_state_change(acts1);
                lemma_first_state_concat(
                    acts1,
                    step2.1 + seq![ActionV::State(st_awaiting_connection())],
                );
                assert(first_state_change(whole) == Some(st_awaiting_connection()));
            }
            r
        }
    }

    /// An RR or RNR during timer recovery.
    pub fn rr_timer_recovery(
        &self,
        data: &mut Data,
        nr: u8,
        poll: bool,
        cr: bool,
        busy: bool,
        now_ms: u64,
    ) -> (r: Vec<Action>)
        requires
            inv(st_timer_recovery(), old(data)@),
        ensures
            final(data)@ == spec_tr_sframe(old(data)@, nr, poll, cr, busy, now_ms).0,
            r@.map_values(|x: Action| x@) == spec_tr_sframe(
                old(data)@,
                nr,
                poll,
                cr,
                busy,
                now_ms,
            ).1,
            inv(
                next_state(
                    st_timer_recovery(),
                    spec_tr_sframe(old(data)@, nr, poll, cr, busy, now_ms).1,
                ),
                final(data)@,
            ),
            final(data)@.vr == old(data)@.vr,
    {
        let ghost d0 = old(data)@;
        data.peer_receiver_busy = busy;
        proof {
            assert(data@ == (DataV { peer_receiver_busy: busy, ..d0 }));
        }
        if !cr && poll {
            self.tr_f_response(data, nr, now_ms)
        } else {
            self.tr_other(data, nr, poll, cr, now_ms)
        }
    }

    /// RR received: dispatch on the flavour of the data phase.
    pub fn rr(&self, data: &mut Data, packet: &Rr, cr: bool, now_ms: u64) -> (r: Vec<Action>)
        requires
            inv(self.st(), old(data)@),
        ensures
            final(data)@ == spec_connected_rr(
                self.connected_state is TimerRecovery,
                old(data)@,
                packet.nr,
                packet.poll,
                cr,
                false,
                now_ms,
            ).0,
            r@.map_values(|x: Action| x@) == spec_connected_rr(
                self.connected_state is TimerRecovery,
                old(data)@,
                packet.nr,
                packet.poll,
                cr,
                false,
                now_ms,
            ).1,
            inv(
                next_state(
                    self.st(),
                    spec_connected_rr(
                        self.connected_state is TimerRecovery,
                        old(data)@,
                        packet.nr,
                        packet.poll,
                        cr,
                        false,
                        now_ms,
                    ).1,
                ),
                final(data)@,
            ),
            final(data)@.vr == old(data)@.vr,
    {
        if self.is_tr() {
            self.rr_timer_recovery(data, packet.nr, packet.poll, cr, false, now_ms)
        } else {
            self.rr_connected(data, packet.nr, packet.poll, cr, false, now_ms)
        }
    }

    /// RNR received: like RR, but the peer asks us to pause sending.
    pub fn rnr(&self, data: &mut Data, packet: &Rnr, cr: bool, now_ms: u64) -> (r: Vec<Action>)
        requires
            inv(self.st(), old(data)@),
        ensures
            final(data)@ == spec_connected_rr(
                self.connected_state is TimerRecovery,
                old(data)@,
                packet.nr,
                packet.poll,
                cr,
                true,
                now_ms,
            ).0,
            r@.map_values(|x: Action| x@) == spec_connected_rr(
                self.connected_state is TimerRecovery,
                old(data)@,
                packet.nr,
                packet.poll,
                cr,
                true,
                now_ms,
            ).1,
            inv(
                next_state(
                    self.st(),
                    spec_connected_rr(
                        self.connected_state is TimerRecovery,
                        old(data)@,
                        packet.nr,
                        packet.poll,
                        cr,
                        true,
                        now_ms,
                    ).1,
                ),
                final(data)@,
            ),
            final(data)@.vr == old(data)@.vr,
    {
        if self.is_tr() {
            self.rr_timer_recovery(data, packet.nr, packet.poll, cr, true, now_ms)
        } else {
            self.rr_connected(data, packet.nr, packet.poll, cr, true, now_ms)
        }
    }

    /// An incoming I-frame.
    #[verifier::rlimit(100)]
    pub fn iframe(&self, data: &mut Data, p: &Iframe, cr: bool, now_ms: u64) -> (r: Vec<Action>)
        requires
            inv(self.st(), old(data)@),
        ensures
            final(data)@ == spec_connected_iframe(old(data)@, p@, cr, now_ms).0,
            r@.map_values(|x: Action| x@) == spec_connected_iframe(old(data)@, p@, cr, now_ms).1,
            inv(
                next_state(self.st(), spec_connected_iframe(old(data)@, p@, cr, now_ms).1),
                final(data)@,
            ),
            final(data)@.vr == old(data)@.vr || final(data)@.vr == incr_mod(
                old(data)@.vr,
                old(data)@.modulus,
            ),
    {
        let ghost d0 = old(data)@;
        if !cr {
            let mut r: Vec<Action> = Vec::new();
            r.push(Action::DlError(DlError::S));
            proof {
                reveal_with_fuel(first_state_change, 2);
                assert(r@.map_values(|x: Action| x@) =~= seq![ActionV::DlError(DlError::S)]);
            }
            return r;
        }
        if p.payload.len() > data.n1 {
            data.layer3_initiated = false;
            let a = data.establish_data_link(now_ms);
            let mut r: Vec<Action> = Vec::new();
            r.push(a);
            r.push(Action::DlError(DlError::O));
            r.push(Action::State(State::AwaitingConnection(AwaitingConnection::new())));
            proof {
                reveal_with_fuel(first_state_change, 4);
                assert(r@.map_values(|x: Action| x@) =~= spec_connected_iframe(
                    d0,
                    p@,
                    cr,
                    now_ms,
                ).1);
            }
            return r;
        }
        if !in_range(data.va, p.nr, data.vs, data.modulus) {
            let ghost step2 = spec_nr_error_recovery(d0, now_ms);
            let mut r = data.nr_error_recovery(now_ms);
            r.push(Action::State(State::AwaitingConnection(AwaitingConnection::new())));
            proof {
                reveal_with_fuel(first_state_change, 4);
                assert(r@.map_values(|x: Action| x@) =~= step2.1 + seq![
                    ActionV::State(st_awaiting_connection()),
                ]);
            }
            return r;
        }
        let ghost step = spec_check_iframe_acked(d0, p.nr, now_ms);
        let mut r = data.check_iframe_acked(p.nr, now_ms);
        let ghost r1 = r@.map_values(|x: Action| x@);
        proof {
            assert(data@ == step.0);
            assert(r1 == step.1);
            assert(forall|j: int| 0 <= j < r1.len() ==> !((#[trigger] r1[j]) is State));
        }
        if data.own_receiver_busy {
            if p.poll {
                r.push(Action::SendRnr { pf: true, nr: data.vr, command: false });
                data.acknowledge_pending = false;
            }
            proof {
                if p.poll {
                    assert(r@.map_values(|x: Action| x@) =~= r1 + seq![
                        ActionV::SendRnr { pf: true, nr: step.0.vr, command: false },
                    ]);
                }
                lemma_no_state_change(r@.map_values(|x: Action| x@));
            }
            return r;
        }
        if p.ns == data.vr {
            data.vr = if data.vr + 1 == data.modulus {
                0
            } else {
                data.vr + 1
            };
            data.reject_exception = false;
            if data.sreject_exception > 0 {
                data.sreject_exception = data.sreject_exception - 1;
            }
            r.push(Action::Deliver(crate::addr::copy_bytes_vec(&p.payload)));
            if p.poll {
                r.push(Action::SendRr { pf: true, nr: data.vr, command: false });
                data.acknowledge_pending = false;
                proof {
                    assert(r@.map_values(|x: Action| x@) =~= r1 + seq![
                        ActionV::Deliver(p@.payload),
                        ActionV::SendRr {
                            pf: true,
                            nr: incr_mod(step.0.vr, step.0.modulus),
                            command: false,
                        },
                    ]);
                }
            } else {
                data.acknowledge_pending = true;
                proof {
                    assert(r@.map_values(|x: Action| x@) =~= r1 + seq![
                        ActionV::Deliver(p@.payload),
                    ]);
                }
            }
            proof {
                lemma_no_state_change(r@.map_values(|x: Action| x@));
            }
            return r;
        }
        if data.reject_exception {
            if p.poll {
                r.push(Action::SendRr { pf: true, nr: data.vr, command: false });
                data.acknowledge_pending = false;
                proof {
                    assert(r@.map_values(|x: Action| x@) =~= r1 + seq![
                        ActionV::SendRr { pf: true, nr: step.0.vr, command: false },
                    ]);
                }
            }
            proof {
                lemma_no_state_change(r@.map_values(|x: Action| x@));
            }
            return r;
        }
        data.reject_exception = true;
        data.acknowledge_pending = false;
        r.push(Action::SendRej { pf: p.poll, nr: data.vr });
        proof {
            assert(r@.map_values(|x: Action| x@) =~= r1 + seq![
                ActionV::SendRej { pf: p@.poll, nr: step.0.vr },
            ]);
            lemma_no_state_change(r@.map_values(|x: Action| x@));
        }
        r
    }
}

impl Disconnected {
    /// SABM received: set mod-8 parameters and accept or refuse.
    pub fn sabm(&self, data: &mut Data, src: &Addr, packet: &Sabm, now_ms: u64) -> (r: Vec<
        Action,
    >)
        requires
            inv(st_disconnected(), old(data)@),
        ensures
            final(data)@ == spec_disconnected_sabm(
                spec_set_version_2(old(data)@),
                src@,
                packet.poll,
                now_ms,
            ).0,
            r@.map_values(|x: Action| x@) == spec_disconnected_sabm(
                spec_set_version_2(old(data)@),
                src@,
                packet.poll,
                now_ms,
            ).1,
            inv(
                next_state(
                    st_disconnected(),
                    spec_disconnected_sabm(
                        spec_set_version_2(old(data)@),
                        src@,
                        packet.poll,
                        now_ms,
                    ).1,
                ),
                final(data)@,
            ),
    {
        data.set_version_2();
        self.sabm_and_sabme(data, src.clone(), packet.poll, now_ms)
    }

    /// SABME received: set mod-128 parameters and accept or refuse.
    pub fn sabme(&self, data: &mut Data, src: &Addr, packet: &Sabme, now_ms: u64) -> (r: Vec<
        Action,
    >)
        requires
            inv(st_disconnected(), old(data)@),
        ensures
            final(data)@ == spec_disconnected_sabm(
                spec_set_version_2_2(old(data)@),
                src@,
                packet.poll,
                now_ms,
            ).0,
            r@.map_values(|x: Action| x@) == spec_disconnected_sabm(
                spec_set_version_2_2(old(data)@),
                src@,
                packet.poll,
                now_ms,
            ).1,
            inv(
                next_state(
                    st_disconnected(),
                    spec_disconnected_sabm(
                        spec_set_version_2_2(old(data)@),
                        src@,
                        packet.poll,
                        now_ms,
                    ).1,
                ),
                final(data)@,
            ),
    {
        data.set_version_2_2();
        self.sabm_and_sabme(data, src.clone(), packet.poll, now_ms)
    }
}

// ---------------------------------------------------------------------------
// The whole machine: one event in, data changes and return events out.
// ---------------------------------------------------------------------------

/// When `handle` may be called: timer events only fire from running
/// timers, and an application write keeps the outgoing buffer within its
/// cap, which callers can test through `Data::buffered`.
pub open spec fn event_ok(s: State, d: DataV, e: Event) -> bool {
    &&& (e is T1 ==> d.t1.running)
    &&& (e is T3 ==> d.t3.running)
    &&& (match e {
        Event::Data(p) => d.obuf.len() + p@.len() <= MAX_OBUF_SIZE,
        _ => true,
    })
}

/// The transition relation of the whole machine: what any event does to the
/// connection data, and which actions come out, in every state. Events a
/// state does not know are ignored, except that a stray timer event stops
/// its timer.
pub open spec fn spec_handle(s: State, d: DataV, e: Event, now_ms: u64) -> (DataV, Seq<ActionV>) {
    match s {
        State::Disconnected(_) => match e {
            Event::Connect { addr, ext } => spec_disconnected_connect(d, addr@, ext, now_ms),
            Event::Sabm(p, src) => spec_disconnected_sabm(
                spec_set_version_2(d),
                src@,
                p.poll,
                now_ms,
            ),
            Event::Sabme(p, src) => spec_disconnected_sabm(
                spec_set_version_2_2(d),
                src@,
                p.poll,
                now_ms,
            ),
            Event::Disc(p) => (d, seq![ActionV::SendDm { pf: p.poll }]),
            Event::Ua(_) => (
                d,
                seq![ActionV::DlError(DlError::C), ActionV::DlError(DlError::D)],
            ),
            Event::Ui(p, cr) => (d, spec_disconnected_ui(d, p@.push, cr, p@.payload.len() as int)),
            Event::T1 => (DataV { t1: timer_stopped(d.t1), ..d }, seq![]),
            Event::T3 => (DataV { t3: timer_stopped(d.t3), ..d }, seq![]),
            _ => (d, seq![]),
        },
        State::AwaitingConnection(_) => match e {
            Event::T1 => spec_ac_t1(d, now_ms),
            Event::Ua(p) => spec_ac_ua(d, p.poll, now_ms),
            Event::Sabm(p, _) => (d, seq![ActionV::SendUa { pf: p.poll }]),
            Event::Sabme(p, _) => (d, seq![ActionV::SendDm { pf: p.poll }]),
            Event::Disconnect => spec_ac_disconnect(d),
            Event::T3 => (DataV { t3: timer_stopped(d.t3), ..d }, seq![]),
            _ => (d, seq![]),
        },
        State::AwaitingRelease(_) => match e {
            Event::Dm(p) => spec_ar_dm(d, p.poll),
            Event::Ua(p) => spec_ar_ua(d, p.poll),
            Event::T1 => spec_ar_t1(d, now_ms),
            Event::Disconnect => spec_ar_disconnect(d),
            Event::T3 => (DataV { t3: timer_stopped(d.t3), ..d }, seq![]),
            _ => (d, seq![]),
        },
        State::Connected(c) => {
            let tr = c.connected_state is TimerRecovery;
            match e {
                Event::Disconnect => spec_connected_disconnect(d, now_ms),
                Event::Data(p) => spec_connected_data(d, p@, now_ms),
                Event::T1 => spec_connected_t1(d, tr, now_ms),
                Event::T3 => spec_connected_t3(d, now_ms),
                Event::Sabm(p, _) => spec_connected_sabm(
                    spec_set_version_2(d),
                    p.poll,
                    tr,
                    now_ms,
                ),
                Event::Sabme(p, _) => spec_connected_sabm(
                    spec_set_version_2_2(d),
                    p.poll,
                    tr,
                    now_ms,
                ),
                Event::Disc(p) => spec_connected_disc(d, p.poll),
                Event::Dm(_) => spec_connected_dm(d),
                Event::Ua(_) => spec_connected_ua(d, now_ms),
                Event::Frmr(_) => spec_connected_frmr(d, now_ms),
                Event::Ui(p, cr) => spec_connected_ui(d, p@.push, cr, p@.payload.len() as int),
                Event::Rr(p, cr) => spec_connected_rr(tr, d, p.nr, p.poll, cr, false, now_ms),
                Event::Rnr(p, cr) => spec_connected_rr(tr, d, p.nr, p.poll, cr, true, now_ms),
                Event::Iframe(p, cr) => spec_connected_iframe(d, p@, cr, now_ms),
                _ => (d, seq![]),
            }
        },
    }
}

/// The frame a send action stands for, addressed from `me` to `peer`.
/// U frames carry the fixed command/response sense of their type; RR and RNR
/// carry the sense the machine chose; all I frames are commands.
pub open spec fn spec_action_packet(me: AddrV, peer: AddrV, a: ActionV) -> PacketV {
    let pt = match a {
        ActionV::SendSabm { pf } => PacketTypeV::Sabm(Sabm { poll: pf }),
        ActionV::SendDisc { pf } => PacketTypeV::Disc(Disc { poll: pf }),
        ActionV::SendUa { pf } => PacketTypeV::Ua(Ua { poll: pf }),
        ActionV::SendDm { pf } => PacketTypeV::Dm(Dm { poll: pf }),
        ActionV::SendRej { pf, nr } => PacketTypeV::Rej(Rej { poll: pf, nr }),
        ActionV::SendRr { pf, nr, command } => PacketTypeV::Rr(Rr { poll: pf, nr }),
        ActionV::SendRnr { pf, nr, command } => PacketTypeV::Rnr(Rnr { poll: pf, nr }),
        ActionV::SendIframe(i) => PacketTypeV::Iframe(i),
        _ => PacketTypeV::Ua(Ua { poll: false }),
    };
    let command = match a {
        ActionV::SendSabm { .. } => true,
        ActionV::SendDisc { .. } => true,
        ActionV::SendIframe(_) => true,
        ActionV::SendRr { pf, nr, command } => command,
        ActionV::SendRnr { pf, nr, command } => command,
        _ => false,
    };
    PacketV {
        src: me,
        dst: peer,
        command_response: command,
        command_response_la: !command,
        digipeater: Seq::empty(),
        rr_dist1: false,
        rr_extseq: false,
        packet_type: pt,
    }
}

/// The view of an optional address.
pub open spec fn peer_view(p: Option<Addr>) -> Option<AddrV> {
    match p {
        Some(a) => Some(a@),
        None => None,
    }
}

/// The address outgoing frames are sent to: the connection's peer, or, when
/// the event just tore the connection down, the peer it had before.
pub open spec fn effective_peer(d: DataV, fallback: Option<AddrV>) -> Option<AddrV> {
    if d.peer is Some {
        d.peer
    } else {
        fallback
    }
}

/// What one action tells the world: state changes stay internal; a send
/// action without any peer to address — possible only for a frame refused
/// while disconnected — is dropped.
pub open spec fn action_event(d: DataV, fallback: Option<AddrV>, a: ActionV) -> Option<
    ReturnEventV,
> {
    match a {
        ActionV::State(_) => None,
        ActionV::DlError(e) => Some(ReturnEventV::DlError(e)),
        ActionV::Deliver(p) => Some(ReturnEventV::Data(ResV::Bytes(p))),
        ActionV::EOF => Some(ReturnEventV::Data(ResV::EOF)),
        _ => match effective_peer(d, fallback) {
            Some(peer) => Some(ReturnEventV::Packet(spec_action_packet(d.me, peer, a))),
            None => None,
        },
    }
}

/// The return events of a list of actions, in order.
pub open spec fn events_of(d: DataV, fallback: Option<AddrV>, acts: Seq<ActionV>) -> Seq<
    ReturnEventV,
>
    decreases acts.len(),
{
    if acts.len() == 0 {
        Seq::empty()
    } else {
        match action_event(d, fallback, acts[0]) {
            Some(e) => seq![e] + events_of(d, fallback, acts.skip(1)),
            None => events_of(d, fallback, acts.skip(1)),
        }
    }
}

/// Appending an action appends its return event, if it has one.
proof fn lemma_events_of_snoc(d: DataV, fallback: Option<AddrV>, acts: Seq<ActionV>, a: ActionV)
    ensures
        events_of(d, fallback, acts.push(a)) == events_of(d, fallback, acts) + (match action_event(
            d,
            fallback,
            a,
        ) {
            Some(e) => seq![e],
            None => Seq::<ReturnEventV>::empty(),
        }),
    decreases acts.len(),
{
    let tail = (match action_event(d, fallback, a) {
        Some(e) => seq![e],
        None => Seq::<ReturnEventV>::empty(),
    });
    if acts.len() == 0 {
        assert(acts.push(a).skip(1) =~= Seq::<ActionV>::empty());
        assert(acts.push(a)[0] == a);
        assert(events_of(d, fallback, Seq::<ActionV>::empty()) =~= Seq::<ReturnEventV>::empty());
        assert(events_of(d, fallback, acts.push(a)) =~= events_of(d, fallback, acts) + tail);
    } else {
        assert(acts.push(a).skip(1) =~= acts.skip(1).push(a));
        lemma_events_of_snoc(d, fallback, acts.skip(1), a);
        assert(events_of(d, fallback, acts.push(a)) =~= events_of(d, fallback, acts) + tail);
    }
}

/// Build a frame from `me` to `peer`, as a command or a response.
fn mk_packet(me: &Addr, peer: &Addr, command: bool, packet_type: PacketType) -> (p: Packet)
    ensures
        p@ == (PacketV {
            src: me@,
            dst: peer@,
            command_response: command,
            command_response_la: !command,
            digipeater: Seq::empty(),
            rr_dist1: false,
            rr_extseq: false,
            packet_type: packet_type@,
        }),
{
    let p = Packet {
        src: me.clone(),
        dst: peer.clone(),
        command_response: command,
        command_response_la: !command,
        digipeater: Vec::new(),
        rr_dist1: false,
        rr_extseq: false,
        packet_type,
    };
    proof {
        assert(p@.digipeater =~= Seq::<AddrV>::empty());
    }
    p
}

/// An empty action list.
fn no_actions() -> (r: Vec<Action>)
    ensures
        r@.map_values(|x: Action| x@) == Seq::<ActionV>::empty(),
{
    let r: Vec<Action> = Vec::new();
    proof {
        assert(r@.map_values(|x: Action| x@) =~= Seq::<ActionV>::empty());
    }
    r
}

/// Copy an optional address.
fn clone_peer(p: &Option<Addr>) -> (r: Option<Addr>)
    ensures
        peer_view(r) == peer_view(*p),
{
    match p {
        Some(a) => Some(a.clone()),
        None => None,
    }
}

/// Turn a handler's actions into the machine's answer: the first state
/// change, and the outward return events in order. Frames go to the
/// connection's peer, or to `fallback` when the event just cleared it.
#[verifier::rlimit(100)]
fn collect_events(data: &Data, fallback: &Option<Addr>, actions: &Vec<Action>) -> (r: (
    Option<State>,
    Vec<ReturnEvent>,
))
    ensures
        r.0 == first_state_change(actions@.map_values(|x: Action| x@)),
        r.1@.map_values(|x: ReturnEvent| x@) == events_of(
            data@,
            peer_view(*fallback),
            actions@.map_values(|x: Action| x@),
        ),
{
    let dest: Option<&Addr> = match &data.peer {
        Some(p) => Some(p),
        None => match fallback {
            Some(p) => Some(p),
            None => None,
        },
    };
    proof {
        match dest {
            Some(p) => {
                assert(effective_peer(data@, peer_view(*fallback)) == Some(p@));
            },
            None => {
                assert(effective_peer(data@, peer_view(*fallback)) is None);
            },
        }
    }
    let ghost acts_v = actions@.map_values(|x: Action| x@);
    let mut events: Vec<ReturnEvent> = Vec::new();
    let mut new_state: Option<State> = None;
    let mut i: usize = 0;
    proof {
        assert(acts_v.take(0) =~= Seq::<ActionV>::empty());
        assert(events@.map_values(|x: ReturnEvent| x@) =~= events_of(
            data@,
            peer_view(*fallback),
            acts_v.take(0),
        ));
    }
    while i < actions.len()
        invariant
            0 <= i <= actions@.len(),
            acts_v == actions@.map_values(|x: Action| x@),
            dest == (match data.peer {
                Some(ref p) => Some(p),
                None => match fallback {
                    Some(ref p) => Some(p),
                    None => None,
                },
            }),
            events@.map_values(|x: ReturnEvent| x@) == events_of(
                data@,
                peer_view(*fallback),
                acts_v.take(i as int),
            ),
            new_state == first_state_change(acts_v.take(i as int)),
        decreases actions@.len() - i,
    {
        let ghost pre_events = events@.map_values(|x: ReturnEvent| x@);
        proof {
            reveal_with_fuel(first_state_change, 3);
            assert(acts_v[i as int] == (actions@[i as int])@);
            assert(acts_v.take(i + 1) =~= acts_v.take(i as int).push(acts_v[i as int]));
            lemma_events_of_snoc(
                data@,
                peer_view(*fallback),
                acts_v.take(i as int),
                acts_v[i as int],
            );
            assert(acts_v.take(i as int).push(acts_v[i as int]) =~= acts_v.take(i as int) + seq![
                acts_v[i as int],
            ]);
            lemma_first_state_concat(acts_v.take(i as int), seq![acts_v[i as int]]);
        }
        let a = &actions[i];
        match a {
            Action::State(s) => {
                if new_state.is_none() {
                    new_state = Some(*s);
                }
            },
            Action::DlError(e) => {
                events.push(ReturnEvent::DlError(*e));
            },
            Action::Deliver(v) => {
                events.push(ReturnEvent::Data(Res::Bytes(crate::addr::copy_bytes_vec(v))));
            },
            Action::EOF => {
                events.push(ReturnEvent::Data(Res::EOF));
            },
            Action::SendSabm { pf } => {
                match dest {
                    Some(peer) => {
                        let pt = PacketType::Sabm(Sabm { poll: *pf });
                        let p = mk_packet(&data.me, peer, true, pt);
                        events.push(ReturnEvent::Packet(p));
                    },
                    None => {},
                }
            },
            Action::SendDisc { pf } => {
                match dest {
                    Some(peer) => {
                        let pt = PacketType::Disc(Disc { poll: *pf });
                        let p = mk_packet(&data.me, peer, true, pt);
                        events.push(ReturnEvent::Packet(p));
                    },
                    None => {},
                }
            },
            Action::SendUa { pf } => {
                match dest {
                    Some(peer) => {
                        let pt = PacketType::Ua(Ua { poll: *pf });
                        let p = mk_packet(&data.me, peer, false, pt);
                        events.push(ReturnEvent::Packet(p));
                    },
                    None => {},
                }
            },
            Action::SendDm { pf } => {
                match dest {
                    Some(peer) => {
                        let pt = PacketType::Dm(Dm { poll: *pf });
                        let p = mk_packet(&data.me, peer, false, pt);
                        events.push(ReturnEvent::Packet(p));
                    },
                    None => {},
                }
            },
            Action::SendRej { pf, nr } => {
                match dest {
                    Some(peer) => {
                        let pt = PacketType::Rej(Rej { poll: *pf, nr: *nr });
                        let p = mk_packet(&data.me, peer, false, pt);
                        events.push(ReturnEvent::Packet(p));
                    },
                    None => {},
                }
            },
            Action::SendRr { pf, nr, command } => {
                match dest {
                    Some(peer) => {
                        let pt = PacketType::Rr(Rr { poll: *pf, nr: *nr });
                        let p = mk_packet(&data.me, peer, *command, pt);
                        events.push(ReturnEvent::Packet(p));
                    },
                    None => {},
                }
            },
            Action::SendRnr { pf, nr, command } => {
                match dest {
                    Some(peer) => {
                        let pt = PacketType::Rnr(Rnr { poll: *pf, nr: *nr });
                        let p = mk_packet(&data.me, peer, *command, pt);
                        events.push(ReturnEvent::Packet(p));
                    },
                    None => {},
                }
            },
            Action::SendIframe(f) => {
                match dest {
                    Some(peer) => {
                        let pt = PacketType::Iframe(f.clone());
                        let p = mk_packet(&data.me, peer, true, pt);
                        events.push(ReturnEvent::Packet(p));
                    },
                    None => {},
                }
            },
        }
        proof {
            let tail = (match action_event(data@, peer_view(*fallback), acts_v[i as int]) {
                Some(e) => seq![e],
                None => Seq::<ReturnEventV>::empty(),
            });
            assert(events@.map_values(|x: ReturnEvent| x@) =~= pre_events + tail);
        }
        i += 1;
    }
    proof {
        assert(acts_v.take(actions@.len() as int) =~= acts_v);
    }
    (new_state, events)
}

/// Dispatch an event in the disconnected state.
#[verifier::rlimit(100)]
fn run_disconnected(st: &Disconnected, data: &mut Data, packet: &Event, now_ms: u64) -> (r: Vec<
    Action,
>)
    requires
        inv(st_disconnected(), old(data)@),
        event_ok(st_disconnected(), old(data)@, *packet),
    ensures
        final(data)@ == spec_handle(st_disconnected(), old(data)@, *packet, now_ms).0,
        r@.map_values(|x: Action| x@) == spec_handle(
            st_disconnected(),
            old(data)@,
            *packet,
            now_ms,
        ).1,
        inv(
            next_state(
                st_disconnected(),
                spec_handle(st_disconnected(), old(data)@, *packet, now_ms).1,
            ),
            final(data)@,
        ),
{
    let ghost model = spec_handle(st_disconnected(), old(data)@, *packet, now_ms);
    let r: Vec<Action> = match packet {
        Event::Connect { addr, ext } => st.connect(data, addr, *ext, now_ms),
        Event::Sabm(p, src) => st.sabm(data, src, p, now_ms),
        Event::Sabme(p, src) => st.sabme(data, src, p, now_ms),
        Event::Disc(p) => {
            let mut v: Vec<Action> = Vec::new();
            v.push(Action::SendDm { pf: p.poll });
            proof {
                reveal_with_fuel(first_state_change, 2);
                assert(v@.map_values(|x: Action| x@) =~= model.1);
            }
            v
        },
        Event::Ua(_) => {
            let mut v: Vec<Action> = Vec::new();
            v.push(Action::DlError(DlError::C));
            v.push(Action::DlError(DlError::D));
            proof {
                reveal_with_fuel(first_state_change, 3);
                assert(v@.map_values(|x: Action| x@) =~= model.1);
            }
            v
        },
        Event::Ui(p, cr) => st.ui(data, *cr, p),
        Event::T1 => {
            data.t1.stop();
            no_actions()
        },
        Event::T3 => {
            data.t3.stop();
            no_actions()
        },
        _ => no_actions(),
    };
    proof {
        reveal_with_fuel(first_state_change, 4);
        assert(final(data)@ == model.0);
        assert(r@.map_values(|x: Action| x@) == model.1);
        assert(inv(next_state(st_disconnected(), model.1), final(data)@));
    }
    r
}

/// Dispatch an event while awaiting the connection's UA.
#[verifier::rlimit(100)]
fn run_awaiting_connection(
    st: &AwaitingConnection,
    data: &mut Data,
    packet: &Event,
    now_ms: u64,
) -> (r: Vec<Action>)
    requires
        inv(st_awaiting_connection(), old(data)@),
        event_ok(st_awaiting_connection(), old(data)@, *packet),
    ensures
        final(data)@ == spec_handle(st_awaiting_connection(), old(data)@, *packet, now_ms).0,
        r@.map_values(|x: Action| x@) == spec_handle(
            st_awaiting_connection(),
            old(data)@,
            *packet,
            now_ms,
        ).1,
        inv(
            next_state(
                st_awaiting_connection(),
                spec_handle(st_awaiting_connection(), old(data)@, *packet, now_ms).1,
            ),
            final(data)@,
        ),
{
    let ghost model = spec_handle(st_awaiting_connection(), old(data)@, *packet, now_ms);
    let r: Vec<Action> = match packet {
        Event::T1 => st.t1(data, now_ms),
        Event::Ua(p) => st.ua(data, p, now_ms),
        Event::Sabm(p, _) => st.sabm(data, p),
        Event::Sabme(p, _) => st.sabme(data, p),
        Event::Disconnect => st.disconnect(data),
        Event::T3 => {
            data.t3.stop();
            no_actions()
        },
        _ => no_actions(),
    };
    proof {
        reveal_with_fuel(first_state_change, 4);
        assert(final(data)@ == model.0);
        assert(r@.map_values(|x: Action| x@) == model.1);
        assert(inv(next_state(st_awaiting_connection(), model.1), final(data)@));
    }
    r
}

/// Dispatch an event while awaiting the release confirmation.
#[verifier::rlimit(100)]
fn run_awaiting_release(st: &AwaitingRelease, data: &mut Data, packet: &Event, now_ms: u64) -> (r:
    Vec<Action>)
    requires
        inv(st_awaiting_release(), old(data)@),
        event_ok(st_awaiting_release(), old(data)@, *packet),
    ensures
        final(data)@ == spec_handle(st_awaiting_release(), old(data)@, *packet, now_ms).0,
        r@.map_values(|x: Action| x@) == spec_handle(
            st_awaiting_release(),
            old(data)@,
            *packet,
            now_ms,
        ).1,
        inv(
            next_state(
                st_awaiting_release(),
                spec_handle(st_awaiting_release(), old(data)@, *packet, now_ms).1,
            ),
            final(data)@,
        ),
{
    let ghost model = spec_handle(st_awaiting_release(), old(data)@, *packet, now_ms);
    let r: Vec<Action> = match packet {
        Event::Dm(p) => st.dm(data, p),
        Event::Ua(p) => st.ua(data, p),
        Event::T1 => st.t1(data, now_ms),
        Event::Disconnect => st.disconnect(data),
        Event::T3 => {
            data.t3.stop();
            no_actions()
        },
        _ => no_actions(),
    };
    proof {
        reveal_with_fuel(first_state_change, 4);
        assert(final(data)@ == model.0);
        assert(r@.map_values(|x: Action| x@) == model.1);
        assert(inv(next_state(st_awaiting_release(), model.1), final(data)@));
    }
    r
}

/// Dispatch a local command, a timer event or a UI frame in the data phase.
#[verifier::rlimit(100)]
fn run_connected_local(st: &Connected, data: &mut Data, packet: &Event, now_ms: u64) -> (r: Vec<
    Action,
>)
    requires
        !(*packet is Sabm),
        !(*packet is Sabme),
        !(*packet is Disc),
        !(*packet is Dm),
        !(*packet is Ua),
        !(*packet is Frmr),
        !(*packet is Rr),
        !(*packet is Rnr),
        !(*packet is Iframe),
        inv(st.st(), old(data)@),
        event_ok(st.st(), old(data)@, *packet),
    ensures
        final(data)@ == spec_handle(st.st(), old(data)@, *packet, now_ms).0,
        r@.map_values(|x: Action| x@) == spec_handle(st.st(), old(data)@, *packet, now_ms).1,
        inv(
            next_state(st.st(), spec_handle(st.st(), old(data)@, *packet, now_ms).1),
            final(data)@,
        ),
        final(data)@.vr == old(data)@.vr || final(data)@.vr == incr_mod(
            old(data)@.vr,
            old(data)@.modulus,
        ) || final(data)@.vr == 0,
{
    let ghost model = spec_handle(st.st(), old(data)@, *packet, now_ms);
    let r: Vec<Action> = match packet {
        Event::Disconnect => {
            let v = st.disconnect(data, now_ms);
            proof {
                reveal_with_fuel(first_state_change, 4);
                assert(inv(next_state(st.st(), model.1), data@));
            }
            v
        },
        Event::Data(p) => {
            let v = st.data(data, p.as_slice(), now_ms);
            proof {
                assert(inv(next_state(st.st(), model.1), data@));
            }
            v
        },
        Event::T1 => {
            let v = st.t1(data, now_ms);
            proof {
                assert(inv(next_state(st.st(), model.1), data@));
            }
            v
        },
        Event::T3 => {
            let v = st.t3(data, now_ms);
            proof {
                reveal_with_fuel(first_state_change, 4);
                assert(inv(next_state(st.st(), model.1), data@));
            }
            v
        },
        Event::Ui(p, cr) => {
            let v = st.ui(data, *cr, p);
            proof {
                reveal_with_fuel(first_state_change, 4);
                assert(inv(next_state(st.st(), model.1), data@));
            }
            v
        },
        _ => {
            let v = no_actions();
            proof {
                reveal_with_fuel(first_state_change, 2);
                assert(v@.map_values(|x: Action| x@) =~= model.1);
                assert(inv(next_state(st.st(), model.1), data@));
            }
            v
        },
    };
    r
}

/// Dispatch an unnumbered frame in the data phase.
#[verifier::rlimit(100)]
fn run_connected_u(st: &Connected, data: &mut Data, packet: &Event, now_ms: u64) -> (r: Vec<
    Action,
>)
    requires
        *packet is Sabm || *packet is Sabme || *packet is Disc || *packet is Dm || *packet is Ua
            || *packet is Frmr,
        inv(st.st(), old(data)@),
        event_ok(st.st(), old(data)@, *packet),
    ensures
        final(data)@ == spec_handle(st.st(), old(data)@, *packet, now_ms).0,
        r@.map_values(|x: Action| x@) == spec_handle(st.st(), old(data)@, *packet, now_ms).1,
        inv(
            next_state(st.st(), spec_handle(st.st(), old(data)@, *packet, now_ms).1),
            final(data)@,
        ),
        final(data)@.vr == old(data)@.vr || final(data)@.vr == incr_mod(
            old(data)@.vr,
            old(data)@.modulus,
        ) || final(data)@.vr == 0,
{
    let ghost model = spec_handle(st.st(), old(data)@, *packet, now_ms);
    let r: Vec<Action> = match packet {
        Event::Sabm(p, _) => {
            let v = st.sabm(data, p, now_ms);
            proof {
                reveal_with_fuel(first_state_change, 4);
                assert(inv(next_state(st.st(), model.1), data@));
            }
            v
        },
        Event::Sabme(p, _) => {
            let v = st.sabme(data, p, now_ms);
            proof {
                reveal_with_fuel(first_state_change, 4);
                assert(inv(next_state(st.st(), model.1), data@));
            }
            v
        },
        Event::Disc(p) => {
            let v = st.disc(data, p);
            proof {
                reveal_with_fuel(first_state_change, 4);
                assert(inv(next_state(st.st(), model.1), data@));
            }
            v
        },
        Event::Dm(_) => {
            let v = st.dm(data);
            proof {
                reveal_with_fuel(first_state_change, 4);
                assert(inv(next_state(st.st(), model.1), data@));
            }
            v
        },
        Event::Ua(_) => {
            let v = st.ua(data, now_ms);
            proof {
                reveal_with_fuel(first_state_change, 4);
                assert(inv(next_state(st.st(), model.1), data@));
            }
            v
        },
        _ => {
            let v = st.frmr(data, now_ms);
            proof {
                reveal_with_fuel(first_state_change, 4);
                assert(inv(next_state(st.st(), model.1), data@));
            }
            v
        },
    };
    r
}

/// Dispatch a sequenced frame (RR, RNR or I) in the data phase.
#[verifier::rlimit(100)]
fn run_connected_s(st: &Connected, data: &mut Data, packet: &Event, now_ms: u64) -> (r: Vec<
    Action,
>)
    requires
        *packet is Rr || *packet is Rnr || *packet is Iframe,
        inv(st.st(), old(data)@),
        event_ok(st.st(), old(data)@, *packet),
    ensures
        final(data)@ == spec_handle(st.st(), old(data)@, *packet, now_ms).0,
        r@.map_values(|x: Action| x@) == spec_handle(st.st(), old(data)@, *packet, now_ms).1,
        inv(
            next_state(st.st(), spec_handle(st.st(), old(data)@, *packet, now_ms).1),
            final(data)@,
        ),
        final(data)@.vr == old(data)@.vr || final(data)@.vr == incr_mod(
            old(data)@.vr,
            old(data)@.modulus,
        ) || final(data)@.vr == 0,
{
    let ghost model = spec_handle(st.st(), old(data)@, *packet, now_ms);
    let r: Vec<Action> = match packet {
        Event::Rr(p, cr) => {
            let v = st.rr(data, p, *cr, now_ms);
            proof {
                assert(inv(next_state(st.st(), model.1), data@));
            }
            v
        },
        Event::Rnr(p, cr) => {
            let v = st.rnr(data, p, *cr, now_ms);
            proof {
                assert(inv(next_state(st.st(), model.1), data@));
            }
            v
        },
        Event::Iframe(p, cr) => {
            let v = st.iframe(data, p, *cr, now_ms);
            proof {
                assert(inv(next_state(st.st(), model.1), data@));
            }
            v
        },
        _ => {
            proof {
                assert(false);
            }
            no_actions()
        },
    };
    r
}

/// Dispatch an event in the data phase.
fn run_connected(st: &Connected, data: &mut Data, packet: &Event, now_ms: u64) -> (r: Vec<Action>)
    requires
        inv(st.st(), old(data)@),
        event_ok(st.st(), old(data)@, *packet),
    ensures
        final(data)@ == spec_handle(st.st(), old(data)@, *packet, now_ms).0,
        r@.map_values(|x: Action| x@) == spec_handle(st.st(), old(data)@, *packet, now_ms).1,
        inv(
            next_state(st.st(), spec_handle(st.st(), old(data)@, *packet, now_ms).1),
            final(data)@,
        ),
        final(data)@.vr == old(data)@.vr || final(data)@.vr == incr_mod(
            old(data)@.vr,
            old(data)@.modulus,
        ) || final(data)@.vr == 0,
{
    match packet {
        Event::Sabm(_, _) => run_connected_u(st, data, packet, now_ms),
        Event::Sabme(_, _) => run_connected_u(st, data, packet, now_ms),
        Event::Disc(_) => run_connected_u(st, data, packet, now_ms),
        Event::Dm(_) => run_connected_u(st, data, packet, now_ms),
        Event::Ua(_) => run_connected_u(st, data, packet, now_ms),
        Event::Frmr(_) => run_connected_u(st, data, packet, now_ms),
        Event::Rr(_, _) => run_connected_s(st, data, packet, now_ms),
        Event::Rnr(_, _) => run_connected_s(st, data, packet, now_ms),
        Event::Iframe(_, _) => run_connected_s(st, data, packet, now_ms),
        _ => run_connected_local(st, data, packet, now_ms),
    }
}

/// Feed one event through the state machine: dispatch to the state's
/// handler, then turn the resulting actions into the machine's answer — a
/// possible state change, and the frames, error reports and deliveries for
/// the driver. The contract pins the whole step to the transition relation
/// `spec_handle`; on top of it, the machine invariant is preserved (so the
/// resend queue always holds exactly the frames between `V(A)` and `V(S)`,
/// at most `K` of them), and `V(R)` never moves backward: it stays, steps
/// forward once, or is reset to zero by a connection reset.
pub fn handle(state: &State, data: &mut Data, packet: &Event, now_ms: u64) -> (r: (
    Option<State>,
    Vec<ReturnEvent>,
))
    requires
        inv(*state, old(data)@),
        event_ok(*state, old(data)@, *packet),
    ensures
        final(data)@ == spec_handle(*state, old(data)@, *packet, now_ms).0,
        r.0 == first_state_change(spec_handle(*state, old(data)@, *packet, now_ms).1),
        r.1@.map_values(|x: ReturnEvent| x@) == events_of(
            final(data)@,
            old(data)@.peer,
            spec_handle(*state, old(data)@, *packet, now_ms).1,
        ),
        inv(next_state(*state, spec_handle(*state, old(data)@, *packet, now_ms).1), final(data)@),
        final(data)@.vr == old(data)@.vr || final(data)@.vr == incr_mod(
            old(data)@.vr,
            old(data)@.modulus,
        ) || final(data)@.vr == 0,
{
    let fallback = clone_peer(&data.peer);
    let actions: Vec<Action> = match state {
        State::Disconnected(st) => run_disconnected(st, data, packet, now_ms),
        State::AwaitingConnection(st) => run_awaiting_connection(st, data, packet, now_ms),
        State::AwaitingRelease(st) => run_awaiting_release(st, data, packet, now_ms),
        State::Connected(st) => run_connected(st, data, packet, now_ms),
    };
    collect_events(data, &fallback, &actions)
}

// ---------------------------------------------------------------------------
// Laws of the machine.
// ---------------------------------------------------------------------------

/// A fresh connection satisfies the machine invariant. Since `handle`
/// requires the invariant and re-establishes it for the state it moves to,
/// after any sequence of events the resend queue still holds exactly
/// `(V(S) - V(A)) mod modulus` frames, and never more than the window `K`.
pub proof fn lemma_new_data_inv(me: AddrV)
    ensures
        inv(State::Disconnected(Disconnected {  }), spec_new_data(me)),
{
}

/// Stepping forward from `V(A)` reaches `V(A)` at once: an acknowledgement
/// that acknowledges nothing is always inside the window.
pub proof fn lemma_in_range_reflexive(va: u8, vs: u8, modulus: u8)
    requires
        va < modulus,
        vs < modulus,
    ensures
        spec_in_range(va, va, vs, modulus),
{
}

/// Draining the outgoing buffer loses no bytes and invents none: the
/// payloads of the frames sent, concatenated in sending order, followed by
/// what remains buffered, are exactly the bytes that were buffered.
pub proof fn lemma_flush_conserves_bytes(d: DataV, now_ms: u64)
    requires
        d.mtu_out >= 1,
    ensures
        ({
            let (d2, acts) = spec_flush(d, now_ms);
            concat_payloads(acts) + d2.obuf == d.obuf
        }),
    decreases d.obuf.len(),
{
    if d.peer_receiver_busy || d.obuf.len() == 0 || d.vs == add_mod(d.va, d.k, d.modulus) {
        assert(concat_payloads(Seq::<ActionV>::empty()) + d.obuf =~= d.obuf);
    } else {
        let take = if d.obuf.len() < d.mtu_out {
            d.obuf.len() as int
        } else {
            d.mtu_out as int
        };
        let i = IframeV { ns: d.vs, nr: d.vr, poll: false, pid: NO_L3, payload: d.obuf.take(take) };
        let d1 = spec_flush_step(d, now_ms);
        lemma_flush_conserves_bytes(d1, now_ms);
        let d2 = spec_flush(d1, now_ms).0;
        let rest = spec_flush(d1, now_ms).1;
        assert((seq![ActionV::SendIframe(i)] + rest).skip(1) =~= rest);
        assert((seq![ActionV::SendIframe(i)] + rest)[0] == ActionV::SendIframe(i));
        assert(concat_payloads(seq![ActionV::SendIframe(i)] + rest) == i.payload
            + concat_payloads(rest));
        assert(i.payload + (concat_payloads(rest) + d2.obuf) =~= (i.payload + concat_payloads(
            rest,
        )) + d2.obuf);
        assert(i.payload + d1.obuf =~= d.obuf);
    }
}

/// An application write that fits the buffer conserves its bytes: the
/// payloads of the I-frames the write sends, in order, followed by what
/// stays buffered, are the previously buffered bytes plus the written ones.
/// Acknowledgements later drain the rest through the same sending path, so
/// a write into a stable connection comes out as I-frames whose concatenated
/// payloads are the written bytes, in order.
pub proof fn lemma_write_conserves_bytes(d: DataV, payload: Seq<u8>, now_ms: u64)
    requires
        d.mtu_out >= 1,
    ensures
        ({
            let (d2, acts) = spec_connected_data(d, payload, now_ms);
            concat_payloads(acts) + d2.obuf == d.obuf + payload
        }),
{
    lemma_flush_conserves_bytes(DataV { obuf: d.obuf + payload, ..d }, now_ms);
}

impl Event {
    /// The event a received frame raises, carrying the frame's
    /// command/response sense (and, for SABM and SABME, its source address).
    pub fn from_packet(packet: &Packet) -> (r: Event)
        ensures
            match packet@.packet_type {
                PacketTypeV::Sabm(p) => r matches Event::Sabm(q, src) && q == p && src@
                    == packet@.src,
                PacketTypeV::Sabme(p) => r matches Event::Sabme(q, src) && q == p && src@
                    == packet@.src,
                PacketTypeV::Ua(p) => r == Event::Ua(p),
                PacketTypeV::Dm(p) => r == Event::Dm(p),
                PacketTypeV::Disc(p) => r == Event::Disc(p),
                PacketTypeV::Frmr(p) => r == Event::Frmr(p),
                PacketTypeV::Xid(p) => r == Event::Xid(p, packet@.command_response),
                PacketTypeV::Ui(p) => r matches Event::Ui(q, cr) && q@ == p && cr
                    == packet@.command_response,
                PacketTypeV::Test(p) => r matches Event::Test(q, cr) && q@ == p && cr
                    == packet@.command_response,
                PacketTypeV::Rr(p) => r == Event::Rr(p, packet@.command_response),
                PacketTypeV::Rnr(p) => r == Event::Rnr(p, packet@.command_response),
                PacketTypeV::Rej(p) => r == Event::Rej(p),
                PacketTypeV::Srej(p) => r == Event::Srej(p),
                PacketTypeV::Iframe(p) => r matches Event::Iframe(q, cr) && q@ == p && cr
                    == packet@.command_response,
            },
    {
        match &packet.packet_type {
            PacketType::Sabm(p) => Event::Sabm(*p, packet.src.clone()),
            PacketType::Sabme(p) => Event::Sabme(*p, packet.src.clone()),
            PacketType::Ua(p) => Event::Ua(*p),
            PacketType::Dm(p) => Event::Dm(*p),
            PacketType::Disc(p) => Event::Disc(*p),
            PacketType::Frmr(p) => Event::Frmr(*p),
            PacketType::Xid(p) => Event::Xid(*p, packet.command_response),
            PacketType::Ui(p) => Event::Ui(p.clone(), packet.command_response),
            PacketType::Test(p) => Event::Test(p.clone(), packet.command_response),
            PacketType::Rr(p) => Event::Rr(*p, packet.command_response),
            PacketType::Rnr(p) => Event::Rnr(*p, packet.command_response),
            PacketType::Rej(p) => Event::Rej(*p),
            PacketType::Srej(p) => Event::Srej(*p),
            PacketType::Iframe(p) => Event::Iframe(p.clone(), packet.command_response),
        }
    }
}

} // verus!
