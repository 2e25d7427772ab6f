//! The decisions of the transports: which bytes of a stream form the
//! awaited frame, which datagram is the awaited one, when a pooled
//! connection may be used again, and how long to wait between attempts.
//! The caller performs the I/O and reports what happened.

use vstd::prelude::*;
use vstd::slice::slice_subrange;
use vstd::string::*;
use crate::mc_define::{le16, u16_from_le};
use crate::mc_frame::{detect_frame, spec_detect_frame, FrameBoundary};
use crate::text::append_bytes;

verus! {

/// The longest frame that the stream reader takes for one.
pub const MAX_FRAME_LEN: usize = 65535;

/// The seconds that a connect may take.
pub const CONNECT_TIMEOUT_SECS: u64 = 3;

/// The bytes that one read on a stream asks for.
pub const STREAM_READ_LEN: usize = 4096;

/// The bytes that the largest datagram holds.
pub const MAX_DATAGRAM_LEN: usize = 65535;

/// The local address that a datagram socket is bound to: any address of
/// the family of the remote address, and a port that the system picks.
pub fn bind_address(remote_is_ipv4: bool) -> (r: &'static str)
    ensures
        r@ == (if remote_is_ipv4 {
            "0.0.0.0:0"@
        } else {
            "[::]:0"@
        }),
{
    if remote_is_ipv4 {
        "0.0.0.0:0"
    } else {
        "[::]:0"
    }
}

/// The serial that a frame carries at offsets 2 and 3, or 0 for a frame
/// under four bytes. A response is awaited under the serial of its request;
/// 0 means that any response will do.
pub open spec fn spec_serial_of(frame: Seq<u8>) -> u16 {
    if frame.len() >= 4 {
        le16(frame[2], frame[3]) as u16
    } else {
        0
    }
}

/// Reads the serial of a frame.
pub fn serial_of(frame: &[u8]) -> (r: u16)
    ensures
        r == spec_serial_of(frame@),
{
    if frame.len() >= 4 {
        u16_from_le(frame[2], frame[3])
    } else {
        0
    }
}

/// True if a response with serial `serial` answers a request that went out
/// under `expected`.
pub open spec fn spec_serial_matches(expected: u16, serial: u16) -> bool {
    expected == 0 || serial == expected
}

pub fn serial_matches(expected: u16, serial: u16) -> (r: bool)
    ensures
        r == spec_serial_matches(expected, serial),
{
    expected == 0 || serial == expected
}

/// What scanning a buffer gives: the awaited frame, if the buffer holds it,
/// and the bytes that stay in the buffer.
pub struct Scan {
    pub frame: Option<Seq<u8>>,
    pub rest: Seq<u8>,
}

/// Scans a buffer of received bytes from its head. A malformed header, and
/// a header that announces more than `MAX_FRAME_LEN` bytes, costs one byte.
/// A complete frame is handed out if its serial matches, and dropped
/// otherwise. The scan stops where the head shows no frame or an incomplete
/// one.
pub open spec fn spec_scan(buf: Seq<u8>, expected: u16) -> Scan
    decreases buf.len(),
{
    match spec_detect_frame(buf) {
        FrameBoundary::NeedMore => Scan { frame: None, rest: buf },
        FrameBoundary::Malformed => spec_scan(buf.skip(1), expected),
        FrameBoundary::Frame { frame_len, header_len, serial } => {
            if frame_len > MAX_FRAME_LEN {
                spec_scan(buf.skip(1), expected)
            } else if buf.len() < frame_len {
                Scan { frame: None, rest: buf }
            } else if spec_serial_matches(
                expected,
                match serial {
                    Some(s) => s,
                    None => 0,
                },
            ) {
                Scan { frame: Some(buf.take(frame_len)), rest: buf.skip(frame_len) }
            } else {
                spec_scan(buf.skip(frame_len), expected)
            }
        },
    }
}

/// The number of bytes that a scan drops: those that it neither hands out
/// as the frame nor leaves in the buffer.
pub open spec fn spec_scan_dropped(buf: Seq<u8>, expected: u16) -> int {
    let scan = spec_scan(buf, expected);
    buf.len() - scan.rest.len() - (match scan.frame {
        Some(f) => f.len() as int,
        None => 0,
    })
}

/// A scan hands out and leaves no more bytes than the buffer holds.
pub proof fn lemma_scan_lengths(buf: Seq<u8>, expected: u16)
    ensures
        0 <= spec_scan_dropped(buf, expected) <= buf.len(),
    decreases buf.len(),
{
    match spec_detect_frame(buf) {
        FrameBoundary::NeedMore => {},
        FrameBoundary::Malformed => {
            lemma_scan_lengths(buf.skip(1), expected);
        },
        FrameBoundary::Frame { frame_len, header_len, serial } => {
            if frame_len > MAX_FRAME_LEN {
                lemma_scan_lengths(buf.skip(1), expected);
            } else if buf.len() < frame_len {
            } else if spec_serial_matches(
                expected,
                match serial {
                    Some(s) => s,
                    None => 0,
                },
            ) {
            } else {
                lemma_scan_lengths(buf.skip(frame_len as int), expected);
            }
        },
    }
}

/// Scans the buffer for the frame awaited under `expected_serial`. The
/// frame, if found, is taken out of the buffer together with all that
/// precedes it; otherwise only what the scan has dropped leaves the buffer.
pub fn scan_buffer(buf: &mut Vec<u8>, expected_serial: u16) -> (r: Option<Vec<u8>>)
    ensures
        final(buf)@ == spec_scan(old(buf)@, expected_serial).rest,
        match spec_scan(old(buf)@, expected_serial).frame {
            Some(f) => r is Some && r->0@ == f,
            None => r is None,
        },
{
    let mut pos: usize = 0;
    let mut found: Option<usize> = None;
    assert(buf@.skip(0) =~= buf@);
    loop
        invariant_except_break
            found is None,
            spec_scan(old(buf)@, expected_serial) == spec_scan(
                buf@.skip(pos as int),
                expected_serial,
            ),
        invariant
            buf@ == old(buf)@,
            pos <= buf.len(),
        ensures
            spec_scan(old(buf)@, expected_serial) == (match found {
                Some(n) => Scan {
                    frame: Some(buf@.subrange(pos as int, pos + n)),
                    rest: buf@.skip(pos + n),
                },
                None => Scan { frame: None, rest: buf@.skip(pos as int) },
            }),
            found is Some ==> pos + found->0 <= buf.len(),
        decreases buf.len() - pos,
    {
        let ghost here = buf@.skip(pos as int);
        let window = slice_subrange(buf.as_slice(), pos, buf.len());
        assert(window@ =~= here);
        match detect_frame(window) {
            Ok(Some((frame_len, _header_len, serial_opt))) => {
                if frame_len > MAX_FRAME_LEN {
                    assert(here.skip(1) =~= buf@.skip(pos + 1));
                    pos = pos + 1;
                } else if buf.len() - pos < frame_len {
                    break ;
                } else {
                    let serial = match serial_opt {
                        Some(s) => s,
                        None => 0,
                    };
                    if serial_matches(expected_serial, serial) {
                        assert(here.take(frame_len as int) =~= buf@.subrange(
                            pos as int,
                            pos + frame_len,
                        ));
                        assert(here.skip(frame_len as int) =~= buf@.skip(pos + frame_len));
                        found = Some(frame_len);
                        break ;
                    } else {
                        assert(here.skip(frame_len as int) =~= buf@.skip(pos + frame_len));
                        pos = pos + frame_len;
                    }
                }
            },
            Ok(None) => {
                break ;
            },
            Err(_) => {
                assert(here.skip(1) =~= buf@.skip(pos + 1));
                pos = pos + 1;
            },
        }
    }
    match found {
        Some(n) => {
            let rest = buf.split_off(pos + n);
            let frame = buf.split_off(pos);
            *buf = rest;
            assert(frame@ =~= old(buf)@.subrange(pos as int, pos + n));
            assert(buf@ =~= old(buf)@.skip(pos + n));
            Some(frame)
        },
        None => {
            let rest = buf.split_off(pos);
            *buf = rest;
            assert(buf@ =~= old(buf)@.skip(pos as int));
            None
        },
    }
}

/// The receiving side of one exchange on a stream: the bytes received and
/// not yet consumed, the serial under which the response is awaited, and
/// the number of bytes that the latest step dropped to find the next frame.
#[derive(Debug)]
pub struct StreamReader {
    pub buf: Vec<u8>,
    pub expected_serial: u16,
    pub dropped: usize,
}

impl StreamReader {
    /// A reader for the response to the frame `payload`, with an empty
    /// buffer.
    pub fn new(payload: &[u8]) -> (r: StreamReader)
        ensures
            r.buf@.len() == 0,
            r.expected_serial == spec_serial_of(payload@),
            r.dropped == 0,
    {
        StreamReader { buf: Vec::new(), expected_serial: serial_of(payload), dropped: 0 }
    }

    /// Takes in a chunk that a read delivered and scans the buffer. Returns
    /// the awaited frame once the buffer holds it, and notes how many bytes
    /// the scan dropped.
    pub fn feed(&mut self, chunk: &[u8]) -> (r: Option<Vec<u8>>)
        ensures
            final(self).expected_serial == old(self).expected_serial,
            final(self).buf@ == spec_scan(old(self).buf@ + chunk@, old(self).expected_serial).rest,
            match spec_scan(old(self).buf@ + chunk@, old(self).expected_serial).frame {
                Some(f) => r is Some && r->0@ == f,
                None => r is None,
            },
            final(self).dropped == spec_scan_dropped(
                old(self).buf@ + chunk@,
                old(self).expected_serial,
            ),
    {
        append_bytes(&mut self.buf, chunk);
        let total = self.buf.len();
        proof {
            lemma_scan_lengths(self.buf@, self.expected_serial);
        }
        let found = scan_buffer(&mut self.buf, self.expected_serial);
        let taken = match &found {
            Some(frame) => frame.len(),
            None => 0,
        };
        self.dropped = total - self.buf.len() - taken;
        found
    }
}

/// What a read on the stream brought.
#[derive(Debug)]
pub enum StreamEvent {
    /// The bytes that a read delivered. None at all means that the remote
    /// closed the stream.
    Received(Vec<u8>),
    /// The read failed or ran out of time.
    Failed,
}

/// What to do next on the stream.
#[derive(Debug)]
pub enum StreamAction {
    /// Hand this frame to the caller and keep the stream.
    Deliver(Vec<u8>),
    /// Read again.
    Read,
    /// Give the stream up.
    Fail,
}

impl StreamReader {
    /// Decides what follows a read: a failed read and a closed stream end
    /// the exchange, received bytes are scanned, and the awaited frame is
    /// delivered as soon as the buffer holds it. A step that scans nothing
    /// drops nothing.
    pub fn step(&mut self, event: StreamEvent) -> (r: StreamAction)
        ensures
            final(self).expected_serial == old(self).expected_serial,
            match event {
                StreamEvent::Failed => {
                    &&& r is Fail
                    &&& final(self).buf@ == old(self).buf@
                    &&& final(self).dropped == 0
                },
                StreamEvent::Received(chunk) => if chunk@.len() == 0 {
                    &&& r is Fail
                    &&& final(self).buf@ == old(self).buf@
                    &&& final(self).dropped == 0
                } else {
                    let scan = spec_scan(old(self).buf@ + chunk@, old(self).expected_serial);
                    &&& final(self).buf@ == scan.rest
                    &&& final(self).dropped == spec_scan_dropped(
                        old(self).buf@ + chunk@,
                        old(self).expected_serial,
                    )
                    &&& match scan.frame {
                        Some(f) => r matches StreamAction::Deliver(d) && d@ == f,
                        None => r is Read,
                    }
                },
            },
    {
        match event {
            StreamEvent::Failed => {
                self.dropped = 0;
                StreamAction::Fail
            },
            StreamEvent::Received(chunk) => {
                if chunk.len() == 0 {
                    self.dropped = 0;
                    StreamAction::Fail
                } else {
                    match self.feed(chunk.as_slice()) {
                        Some(frame) => StreamAction::Deliver(frame),
                        None => StreamAction::Read,
                    }
                }
            },
        }
    }
}

/// Where an exchange over the connection pool stands.
#[derive(Clone, Copy, Debug, PartialEq, Eq, Structural)]
pub enum TcpPhase {
    /// The exchange runs on the pooled connection.
    OnCached,
    /// A connection to the address with this index is being made.
    Connecting(usize),
    /// The exchange runs on a fresh connection to the address with this
    /// index.
    OnFresh(usize),
    Finished,
}

/// What happened to the step that the pool asked for.
#[derive(Clone, Copy, Debug, PartialEq, Eq, Structural)]
pub enum TcpEvent {
    Connected,
    ConnectFailed,
    /// The exchange on the stream delivered the awaited frame.
    Delivered,
    /// The exchange on the stream failed.
    ExchangeFailed,
}

/// What the pool asks for next.
#[derive(Clone, Copy, Debug, PartialEq, Eq, Structural)]
pub enum TcpAction {
    /// Run the exchange on the pooled connection.
    UseCached,
    /// Empty the slot and connect to the address with this index.
    Connect(usize),
    /// Run the exchange on the connection just made.
    Exchange,
    /// Put the stream into the slot with the present time and return the
    /// frame.
    Store,
    /// Empty the slot and report a protocol error.
    Fail,
}

/// One send-receive over the per-target slot of the connection pool.
#[derive(Clone, Copy, Debug, PartialEq, Eq, Structural)]
pub struct TcpExchange {
    /// How many addresses the target resolved to.
    pub n_addrs: usize,
    pub phase: TcpPhase,
}

impl TcpExchange {
    /// The step that tries the address `index`, or gives up where the
    /// addresses are used up.
    pub open spec fn spec_try_addr(n_addrs: usize, index: int) -> (TcpExchange, TcpAction) {
        if index < n_addrs {
            (
                TcpExchange { n_addrs, phase: TcpPhase::Connecting(index as usize) },
                TcpAction::Connect(index as usize),
            )
        } else {
            (TcpExchange { n_addrs, phase: TcpPhase::Finished }, TcpAction::Fail)
        }
    }

    /// True if a connection that has been idle for `idle.0` seconds and
    /// `idle.1` nanoseconds has been idle for less than the window.
    pub open spec fn spec_is_fresh(idle: (u64, u32), idle_window_secs: u64) -> bool {
        idle.0 < idle_window_secs
    }

    /// How an exchange begins: on the pooled connection, if there is one
    /// and it has been idle for less than the idle window; otherwise
    /// with the first address.
    pub open spec fn spec_begin(
        n_addrs: usize,
        cached_idle: Option<(u64, u32)>,
        idle_window_secs: u64,
    ) -> (TcpExchange, TcpAction) {
        if cached_idle is Some && TcpExchange::spec_is_fresh(cached_idle->0, idle_window_secs) {
            (TcpExchange { n_addrs, phase: TcpPhase::OnCached }, TcpAction::UseCached)
        } else {
            TcpExchange::spec_try_addr(n_addrs, 0)
        }
    }

    /// How an exchange goes on. A pooled connection that fails is dropped
    /// and the addresses are tried from the first. A failed connect ends
    /// the exchange. A fresh connection that fails is dropped and the next
    /// address is tried. An event that the phase does not await ends the
    /// exchange.
    pub open spec fn spec_step(self, event: TcpEvent) -> (TcpExchange, TcpAction) {
        let done = TcpExchange { n_addrs: self.n_addrs, phase: TcpPhase::Finished };
        match (self.phase, event) {
            (TcpPhase::OnCached, TcpEvent::Delivered) => (done, TcpAction::Store),
            (TcpPhase::OnCached, TcpEvent::ExchangeFailed) => TcpExchange::spec_try_addr(
                self.n_addrs,
                0,
            ),
            (TcpPhase::Connecting(i), TcpEvent::Connected) => (
                TcpExchange { n_addrs: self.n_addrs, phase: TcpPhase::OnFresh(i) },
                TcpAction::Exchange,
            ),
            (TcpPhase::OnFresh(_), TcpEvent::Delivered) => (done, TcpAction::Store),
            (TcpPhase::OnFresh(i), TcpEvent::ExchangeFailed) => TcpExchange::spec_try_addr(
                self.n_addrs,
                i + 1,
            ),
            _ => (done, TcpAction::Fail),
        }
    }

    fn try_addr(n_addrs: usize, index: usize) -> (r: (TcpExchange, TcpAction))
        ensures
            r == TcpExchange::spec_try_addr(n_addrs, index as int),
    {
        if index < n_addrs {
            (TcpExchange { n_addrs, phase: TcpPhase::Connecting(index) }, TcpAction::Connect(index))
        } else {
            (TcpExchange { n_addrs, phase: TcpPhase::Finished }, TcpAction::Fail)
        }
    }

    /// Begins an exchange with a target that resolved to `n_addrs`
    /// addresses. `cached_idle` is the time for which the pooled
    /// connection has been idle, in seconds and nanoseconds, if the slot
    /// holds one.
    pub fn begin(n_addrs: usize, cached_idle: Option<(u64, u32)>, idle_window_secs: u64) -> (r: (
        TcpExchange,
        TcpAction,
    ))
        ensures
            r == TcpExchange::spec_begin(n_addrs, cached_idle, idle_window_secs),
    {
        match cached_idle {
            Some(idle) => {
                if idle.0 < idle_window_secs {
                    return (
                        TcpExchange { n_addrs, phase: TcpPhase::OnCached },
                        TcpAction::UseCached,
                    );
                }
            },
            None => {},
        }
        TcpExchange::try_addr(n_addrs, 0)
    }

    /// Takes in what happened and says what to do next.
    pub fn step(&mut self, event: TcpEvent) -> (r: TcpAction)
        ensures
            (*final(self), r) == old(self).spec_step(event),
    {
        let n_addrs = self.n_addrs;
        let (next, action) = match (self.phase, event) {
            (TcpPhase::OnCached, TcpEvent::Delivered) => (
                TcpExchange { n_addrs, phase: TcpPhase::Finished },
                TcpAction::Store,
            ),
            (TcpPhase::OnCached, TcpEvent::ExchangeFailed) => TcpExchange::try_addr(n_addrs, 0),
            (TcpPhase::Connecting(i), TcpEvent::Connected) => (
                TcpExchange { n_addrs, phase: TcpPhase::OnFresh(i) },
                TcpAction::Exchange,
            ),
            (TcpPhase::OnFresh(_), TcpEvent::Delivered) => (
                TcpExchange { n_addrs, phase: TcpPhase::Finished },
                TcpAction::Store,
            ),
            (TcpPhase::OnFresh(i), TcpEvent::ExchangeFailed) => {
                if i < usize::MAX {
                    TcpExchange::try_addr(n_addrs, i + 1)
                } else {
                    (TcpExchange { n_addrs, phase: TcpPhase::Finished }, TcpAction::Fail)
                }
            },
            _ => (TcpExchange { n_addrs, phase: TcpPhase::Finished }, TcpAction::Fail),
        };
        *self = next;
        action
    }
}

/// What a datagram exchange waits for.
#[derive(Clone, Copy, Debug, PartialEq, Eq, Structural)]
pub enum UdpPhase {
    Binding,
    Sending,
    Receiving,
    Finished,
}

/// What happened to the step that the datagram exchange asked for.
#[derive(Debug)]
pub enum UdpEvent {
    Bound,
    BindFailed,
    Sent,
    SendFailed,
    /// A datagram arrived.
    Packet(Vec<u8>),
    /// Receiving failed or ran out of time.
    ReceiveFailed,
}

/// What the datagram exchange asks for next.
#[derive(Debug)]
pub enum UdpAction {
    /// Bind a fresh socket of the family of the address with this index.
    Bind(usize),
    /// Send the request to the address in turn.
    Send,
    /// Receive on the bound socket.
    Receive,
    /// Return this datagram.
    Deliver(Vec<u8>),
    /// Report a protocol error.
    Fail,
}

/// An event of a datagram exchange, without the bytes: a datagram counts
/// as accepted or rejected.
#[derive(Clone, Copy, Debug, PartialEq, Eq, Structural)]
pub enum UdpSignal {
    Bound,
    BindFailed,
    Sent,
    SendFailed,
    Accepted,
    Rejected,
    ReceiveFailed,
}

/// An action of a datagram exchange, without the bytes.
#[derive(Clone, Copy, Debug, PartialEq, Eq, Structural)]
pub enum UdpDirective {
    Bind(usize),
    Send,
    Receive,
    Deliver,
    Fail,
}

/// One send-receive over datagrams: the target's addresses are tried in
/// turn, each with a fresh socket and up to `max_attempts` sends.
#[derive(Clone, Copy, Debug, PartialEq, Eq, Structural)]
pub struct UdpExchange {
    pub n_addrs: usize,
    pub max_attempts: usize,
    pub expected_serial: u16,
    pub addr_index: usize,
    pub attempt: usize,
    pub phase: UdpPhase,
}

impl UdpEvent {
    /// The event without its bytes, for an exchange that awaits the serial
    /// `expected`.
    pub open spec fn signal(self, expected: u16) -> UdpSignal {
        match self {
            UdpEvent::Bound => UdpSignal::Bound,
            UdpEvent::BindFailed => UdpSignal::BindFailed,
            UdpEvent::Sent => UdpSignal::Sent,
            UdpEvent::SendFailed => UdpSignal::SendFailed,
            UdpEvent::Packet(p) => if spec_serial_matches(expected, spec_serial_of(p@)) {
                UdpSignal::Accepted
            } else {
                UdpSignal::Rejected
            },
            UdpEvent::ReceiveFailed => UdpSignal::ReceiveFailed,
        }
    }
}

impl UdpAction {
    pub open spec fn directive(self) -> UdpDirective {
        match self {
            UdpAction::Bind(i) => UdpDirective::Bind(i),
            UdpAction::Send => UdpDirective::Send,
            UdpAction::Receive => UdpDirective::Receive,
            UdpAction::Deliver(_) => UdpDirective::Deliver,
            UdpAction::Fail => UdpDirective::Fail,
        }
    }
}

impl UdpExchange {
    /// The step that turns to the address `index`, or gives up where the
    /// addresses are used up.
    pub open spec fn spec_turn_to(self, index: int) -> (UdpExchange, UdpDirective) {
        if index < self.n_addrs {
            (
                UdpExchange {
                    addr_index: index as usize,
                    attempt: 0,
                    phase: UdpPhase::Binding,
                    ..self
                },
                UdpDirective::Bind(index as usize),
            )
        } else {
            (UdpExchange { phase: UdpPhase::Finished, ..self }, UdpDirective::Fail)
        }
    }

    /// The step that makes attempt number `attempt` on the bound socket, or
    /// turns to the next address where the attempts are used up.
    pub open spec fn spec_attempt(self, attempt: int) -> (UdpExchange, UdpDirective) {
        if attempt < self.max_attempts {
            (
                UdpExchange { attempt: attempt as usize, phase: UdpPhase::Sending, ..self },
                UdpDirective::Send,
            )
        } else {
            self.spec_turn_to(self.addr_index + 1)
        }
    }

    /// How the exchange goes on. A datagram under another serial is
    /// discarded and receiving goes on. A failed send or receive uses up
    /// one attempt. A failed bind, and the last failed attempt, turn to the
    /// next address. An event that the phase does not await ends the
    /// exchange.
    pub open spec fn spec_step(self, signal: UdpSignal) -> (UdpExchange, UdpDirective) {
        match (self.phase, signal) {
            (UdpPhase::Binding, UdpSignal::Bound) => self.spec_attempt(0),
            (UdpPhase::Binding, UdpSignal::BindFailed) => self.spec_turn_to(self.addr_index + 1),
            (UdpPhase::Sending, UdpSignal::Sent) => (
                UdpExchange { phase: UdpPhase::Receiving, ..self },
                UdpDirective::Receive,
            ),
            (UdpPhase::Sending, UdpSignal::SendFailed) => self.spec_attempt(self.attempt + 1),
            (UdpPhase::Receiving, UdpSignal::Accepted) => (
                UdpExchange { phase: UdpPhase::Finished, ..self },
                UdpDirective::Deliver,
            ),
            (UdpPhase::Receiving, UdpSignal::Rejected) => (self, UdpDirective::Receive),
            (UdpPhase::Receiving, UdpSignal::ReceiveFailed) => self.spec_attempt(self.attempt + 1),
            _ => (UdpExchange { phase: UdpPhase::Finished, ..self }, UdpDirective::Fail),
        }
    }

    fn turn_to(&mut self, index: usize) -> (r: UdpAction)
        ensures
            (*final(self), r.directive()) == old(self).spec_turn_to(index as int),
    {
        if index < self.n_addrs {
            self.addr_index = index;
            self.attempt = 0;
            self.phase = UdpPhase::Binding;
            UdpAction::Bind(index)
        } else {
            self.phase = UdpPhase::Finished;
            UdpAction::Fail
        }
    }

    fn make_attempt(&mut self, attempt: usize) -> (r: UdpAction)
        requires
            old(self).addr_index < old(self).n_addrs,
        ensures
            (*final(self), r.directive()) == old(self).spec_attempt(attempt as int),
    {
        if attempt < self.max_attempts {
            self.attempt = attempt;
            self.phase = UdpPhase::Sending;
            UdpAction::Send
        } else {
            let next = self.addr_index + 1;
            self.turn_to(next)
        }
    }

    /// True if the exchange is in a state that `start` and `step` lead to.
    pub open spec fn wf(self) -> bool {
        &&& self.phase != UdpPhase::Finished ==> self.addr_index < self.n_addrs
        &&& (self.phase == UdpPhase::Sending || self.phase == UdpPhase::Receiving) ==> self.attempt
            < self.max_attempts
    }

    /// True if the exchange is in a state that `start` and `step` lead to.
    pub fn is_wf(&self) -> (r: bool)
        ensures
            r == self.wf(),
    {
        let placed = match self.phase {
            UdpPhase::Finished => true,
            _ => self.addr_index < self.n_addrs,
        };
        let counted = match self.phase {
            UdpPhase::Sending => self.attempt < self.max_attempts,
            UdpPhase::Receiving => self.attempt < self.max_attempts,
            _ => true,
        };
        placed && counted
    }

    /// Begins an exchange for the request frame `payload` with a target
    /// that resolved to `n_addrs` addresses.
    pub fn start(n_addrs: usize, max_attempts: usize, payload: &[u8]) -> (r: (
        UdpExchange,
        UdpAction,
    ))
        ensures
            r.0.wf(),
            r.0.n_addrs == n_addrs,
            r.0.max_attempts == max_attempts,
            r.0.expected_serial == spec_serial_of(payload@),
            r.0.addr_index == 0,
            r.0.attempt == 0,
            n_addrs > 0 ==> r.0.phase == UdpPhase::Binding && r.1 == UdpAction::Bind(0),
            n_addrs == 0 ==> r.0.phase == UdpPhase::Finished && r.1 == UdpAction::Fail,
    {
        let ex = UdpExchange {
            n_addrs,
            max_attempts,
            expected_serial: serial_of(payload),
            addr_index: 0,
            attempt: 0,
            phase: if n_addrs > 0 {
                UdpPhase::Binding
            } else {
                UdpPhase::Finished
            },
        };
        if n_addrs > 0 {
            (ex, UdpAction::Bind(0))
        } else {
            (ex, UdpAction::Fail)
        }
    }

    /// Takes in what happened and says what to do next. A delivered
    /// datagram is the one that the event brought.
    pub fn step(&mut self, event: UdpEvent) -> (r: UdpAction)
        requires
            old(self).wf(),
        ensures
            final(self).wf(),
            (*final(self), r.directive()) == old(self).spec_step(
                event.signal(old(self).expected_serial),
            ),
            r matches UdpAction::Deliver(d) ==> event matches UdpEvent::Packet(p) && d@ == p@,
    {
        match (self.phase, event) {
            (UdpPhase::Binding, UdpEvent::Bound) => self.make_attempt(0),
            (UdpPhase::Binding, UdpEvent::BindFailed) => {
                let next = self.addr_index + 1;
                self.turn_to(next)
            },
            (UdpPhase::Sending, UdpEvent::Sent) => {
                self.phase = UdpPhase::Receiving;
                UdpAction::Receive
            },
            (UdpPhase::Sending, UdpEvent::SendFailed) => {
                let next = self.attempt + 1;
                self.make_attempt(next)
            },
            (UdpPhase::Receiving, UdpEvent::Packet(p)) => {
                if serial_matches(self.expected_serial, serial_of(p.as_slice())) {
                    self.phase = UdpPhase::Finished;
                    UdpAction::Deliver(p)
                } else {
                    UdpAction::Receive
                }
            },
            (UdpPhase::Receiving, UdpEvent::ReceiveFailed) => {
                let next = self.attempt + 1;
                self.make_attempt(next)
            },
            _ => {
                self.phase = UdpPhase::Finished;
                UdpAction::Fail
            },
        }
    }
}

/// 2 to the power `n`.
pub open spec fn two_to(n: nat) -> nat
    decreases n,
{
    if n == 0 {
        1
    } else {
        2 * two_to((n - 1) as nat)
    }
}

/// The wait after a failed attempt, in milliseconds: the base times 2 to
/// the power of the attempts that failed before, the exponent capped at
/// 63 and the product at the largest 64-bit number.
pub open spec fn spec_backoff_ms(base: u64, attempt: usize) -> u64 {
    let exponent: nat = if attempt == 0 {
        0
    } else if attempt - 1 > 63 {
        63
    } else {
        (attempt - 1) as nat
    };
    if base * two_to(exponent) > u64::MAX {
        u64::MAX
    } else {
        (base * two_to(exponent)) as u64
    }
}

/// Computes the wait after the failed attempt number `attempt`.
pub fn backoff_ms(base: u64, attempt: usize) -> (r: u64)
    ensures
        r == spec_backoff_ms(base, attempt),
{
    let exponent: usize = if attempt == 0 {
        0
    } else if attempt - 1 > 63 {
        63
    } else {
        attempt - 1
    };
    let mut v: u64 = base;
    let mut i: usize = 0;
    assert(base * two_to(0) == base) by (nonlinear_arith)
        requires
            two_to(0) == 1,
    ;
    while i < exponent
        invariant
            i <= exponent,
            v as int == (if base * two_to(i as nat) > u64::MAX {
                u64::MAX as int
            } else {
                base * two_to(i as nat)
            }),
        decreases exponent - i,
    {
        assert(base * two_to((i + 1) as nat) == 2 * (base * two_to(i as nat))) by (nonlinear_arith)
            requires
                two_to((i + 1) as nat) == 2 * two_to(i as nat),
        ;
        if v > u64::MAX / 2 {
            v = u64::MAX;
        } else {
            v = v * 2;
        }
        i = i + 1;
    }
    v
}

/// What follows an attempt.
#[derive(Clone, Copy, Debug, PartialEq, Eq, Structural)]
pub enum RetryStep {
    /// Make the attempt with this number, counted from 1.
    Attempt(usize),
    /// Wait for so many milliseconds, then make the attempt with this
    /// number.
    WaitThenAttempt { millis: u64, attempt: usize },
    /// Report the last failure.
    GiveUp,
}

/// How often a send-receive is tried, and how long the first wait is.
#[derive(Clone, Copy, Debug, PartialEq, Eq, Structural)]
pub struct RetryPolicy {
    pub attempts: usize,
    pub base_backoff_ms: u64,
}

impl RetryPolicy {
    /// The first step: the first attempt, if any is allowed.
    pub fn start(&self) -> (r: RetryStep)
        ensures
            r == (if self.attempts >= 1 {
                RetryStep::Attempt(1)
            } else {
                RetryStep::GiveUp
            }),
    {
        if self.attempts >= 1 {
            RetryStep::Attempt(1)
        } else {
            RetryStep::GiveUp
        }
    }

    /// The step after the attempt number `attempt` has failed: a wait and
    /// the next attempt, unless it was the last.
    pub fn after_failure(&self, attempt: usize) -> (r: RetryStep)
        ensures
            r == (if attempt < self.attempts {
                RetryStep::WaitThenAttempt {
                    millis: spec_backoff_ms(self.base_backoff_ms, attempt),
                    attempt: (attempt + 1) as usize,
                }
            } else {
                RetryStep::GiveUp
            }),
    {
        if attempt < self.attempts {
            RetryStep::WaitThenAttempt {
                millis: backoff_ms(self.base_backoff_ms, attempt),
                attempt: attempt + 1,
            }
        } else {
            RetryStep::GiveUp
        }
    }
}

/// The two hexadecimal digits of a byte, in upper case.
pub open spec fn hex2(b: u8) -> Seq<char> {
    seq![crate::device::digit_char(b as int / 16), crate::device::digit_char(b as int % 16)]
}

/// Bytes as text for a log: two hexadecimal digits each, with a blank
/// between bytes.
pub open spec fn spec_hex_dump(b: Seq<u8>) -> Seq<char>
    decreases b.len(),
{
    if b.len() == 0 {
        Seq::empty()
    } else if b.len() == 1 {
        hex2(b[0])
    } else {
        spec_hex_dump(b.drop_last()) + seq![' '] + hex2(b.last())
    }
}

fn hex_char(d: u8) -> (r: char)
    requires
        d < 16,
    ensures
        r == crate::device::digit_char(d as int),
{
    if d < 10 {
        (48 + d) as char
    } else {
        (55 + d) as char
    }
}

/// Writes bytes as text for a log.
pub fn hex_dump(b: &[u8]) -> (r: String)
    ensures
        r@ == spec_hex_dump(b@),
{
    let mut out = String::new();
    let mut i: usize = 0;
    assert(b@.take(0) =~= Seq::<u8>::empty());
    while i < b.len()
        invariant
            i <= b.len(),
            out@ == spec_hex_dump(b@.take(i as int)),
        decreases b.len() - i,
    {
        let ghost before_text = out@;
        proof {
            assert(b@.take(i + 1).drop_last() =~= b@.take(i as int));
            assert(b@.take(i + 1).last() == b@[i as int]);
        }
        if i > 0 {
            out.push(' ');
        }
        out.push(hex_char(b[i] / 16));
        out.push(hex_char(b[i] % 16));
        proof {
            if i > 0 {
                assert(out@ =~= before_text + seq![' '] + hex2(b@[i as int]));
            } else {
                assert(out@ =~= hex2(b@[i as int]));
            }
        }
        i = i + 1;
    }
    assert(b@.take(i as int) =~= b@);
    out
}

} // verus!
