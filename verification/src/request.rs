//! Requests: their serial numbers and their assembly into frames.

use vstd::prelude::*;
use crate::error::MelsecError;
use crate::mc_define::{
    high_byte, low_byte, AccessRoute, McFrameFormat, MC_SUBHEADER_REQUEST,
};
use crate::mc_define::le16;
use crate::mc_frame::{
    frame_data, parse_frame, spec_detect_frame, spec_frame_data, spec_parse_frame, FrameBoundary,
};

verus! {

/// The serial that follows `v`: one more, and 1 after `0xFFFF`. It is never 0.
pub open spec fn spec_serial_after(v: u16) -> u16 {
    if v == 0xFFFF {
        1
    } else {
        (v + 1) as u16
    }
}

/// The serial of the request number `k` (from 0) that a counter hands out
/// whose next serial is `start`.
pub open spec fn serial_at(start: u16, k: nat) -> u16
    decreases k,
{
    if k == 0 {
        start
    } else {
        spec_serial_after(serial_at(start, (k - 1) as nat))
    }
}

/// Computes the serial that follows `v`.
pub fn serial_after(v: u16) -> (r: u16)
    ensures
        r == spec_serial_after(v),
        r != 0,
{
    if v == 0xFFFF {
        1
    } else {
        v + 1
    }
}

/// The source of serial numbers. It starts at 1 and goes from `0xFFFF`
/// back to 1; it never hands out 0.
#[derive(Debug)]
pub struct SerialCounter {
    next: u16,
}

impl View for SerialCounter {
    type V = u16;

    /// The serial that the counter hands out next.
    closed spec fn view(&self) -> u16 {
        self.next
    }
}

impl SerialCounter {
    #[verifier::type_invariant]
    spec fn inv(self) -> bool {
        self.next != 0
    }

    /// A counter whose next serial is 1.
    pub fn new() -> (r: SerialCounter)
        ensures
            r@ == 1,
    {
        SerialCounter { next: 1 }
    }

    /// The serial that the counter hands out next.
    pub fn peek(&self) -> (r: u16)
        ensures
            r == self@,
            r != 0,
    {
        proof {
            use_type_invariant(self);
        }
        self.next
    }
}

/// Draws the next serial from the counter.
pub fn next_serial(counter: &mut SerialCounter) -> (r: u16)
    ensures
        r == old(counter)@,
        r != 0,
        final(counter)@ == spec_serial_after(r),
{
    proof {
        use_type_invariant(&*counter);
    }
    let s = counter.next;
    counter.next = serial_after(s);
    s
}

/// A request before it is framed.
#[derive(Debug)]
pub struct McRequest {
    pub subheader: [u8; 2],
    pub access_route: AccessRoute,
    pub request_data_len: u16,
    /// In units of 250 ms.
    pub monitoring_timer: u16,
    pub request_data: Vec<u8>,
    pub serial_number: u16,
}

impl McRequest {
    /// True if the length field counts the body and the two bytes of the
    /// monitoring timer.
    pub open spec fn wf(self) -> bool {
        self.request_data_len as int == self.request_data@.len() + 2
    }

    /// The bytes of the frame in the given dialect. The monitoring timer
    /// stands high byte first in the extended dialect and low byte first in
    /// the compact one.
    pub open spec fn spec_frame(self, format: McFrameFormat) -> Seq<u8> {
        match format {
            McFrameFormat::MC4E => self.subheader@ + seq![
                (self.serial_number % 256) as u8,
                (self.serial_number / 256) as u8,
                0u8,
                0u8,
            ] + self.access_route.spec_bytes() + seq![
                (self.request_data_len % 256) as u8,
                (self.request_data_len / 256) as u8,
                (self.monitoring_timer / 256) as u8,
                (self.monitoring_timer % 256) as u8,
            ] + self.request_data@,
            McFrameFormat::MC3E => self.subheader@ + self.access_route.spec_bytes() + seq![
                (self.request_data_len % 256) as u8,
                (self.request_data_len / 256) as u8,
                (self.monitoring_timer % 256) as u8,
                (self.monitoring_timer / 256) as u8,
            ] + self.request_data@,
        }
    }

    /// A request with an empty body, the default route, a monitoring timer
    /// of `0x1000`, and the next serial of the counter.
    pub fn new(counter: &mut SerialCounter) -> (r: McRequest)
        ensures
            r.subheader@ == MC_SUBHEADER_REQUEST@,
            r.access_route == AccessRoute::spec_default(),
            r.wf(),
            r.monitoring_timer == 0x1000,
            r.request_data@.len() == 0,
            r.serial_number == old(counter)@,
            r.serial_number != 0,
            final(counter)@ == spec_serial_after(old(counter)@),
    {
        McRequest {
            subheader: MC_SUBHEADER_REQUEST,
            access_route: AccessRoute::default(),
            request_data_len: 2,
            monitoring_timer: 0x1000,
            request_data: Vec::new(),
            serial_number: next_serial(counter),
        }
    }

    pub fn with_subheader(self, subheader: [u8; 2]) -> (r: McRequest)
        ensures
            r == (McRequest { subheader, ..self }),
    {
        McRequest { subheader, ..self }
    }

    pub fn with_access_route(self, access_route: AccessRoute) -> (r: McRequest)
        ensures
            r == (McRequest { access_route, ..self }),
    {
        McRequest { access_route, ..self }
    }

    /// Sets the body and the length field. Fails where the body with the
    /// two bytes of the timer does not fit the 16-bit length field.
    pub fn try_with_request_data(self, request_data: &[u8]) -> (r: Result<McRequest, MelsecError>)
        ensures
            r is Ok <==> request_data@.len() + 2 <= 0xFFFF,
            r is Ok ==> {
                &&& r->Ok_0.wf()
                &&& r->Ok_0.request_data@ == request_data@
                &&& r->Ok_0.subheader == self.subheader
                &&& r->Ok_0.access_route == self.access_route
                &&& r->Ok_0.monitoring_timer == self.monitoring_timer
                &&& r->Ok_0.serial_number == self.serial_number
            },
            r is Err ==> r->Err_0 is Protocol,
    {
        if request_data.len() > 0xFFFF - 2 {
            return Err(MelsecError::protocol("request_data too large to fit into u16"));
        }
        let len = (request_data.len() + 2) as u16;
        let mut data: Vec<u8> = Vec::new();
        let mut i: usize = 0;
        while i < request_data.len()
            invariant
                i <= request_data.len(),
                data@ == request_data@.subrange(0, i as int),
            decreases request_data.len() - i,
        {
            data.push(request_data[i]);
            assert(data@ =~= request_data@.subrange(0, i + 1));
            i = i + 1;
        }
        assert(data@ =~= request_data@);
        Ok(
            McRequest {
                subheader: self.subheader,
                access_route: self.access_route,
                request_data_len: len,
                monitoring_timer: self.monitoring_timer,
                request_data: data,
                serial_number: self.serial_number,
            },
        )
    }

    pub fn with_serial_number(self, serial_number: u16) -> (r: McRequest)
        ensures
            r == (McRequest { serial_number, ..self }),
    {
        McRequest { serial_number, ..self }
    }

    pub fn with_monitoring_timer(self, monitoring_timer: u16) -> (r: McRequest)
        ensures
            r == (McRequest { monitoring_timer, ..self }),
    {
        McRequest { monitoring_timer, ..self }
    }

    /// The frame in the extended dialect.
    pub fn build(self) -> (r: Vec<u8>)
        ensures
            r@ == self.spec_frame(McFrameFormat::MC4E),
    {
        self.build_with_format(McFrameFormat::MC4E)
    }

    /// The frame in the chosen dialect.
    pub fn build_with_format(self, format: McFrameFormat) -> (r: Vec<u8>)
        ensures
            r@ == self.spec_frame(format),
    {
        McRequest::build_mc_payload_with_format(&self, format)
    }

    /// Assembles the frame of a request in the chosen dialect.
    pub fn build_mc_payload_with_format(request: &McRequest, format: McFrameFormat) -> (r: Vec<u8>)
        ensures
            r@ == request.spec_frame(format),
    {
        let mut payload: Vec<u8> = Vec::new();
        payload.push(request.subheader[0]);
        payload.push(request.subheader[1]);
        match format {
            McFrameFormat::MC4E => {
                payload.push(low_byte(request.serial_number));
                payload.push(high_byte(request.serial_number));
                payload.push(0u8);
                payload.push(0u8);
            },
            McFrameFormat::MC3E => {},
        }
        let route = request.access_route.to_bytes();
        payload.push(route[0]);
        payload.push(route[1]);
        payload.push(route[2]);
        payload.push(route[3]);
        payload.push(route[4]);
        payload.push(low_byte(request.request_data_len));
        payload.push(high_byte(request.request_data_len));
        match format {
            McFrameFormat::MC4E => {
                payload.push(high_byte(request.monitoring_timer));
                payload.push(low_byte(request.monitoring_timer));
            },
            McFrameFormat::MC3E => {
                payload.push(low_byte(request.monitoring_timer));
                payload.push(high_byte(request.monitoring_timer));
            },
        }
        let ghost head = payload@;
        assert(head + request.request_data@ =~= request.spec_frame(format));
        let mut i: usize = 0;
        while i < request.request_data.len()
            invariant
                i <= request.request_data.len(),
                payload@ == head + request.request_data@.subrange(0, i as int),
            decreases request.request_data.len() - i,
        {
            payload.push(request.request_data[i]);
            assert(payload@ =~= head + request.request_data@.subrange(0, i + 1));
            i = i + 1;
        }
        assert(request.request_data@.subrange(0, i as int) =~= request.request_data@);
        payload
    }

    /// Reads a request back from the bytes of a frame. A frame without a
    /// monitoring timer gives `0x1000`, one without a serial gives 0.
    pub fn try_from_payload(payload: &[u8]) -> (r: Result<McRequest, MelsecError>)
        ensures
            r is Ok <==> spec_parse_frame(payload@) is Some,
            r is Ok ==> ({
                let f = spec_parse_frame(payload@)->0;
                let q = r->Ok_0;
                &&& q.subheader@ == f.subheader
                &&& q.access_route == AccessRoute::spec_from_bytes(f.access_route)
                &&& q.request_data_len as int == f.request_data_len
                &&& q.monitoring_timer == (match f.monitor_timer {
                    Some(t) => t,
                    None => 0x1000u16,
                })
                &&& q.request_data@ == spec_frame_data(payload@, f)
                &&& q.serial_number == (match f.serial_number {
                    Some(s) => s,
                    None => 0u16,
                })
            }),
            r is Err ==> r->Err_0 is Protocol,
    {
        let pr = match parse_frame(payload) {
            Ok(pr) => pr,
            Err(e) => {
                return Err(e);
            },
        };
        let data = frame_data(payload, &pr);
        let monitoring_timer = match pr.monitor_timer {
            Some(t) => t,
            None => 0x1000,
        };
        let serial_number = match pr.serial_number {
            Some(s) => s,
            None => 0,
        };
        Ok(
            McRequest {
                subheader: pr.subheader,
                access_route: AccessRoute::from_bytes(&pr.access_route),
                request_data_len: pr.request_data_len,
                monitoring_timer,
                request_data: data,
                serial_number,
            },
        )
    }
}

/// The serial of request number `k` in closed form.
proof fn lemma_serial_closed_form(start: u16, k: nat)
    requires
        start != 0,
    ensures
        serial_at(start, k) as int == (start - 1 + k) % 65535 + 1,
    decreases k,
{
    if k > 0 {
        lemma_serial_closed_form(start, (k - 1) as nat);
    }
}

/// No serial is 0, and among up to 65535 requests in a row, whatever
/// serial the counter hands out first, no two get the same serial.
pub proof fn lemma_serials_distinct(start: u16, i: nat, j: nat)
    requires
        start != 0,
        i < j,
        j - i < 65535,
    ensures
        serial_at(start, i) != 0,
        serial_at(start, j) != 0,
        serial_at(start, i) != serial_at(start, j),
{
    lemma_serial_closed_form(start, i);
    lemma_serial_closed_form(start, j);
}

/// The frame of a request, split into its header bytes and its body.
proof fn lemma_frame_layout(req: McRequest, format: McFrameFormat)
    ensures
        format == McFrameFormat::MC4E ==> {
            let f = req.spec_frame(format);
            &&& f.len() == 15 + req.request_data@.len()
            &&& f[0] == req.subheader@[0]
            &&& f[2] == (req.serial_number % 256) as u8
            &&& f[3] == (req.serial_number / 256) as u8
            &&& f[5] == 0
            &&& f[6] == req.access_route.network_number
            &&& f[7] == req.access_route.pc_number
            &&& f[8] == (req.access_route.io_number % 256) as u8
            &&& f[11] == (req.request_data_len % 256) as u8
            &&& f[12] == (req.request_data_len / 256) as u8
            &&& f.subrange(15, f.len() as int) == req.request_data@
        },
        format == McFrameFormat::MC3E ==> {
            let f = req.spec_frame(format);
            &&& f.len() == 11 + req.request_data@.len()
            &&& f[0] == req.subheader@[0]
            &&& f[7] == (req.request_data_len % 256) as u8
            &&& f[8] == (req.request_data_len / 256) as u8
            &&& f.subrange(11, f.len() as int) == req.request_data@
        },
{
    let f = req.spec_frame(format);
    assert(req.subheader@.len() == 2);
    match format {
        McFrameFormat::MC4E => {
            assert(f.subrange(15, f.len() as int) =~= req.request_data@);
        },
        McFrameFormat::MC3E => {
            assert(f.subrange(11, f.len() as int) =~= req.request_data@);
        },
    }
}

/// In the frame of a well-formed request the length field holds the length
/// of the body plus 2, and the body follows a header of 15 bytes in the
/// extended dialect and of 11 bytes in the compact one.
pub proof fn lemma_length_field(req: McRequest, format: McFrameFormat)
    requires
        req.wf(),
    ensures
        ({
            let f = req.spec_frame(format);
            let at: int = if format == McFrameFormat::MC4E {
                11
            } else {
                7
            };
            &&& f.len() == at + 4 + req.request_data@.len()
            &&& le16(f[at], f[at + 1]) == req.request_data@.len() + 2
            &&& f.subrange(at + 4, f.len() as int) == req.request_data@
        }),
{
    lemma_frame_layout(req, format);
}

/// True if the head of the frame of `req` cannot be taken for another
/// layout than its own, or is taken for one that happens to announce the
/// same length. An extended frame is safe where it opens with `0x54` or
/// `0xD4`. A compact frame is safe where it does not open with one of these,
/// or where its body is under 4 bytes.
pub open spec fn announces_own_length(req: McRequest, format: McFrameFormat) -> bool {
    let n = req.request_data@.len() as int;
    let extended_opening = req.subheader@[0] == 0x54 || req.subheader@[0] == 0xD4;
    let route = req.access_route;
    match format {
        McFrameFormat::MC4E => {
            ||| extended_opening
            ||| le16(route.pc_number, (route.io_number % 256) as u8) == n + 6
            ||| (le16(route.pc_number, (route.io_number % 256) as u8) < 2 && 256
                * route.network_number == n + 8)
        },
        McFrameFormat::MC3E => {
            ||| !extended_opening
            ||| n < 4
            ||| le16(req.request_data@[0], req.request_data@[1]) == n - 2
        },
    }
}

/// The boundary detector finds, at the head of the frame of a well-formed
/// request, a frame of exactly the length of that frame, if and only if the
/// frame announces its own length.
pub proof fn lemma_detect_built_frame(req: McRequest, format: McFrameFormat)
    requires
        req.wf(),
    ensures
        announces_own_length(req, format) <==> (spec_detect_frame(req.spec_frame(format)) matches FrameBoundary::Frame {
            frame_len,
            ..
        } && frame_len == req.spec_frame(format).len()),
        (format == McFrameFormat::MC4E && (req.subheader@[0] == 0x54 || req.subheader@[0] == 0xD4))
            ==> spec_detect_frame(req.spec_frame(format)) == (FrameBoundary::Frame {
            frame_len: req.spec_frame(format).len() as int,
            header_len: 15,
            serial: Some(req.serial_number),
        }),
        (format == McFrameFormat::MC3E && !(req.subheader@[0] == 0x54 || req.subheader@[0] == 0xD4))
            ==> spec_detect_frame(req.spec_frame(format)) == (FrameBoundary::Frame {
            frame_len: req.spec_frame(format).len() as int,
            header_len: 11,
            serial: None,
        }),
{
    lemma_frame_layout(req, format);
    let f = req.spec_frame(format);
    if format == McFrameFormat::MC3E && req.request_data@.len() >= 4 {
        assert(f[11] == f.subrange(11, f.len() as int)[0]);
        assert(f[12] == f.subrange(11, f.len() as int)[1]);
    }
}

} // verus!
