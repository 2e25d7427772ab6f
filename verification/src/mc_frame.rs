//! Frame boundaries and header fields of both envelope dialects.

use vstd::prelude::*;
use crate::error::MelsecError;
use crate::mc_define::{le16, u16_from_le, MC_SUBHEADER_REQUEST, MC_SUBHEADER_RESPONSE};

verus! {

/// Header fields of a frame and the place of its data bytes.
#[derive(Clone, Copy, Debug, PartialEq, Eq)]
pub struct FrameParseResult {
    pub subheader: [u8; 2],
    pub access_route: [u8; 5],
    pub request_data_len: u16,
    /// Offset into the payload where the data bytes start.
    pub data_offset: usize,
    /// Number of data bytes that the length field announces.
    pub data_bytes: usize,
    pub has_end_code: bool,
    pub end_code: Option<u16>,
    /// The monitoring timer, where the layout carries one.
    pub monitor_timer: Option<u16>,
    pub serial_number: Option<u16>,
}

/// The mathematical content of a `FrameParseResult`.
pub struct FrameFields {
    pub subheader: Seq<u8>,
    pub access_route: Seq<u8>,
    pub request_data_len: int,
    pub data_offset: int,
    pub data_bytes: int,
    pub has_end_code: bool,
    pub end_code: Option<u16>,
    pub monitor_timer: Option<u16>,
    pub serial_number: Option<u16>,
}

impl View for FrameParseResult {
    type V = FrameFields;

    open spec fn view(&self) -> FrameFields {
        FrameFields {
            subheader: self.subheader@,
            access_route: self.access_route@,
            request_data_len: self.request_data_len as int,
            data_offset: self.data_offset as int,
            data_bytes: self.data_bytes as int,
            has_end_code: self.has_end_code,
            end_code: self.end_code,
            monitor_timer: self.monitor_timer,
            serial_number: self.serial_number,
        }
    }
}

/// What the head of a buffer says about the frame that it starts.
pub enum FrameBoundary {
    /// The buffer is too short to tell, or shows no known layout.
    NeedMore,
    /// An extended header with a length field under 2.
    Malformed,
    /// A header was recognised.
    Frame { frame_len: int, header_len: int, serial: Option<u16> },
}

/// True if a buffer opens with the first byte of an extended subheader and
/// is long enough to hold an extended header.
pub open spec fn looks_extended(buf: Seq<u8>) -> bool {
    buf.len() >= 15 && (buf[0] == 0x54 || buf[0] == 0xD4)
}

/// The frame boundary that the head of `buf` announces: extended where the
/// first byte is a known subheader and 15 bytes are present, else compact
/// with a subheader where 11 bytes are present and the length field at
/// offsets 7 and 8 is at least 2, else bare compact where 9 bytes are
/// present and the length field at offsets 5 and 6 is at least 2.
pub open spec fn spec_detect_frame(buf: Seq<u8>) -> FrameBoundary {
    if buf.len() < 2 {
        FrameBoundary::NeedMore
    } else if looks_extended(buf) {
        if le16(buf[11], buf[12]) < 2 {
            FrameBoundary::Malformed
        } else {
            FrameBoundary::Frame {
                frame_len: 15 + le16(buf[11], buf[12]) - 2,
                header_len: 15,
                serial: Some(le16(buf[2], buf[3]) as u16),
            }
        }
    } else if buf.len() >= 11 && le16(buf[7], buf[8]) >= 2 {
        FrameBoundary::Frame {
            frame_len: 11 + le16(buf[7], buf[8]) - 2,
            header_len: 11,
            serial: None,
        }
    } else if buf.len() >= 9 && le16(buf[5], buf[6]) >= 2 {
        FrameBoundary::Frame {
            frame_len: 9 + le16(buf[5], buf[6]) - 2,
            header_len: 9,
            serial: None,
        }
    } else {
        FrameBoundary::NeedMore
    }
}

/// Reads the head of a possibly partial buffer. Returns the total frame
/// length, the header length and the serial number where a header can be
/// identified, `None` where more bytes are needed, and an error for an
/// extended header whose length field is under 2.
pub fn detect_frame(buf: &[u8]) -> (r: Result<Option<(usize, usize, Option<u16>)>, MelsecError>)
    ensures
        match spec_detect_frame(buf@) {
            FrameBoundary::NeedMore => r == Ok::<Option<(usize, usize, Option<u16>)>, MelsecError>(
                None,
            ),
            FrameBoundary::Malformed => r is Err && r->Err_0 is Protocol,
            FrameBoundary::Frame { frame_len, header_len, serial } => r == Ok::<
                Option<(usize, usize, Option<u16>)>,
                MelsecError,
            >(Some((frame_len as usize, header_len as usize, serial))),
        },
{
    if buf.len() < 2 {
        return Ok(None);
    }
    if buf.len() >= 15 && (buf[0] == MC_SUBHEADER_REQUEST[0] || buf[0] == MC_SUBHEADER_RESPONSE[0]) {
        let data_len = u16_from_le(buf[11], buf[12]) as usize;
        if data_len < 2 {
            return Err(MelsecError::protocol("MC4E invalid data_len (must be >=2)"));
        }
        let serial = u16_from_le(buf[2], buf[3]);
        return Ok(Some((15 + (data_len - 2), 15, Some(serial))));
    }
    if buf.len() >= 11 {
        let data_len = u16_from_le(buf[7], buf[8]) as usize;
        if data_len >= 2 {
            return Ok(Some((11 + (data_len - 2), 11, None)));
        }
    }
    if buf.len() >= 9 {
        let data_len = u16_from_le(buf[5], buf[6]) as usize;
        if data_len >= 2 {
            return Ok(Some((9 + (data_len - 2), 9, None)));
        }
    }
    Ok(None)
}

/// The header fields of an extended frame.
pub open spec fn extended_fields(p: Seq<u8>) -> FrameFields
    recommends
        p.len() >= 15,
{
    FrameFields {
        subheader: p.subrange(0, 2),
        access_route: p.subrange(6, 11),
        request_data_len: le16(p[11], p[12]),
        data_offset: 15,
        data_bytes: le16(p[11], p[12]) - 2,
        has_end_code: true,
        end_code: Some(le16(p[13], p[14]) as u16),
        monitor_timer: None,
        serial_number: Some(le16(p[2], p[3]) as u16),
    }
}

/// The header fields of a compact frame that opens with a subheader. The
/// two bytes after the length field are reported as the monitoring timer.
pub open spec fn compact_fields(p: Seq<u8>) -> FrameFields
    recommends
        p.len() >= 11,
{
    FrameFields {
        subheader: p.subrange(0, 2),
        access_route: p.subrange(2, 7),
        request_data_len: le16(p[7], p[8]),
        data_offset: 11,
        data_bytes: le16(p[7], p[8]) - 2,
        has_end_code: false,
        end_code: None,
        monitor_timer: Some(le16(p[9], p[10]) as u16),
        serial_number: None,
    }
}

/// The header fields of a compact frame without a subheader. The subheader
/// reported is `0xD0 0x00`.
pub open spec fn bare_fields(p: Seq<u8>) -> FrameFields
    recommends
        p.len() >= 9,
{
    FrameFields {
        subheader: seq![0xD0u8, 0x00u8],
        access_route: p.subrange(0, 5),
        request_data_len: le16(p[5], p[6]),
        data_offset: 9,
        data_bytes: le16(p[5], p[6]) - 2,
        has_end_code: true,
        end_code: Some(le16(p[7], p[8]) as u16),
        monitor_timer: None,
        serial_number: None,
    }
}

/// The fields of a payload that shows no known layout: two bytes of
/// subheader, the rest data.
pub open spec fn raw_fields(p: Seq<u8>) -> FrameFields
    recommends
        p.len() >= 2,
{
    FrameFields {
        subheader: p.subrange(0, 2),
        access_route: seq![0u8, 0u8, 0u8, 0u8, 0u8],
        request_data_len: p.len() - 2,
        data_offset: 2,
        data_bytes: p.len() - 2,
        has_end_code: false,
        end_code: None,
        monitor_timer: None,
        serial_number: None,
    }
}

/// What a payload parses to, or `None` where it is rejected: a payload under
/// two bytes, an extended header with a length field under 2, an extended
/// frame that holds fewer data bytes than announced while its end code is
/// not success, or a payload of no known layout that is too long for the
/// length field.
pub open spec fn spec_parse_frame(p: Seq<u8>) -> Option<FrameFields> {
    if p.len() < 2 {
        None
    } else if looks_extended(p) {
        if le16(p[11], p[12]) < 2 {
            None
        } else if p.len() >= 15 + le16(p[11], p[12]) - 2 || le16(p[13], p[14]) == 0 {
            Some(extended_fields(p))
        } else {
            None
        }
    } else if p.len() >= 11 && le16(p[7], p[8]) >= 2 {
        Some(compact_fields(p))
    } else if p.len() >= 9 && le16(p[5], p[6]) >= 2 {
        Some(bare_fields(p))
    } else if p.len() - 2 <= 0xFFFF {
        Some(raw_fields(p))
    } else {
        None
    }
}

/// The data bytes of a parsed payload: those present from the data offset
/// on, at most as many as announced.
pub open spec fn spec_frame_data(p: Seq<u8>, f: FrameFields) -> Seq<u8> {
    if p.len() >= f.data_offset {
        if f.data_offset + f.data_bytes <= p.len() {
            p.subrange(f.data_offset, f.data_offset + f.data_bytes)
        } else {
            p.subrange(f.data_offset, p.len() as int)
        }
    } else {
        Seq::empty()
    }
}

/// Parses a frame into its header fields and the place of its data bytes.
pub fn parse_frame(payload: &[u8]) -> (r: Result<FrameParseResult, MelsecError>)
    ensures
        r is Ok <==> spec_parse_frame(payload@) is Some,
        r is Ok ==> r->Ok_0@ == spec_parse_frame(payload@)->0,
        r is Err ==> r->Err_0 is Protocol,
{
    if payload.len() < 2 {
        return Err(MelsecError::protocol("payload too short"));
    }
    let subheader = [payload[0], payload[1]];
    assert(subheader@ =~= payload@.subrange(0, 2));

    if payload.len() >= 15 && (payload[0] == MC_SUBHEADER_REQUEST[0] || payload[0]
        == MC_SUBHEADER_RESPONSE[0]) {
        let serial = u16_from_le(payload[2], payload[3]);
        let access_route = [payload[6], payload[7], payload[8], payload[9], payload[10]];
        assert(access_route@ =~= payload@.subrange(6, 11));
        let data_len = u16_from_le(payload[11], payload[12]);
        if data_len < 2 {
            return Err(MelsecError::protocol("MC4E invalid data_len (must be >=2)"));
        }
        let end_code = u16_from_le(payload[13], payload[14]);
        let data_bytes = (data_len - 2) as usize;
        if payload.len() >= 15 + data_bytes || end_code == 0x0000 {
            return Ok(
                FrameParseResult {
                    subheader,
                    access_route,
                    request_data_len: data_len,
                    data_offset: 15,
                    data_bytes,
                    has_end_code: true,
                    end_code: Some(end_code),
                    monitor_timer: None,
                    serial_number: Some(serial),
                },
            );
        }
        return Err(MelsecError::protocol("MC4E payload length mismatch"));
    }
    if payload.len() >= 11 {
        let data_len = u16_from_le(payload[7], payload[8]);
        if data_len >= 2 {
            let access_route = [payload[2], payload[3], payload[4], payload[5], payload[6]];
            assert(access_route@ =~= payload@.subrange(2, 7));
            let monitor = u16_from_le(payload[9], payload[10]);
            return Ok(
                FrameParseResult {
                    subheader,
                    access_route,
                    request_data_len: data_len,
                    data_offset: 11,
                    data_bytes: (data_len - 2) as usize,
                    has_end_code: false,
                    end_code: None,
                    monitor_timer: Some(monitor),
                    serial_number: None,
                },
            );
        }
    }
    if payload.len() >= 9 {
        let data_len = u16_from_le(payload[5], payload[6]);
        if data_len >= 2 {
            let access_route = [payload[0], payload[1], payload[2], payload[3], payload[4]];
            assert(access_route@ =~= payload@.subrange(0, 5));
            let end_code = u16_from_le(payload[7], payload[8]);
            let bare_subheader = [0xD0u8, 0x00u8];
            assert(bare_subheader@ =~= seq![0xD0u8, 0x00u8]);
            return Ok(
                FrameParseResult {
                    subheader: bare_subheader,
                    access_route,
                    request_data_len: data_len,
                    data_offset: 9,
                    data_bytes: (data_len - 2) as usize,
                    has_end_code: true,
                    end_code: Some(end_code),
                    monitor_timer: None,
                    serial_number: None,
                },
            );
        }
    }
    let rest = payload.len() - 2;
    if rest > 0xFFFF {
        return Err(MelsecError::protocol("data_len too large"));
    }
    let access_route = [0u8, 0u8, 0u8, 0u8, 0u8];
    assert(access_route@ =~= seq![0u8, 0u8, 0u8, 0u8, 0u8]);
    Ok(
        FrameParseResult {
            subheader,
            access_route,
            request_data_len: rest as u16,
            data_offset: 2,
            data_bytes: rest,
            has_end_code: false,
            end_code: None,
            monitor_timer: None,
            serial_number: None,
        },
    )
}

/// Copies the data bytes of a parsed payload: those present from the data
/// offset on, at most as many as announced.
pub fn frame_data(payload: &[u8], pr: &FrameParseResult) -> (r: Vec<u8>)
    ensures
        r@ == spec_frame_data(payload@, pr@),
{
    let mut out: Vec<u8> = Vec::new();
    if payload.len() < pr.data_offset {
        return out;
    }
    let avail = payload.len() - pr.data_offset;
    let n = if pr.data_bytes <= avail {
        pr.data_bytes
    } else {
        avail
    };
    let start = pr.data_offset;
    let mut i: usize = 0;
    while i < n
        invariant
            i <= n,
            start + n <= payload.len(),
            out@ == payload@.subrange(start as int, start + i),
        decreases n - i,
    {
        out.push(payload[start + i]);
        assert(out@ =~= payload@.subrange(start as int, start + i + 1));
        i = i + 1;
    }
    out
}

} // verus!
