//! Responses as they come off the wire.

use vstd::prelude::*;
use crate::error::MelsecError;
use crate::mc_frame::{frame_data, parse_frame, spec_frame_data, spec_parse_frame};

verus! {

/// The header fields and the data bytes of a response.
#[derive(Debug)]
pub struct McResponse {
    pub subheader: [u8; 2],
    pub access_route: [u8; 5],
    pub request_data_len: u16,
    pub data: Vec<u8>,
    pub end_code: Option<u16>,
    pub has_end_code: bool,
    pub serial_number: Option<u16>,
}

impl McResponse {
    /// Parses the bytes of a frame into a response.
    pub fn try_new(payload: &[u8]) -> (r: Result<McResponse, MelsecError>)
        ensures
            parsed_as(payload@, r),
    {
        parse_mc_payload(payload)
    }

    /// True unless the response carries an end code other than 0.
    pub fn is_success(&self) -> (r: bool)
        ensures
            r == (self.end_code is None || self.end_code == Some(0u16)),
    {
        match self.end_code {
            Some(code) => code == 0,
            None => true,
        }
    }
}

/// True if `r` is what the payload `p` parses to as a response: the header
/// fields of the frame and its data bytes, or a protocol error where the
/// frame is rejected.
pub open spec fn parsed_as(p: Seq<u8>, r: Result<McResponse, MelsecError>) -> bool {
    match spec_parse_frame(p) {
        Some(f) => {
            &&& r is Ok
            &&& r->Ok_0.subheader@ == f.subheader
            &&& r->Ok_0.access_route@ == f.access_route
            &&& r->Ok_0.request_data_len as int == f.request_data_len
            &&& r->Ok_0.data@ == spec_frame_data(p, f)
            &&& r->Ok_0.end_code == f.end_code
            &&& r->Ok_0.has_end_code == f.has_end_code
            &&& r->Ok_0.serial_number == f.serial_number
        },
        None => r is Err && r->Err_0 is Protocol,
    }
}

/// Parses the bytes of a frame of either dialect into a response.
pub fn parse_mc_payload(payload: &[u8]) -> (r: Result<McResponse, MelsecError>)
    ensures
        parsed_as(payload@, r),
{
    let pr = match parse_frame(payload) {
        Ok(pr) => pr,
        Err(e) => {
            return Err(e);
        },
    };
    let data = frame_data(payload, &pr);
    Ok(
        McResponse {
            subheader: pr.subheader,
            access_route: pr.access_route,
            request_data_len: pr.request_data_len,
            data,
            end_code: pr.end_code,
            has_end_code: pr.has_end_code,
            serial_number: pr.serial_number,
        },
    )
}

} // verus!
