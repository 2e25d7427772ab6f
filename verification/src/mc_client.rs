//! The client facade: what a read, a write or an echo sends, and what it
//! makes of the response. The caller performs the exchange in between.

use vstd::prelude::*;
use vstd::string::*;
use crate::command_registry::CommandSpec;
use crate::device::{digit_char, DeviceCatalog};
use crate::endpoint::{ConnectionTarget, DEFAULT_IP, DEFAULT_PORT};
use crate::error::MelsecError;
use crate::error_codes::{code_description, code_name, spec_entry_for, ErrorCatalog};
use crate::mc_define::{AccessRoute, McFrameFormat, Protocol};
use crate::mc_frame::{spec_frame_data, spec_parse_frame};
use crate::plc_series::PLCSeries;
use crate::request::{spec_serial_after, McRequest, SerialCounter};
use crate::request_builder::{all_hex, all_hex_bytes, spec_build_request};
use crate::response::McResponse;
use crate::response_parser::spec_parse_response;
use crate::text::{append_bytes, owned};
use crate::value::Value;

verus! {

/// The monitoring timer of a new client. 0 would mean no deadline.
pub const DEFAULT_MONITORING_TIMER: u16 = 5;

/// The name of a new client.
pub const DEFAULT_CLIENT_NAME: &'static str = "client";

/// The command code of the echo command.
pub const ECHO_COMMAND: u16 = 0x0619;

/// The longest echo payload.
pub const ECHO_MAX_LEN: usize = 960;

/// The settings of a client: where it talks to, and how.
#[derive(Debug)]
pub struct McClient {
    pub target: ConnectionTarget,
    pub plc_series: PLCSeries,
    pub protocol: Protocol,
    pub monitoring_timer: u16,
    pub client_name: String,
    pub mc_format: McFrameFormat,
}

/// `String::from_utf8` gives the text of bytes that are UTF-8, and fails
/// on any other bytes.
#[verifier::external_body]
fn string_from_utf8(bytes: Vec<u8>) -> (r: Option<String>)
    ensures
        r is Some <==> vstd::utf8::valid_utf8(bytes@),
        r is Some ==> r->0@ == vstd::utf8::decode_utf8(bytes@),
{
    String::from_utf8(bytes).ok()
}

/// The four hexadecimal digits of a code, in upper case.
pub open spec fn hex4(code: u16) -> Seq<char> {
    seq![
        digit_char(code as int / 4096),
        digit_char((code as int / 256) % 16),
        digit_char((code as int / 16) % 16),
        digit_char(code as int % 16),
    ]
}

/// What is appended to the message for an end code: the name and the
/// description in parentheses, as far as they are known.
pub open spec fn spec_end_code_detail(name: Seq<char>, description: Seq<char>) -> Seq<char> {
    if name.len() > 0 && description.len() > 0 {
        " ("@ + name + ": "@ + description + ")"@
    } else if name.len() > 0 {
        " ("@ + name + ")"@
    } else if description.len() > 0 {
        " ("@ + description + ")"@
    } else {
        Seq::empty()
    }
}

/// The message for an end code that reports a failure.
pub open spec fn spec_end_code_message(code: u16, name: Seq<char>, description: Seq<char>) -> Seq<
    char,
> {
    "device end code: 0x"@ + hex4(code) + spec_end_code_detail(name, description)
}

/// The text of an optional text: empty where there is none.
pub open spec fn text_or_empty(s: Option<Seq<char>>) -> Seq<char> {
    match s {
        Some(t) => t,
        None => Seq::empty(),
    }
}

fn hex_digit(d: u16) -> (r: char)
    requires
        d < 16,
    ensures
        r == digit_char(d as int),
{
    if d < 10 {
        ((48 + d) as u8) as char
    } else {
        ((55 + d) as u8) as char
    }
}

fn end_code_message(code: u16, name: &str, description: &str) -> (r: String)
    ensures
        r@ == spec_end_code_message(code, name@, description@),
{
    let mut msg = owned("device end code: 0x");
    let ghost head = msg@;
    msg.push(hex_digit(code / 4096));
    msg.push(hex_digit((code / 256) % 16));
    msg.push(hex_digit((code / 16) % 16));
    msg.push(hex_digit(code % 16));
    assert(msg@ =~= head + hex4(code));
    let has_name = name.unicode_len() > 0;
    let has_description = description.unicode_len() > 0;
    if has_name && has_description {
        msg = msg.concat(" (").concat(name).concat(": ").concat(description).concat(")");
    } else if has_name {
        msg = msg.concat(" (").concat(name).concat(")");
    } else if has_description {
        msg = msg.concat(" (").concat(description).concat(")");
    }
    assert(msg@ =~= spec_end_code_message(code, name@, description@));
    msg
}

/// The body of an echo request for a payload: the command and a
/// subcommand of 0, each low byte first, then the bytes of the payload.
/// `None` where the payload is empty, longer than 960 bytes, or holds a
/// byte that is not one of `0-9A-Fa-f`.
pub open spec fn spec_echo_body(payload: Seq<char>) -> Option<Seq<u8>> {
    let bytes = vstd::utf8::encode_utf8(payload);
    if 1 <= bytes.len() <= ECHO_MAX_LEN && all_hex(bytes) {
        Some(seq![0x19u8, 0x06u8, 0x00u8, 0x00u8] + bytes)
    } else {
        None
    }
}

/// The text that an echo response carries, where its bytes are UTF-8.
pub open spec fn spec_echo_reply(data: Seq<u8>) -> Option<Seq<char>> {
    if vstd::utf8::valid_utf8(data) {
        Some(vstd::utf8::decode_utf8(data))
    } else {
        None
    }
}

/// Builds the body of an echo request.
pub fn echo_request(payload: &str) -> (r: Result<Vec<u8>, MelsecError>)
    ensures
        match spec_echo_body(payload@) {
            Some(body) => r is Ok && r->Ok_0@ == body,
            None => r is Err && r->Err_0 is Protocol,
        },
{
    let bytes = payload.as_bytes();
    let len = bytes.len();
    if len < 1 || len > ECHO_MAX_LEN {
        return Err(MelsecError::protocol("echo payload length out of range"));
    }
    if !all_hex_bytes(bytes) {
        return Err(
            MelsecError::protocol("echo payload contains invalid characters; allowed: 0-9 A-F"),
        );
    }
    let mut body: Vec<u8> = Vec::new();
    body.push(0x19);
    body.push(0x06);
    body.push(0x00);
    body.push(0x00);
    assert(body@ =~= seq![0x19u8, 0x06u8, 0x00u8, 0x00u8]);
    append_bytes(&mut body, bytes);
    Ok(body)
}

/// Reads the text that an echo response carries.
pub fn echo_reply(data: Vec<u8>) -> (r: Result<String, MelsecError>)
    ensures
        match spec_echo_reply(data@) {
            Some(text) => r is Ok && r->Ok_0@ == text,
            None => r is Err && r->Err_0 is Protocol,
        },
{
    match string_from_utf8(data) {
        Some(s) => Ok(s),
        None => Err(MelsecError::protocol("echo response not valid UTF-8")),
    }
}

/// An accepted echo payload comes back as it went out: the body of the
/// request, without its four leading bytes, reads as the payload.
pub proof fn lemma_echo_round_trip(payload: Seq<char>)
    requires
        spec_echo_body(payload) is Some,
    ensures
        spec_echo_reply(spec_echo_body(payload)->0.skip(4)) == Some(payload),
{
    let bytes = vstd::utf8::encode_utf8(payload);
    assert(spec_echo_body(payload)->0.skip(4) =~= bytes);
    vstd::utf8::encode_utf8_valid_utf8(payload);
    vstd::utf8::encode_utf8_decode_utf8(payload);
}

/// An echo payload is accepted if and only if it holds between 1 and 960
/// bytes, each of them one of `0-9A-Fa-f`.
pub proof fn lemma_echo_accepts(payload: Seq<char>)
    ensures
        spec_echo_body(payload) is Some <==> (1 <= vstd::utf8::encode_utf8(payload).len() <= 960
            && all_hex(vstd::utf8::encode_utf8(payload))),
{
}

impl McClient {
    /// A client for the target `127.0.0.1:5000`: series R over TCP in the
    /// extended dialect, with a monitoring timer of 5.
    pub fn new() -> (r: McClient)
        ensures
            r.target.wf(),
            r.target.ip@ == DEFAULT_IP@,
            r.target.port == DEFAULT_PORT,
            r.target.access_route == AccessRoute::spec_default(),
            r.plc_series == PLCSeries::R,
            r.protocol == Protocol::Tcp,
            r.monitoring_timer == DEFAULT_MONITORING_TIMER,
            r.client_name@ == DEFAULT_CLIENT_NAME@,
            r.mc_format == McFrameFormat::MC4E,
    {
        McClient {
            target: ConnectionTarget::new(),
            plc_series: PLCSeries::R,
            protocol: Protocol::Tcp,
            monitoring_timer: DEFAULT_MONITORING_TIMER,
            client_name: owned(DEFAULT_CLIENT_NAME),
            mc_format: McFrameFormat::MC4E,
        }
    }

    pub fn with_mc_format(self, fmt: McFrameFormat) -> (r: McClient)
        ensures
            r == (McClient { mc_format: fmt, ..self }),
    {
        McClient { mc_format: fmt, ..self }
    }

    pub fn with_target(self, target: ConnectionTarget) -> (r: McClient)
        ensures
            r == (McClient { target, ..self }),
    {
        McClient { target, ..self }
    }

    pub fn with_plc_series(self, series: PLCSeries) -> (r: McClient)
        ensures
            r == (McClient { plc_series: series, ..self }),
    {
        McClient { plc_series: series, ..self }
    }

    pub fn with_protocol(self, protocol: Protocol) -> (r: McClient)
        ensures
            r == (McClient { protocol, ..self }),
    {
        McClient { protocol, ..self }
    }

    pub fn with_monitoring_timer(self, timer: u16) -> (r: McClient)
        ensures
            r == (McClient { monitoring_timer: timer, ..self }),
    {
        McClient { monitoring_timer: timer, ..self }
    }

    pub fn with_client_name(self, name: &str) -> (r: McClient)
        ensures
            r.client_name@ == name@,
            r.target == self.target,
            r.plc_series == self.plc_series,
            r.protocol == self.protocol,
            r.monitoring_timer == self.monitoring_timer,
            r.mc_format == self.mc_format,
    {
        McClient {
            target: self.target,
            plc_series: self.plc_series,
            protocol: self.protocol,
            monitoring_timer: self.monitoring_timer,
            client_name: owned(name),
            mc_format: self.mc_format,
        }
    }

    /// The deadline of one operation in seconds: the monitoring timer,
    /// and none where that is 0.
    pub fn timeout_secs(&self) -> (r: Option<u64>)
        ensures
            r == (if self.monitoring_timer > 0 {
                Some(self.monitoring_timer as u64)
            } else {
                None
            }),
    {
        if self.monitoring_timer > 0 {
            Some(self.monitoring_timer as u64)
        } else {
            None
        }
    }

    /// Turns an end code that reports a failure into a protocol error.
    /// The message holds the code and, as far as the catalog knows them,
    /// its name and its description.
    pub fn check_response_end_code(response: &McResponse, errors: &ErrorCatalog) -> (r: Result<
        (),
        MelsecError,
    >)
        ensures
            match failing_end_code(response.has_end_code, response.end_code) {
                None => r is Ok,
                Some(code) => r matches Err(MelsecError::Protocol(msg)) && msg@
                    == spec_end_code_message(
                    code,
                    text_or_empty(
                        match spec_entry_for(errors@, code) {
                            Some(e) => e.name,
                            None => None,
                        },
                    ),
                    text_or_empty(
                        match spec_entry_for(errors@, code) {
                            Some(e) => e.description,
                            None => None,
                        },
                    ),
                ),
            },
    {
        if !response.has_end_code {
            return Ok(());
        }
        let code = match response.end_code {
            Some(c) => c,
            None => {
                return Ok(());
            },
        };
        if code == 0 {
            return Ok(());
        }
        let name = match code_name(errors, code) {
            Some(s) => s,
            None => String::new(),
        };
        let description = match code_description(errors, code) {
            Some(s) => s,
            None => String::new(),
        };
        Err(MelsecError::Protocol(end_code_message(code, name.as_str(), description.as_str())))
    }

    /// Wraps the body of a request into a frame of the client's dialect,
    /// under the next serial and with the route of the target.
    pub fn frame_request(&self, body: &[u8], counter: &mut SerialCounter) -> (r: Result<
        Vec<u8>,
        MelsecError,
    >)
        ensures
            r is Ok <==> body@.len() + 2 <= 0xFFFF,
            r is Ok ==> r->Ok_0@ == spec_request_frame(
                self,
                body@,
                old(counter)@,
            ),
            r is Err ==> r->Err_0 is Protocol,
            final(counter)@ == spec_serial_after(old(counter)@),
    {
        let req = McRequest::new(counter).with_access_route(self.target.access_route);
        match req.try_with_request_data(body) {
            Ok(req) => Ok(req.build_with_format(self.mc_format)),
            Err(e) => Err(e),
        }
    }

    /// Builds the frame of a command: the body that the bundle stands for
    /// under the spec, wrapped into a frame.
    pub fn prepare(
        &self,
        spec: &CommandSpec,
        params: &Value,
        catalog: &DeviceCatalog,
        counter: &mut SerialCounter,
    ) -> (r: Result<Vec<u8>, MelsecError>)
        ensures
            match spec_build_request(spec@, params@, Some(self.plc_series), catalog@) {
                Some(body) => final(counter)@ == spec_serial_after(old(counter)@) && (
                if body.len() + 2 <= 0xFFFF {
                    r is Ok && r->Ok_0@ == spec_request_frame(
                        self,
                        body,
                        old(counter)@,
                    )
                } else {
                    r is Err && r->Err_0 is Protocol
                }),
                None => r is Err && r->Err_0 is Protocol && final(counter)@ == old(counter)@,
            },
    {
        let body = match spec.build_request(params, Some(self.plc_series), catalog) {
            Ok(b) => b,
            Err(e) => {
                return Err(e);
            },
        };
        self.frame_request(body.as_slice(), counter)
    }

    /// Reads the frame of a response: its data bytes, unless the frame is
    /// rejected or carries an end code that reports a failure.
    pub fn accept(buf: &[u8], errors: &ErrorCatalog) -> (r: Result<Vec<u8>, MelsecError>)
        ensures
            match spec_accept(buf@) {
                Some(data) => r is Ok && r->Ok_0@ == data,
                None => r is Err && r->Err_0 is Protocol,
            },
    {
        let response = match McResponse::try_new(buf) {
            Ok(r) => r,
            Err(e) => {
                return Err(e);
            },
        };
        match McClient::check_response_end_code(&response, errors) {
            Ok(()) => {},
            Err(e) => {
                return Err(e);
            },
        }
        Ok(response.data)
    }

    /// Makes structured data of the frame of a response, given the spec
    /// and the bundle that built the request.
    pub fn finish(
        spec: &CommandSpec,
        params: &Value,
        buf: &[u8],
        errors: &ErrorCatalog,
        catalog: &DeviceCatalog,
    ) -> (r: Result<Value, MelsecError>)
        ensures
            match spec_accept(buf@) {
                Some(data) => match spec_parse_response(spec@, params@, data, catalog@) {
                    Some(v) => r is Ok && r->Ok_0@ == v,
                    None => r is Err && r->Err_0 is Protocol,
                },
                None => r is Err && r->Err_0 is Protocol,
            },
    {
        let data = match McClient::accept(buf, errors) {
            Ok(d) => d,
            Err(e) => {
                return Err(e);
            },
        };
        spec.parse_response(params, data.as_slice(), catalog)
    }

    /// Builds the frame of an echo request.
    pub fn prepare_echo(&self, payload: &str, counter: &mut SerialCounter) -> (r: Result<
        Vec<u8>,
        MelsecError,
    >)
        ensures
            match spec_echo_body(payload@) {
                Some(body) => r is Ok && r->Ok_0@ == spec_request_frame(
                    self,
                    body,
                    old(counter)@,
                ) && final(counter)@ == spec_serial_after(old(counter)@),
                None => r is Err && r->Err_0 is Protocol && final(counter)@ == old(counter)@,
            },
    {
        let body = match echo_request(payload) {
            Ok(b) => b,
            Err(e) => {
                return Err(e);
            },
        };
        self.frame_request(body.as_slice(), counter)
    }

    /// Reads the text that the frame of an echo response carries.
    pub fn finish_echo(buf: &[u8], errors: &ErrorCatalog) -> (r: Result<String, MelsecError>)
        ensures
            match spec_accept(buf@) {
                Some(data) => match spec_echo_reply(data) {
                    Some(text) => r is Ok && r->Ok_0@ == text,
                    None => r is Err && r->Err_0 is Protocol,
                },
                None => r is Err && r->Err_0 is Protocol,
            },
    {
        let data = match McClient::accept(buf, errors) {
            Ok(d) => d,
            Err(e) => {
                return Err(e);
            },
        };
        echo_reply(data)
    }
}

impl Default for McClient {
    fn default() -> (r: Self)
        ensures
            r.target.wf(),
            r.target.ip@ == DEFAULT_IP@,
            r.target.port == DEFAULT_PORT,
            r.target.access_route == AccessRoute::spec_default(),
            r.plc_series == PLCSeries::R,
            r.protocol == Protocol::Tcp,
            r.monitoring_timer == DEFAULT_MONITORING_TIMER,
            r.client_name@ == DEFAULT_CLIENT_NAME@,
            r.mc_format == McFrameFormat::MC4E,
    {
        McClient::new()
    }
}

/// The end code of a response, where it reports a failure.
pub open spec fn failing_end_code(has_end_code: bool, end_code: Option<u16>) -> Option<u16> {
    match end_code {
        Some(code) => if has_end_code && code != 0 {
            Some(code)
        } else {
            None
        },
        None => None,
    }
}

/// The data bytes that the frame of a response hands on: `None` where the
/// frame is rejected or carries an end code that reports a failure.
pub open spec fn spec_accept(buf: Seq<u8>) -> Option<Seq<u8>> {
    match spec_parse_frame(buf) {
        Some(f) => if failing_end_code(f.has_end_code, f.end_code) is Some {
            None
        } else {
            Some(spec_frame_data(buf, f))
        },
        None => None,
    }
}

/// The frame that a client sends for a request body under a serial: the
/// request subheader, the route of the target, a monitoring timer of
/// `0x1000`, in the dialect of the client.
pub open spec fn spec_request_frame(client: &McClient, body: Seq<u8>, serial: u16) -> Seq<u8> {
    let head = seq![0x54u8, 0x00u8];
    let route = client.target.access_route.spec_bytes();
    let len = seq![((body.len() + 2) % 256) as u8, ((body.len() + 2) / 256) as u8];
    match client.mc_format {
        McFrameFormat::MC4E => head + seq![(serial % 256) as u8, (serial / 256) as u8, 0u8, 0u8]
            + route + len + seq![0x10u8, 0x00u8] + body,
        McFrameFormat::MC3E => head + route + len + seq![0x00u8, 0x10u8] + body,
    }
}

} // verus!
