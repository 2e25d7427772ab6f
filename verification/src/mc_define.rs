//! Constants and small value types shared by all frame dialects.

use vstd::prelude::*;

verus! {

/// Length of the extended frame header.
pub const MC_HEADER_SIZE: usize = 15;

/// Subheader that opens a request.
pub const MC_SUBHEADER_REQUEST: [u8; 2] = [0x54, 0x00];

/// Subheader that opens a response.
pub const MC_SUBHEADER_RESPONSE: [u8; 2] = [0xD4, 0x00];

/// The access route of a directly connected controller.
pub const MC_ACCESS_PATH_DEFAULT: [u8; 5] = [0x00, 0xFF, 0xFF, 0x03, 0x00];

/// End code that reports success.
pub const MC_END_OK: u16 = 0x0000;

/// Returns a short name for a known end code, or `None` if it is unknown.
pub fn end_code_name(code: u16) -> (r: Option<&'static str>)
    ensures
        r is Some <==> code == MC_END_OK,
        r is Some ==> r->0@ == "OK"@,
{
    if code == MC_END_OK {
        Some("OK")
    } else {
        None
    }
}

/// The two envelope dialects. The extended one carries a serial number.
#[derive(Clone, Copy, Debug, PartialEq, Eq, Structural)]
pub enum McFrameFormat {
    MC4E,
    MC3E,
}

impl Default for McFrameFormat {
    fn default() -> (r: Self)
        ensures
            r == McFrameFormat::MC4E,
    {
        McFrameFormat::MC4E
    }
}

/// The transport that carries the frames.
#[derive(Clone, Copy, Debug, PartialEq, Eq, Structural)]
pub enum Protocol {
    Tcp,
    Udp,
}

/// The value of two bytes read low byte first.
pub open spec fn le16(lo: u8, hi: u8) -> int {
    lo as int + 256 * (hi as int)
}

/// Low byte of a 16-bit value.
pub fn low_byte(v: u16) -> (r: u8)
    ensures
        r as int == v as int % 256,
{
    (v % 256) as u8
}

/// High byte of a 16-bit value.
pub fn high_byte(v: u16) -> (r: u8)
    ensures
        r as int == v as int / 256,
{
    (v / 256) as u8
}

/// Joins two bytes, low byte first, into a 16-bit value.
pub fn u16_from_le(lo: u8, hi: u8) -> (r: u16)
    ensures
        r as int == le16(lo, hi),
{
    (lo as u16) + 256 * (hi as u16)
}

/// Five bytes that name the target within a controller network.
#[derive(Clone, Copy, Debug, PartialEq, Eq, Structural)]
pub struct AccessRoute {
    pub network_number: u8,
    pub pc_number: u8,
    pub io_number: u16,
    pub station_number: u8,
}

impl AccessRoute {
    /// The route as it stands on the wire: network, PC, I/O number low byte
    /// first, station.
    pub open spec fn spec_bytes(self) -> Seq<u8> {
        seq![
            self.network_number,
            self.pc_number,
            (self.io_number % 256) as u8,
            (self.io_number / 256) as u8,
            self.station_number,
        ]
    }

    /// The route that five wire bytes stand for.
    pub open spec fn spec_from_bytes(b: Seq<u8>) -> AccessRoute
        recommends
            b.len() == 5,
    {
        AccessRoute {
            network_number: b[0],
            pc_number: b[1],
            io_number: le16(b[2], b[3]) as u16,
            station_number: b[4],
        }
    }

    /// The route of a directly connected controller.
    pub open spec fn spec_default() -> AccessRoute {
        AccessRoute {
            network_number: 0x00,
            pc_number: 0xFF,
            io_number: 0x03FF,
            station_number: 0x00,
        }
    }

    pub fn to_bytes(&self) -> (r: [u8; 5])
        ensures
            r@ == self.spec_bytes(),
    {
        let r = [
            self.network_number,
            self.pc_number,
            low_byte(self.io_number),
            high_byte(self.io_number),
            self.station_number,
        ];
        assert(r@ =~= self.spec_bytes());
        r
    }

    /// Reads a route from its five wire bytes.
    pub fn from_bytes(b: &[u8; 5]) -> (r: AccessRoute)
        ensures
            r == AccessRoute::spec_from_bytes(b@),
            r.spec_bytes() == b@,
    {
        let r = AccessRoute {
            network_number: b[0],
            pc_number: b[1],
            io_number: u16_from_le(b[2], b[3]),
            station_number: b[4],
        };
        assert(r.spec_bytes() =~= b@);
        r
    }

    pub fn with_network_number(self, network_number: u8) -> (r: AccessRoute)
        ensures
            r == (AccessRoute { network_number, ..self }),
    {
        AccessRoute { network_number, ..self }
    }

    pub fn with_pc_number(self, pc_number: u8) -> (r: AccessRoute)
        ensures
            r == (AccessRoute { pc_number, ..self }),
    {
        AccessRoute { pc_number, ..self }
    }

    pub fn with_io_number(self, io_number: u16) -> (r: AccessRoute)
        ensures
            r == (AccessRoute { io_number, ..self }),
    {
        AccessRoute { io_number, ..self }
    }

    pub fn with_station_number(self, station_number: u8) -> (r: AccessRoute)
        ensures
            r == (AccessRoute { station_number, ..self }),
    {
        AccessRoute { station_number, ..self }
    }
}

impl Default for AccessRoute {
    fn default() -> (r: Self)
        ensures
            r == AccessRoute::spec_default(),
            r.spec_bytes() == MC_ACCESS_PATH_DEFAULT@,
    {
        let r = AccessRoute {
            network_number: 0x00,
            pc_number: 0xFF,
            io_number: 0x03FF,
            station_number: 0x00,
        };
        assert(r.spec_bytes() =~= MC_ACCESS_PATH_DEFAULT@);
        r
    }
}

} // verus!
