//! The endpoint of a controller.

use vstd::prelude::*;
use vstd::string::*;
use crate::device::{digit_char, format_number, NumberBase};
use crate::mc_define::AccessRoute;
use crate::text::owned;

verus! {

/// The host that a new target points to.
pub const DEFAULT_IP: &'static str = "127.0.0.1";

/// The port that a new target points to.
pub const DEFAULT_PORT: u16 = 5000;

/// A controller to talk to: its address and its access route.
#[derive(Debug)]
pub struct ConnectionTarget {
    pub ip: String,
    pub port: u16,
    /// Host and port as `host:port`.
    pub addr: String,
    pub access_route: AccessRoute,
}

/// Host and port as one text: the host, a colon, the port in decimal.
pub open spec fn spec_addr(ip: Seq<char>, port: u16) -> Seq<char> {
    ip + ":"@ + format_number(port as nat, NumberBase::Decimal)
}

/// Appends a number in decimal.
pub fn push_decimal(out: &mut String, n: u64)
    ensures
        final(out)@ == old(out)@ + format_number(n as nat, NumberBase::Decimal),
    decreases n,
{
    if n >= 10 {
        push_decimal(out, n / 10);
    }
    let d = (n % 10) as u8;
    let ghost before_push = out@;
    out.push((48 + d) as char);
    proof {
        assert(((48 + d) as char) == digit_char(d as int));
        if n >= 10 {
            assert(out@ =~= old(out)@ + format_number((n / 10) as nat, NumberBase::Decimal).push(
                digit_char(d as int),
            ));
        } else {
            assert(out@ =~= old(out)@ + seq![digit_char(d as int)]);
        }
    }
}

/// Host and port as one text.
pub fn addr_of(ip: &str, port: u16) -> (r: String)
    ensures
        r@ == spec_addr(ip@, port),
{
    let mut out = owned(ip).concat(":");
    push_decimal(&mut out, port as u64);
    out
}

impl ConnectionTarget {
    /// True if the address is host and port as one text.
    pub open spec fn wf(self) -> bool {
        self.addr@ == spec_addr(self.ip@, self.port)
    }

    /// The target `127.0.0.1:5000` with the default access route.
    pub fn new() -> (r: ConnectionTarget)
        ensures
            r.wf(),
            r.ip@ == DEFAULT_IP@,
            r.port == DEFAULT_PORT,
            r.access_route == AccessRoute::spec_default(),
    {
        ConnectionTarget {
            ip: owned(DEFAULT_IP),
            port: DEFAULT_PORT,
            addr: addr_of(DEFAULT_IP, DEFAULT_PORT),
            access_route: AccessRoute::default(),
        }
    }

    pub fn with_access_route(self, route: AccessRoute) -> (r: ConnectionTarget)
        ensures
            r == (ConnectionTarget { access_route: route, ..self }),
    {
        ConnectionTarget { access_route: route, ..self }
    }

    /// Sets the host and writes the address anew.
    pub fn with_ip(self, ip: &str) -> (r: ConnectionTarget)
        ensures
            r.wf(),
            r.ip@ == ip@,
            r.port == self.port,
            r.access_route == self.access_route,
    {
        ConnectionTarget {
            ip: owned(ip),
            port: self.port,
            addr: addr_of(ip, self.port),
            access_route: self.access_route,
        }
    }

    /// Sets the port and writes the address anew.
    pub fn with_port(self, port: u16) -> (r: ConnectionTarget)
        ensures
            r.wf(),
            r.ip@ == self.ip@,
            r.port == port,
            r.access_route == self.access_route,
    {
        let addr = addr_of(self.ip.as_str(), port);
        ConnectionTarget { ip: self.ip, port, addr, access_route: self.access_route }
    }

    pub fn build(self) -> (r: ConnectionTarget)
        ensures
            r == self,
    {
        self
    }

    /// A target with the given host and port and the default access
    /// route.
    pub fn direct(ip: &str, port: u16) -> (r: ConnectionTarget)
        ensures
            r.wf(),
            r.ip@ == ip@,
            r.port == port,
            r.access_route == AccessRoute::spec_default(),
    {
        ConnectionTarget::new().with_ip(ip).with_port(port).with_access_route(
            AccessRoute::default(),
        )
    }

    /// A copy of the target.
    pub fn duplicate(&self) -> (r: ConnectionTarget)
        ensures
            r.ip@ == self.ip@,
            r.port == self.port,
            r.addr@ == self.addr@,
            r.access_route == self.access_route,
    {
        ConnectionTarget {
            ip: self.ip.clone(),
            port: self.port,
            addr: self.addr.clone(),
            access_route: self.access_route,
        }
    }
}

impl Default for ConnectionTarget {
    fn default() -> (r: Self)
        ensures
            r.wf(),
            r.ip@ == DEFAULT_IP@,
            r.port == DEFAULT_PORT,
            r.access_route == AccessRoute::spec_default(),
    {
        ConnectionTarget::new()
    }
}

} // verus!
