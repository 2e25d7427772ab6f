//! The settings that a process reads once from its environment.

use vstd::prelude::*;
use vstd::string::*;
use crate::device::{parse_bounded, spec_parse_number, NumberBase};
use crate::text::{chars_of, str_eq};

verus! {

/// The settings of the transports.
#[derive(Clone, Copy, Debug, PartialEq, Eq, Structural)]
pub struct Config {
    /// For how many seconds a pooled connection may lie idle.
    pub melsec_conn_idle_secs: u64,
    /// How often a datagram is sent before its address is given up.
    pub melsec_udp_recv_attempts: usize,
    pub melsec_dump_on_error: bool,
    pub log_mc_payloads: bool,
    /// How often a send-receive is tried.
    pub melsec_tcp_retry_attempts: usize,
    /// The wait after the first failed attempt, in milliseconds.
    pub melsec_tcp_retry_backoff_ms: u64,
}

/// The number that a setting stands for: the decimal number that its text
/// holds, where the variable is set and the number does not exceed `max`;
/// else the default.
pub open spec fn spec_number_setting(text: Option<Seq<char>>, max: u64, default: u64) -> u64 {
    match text {
        Some(t) => match spec_parse_number(t, NumberBase::Decimal) {
            Some(v) => if v <= max {
                v as u64
            } else {
                default
            },
            None => default,
        },
        None => default,
    }
}

/// The switch that a setting stands for: on where its text is `1`.
pub open spec fn spec_switch_setting(text: Option<Seq<char>>) -> bool {
    text == Some("1"@)
}

fn number_setting(text: Option<&str>, max: u64, default: u64) -> (r: u64)
    ensures
        r == spec_number_setting(text.deep_view(), max, default),
        r <= max || r == default,
{
    match text {
        Some(t) => {
            let cs = chars_of(t);
            assert(cs@.subrange(0, cs.len() as int) =~= t@);
            match parse_bounded(&cs, 0, cs.len(), NumberBase::Decimal, max) {
                Some(v) => v,
                None => default,
            }
        },
        None => default,
    }
}

fn switch_setting(text: Option<&str>) -> (r: bool)
    ensures
        r == spec_switch_setting(text.deep_view()),
{
    match text {
        Some(t) => str_eq(t, "1"),
        None => false,
    }
}

impl Config {
    /// The settings where the environment sets nothing.
    pub open spec fn spec_default() -> Config {
        Config {
            melsec_conn_idle_secs: 300,
            melsec_udp_recv_attempts: 3,
            melsec_dump_on_error: false,
            log_mc_payloads: false,
            melsec_tcp_retry_attempts: 3,
            melsec_tcp_retry_backoff_ms: 100,
        }
    }

    /// The settings that the values of the environment variables stand
    /// for. Each argument is the value of one variable, if it is set:
    /// `MELSEC_CONN_IDLE_SECS`, `MELSEC_UDP_RECV_ATTEMPTS`,
    /// `MELSEC_DUMP_ON_ERROR`, `LOG_MC_PAYLOADS`,
    /// `MELSEC_TCP_RETRY_ATTEMPTS`, `MELSEC_TCP_RETRY_BACKOFF_MS`.
    pub fn from_values(
        conn_idle_secs: Option<&str>,
        udp_recv_attempts: Option<&str>,
        dump_on_error: Option<&str>,
        log_payloads: Option<&str>,
        tcp_retry_attempts: Option<&str>,
        tcp_retry_backoff_ms: Option<&str>,
    ) -> (r: Config)
        ensures
            r.melsec_conn_idle_secs == spec_number_setting(
                conn_idle_secs.deep_view(),
                u64::MAX,
                300,
            ),
            r.melsec_udp_recv_attempts == spec_number_setting(
                udp_recv_attempts.deep_view(),
                usize::MAX as u64,
                3,
            ),
            r.melsec_dump_on_error == spec_switch_setting(dump_on_error.deep_view()),
            r.log_mc_payloads == spec_switch_setting(log_payloads.deep_view()),
            r.melsec_tcp_retry_attempts == spec_number_setting(
                tcp_retry_attempts.deep_view(),
                usize::MAX as u64,
                3,
            ),
            r.melsec_tcp_retry_backoff_ms == spec_number_setting(
                tcp_retry_backoff_ms.deep_view(),
                u64::MAX,
                100,
            ),
    {
        Config {
            melsec_conn_idle_secs: number_setting(conn_idle_secs, u64::MAX, 300),
            melsec_udp_recv_attempts: number_setting(udp_recv_attempts, usize::MAX as u64, 3)
                as usize,
            melsec_dump_on_error: switch_setting(dump_on_error),
            log_mc_payloads: switch_setting(log_payloads),
            melsec_tcp_retry_attempts: number_setting(tcp_retry_attempts, usize::MAX as u64, 3)
                as usize,
            melsec_tcp_retry_backoff_ms: number_setting(tcp_retry_backoff_ms, u64::MAX, 100),
        }
    }
}

impl Default for Config {
    fn default() -> (r: Self)
        ensures
            r == Config::spec_default(),
    {
        Config {
            melsec_conn_idle_secs: 300,
            melsec_udp_recv_attempts: 3,
            melsec_dump_on_error: false,
            log_mc_payloads: false,
            melsec_tcp_retry_attempts: 3,
            melsec_tcp_retry_backoff_ms: 100,
        }
    }
}

} // verus!
