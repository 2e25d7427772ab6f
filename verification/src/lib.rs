//! Client-side core of the MELSEC Communication (MC) protocol, which reads
//! and writes the memory devices of programmable logic controllers.
//!
//! The library holds what can be decided without touching the outside
//! world, and every function of it is verified against its contract. Two
//! facts are taken on trust from the documentation of the standard
//! library: what `String::push` and `String::from_utf8` do.
//!
//! - `mc_frame`, `request` and `response` assemble and dissect the frames
//!   of both dialects;
//! - `command_registry`, `schema_check`, `request_builder`,
//!   `response_parser` and `fixture` are the codec that command schemas
//!   drive;
//! - `device`, `symbol` and `device_registry` are the device model, with
//!   addresses such as `D100`;
//! - `error_codes` knows the end codes;
//! - `transport` takes the decisions of the TCP and UDP transports, and
//!   `mc_client`, `operations`, `params` and `words` those of the client;
//! - `value` is the data of parameter bundles and parsed responses.
//!
//! State that a process shares lives in values that the caller owns: a
//! `DeviceCatalog`, a `CommandRegistry` in a `OnceSlot`, an `ErrorCatalog`,
//! a `SerialCounter`. Reading documents, sockets and clocks is left to the
//! caller, who reports what happened to the state machines of `transport`.

pub mod builtin;
pub mod command_registry;
pub mod commands;
pub mod config;
pub mod device;
pub mod device_registry;
pub mod endpoint;
pub mod error;
pub mod error_codes;
pub mod fixture;
pub mod mc_client;
pub mod mc_define;
pub mod mc_frame;
pub mod once;
pub mod operations;
pub mod params;
pub mod plc_series;
pub mod request;
pub mod request_builder;
pub mod response;
pub mod response_parser;
pub mod schema_check;
pub mod symbol;
pub mod text;
pub mod toml_helpers;
pub mod transport;
pub mod value;
pub mod words;

pub use builtin::init_defaults;
pub use endpoint::ConnectionTarget;
pub use error::MelsecError;
