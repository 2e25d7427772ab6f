//! The read and write operations of the client, each as a plan of what to
//! send and a reading of what came back.

use vstd::prelude::*;
use vstd::string::*;
use crate::command_registry::{index_of_id, CommandRegistry};
use crate::commands::Command;
use crate::device::{DeviceCatalog, DeviceView};
use crate::error::MelsecError;
use crate::error_codes::ErrorCatalog;
use crate::mc_client::{spec_accept, spec_request_frame, McClient};
use crate::params::{
    create_read_bits_params, create_read_words_params, create_write_bits_params,
    create_write_words_params, spec_read_bits_params, spec_read_words_params,
    spec_write_bits_params, spec_write_words_params,
};
use crate::request::{spec_serial_after, SerialCounter};
use crate::request_builder::spec_build_request;
use crate::response_parser::spec_parse_response;
use crate::value::{views, Json, Value};
use crate::words::{
    decode_values, decoded, encode_values, encoded, required_words, FromWords, ToWords,
};

verus! {

/// What an operation sends, and what it needs to read the response.
#[derive(Debug)]
pub struct Exchange {
    pub command: Command,
    /// The bundle that built the request.
    pub params: Value,
    /// The frame to send.
    pub frame: Vec<u8>,
}

/// True if `r` is the plan of a command for a bundle, and `after` the
/// next serial of the counter then, `before` having been the next: the
/// plan holds the frame of the body that the bundle stands for under the
/// spec that the registry has for the command, under the serial
/// `before`. An error where the registry has no such spec or the
/// bundle is rejected, which draws no serial, or where the body is too
/// long for a frame.
pub open spec fn planned(
    client: &McClient,
    command: Command,
    params: Json,
    specs: Seq<crate::command_registry::CommandSpecView>,
    devices: Seq<DeviceView>,
    before: u16,
    after: u16,
    r: Result<Exchange, MelsecError>,
) -> bool {
    match index_of_id(specs, command) {
        None => r is Err && r->Err_0 is Protocol && after == before,
        Some(i) => match spec_build_request(specs[i], params, Some(client.plc_series), devices) {
            None => r is Err && r->Err_0 is Protocol && after == before,
            Some(body) => after == spec_serial_after(before) && (if body.len() + 2 <= 0xFFFF {
                &&& r is Ok
                &&& r->Ok_0.command == command
                &&& r->Ok_0.params@ == params
                &&& r->Ok_0.frame@ == spec_request_frame(client, body, before)
            } else {
                r is Err && r->Err_0 is Protocol
            }),
        },
    }
}

/// What the frame of a response reads as under the spec that the registry
/// has for a command, given the bundle that built the request.
pub open spec fn spec_complete(
    command: Command,
    params: Json,
    buf: Seq<u8>,
    specs: Seq<crate::command_registry::CommandSpecView>,
    devices: Seq<DeviceView>,
) -> Option<Json> {
    match (index_of_id(specs, command), spec_accept(buf)) {
        (Some(i), Some(data)) => spec_parse_response(specs[i], params, data, devices),
        _ => None,
    }
}

/// The words that a run of items holds: the integers among them, each of
/// which must fit 16 bits.
pub open spec fn words_in(items: Seq<Json>) -> Option<Seq<u16>>
    decreases items.len(),
{
    if items.len() == 0 {
        Some(Seq::empty())
    } else {
        match words_in(items.drop_last()) {
            None => None,
            Some(done) => match items.last() {
                Json::UInt(n) => if n <= 0xFFFF {
                    Some(done.push(n as u16))
                } else {
                    None
                },
                _ => Some(done),
            },
        }
    }
}

/// The words that a run of blocks holds, block after block. What is no
/// array among the blocks holds none.
pub open spec fn words_in_blocks(blocks: Seq<Json>) -> Option<Seq<u16>>
    decreases blocks.len(),
{
    if blocks.len() == 0 {
        Some(Seq::empty())
    } else {
        match words_in_blocks(blocks.drop_last()) {
            None => None,
            Some(done) => match blocks.last() {
                Json::Array(items) => match words_in(items) {
                    Some(ws) => Some(done + ws),
                    None => None,
                },
                _ => Some(done),
            },
        }
    }
}

/// The words that parsed data holds under `data_blocks`.
pub open spec fn spec_flat_words(parsed: Json) -> Option<Seq<u16>> {
    match parsed.get("data_blocks"@) {
        Some(Json::Array(blocks)) => words_in_blocks(blocks),
        _ => Some(Seq::empty()),
    }
}

proof fn lemma_words_in_prefix(items: Seq<Json>, k: int)
    requires
        0 <= k <= items.len(),
        words_in(items) is Some,
    ensures
        words_in(items.take(k)) is Some,
    decreases items.len(),
{
    if k == items.len() {
        assert(items.take(k) =~= items);
    } else {
        lemma_words_in_prefix(items.drop_last(), k);
        assert(items.drop_last().take(k) =~= items.take(k));
    }
}

proof fn lemma_words_in_blocks_prefix(blocks: Seq<Json>, k: int)
    requires
        0 <= k <= blocks.len(),
        words_in_blocks(blocks) is Some,
    ensures
        words_in_blocks(blocks.take(k)) is Some,
    decreases blocks.len(),
{
    if k == blocks.len() {
        assert(blocks.take(k) =~= blocks);
    } else {
        lemma_words_in_blocks_prefix(blocks.drop_last(), k);
        assert(blocks.drop_last().take(k) =~= blocks.take(k));
    }
}

/// Collects the words that parsed data holds under `data_blocks`.
#[verifier::loop_isolation(false)]
pub fn flat_words(parsed: &Value) -> (r: Result<Vec<u16>, MelsecError>)
    ensures
        match spec_flat_words(parsed@) {
            Some(ws) => r is Ok && r->Ok_0@ == ws,
            None => r is Err && r->Err_0 is Protocol,
        },
{
    let mut words: Vec<u16> = Vec::new();
    let blocks = match parsed.get("data_blocks") {
        Some(v) => match v.as_array() {
            Some(b) => b,
            None => {
                return Ok(words);
            },
        },
        None => {
            return Ok(words);
        },
    };
    let ghost bs = views(blocks@);
    let mut i: usize = 0;
    assert(bs.take(0) =~= Seq::<Json>::empty());
    while i < blocks.len()
        invariant
            i <= blocks.len(),
            words_in_blocks(bs.take(i as int)) == Some(words@),
        decreases blocks.len() - i,
    {
        let ghost before_words = words@;
        proof {
            assert(bs.take(i + 1).drop_last() =~= bs.take(i as int));
            assert(bs.take(i + 1).last() == blocks@[i as int]@);
        }
        match blocks[i].as_array() {
            Some(items) => {
                let ghost is = views(items@);
                let mut k: usize = 0;
                assert(is.take(0) =~= Seq::<Json>::empty());
                assert(words@ =~= before_words + Seq::<u16>::empty());
                while k < items.len()
                    invariant
                        k <= items.len(),
                        words_in(is.take(k as int)) is Some,
                        words@ == before_words + words_in(is.take(k as int))->0,
                    decreases items.len() - k,
                {
                    let ghost got = words_in(is.take(k as int))->0;
                    proof {
                        assert(is.take(k + 1).drop_last() =~= is.take(k as int));
                        assert(is.take(k + 1).last() == items@[k as int]@);
                    }
                    match items[k].as_u64() {
                        Some(n) => {
                            if n > 0xFFFF {
                                proof {
                                    if words_in(is) is Some {
                                        lemma_words_in_prefix(is, k + 1);
                                    }
                                    if words_in_blocks(bs) is Some {
                                        lemma_words_in_blocks_prefix(bs, i + 1);
                                    }
                                }
                                return Err(
                                    MelsecError::protocol("word value out of range for u16"),
                                );
                            }
                            words.push(n as u16);
                            assert(words@ =~= before_words + got.push(n as u16));
                        },
                        None => {},
                    }
                    k = k + 1;
                }
                assert(is.take(k as int) =~= is);
            },
            None => {},
        }
        i = i + 1;
    }
    assert(bs.take(i as int) =~= bs);
    Ok(words)
}

impl McClient {
    /// Plans a command for a bundle.
    pub fn plan(
        &self,
        command: Command,
        params: Value,
        registry: &CommandRegistry,
        catalog: &DeviceCatalog,
        counter: &mut SerialCounter,
    ) -> (r: Result<Exchange, MelsecError>)
        ensures
            planned(
                self,
                command,
                params@,
                registry@,
                catalog@,
                old(counter)@,
                final(counter)@,
                r,
            ),
    {
        let spec = match registry.get(command) {
            Some(s) => s,
            None => {
                return Err(MelsecError::protocol("command not found"));
            },
        };
        match self.prepare(spec, &params, catalog, counter) {
            Ok(frame) => Ok(Exchange { command, params, frame }),
            Err(e) => Err(e),
        }
    }

    /// Reads the response to an exchange.
    pub fn complete(
        exchange: &Exchange,
        buf: &[u8],
        registry: &CommandRegistry,
        errors: &ErrorCatalog,
        catalog: &DeviceCatalog,
    ) -> (r: Result<Value, MelsecError>)
        ensures
            match spec_complete(exchange.command, exchange.params@, buf@, registry@, catalog@) {
                Some(v) => r is Ok && r->Ok_0@ == v,
                None => r is Err && r->Err_0 is Protocol,
            },
    {
        let spec = match registry.get(exchange.command) {
            Some(s) => s,
            None => {
                return Err(MelsecError::protocol("command not found"));
            },
        };
        McClient::finish(spec, &exchange.params, buf, errors, catalog)
    }

    /// Plans the reading of `count` words from `device`.
    pub fn read_words(
        &self,
        device: &str,
        count: u16,
        registry: &CommandRegistry,
        catalog: &DeviceCatalog,
        counter: &mut SerialCounter,
    ) -> (r: Result<Exchange, MelsecError>)
        ensures
            planned(
                self,
                Command::ReadWords,
                spec_read_words_params(catalog@, device@, count),
                registry@,
                catalog@,
                old(counter)@,
                final(counter)@,
                r,
            ),
    {
        let params = create_read_words_params(catalog, device, count);
        self.plan(Command::ReadWords, params, registry, catalog, counter)
    }

    /// Plans the reading of `count` bits from `device`.
    pub fn read_bits(
        &self,
        device: &str,
        count: u16,
        registry: &CommandRegistry,
        catalog: &DeviceCatalog,
        counter: &mut SerialCounter,
    ) -> (r: Result<Exchange, MelsecError>)
        ensures
            planned(
                self,
                Command::ReadBits,
                spec_read_bits_params(catalog@, device@, count),
                registry@,
                catalog@,
                old(counter)@,
                final(counter)@,
                r,
            ),
    {
        let params = create_read_bits_params(catalog, device, count);
        self.plan(Command::ReadBits, params, registry, catalog, counter)
    }

    /// Plans the writing of words to `device`.
    pub fn write_words(
        &self,
        device: &str,
        values: &[u16],
        registry: &CommandRegistry,
        catalog: &DeviceCatalog,
        counter: &mut SerialCounter,
    ) -> (r: Result<Exchange, MelsecError>)
        ensures
            planned(
                self,
                Command::WriteWords,
                spec_write_words_params(catalog@, device@, values@),
                registry@,
                catalog@,
                old(counter)@,
                final(counter)@,
                r,
            ),
    {
        let params = create_write_words_params(catalog, device, values);
        self.plan(Command::WriteWords, params, registry, catalog, counter)
    }

    /// Plans the writing of bits to `device`.
    pub fn write_bits(
        &self,
        device: &str,
        values: &[bool],
        registry: &CommandRegistry,
        catalog: &DeviceCatalog,
        counter: &mut SerialCounter,
    ) -> (r: Result<Exchange, MelsecError>)
        ensures
            planned(
                self,
                Command::WriteBits,
                spec_write_bits_params(catalog@, device@, values@),
                registry@,
                catalog@,
                old(counter)@,
                final(counter)@,
                r,
            ),
    {
        let params = create_write_bits_params(catalog, device, values);
        self.plan(Command::WriteBits, params, registry, catalog, counter)
    }

    /// Plans the reading of `count` typed values from `device`: of as
    /// many words as the values take. Fails where those are more than a
    /// request can ask for.
    pub fn read_words_as<T: FromWords>(
        &self,
        device: &str,
        count: u16,
        registry: &CommandRegistry,
        catalog: &DeviceCatalog,
        counter: &mut SerialCounter,
    ) -> (r: Result<Exchange, MelsecError>)
        ensures
            if T::WORDS * count <= 0xFFFF {
                planned(
                    self,
                    Command::ReadWords,
                    spec_read_words_params(catalog@, device@, (T::WORDS * count) as u16),
                    registry@,
                    catalog@,
                    old(counter)@,
                    final(counter)@,
                    r,
                )
            } else {
                r is Err && r->Err_0 is Protocol && final(counter)@ == old(counter)@
            },
    {
        let words = match required_words(T::WORDS, count) {
            Ok(w) => w,
            Err(e) => {
                return Err(e);
            },
        };
        self.read_words(device, words, registry, catalog, counter)
    }

    /// Reads typed values out of parsed data: from the words under
    /// `data_blocks`, as many values as those words hold, and no more than
    /// `count`.
    pub fn typed_values<T: FromWords>(parsed: &Value, count: u16) -> (r: Result<Vec<T>, MelsecError>)
        ensures
            match spec_flat_words(parsed@) {
                Some(ws) => r is Ok && decoded(ws, count as nat, r->Ok_0@),
                None => r is Err && r->Err_0 is Protocol,
            },
    {
        let words = match flat_words(parsed) {
            Ok(w) => w,
            Err(e) => {
                return Err(e);
            },
        };
        Ok(decode_values(words.as_slice(), count))
    }

    /// Plans the writing of typed values to `device`, as the words that
    /// stand for them.
    pub fn write_words_as<T: ToWords>(
        &self,
        device: &str,
        values: &[T],
        registry: &CommandRegistry,
        catalog: &DeviceCatalog,
        counter: &mut SerialCounter,
    ) -> (r: Result<Exchange, MelsecError>)
        ensures
            planned(
                self,
                Command::WriteWords,
                spec_write_words_params(catalog@, device@, encoded(values@)),
                registry@,
                catalog@,
                old(counter)@,
                final(counter)@,
                r,
            ),
    {
        let flat = encode_values(values);
        self.write_words(device, flat.as_slice(), registry, catalog, counter)
    }
}

} // verus!
