//! The checks that a schema document has to pass before it is put to use.

use vstd::prelude::*;
use vstd::string::*;
use crate::command_registry::{
    parse_field_specs, spec_parse_field_specs, BlockTemplateRaw, BlockTemplateRawView,
    CommandRegistry, CommandSpecRaw, CommandSpecRawView, FieldSpec, FieldSpecView,
};
use crate::error::MelsecError;
use crate::request_builder::{plural, plural_name};
use crate::text::{after, before, chars_of, find_char, str_eq, string_of};

verus! {

/// True if one of the fields has the name.
pub open spec fn has_field(fields: Seq<FieldSpecView>, name: Seq<char>) -> bool {
    exists|k: int| 0 <= k < fields.len() && (#[trigger] fields[k]).name == name
}

/// True if one of the block templates has the name in its plural form.
pub open spec fn has_block(blocks: Seq<BlockTemplateRawView>, name: Seq<char>) -> bool {
    exists|k: int| 0 <= k < blocks.len() && plural((#[trigger] blocks[k]).name) == name
}

/// True for the names of the device families, also in lower case.
pub open spec fn known_family(name: Seq<char>) -> bool {
    ||| name == "Bit"@
    ||| name == "bit"@
    ||| name == "Word"@
    ||| name == "word"@
    ||| name == "DoubleWord"@
    ||| name == "doubleword"@
    ||| name == "Any"@
    ||| name == "any"@
}

/// True if a block template is sound within its command: its repeat field
/// is a request field, its family, if it names one, is known, and its
/// field specs parse.
pub open spec fn valid_block(block: BlockTemplateRawView, fields: Seq<FieldSpecView>) -> bool {
    &&& has_field(fields, block.repeat_field)
    &&& match block.device_family {
        Some(f) => known_family(f),
        None => true,
    }
    &&& spec_parse_field_specs(block.fields) is Some
}

/// True if a response format is sound within its command: it has a colon,
/// and what stands before it names a request field or, in the plural, a
/// block template.
pub open spec fn valid_response_name(
    format: Seq<char>,
    fields: Seq<FieldSpecView>,
    blocks: Seq<BlockTemplateRawView>,
) -> bool {
    after(format, ':') is Some && (has_field(fields, before(format, ':')) || has_block(
        blocks,
        before(format, ':'),
    ))
}

/// The block templates of a record: none where it names none.
pub open spec fn blocks_of(raw: CommandSpecRawView) -> Seq<BlockTemplateRawView> {
    match raw.block_templates {
        Some(b) => b,
        None => Seq::empty(),
    }
}

/// True if a command record is sound: its family, if it names one, is
/// known, its request format parses, and its block templates and response
/// formats are sound within it.
pub open spec fn valid_command(raw: CommandSpecRawView) -> bool {
    match spec_parse_field_specs(raw.request_format) {
        None => false,
        Some(fields) => {
            &&& match raw.device_family {
                Some(f) => known_family(f),
                None => true,
            }
            &&& forall|k: int|
                0 <= k < blocks_of(raw).len() ==> valid_block(#[trigger] blocks_of(raw)[k], fields)
            &&& forall|k: int|
                0 <= k < raw.response_format.len() ==> valid_response_name(
                    #[trigger] raw.response_format[k],
                    fields,
                    blocks_of(raw),
                )
        },
    }
}

/// True if a schema document is sound: no two commands share an id, and
/// every command is sound.
pub open spec fn valid_document(raws: Seq<CommandSpecRawView>) -> bool {
    &&& forall|i: int, j: int|
        0 <= i < j < raws.len() ==> (#[trigger] raws[i]).id != (#[trigger] raws[j]).id
    &&& forall|i: int| 0 <= i < raws.len() ==> valid_command(#[trigger] raws[i])
}

#[verifier::loop_isolation(false)]
fn field_named(fields: &Vec<FieldSpec>, name: &str) -> (r: bool)
    ensures
        r == has_field(fields.deep_view(), name@),
{
    let ghost fs = fields.deep_view();
    let mut i: usize = 0;
    while i < fields.len()
        invariant
            i <= fields.len(),
            forall|k: int| 0 <= k < i ==> (#[trigger] fs[k]).name != name@,
        decreases fields.len() - i,
    {
        assert(fs[i as int] == fields@[i as int]@);
        if str_eq(fields[i].name.as_str(), name) {
            return true;
        }
        i = i + 1;
    }
    false
}

#[verifier::loop_isolation(false)]
fn block_named(blocks: &Option<Vec<BlockTemplateRaw>>, name: &str) -> (r: bool)
    ensures
        r == has_block(
            match blocks.deep_view() {
                Some(b) => b,
                None => Seq::empty(),
            },
            name@,
        ),
{
    match blocks {
        None => false,
        Some(list) => {
            let ghost bs = list.deep_view();
            let mut i: usize = 0;
            while i < list.len()
                invariant
                    i <= list.len(),
                    forall|k: int| 0 <= k < i ==> plural((#[trigger] bs[k]).name) != name@,
                decreases list.len() - i,
            {
                assert(bs[i as int] == list@[i as int].deep_view());
                let p = plural_name(list[i].name.as_str());
                if str_eq(p.as_str(), name) {
                    return true;
                }
                i = i + 1;
            }
            false
        },
    }
}

fn family_known(name: &str) -> (r: bool)
    ensures
        r == known_family(name@),
{
    str_eq(name, "Bit") || str_eq(name, "bit") || str_eq(name, "Word") || str_eq(name, "word")
        || str_eq(name, "DoubleWord") || str_eq(name, "doubleword") || str_eq(name, "Any")
        || str_eq(name, "any")
}

fn block_is_valid(block: &BlockTemplateRaw, fields: &Vec<FieldSpec>) -> (r: bool)
    ensures
        r == valid_block(block.deep_view(), fields.deep_view()),
{
    if !field_named(fields, block.repeat_field.as_str()) {
        return false;
    }
    match &block.device_family {
        Some(f) => {
            if !family_known(f.as_str()) {
                return false;
            }
        },
        None => {},
    }
    parse_field_specs(&block.fields).is_ok()
}

fn response_name_is_valid(
    format: &str,
    fields: &Vec<FieldSpec>,
    blocks: &Option<Vec<BlockTemplateRaw>>,
) -> (r: bool)
    ensures
        r == valid_response_name(
            format@,
            fields.deep_view(),
            match blocks.deep_view() {
                Some(b) => b,
                None => Seq::empty(),
            },
        ),
{
    let cs = chars_of(format);
    assert(cs@.subrange(0, cs.len() as int) =~= format@);
    match find_char(&cs, 0, cs.len(), ':') {
        None => false,
        Some(i) => {
            let name = string_of(&cs, 0, i);
            assert(cs@.subrange(0, i as int) =~= format@.take(i as int));
            field_named(fields, name.as_str()) || block_named(blocks, name.as_str())
        },
    }
}

#[verifier::loop_isolation(false)]
fn command_is_valid(raw: &CommandSpecRaw) -> (r: bool)
    ensures
        r == valid_command(raw.deep_view()),
{
    let fields = match parse_field_specs(&raw.request_format) {
        Ok(f) => f,
        Err(_) => {
            return false;
        },
    };
    match &raw.device_family {
        Some(f) => {
            if !family_known(f.as_str()) {
                return false;
            }
        },
        None => {},
    }
    let ghost v = raw.deep_view();
    let ghost fs = fields.deep_view();
    let ghost bs = blocks_of(v);
    match &raw.block_templates {
        Some(list) => {
            let mut i: usize = 0;
            while i < list.len()
                invariant
                    i <= list.len(),
                    forall|k: int| 0 <= k < i ==> valid_block(#[trigger] bs[k], fs),
                decreases list.len() - i,
            {
                assert(bs[i as int] == list@[i as int].deep_view());
                if !block_is_valid(&list[i], &fields) {
                    assert(!valid_block(blocks_of(v)[i as int], fs));
                    return false;
                }
                i = i + 1;
            }
        },
        None => {},
    }
    let mut i: usize = 0;
    while i < raw.response_format.len()
        invariant
            i <= raw.response_format.len(),
            forall|k: int|
                0 <= k < i ==> valid_response_name(#[trigger] v.response_format[k], fs, bs),
        decreases raw.response_format.len() - i,
    {
        assert(v.response_format[i as int] == raw.response_format@[i as int]@);
        if !response_name_is_valid(raw.response_format[i].as_str(), &fields, &raw.block_templates) {
            assert(!valid_response_name(v.response_format[i as int], fs, blocks_of(v)));
            return false;
        }
        i = i + 1;
    }
    true
}

impl CommandRegistry {
    /// Checks the records of a schema document: ids are unique, field
    /// specs parse, every repeat field of a block template is a request
    /// field, every family that a command or a block names is known, and
    /// every response format names a request field or, in the plural, a
    /// block template.
    #[verifier::loop_isolation(false)]
    pub fn validate(commands: &Vec<CommandSpecRaw>) -> (r: Result<(), MelsecError>)
        ensures
            r is Ok <==> valid_document(commands.deep_view()),
            r is Err ==> r->Err_0 is Protocol,
    {
        let ghost vs = commands.deep_view();
        let mut i: usize = 0;
        while i < commands.len()
            invariant
                i <= commands.len(),
                forall|a: int, b: int|
                    0 <= a < b < i ==> (#[trigger] vs[a]).id != (#[trigger] vs[b]).id,
                forall|a: int| 0 <= a < i ==> valid_command(#[trigger] vs[a]),
            decreases commands.len() - i,
        {
            assert(vs[i as int] == commands@[i as int].deep_view());
            let mut j: usize = 0;
            while j < i
                invariant
                    j <= i < commands.len(),
                    forall|a: int| 0 <= a < j ==> (#[trigger] vs[a]).id != vs[i as int].id,
                decreases i - j,
            {
                assert(vs[j as int] == commands@[j as int].deep_view());
                if commands[j].id == commands[i].id {
                    return Err(MelsecError::protocol("duplicate command id"));
                }
                j = j + 1;
            }
            if !command_is_valid(&commands[i]) {
                return Err(MelsecError::protocol("invalid command record"));
            }
            i = i + 1;
        }
        Ok(())
    }
}

} // verus!
