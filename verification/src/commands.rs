//! The closed set of command ids.

use vstd::prelude::*;
use vstd::string::*;
use crate::text::{owned, str_eq};

verus! {

/// The id of a command. Each has a name in snake case, which is how a
/// schema document spells it.
#[derive(Debug, PartialEq, Eq, Hash, Clone, Copy, Structural)]
pub enum Command {
    ReadWords,
    WriteWords,
    ReadBits,
    WriteBits,
    Echo,
    ReadRandomWords,
    WriteRandomWords,
    WriteRandomBits,
    ReadBlocks,
    WriteBlocks,
}

impl Command {
    /// The name of the command.
    pub open spec fn spec_as_str(self) -> Seq<char> {
        match self {
            Command::ReadWords => "read_words"@,
            Command::WriteWords => "write_words"@,
            Command::ReadBits => "read_bits"@,
            Command::WriteBits => "write_bits"@,
            Command::Echo => "echo"@,
            Command::ReadRandomWords => "read_random_words"@,
            Command::WriteRandomWords => "write_random_words"@,
            Command::WriteRandomBits => "write_random_bits"@,
            Command::ReadBlocks => "read_blocks"@,
            Command::WriteBlocks => "write_blocks"@,
        }
    }

    /// The command that a name stands for.
    pub open spec fn spec_from_str(s: Seq<char>) -> Option<Command> {
        if s == "read_words"@ {
            Some(Command::ReadWords)
        } else if s == "write_words"@ {
            Some(Command::WriteWords)
        } else if s == "read_bits"@ {
            Some(Command::ReadBits)
        } else if s == "write_bits"@ {
            Some(Command::WriteBits)
        } else if s == "echo"@ {
            Some(Command::Echo)
        } else if s == "read_blocks"@ {
            Some(Command::ReadBlocks)
        } else if s == "write_blocks"@ {
            Some(Command::WriteBlocks)
        } else if s == "read_random_words"@ {
            Some(Command::ReadRandomWords)
        } else if s == "write_random_words"@ {
            Some(Command::WriteRandomWords)
        } else if s == "write_random_bits"@ {
            Some(Command::WriteRandomBits)
        } else {
            None
        }
    }

    pub fn as_str(&self) -> (r: &'static str)
        ensures
            r@ == self.spec_as_str(),
    {
        match self {
            Command::ReadWords => "read_words",
            Command::WriteWords => "write_words",
            Command::ReadBits => "read_bits",
            Command::WriteBits => "write_bits",
            Command::Echo => "echo",
            Command::ReadRandomWords => "read_random_words",
            Command::WriteRandomWords => "write_random_words",
            Command::WriteRandomBits => "write_random_bits",
            Command::ReadBlocks => "read_blocks",
            Command::WriteBlocks => "write_blocks",
        }
    }

    pub fn is_read(&self) -> (r: bool)
        ensures
            r == (*self == Command::ReadWords || *self == Command::ReadBits || *self
                == Command::ReadBlocks),
    {
        matches!(self, Command::ReadWords | Command::ReadBits | Command::ReadBlocks)
    }

    pub fn is_write(&self) -> (r: bool)
        ensures
            r == (*self == Command::WriteWords || *self == Command::WriteBits || *self
                == Command::WriteBlocks),
    {
        matches!(self, Command::WriteWords | Command::WriteBits | Command::WriteBlocks)
    }

    pub fn is_block_command(&self) -> (r: bool)
        ensures
            r == (*self == Command::ReadBlocks || *self == Command::WriteBlocks),
    {
        matches!(self, Command::ReadBlocks | Command::WriteBlocks)
    }

    pub fn is_word_command(&self) -> (r: bool)
        ensures
            r == (*self == Command::ReadWords || *self == Command::WriteWords),
    {
        matches!(self, Command::ReadWords | Command::WriteWords)
    }

    /// Reads a command id from its name. An unknown name is an error that
    /// quotes it.
    pub fn from_str(s: &str) -> (r: Result<Command, String>)
        ensures
            match Command::spec_from_str(s@) {
                Some(c) => r == Ok::<Command, String>(c),
                None => r is Err && r->Err_0@ == "unknown command id: "@ + s@,
            },
    {
        if str_eq(s, "read_words") {
            Ok(Command::ReadWords)
        } else if str_eq(s, "write_words") {
            Ok(Command::WriteWords)
        } else if str_eq(s, "read_bits") {
            Ok(Command::ReadBits)
        } else if str_eq(s, "write_bits") {
            Ok(Command::WriteBits)
        } else if str_eq(s, "echo") {
            Ok(Command::Echo)
        } else if str_eq(s, "read_blocks") {
            Ok(Command::ReadBlocks)
        } else if str_eq(s, "write_blocks") {
            Ok(Command::WriteBlocks)
        } else if str_eq(s, "read_random_words") {
            Ok(Command::ReadRandomWords)
        } else if str_eq(s, "write_random_words") {
            Ok(Command::WriteRandomWords)
        } else if str_eq(s, "write_random_bits") {
            Ok(Command::WriteRandomBits)
        } else {
            Err(owned("unknown command id: ").concat(s))
        }
    }
}

impl std::str::FromStr for Command {
    type Err = String;

    /// Reads a command id from its name. An unknown name is an error that
    /// quotes it.
    fn from_str(s: &str) -> (r: Result<Self, Self::Err>)
        ensures
            match Command::spec_from_str(s@) {
                Some(c) => r == Ok::<Command, String>(c),
                None => r is Err && r->Err_0@ == "unknown command id: "@ + s@,
            },
    {
        Command::from_str(s)
    }
}

} // verus!
