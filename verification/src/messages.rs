//! The wire vocabulary: commands a client may send, the answers the
//! daemon gives, and their JSON text form, one quoted variant name per
//! value.

use vstd::prelude::*;
use vstd::string::*;

use crate::bspwm::str_eq;

verus! {

/// A client's request to the stack daemon.
#[derive(Clone, Copy, PartialEq, Eq, Structural, Debug)]
pub enum Command {
    CreateStack,
    RemoveFocused,
    IsFocusedInStack,
    FocusCurrent,
    UpdateStacks,
}

/// The daemon's answer to one request.
#[derive(Clone, Copy, PartialEq, Eq, Structural, Debug)]
pub enum CommandResponse {
    Done,
    NoStackExists,
    EndOfStack,
    Yes,
    No,
}

/// The JSON text of a command: the variant's name as a JSON string.
pub open spec fn spec_encode_command(c: Command) -> Seq<char> {
    match c {
        Command::CreateStack => "\"CreateStack\""@,
        Command::RemoveFocused => "\"RemoveFocused\""@,
        Command::IsFocusedInStack => "\"IsFocusedInStack\""@,
        Command::FocusCurrent => "\"FocusCurrent\""@,
        Command::UpdateStacks => "\"UpdateStacks\""@,
    }
}

/// The command that a JSON text denotes, or `None` for any other text.
pub open spec fn spec_decode_command(s: Seq<char>) -> Option<Command> {
    if s == spec_encode_command(Command::CreateStack) {
        Some(Command::CreateStack)
    } else if s == spec_encode_command(Command::RemoveFocused) {
        Some(Command::RemoveFocused)
    } else if s == spec_encode_command(Command::IsFocusedInStack) {
        Some(Command::IsFocusedInStack)
    } else if s == spec_encode_command(Command::FocusCurrent) {
        Some(Command::FocusCurrent)
    } else if s == spec_encode_command(Command::UpdateStacks) {
        Some(Command::UpdateStacks)
    } else {
        None
    }
}

/// The JSON text of a response: the variant's name as a JSON string.
pub open spec fn spec_encode_response(c: CommandResponse) -> Seq<char> {
    match c {
        CommandResponse::Done => "\"Done\""@,
        CommandResponse::NoStackExists => "\"NoStackExists\""@,
        CommandResponse::EndOfStack => "\"EndOfStack\""@,
        CommandResponse::Yes => "\"Yes\""@,
        CommandResponse::No => "\"No\""@,
    }
}

/// The response that a JSON text denotes, or `None` for any other text.
pub open spec fn spec_decode_response(s: Seq<char>) -> Option<CommandResponse> {
    if s == spec_encode_response(CommandResponse::Done) {
        Some(CommandResponse::Done)
    } else if s == spec_encode_response(CommandResponse::NoStackExists) {
        Some(CommandResponse::NoStackExists)
    } else if s == spec_encode_response(CommandResponse::EndOfStack) {
        Some(CommandResponse::EndOfStack)
    } else if s == spec_encode_response(CommandResponse::Yes) {
        Some(CommandResponse::Yes)
    } else if s == spec_encode_response(CommandResponse::No) {
        Some(CommandResponse::No)
    } else {
        None
    }
}

/// Writes a command as its JSON text.
pub fn encode_command(c: &Command) -> (r: String)
    ensures
        r@ == spec_encode_command(*c),
{
    match *c {
        Command::CreateStack => String::from_str("\"CreateStack\""),
        Command::RemoveFocused => String::from_str("\"RemoveFocused\""),
        Command::IsFocusedInStack => String::from_str("\"IsFocusedInStack\""),
        Command::FocusCurrent => String::from_str("\"FocusCurrent\""),
        Command::UpdateStacks => String::from_str("\"UpdateStacks\""),
    }
}

/// Reads a command back from its JSON text; any other text is refused.
pub fn decode_command(s: &str) -> (r: Option<Command>)
    ensures
        r == spec_decode_command(s@),
{
    if str_eq(s, "\"CreateStack\"") {
        Some(Command::CreateStack)
    } else if str_eq(s, "\"RemoveFocused\"") {
        Some(Command::RemoveFocused)
    } else if str_eq(s, "\"IsFocusedInStack\"") {
        Some(Command::IsFocusedInStack)
    } else if str_eq(s, "\"FocusCurrent\"") {
        Some(Command::FocusCurrent)
    } else if str_eq(s, "\"UpdateStacks\"") {
        Some(Command::UpdateStacks)
    } else {
        None
    }
}

/// Writes a response as its JSON text.
pub fn encode_response(c: &CommandResponse) -> (r: String)
    ensures
        r@ == spec_encode_response(*c),
{
    match *c {
        CommandResponse::Done => String::from_str("\"Done\""),
        CommandResponse::NoStackExists => String::from_str("\"NoStackExists\""),
        CommandResponse::EndOfStack => String::from_str("\"EndOfStack\""),
        CommandResponse::Yes => String::from_str("\"Yes\""),
        CommandResponse::No => String::from_str("\"No\""),
    }
}

/// Reads a response back from its JSON text; any other text is refused.
pub fn decode_response(s: &str) -> (r: Option<CommandResponse>)
    ensures
        r == spec_decode_response(s@),
{
    if str_eq(s, "\"Done\"") {
        Some(CommandResponse::Done)
    } else if str_eq(s, "\"NoStackExists\"") {
        Some(CommandResponse::NoStackExists)
    } else if str_eq(s, "\"EndOfStack\"") {
        Some(CommandResponse::EndOfStack)
    } else if str_eq(s, "\"Yes\"") {
        Some(CommandResponse::Yes)
    } else if str_eq(s, "\"No\"") {
        Some(CommandResponse::No)
    } else {
        None
    }
}

/// Encoding a command and decoding the text back yields the same
/// command, for every variant.
pub proof fn lemma_command_round_trip(c: Command)
    ensures
        spec_decode_command(spec_encode_command(c)) == Some(c),
{
    reveal_strlit("\"CreateStack\"");
    reveal_strlit("\"RemoveFocused\"");
    reveal_strlit("\"IsFocusedInStack\"");
    reveal_strlit("\"FocusCurrent\"");
    reveal_strlit("\"UpdateStacks\"");
    assert(spec_encode_command(Command::CreateStack).len() == 13);
    assert(spec_encode_command(Command::RemoveFocused).len() == 15);
    assert(spec_encode_command(Command::IsFocusedInStack).len() == 18);
    assert(spec_encode_command(Command::FocusCurrent).len() == 14);
    assert(spec_encode_command(Command::UpdateStacks).len() == 14);
    assert(spec_encode_command(Command::FocusCurrent)[1] == 'F');
    assert(spec_encode_command(Command::UpdateStacks)[1] == 'U');
    match c {
        Command::CreateStack => {
            assert(spec_decode_command(spec_encode_command(c)) == Some(c));
        },
        Command::RemoveFocused => {
            assert(spec_decode_command(spec_encode_command(c)) == Some(c));
        },
        Command::IsFocusedInStack => {
            assert(spec_decode_command(spec_encode_command(c)) == Some(c));
        },
        Command::FocusCurrent => {
            assert(spec_decode_command(spec_encode_command(c)) == Some(c));
        },
        Command::UpdateStacks => {
            assert(spec_decode_command(spec_encode_command(c)) == Some(c));
        },
    }
}

/// Encoding a response and decoding the text back yields the same
/// response, for every variant.
pub proof fn lemma_response_round_trip(c: CommandResponse)
    ensures
        spec_decode_response(spec_encode_response(c)) == Some(c),
{
    reveal_strlit("\"Done\"");
    reveal_strlit("\"NoStackExists\"");
    reveal_strlit("\"EndOfStack\"");
    reveal_strlit("\"Yes\"");
    reveal_strlit("\"No\"");
    assert(spec_encode_response(CommandResponse::Done).len() == 6);
    assert(spec_encode_response(CommandResponse::NoStackExists).len() == 15);
    assert(spec_encode_response(CommandResponse::EndOfStack).len() == 12);
    assert(spec_encode_response(CommandResponse::Yes).len() == 5);
    assert(spec_encode_response(CommandResponse::No).len() == 4);
    match c {
        CommandResponse::Done => {
            assert(spec_decode_response(spec_encode_response(c)) == Some(c));
        },
        CommandResponse::NoStackExists => {
            assert(spec_decode_response(spec_encode_response(c)) == Some(c));
        },
        CommandResponse::EndOfStack => {
            assert(spec_decode_response(spec_encode_response(c)) == Some(c));
        },
        CommandResponse::Yes => {
            assert(spec_decode_response(spec_encode_response(c)) == Some(c));
        },
        CommandResponse::No => {
            assert(spec_decode_response(spec_encode_response(c)) == Some(c));
        },
    }
}

} // verus!
