//! The dispatcher: one submission event, from raw line to parse result and
//! history side effect.

use vstd::prelude::*;
use vstd::string::StringExecFns;
use crate::command::{parse, parse_spec, result_view, Command, HistorySubCommand, ParseError};
use crate::history::HistoryStore;

verus! {

/// The submission asked the history store to be emptied.
pub open spec fn is_clear_command(r: Result<Command, ParseError>) -> bool {
    match r {
        Ok(Command::History { sub }) => sub == Some(HistorySubCommand::Clear),
        _ => false,
    }
}

/// Handles one submitted line: records the raw text in the history
/// (whatever the parse outcome), parses it, and empties the history when
/// the line was a `history clear` command. A line that fails to parse
/// still grows the history by exactly one entry.
pub fn submit(history: &mut HistoryStore, input: &str) -> (r: Result<Command, ParseError>)
    ensures
        result_view(r) == parse_spec(input@),
        is_clear_command(r) ==> final(history)@ == Seq::<Seq<char>>::empty(),
        !is_clear_command(r) ==> final(history)@ == old(history)@.push(input@),
        parse_spec(input@) is Err ==> final(history)@.len() == old(history)@.len() + 1,
{
    history.push(String::from_str(input));
    let r = parse(input);
    let clear = match &r {
        Ok(Command::History { sub: Some(HistorySubCommand::Clear) }) => true,
        _ => false,
    };
    if clear {
        history.clear();
    }
    r
}

} // verus!
