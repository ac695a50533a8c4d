//! The argument grammar: what a submitted line means.
//!
//! `parse` normalizes the line (lower-cases it and splits it on ASCII
//! whitespace) and maps the tokens to a typed [`Command`] or to a
//! [`ParseError`] whose message may carry ANSI color sequences for the
//! colorizer to render.

use vstd::prelude::*;
use vstd::string::StringExecFns;
use crate::text::{
    chars_of, is_index_token, is_ws, lower_seq, num_val, parse_num, to_lower, token_eq, tokenize,
    tokens_of, views_of,
};

verus! {

/// The optional nested subcommand of `history`.
#[derive(Clone, Copy, PartialEq, Eq, Debug)]
pub enum HistorySubCommand {
    /// Empty the history.
    Clear,
    /// Show the entry at a 1-based position.
    Index { num: u64 },
}

/// A successfully parsed command line.
#[derive(Clone, Copy, PartialEq, Eq, Debug)]
pub enum Command {
    About,
    Contact,
    Skills,
    Projects,
    Diff,
    /// The cellular-automaton page; `about: true` selects its description.
    Conway { about: bool },
    /// The history page; `sub: None` means "show all entries".
    History { sub: Option<HistorySubCommand> },
}

/// Why a line failed to parse. A help request is deliberately shaped like an
/// error so that usage text takes the same rendering path as a real mistake.
#[derive(Clone, Copy, PartialEq, Eq, Debug)]
pub enum ParseErrorKind {
    NoCommand,
    UnknownCommand,
    UnexpectedArgument,
    InvalidValue,
    Help,
}

/// A failed parse: its kind and a displayable message that may contain
/// ANSI color sequences.
#[derive(Clone, PartialEq, Eq, Debug)]
pub struct ParseError {
    pub kind: ParseErrorKind,
    pub message: String,
}

/// The mathematical value of a [`ParseError`].
pub struct ParseErrorView {
    pub kind: ParseErrorKind,
    pub message: Seq<char>,
}

impl View for ParseError {
    type V = ParseErrorView;

    open spec fn view(&self) -> ParseErrorView {
        ParseErrorView { kind: self.kind, message: self.message@ }
    }
}

/// A parse result with the error replaced by its mathematical value.
pub open spec fn result_view(r: Result<Command, ParseError>) -> Result<Command, ParseErrorView> {
    match r {
        Ok(c) => Ok(c),
        Err(e) => Err(e@),
    }
}

/// The command vocabulary.
pub open spec fn is_known_command(t: Seq<char>) -> bool {
    t == "about"@ || t == "contact"@ || t == "skills"@ || t == "projects"@ || t == "diff"@
        || t == "conway"@ || t == "history"@
}

/// A token that requests usage text.
pub open spec fn is_help(t: Seq<char>) -> bool {
    t == "help"@ || t == "--help"@
}

/// Some token of the line requests usage text.
pub open spec fn has_help(toks: Seq<Seq<char>>) -> bool {
    exists|i: int| 0 <= i < toks.len() && is_help(toks[i])
}

pub open spec fn no_command_message() -> Seq<char> {
    "\u{1b}[31merror:\u{1b}[0m no command entered"@
}

pub open spec fn unknown_command_message() -> Seq<char> {
    "\u{1b}[31merror:\u{1b}[0m unknown command; expected one of: about, contact, skills, projects, diff, conway, history"@
}

pub open spec fn unexpected_argument_message() -> Seq<char> {
    "\u{1b}[31merror:\u{1b}[0m unexpected argument"@
}

pub open spec fn invalid_value_message() -> Seq<char> {
    "\u{1b}[31merror:\u{1b}[0m invalid value for num: expected a non-negative integer"@
}

pub open spec fn general_usage_message() -> Seq<char> {
    "\u{1b}[33mUSAGE:\u{1b}[0m portfolio <command>\n\ncommands: about, contact, skills, projects, diff, conway, history\n\nFor more information try \u{1b}[32m--help\u{1b}[0m"@
}

/// Usage text for one command of the vocabulary.
pub open spec fn usage_message(name: Seq<char>) -> Seq<char> {
    if name == "conway"@ {
        "\u{1b}[33mUSAGE:\u{1b}[0m portfolio "@ + name + " [--about]"@
    } else if name == "history"@ {
        "\u{1b}[33mUSAGE:\u{1b}[0m portfolio "@ + name + " [clear | index <num>]"@
    } else {
        "\u{1b}[33mUSAGE:\u{1b}[0m portfolio "@ + name
    }
}

pub open spec fn no_command_error() -> ParseErrorView {
    ParseErrorView { kind: ParseErrorKind::NoCommand, message: no_command_message() }
}

pub open spec fn unknown_command_error() -> ParseErrorView {
    ParseErrorView { kind: ParseErrorKind::UnknownCommand, message: unknown_command_message() }
}

pub open spec fn unexpected_argument_error() -> ParseErrorView {
    ParseErrorView {
        kind: ParseErrorKind::UnexpectedArgument,
        message: unexpected_argument_message(),
    }
}

pub open spec fn invalid_value_error() -> ParseErrorView {
    ParseErrorView { kind: ParseErrorKind::InvalidValue, message: invalid_value_message() }
}

/// The help "error": usage for the first token's command when that command
/// exists, the general usage otherwise.
pub open spec fn help_error(first: Seq<char>) -> ParseErrorView {
    ParseErrorView {
        kind: ParseErrorKind::Help,
        message: if is_known_command(first) {
            usage_message(first)
        } else {
            general_usage_message()
        },
    }
}

/// A command that takes no arguments parses to `c` alone.
pub open spec fn parse_no_args(c: Command, toks: Seq<Seq<char>>) -> Result<
    Command,
    ParseErrorView,
> {
    if toks.len() == 1 {
        Ok(c)
    } else {
        Err(unexpected_argument_error())
    }
}

/// The grammar itself, over an already normalized token list.
pub open spec fn parse_tokens(toks: Seq<Seq<char>>) -> Result<Command, ParseErrorView> {
    if toks.len() == 0 {
        Err(no_command_error())
    } else if has_help(toks) {
        Err(help_error(toks[0]))
    } else if toks[0] == "about"@ {
        parse_no_args(Command::About, toks)
    } else if toks[0] == "contact"@ {
        parse_no_args(Command::Contact, toks)
    } else if toks[0] == "skills"@ {
        parse_no_args(Command::Skills, toks)
    } else if toks[0] == "projects"@ {
        parse_no_args(Command::Projects, toks)
    } else if toks[0] == "diff"@ {
        parse_no_args(Command::Diff, toks)
    } else if toks[0] == "conway"@ {
        if toks.len() == 1 {
            Ok(Command::Conway { about: false })
        } else if toks.len() == 2 && (toks[1] == "--about"@ || toks[1] == "-a"@) {
            Ok(Command::Conway { about: true })
        } else {
            Err(unexpected_argument_error())
        }
    } else if toks[0] == "history"@ {
        if toks.len() == 1 {
            Ok(Command::History { sub: None })
        } else if toks[1] == "clear"@ {
            if toks.len() == 2 {
                Ok(Command::History { sub: Some(HistorySubCommand::Clear) })
            } else {
                Err(unexpected_argument_error())
            }
        } else if toks[1] == "index"@ {
            if toks.len() == 2 {
                Err(invalid_value_error())
            } else if toks.len() > 3 {
                Err(unexpected_argument_error())
            } else if is_index_token(toks[2]) {
                Ok(
                    Command::History {
                        sub: Some(HistorySubCommand::Index { num: num_val(toks[2]) as u64 }),
                    },
                )
            } else {
                Err(invalid_value_error())
            }
        } else {
            Err(unexpected_argument_error())
        }
    } else {
        Err(unknown_command_error())
    }
}

/// What `parse` returns on `input`: the grammar applied to the lower-cased,
/// whitespace-split line.
pub open spec fn parse_spec(input: Seq<char>) -> Result<Command, ParseErrorView> {
    parse_tokens(tokens_of(lower_seq(input)))
}

/// Every input without a command token — empty or whitespace throughout —
/// parses to the "no command" error.
pub proof fn lemma_blank_input_is_no_command(input: Seq<char>)
    requires
        forall|i: int| 0 <= i < input.len() ==> is_ws(input[i]),
    ensures
        parse_spec(input) == Err::<Command, ParseErrorView>(no_command_error()),
{
    let low = lower_seq(input);
    assert forall|i: int| 0 <= i < low.len() implies is_ws(low[i]) by {
        assert(low[i] == crate::text::lower_char(input[i]));
    }
    crate::text::lemma_all_ws_no_tokens(low, 0);
}

/// Every input whose first token is not in the vocabulary — and that does
/// not ask for help, which takes precedence — parses to the "unknown
/// command" error, whose message lists the whole vocabulary.
pub proof fn lemma_unknown_first_token(input: Seq<char>)
    requires
        tokens_of(lower_seq(input)).len() > 0,
        !is_known_command(tokens_of(lower_seq(input))[0]),
        !has_help(tokens_of(lower_seq(input))),
    ensures
        parse_spec(input) == Err::<Command, ParseErrorView>(unknown_command_error()),
        parse_spec(input)->Err_0.message == unknown_command_message(),
{
}

fn err_no_command() -> (e: ParseError)
    ensures
        e@ == no_command_error(),
{
    ParseError {
        kind: ParseErrorKind::NoCommand,
        message: String::from_str("\u{1b}[31merror:\u{1b}[0m no command entered"),
    }
}

fn err_unknown_command() -> (e: ParseError)
    ensures
        e@ == unknown_command_error(),
{
    ParseError {
        kind: ParseErrorKind::UnknownCommand,
        message: String::from_str(
            "\u{1b}[31merror:\u{1b}[0m unknown command; expected one of: about, contact, skills, projects, diff, conway, history",
        ),
    }
}

fn err_unexpected_argument() -> (e: ParseError)
    ensures
        e@ == unexpected_argument_error(),
{
    ParseError {
        kind: ParseErrorKind::UnexpectedArgument,
        message: String::from_str("\u{1b}[31merror:\u{1b}[0m unexpected argument"),
    }
}

fn err_invalid_value() -> (e: ParseError)
    ensures
        e@ == invalid_value_error(),
{
    ParseError {
        kind: ParseErrorKind::InvalidValue,
        message: String::from_str(
            "\u{1b}[31merror:\u{1b}[0m invalid value for num: expected a non-negative integer",
        ),
    }
}

fn is_help_token(t: &Vec<char>) -> (r: bool)
    ensures
        r == is_help(t@),
{
    token_eq(t, "help") || token_eq(t, "--help")
}

fn err_help(first: &Vec<char>) -> (e: ParseError)
    ensures
        e@ == help_error(first@),
{
    let mut message = String::from_str("\u{1b}[33mUSAGE:\u{1b}[0m portfolio ");
    if token_eq(first, "conway") {
        message.append("conway");
        message.append(" [--about]");
    } else if token_eq(first, "history") {
        message.append("history");
        message.append(" [clear | index <num>]");
    } else if token_eq(first, "about") {
        message.append("about");
    } else if token_eq(first, "contact") {
        message.append("contact");
    } else if token_eq(first, "skills") {
        message.append("skills");
    } else if token_eq(first, "projects") {
        message.append("projects");
    } else if token_eq(first, "diff") {
        message.append("diff");
    } else {
        message = String::from_str(
            "\u{1b}[33mUSAGE:\u{1b}[0m portfolio <command>\n\ncommands: about, contact, skills, projects, diff, conway, history\n\nFor more information try \u{1b}[32m--help\u{1b}[0m",
        );
    }
    ParseError { kind: ParseErrorKind::Help, message }
}

/// Parses one submitted line into a typed command or a structured error.
pub fn parse(input: &str) -> (r: Result<Command, ParseError>)
    ensures
        result_view(r) == parse_spec(input@),
{
    let cs = chars_of(input);
    let low = to_lower(&cs);
    let toks = tokenize(&low);
    let ghost stoks = tokens_of(lower_seq(input@));
    if toks.len() == 0 {
        return Err(err_no_command());
    }
    let mut help = false;
    let mut k: usize = 0;
    while k < toks.len()
        invariant
            k <= toks.len(),
            views_of(toks@) == stoks,
            help == exists|j: int| 0 <= j < k && is_help(stoks[j]),
        decreases toks.len() - k,
    {
        let h = is_help_token(&toks[k]);
        proof {
            assert(stoks[k as int] == toks@[k as int]@);
            if h {
                assert(is_help(stoks[k as int]));
            }
        }
        if h {
            help = true;
        }
        k = k + 1;
    }
    if help {
        return Err(err_help(&toks[0]));
    }
    if token_eq(&toks[0], "about") {
        if toks.len() == 1 {
            Ok(Command::About)
        } else {
            Err(err_unexpected_argument())
        }
    } else if token_eq(&toks[0], "contact") {
        if toks.len() == 1 {
            Ok(Command::Contact)
        } else {
            Err(err_unexpected_argument())
        }
    } else if token_eq(&toks[0], "skills") {
        if toks.len() == 1 {
            Ok(Command::Skills)
        } else {
            Err(err_unexpected_argument())
        }
    } else if token_eq(&toks[0], "projects") {
        if toks.len() == 1 {
            Ok(Command::Projects)
        } else {
            Err(err_unexpected_argument())
        }
    } else if token_eq(&toks[0], "diff") {
        if toks.len() == 1 {
            Ok(Command::Diff)
        } else {
            Err(err_unexpected_argument())
        }
    } else if token_eq(&toks[0], "conway") {
        if toks.len() == 1 {
            Ok(Command::Conway { about: false })
        } else if toks.len() == 2 && (token_eq(&toks[1], "--about") || token_eq(&toks[1], "-a")) {
            Ok(Command::Conway { about: true })
        } else {
            Err(err_unexpected_argument())
        }
    } else if token_eq(&toks[0], "history") {
        if toks.len() == 1 {
            Ok(Command::History { sub: None })
        } else if token_eq(&toks[1], "clear") {
            if toks.len() == 2 {
                Ok(Command::History { sub: Some(HistorySubCommand::Clear) })
            } else {
                Err(err_unexpected_argument())
            }
        } else if token_eq(&toks[1], "index") {
            if toks.len() == 2 {
                Err(err_invalid_value())
            } else if toks.len() > 3 {
                Err(err_unexpected_argument())
            } else {
                match parse_num(&toks[2]) {
                    Some(n) => Ok(
                        Command::History { sub: Some(HistorySubCommand::Index { num: n }) },
                    ),
                    None => Err(err_invalid_value()),
                }
            }
        } else {
            Err(err_unexpected_argument())
        }
    } else {
        Err(err_unknown_command())
    }
}

} // verus!
