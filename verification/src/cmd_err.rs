//! Errors of the command line and the message each one shows.
use vstd::prelude::*;

use crate::text::{push_dec, push_text};

verus! {

/// Why a command could not be carried out; the payload is the part of the
/// command that was at fault.
pub enum CmdErr<'a> {
    InvalidArg(&'a str),
    InvalidCommand(&'a str),
    InvalidConId(&'a str),
    InvalidDec(&'a str),
    InvalidHex(char),
    InvalidIndex(usize),
    InvalidSubCmd(&'a str),
    MissingConId(&'a str),
    MissingList(&'a str),
    MissingLocation(&'a str),
    MissingName(&'a str),
    MissingRange(&'a str),
    MissingValue(&'a str),
    MissingSubCmd(&'a str),
    MissingTarget(&'a str),
    NoId(&'a str),
    NoName(&'a str),
    NoNameContains(&'a str),
    SameCon,
    StdinErr(&'a str),
    TooManyArgs(&'a str),
    UnknownSpec(&'a str),
}

/// The start of an error line: moves to row `line`, column 1 and clears it
/// (for two variants the escape character itself is missing, as shown).
pub open spec fn message_prefix(plain: bool, line: nat) -> Seq<char> {
    (if plain {
        "\x1b["@
    } else {
        "x1b["@
    }) + crate::text::dec_text(line) + ";1H\x1b[2KERR: "@
}

/// The text of the message for `err`, after the prefix.
pub open spec fn message_body(err: CmdErr) -> Seq<char> {
    match err {
        CmdErr::InvalidArg(s) => "invalid argument '"@ + s@ + "'"@,
        CmdErr::InvalidCommand(s) => "invalid command '"@ + s@ + "'"@,
        CmdErr::InvalidConId(s) => "invalid context id '"@ + s@ + "'"@,
        CmdErr::InvalidDec(s) => "'"@ + s@ + "' cannot be coerced to decimal"@,
        CmdErr::InvalidHex(c) => "'"@ + seq![c] + "' is not valid hexadecimal"@,
        CmdErr::InvalidIndex(i) => "index '"@ + crate::text::dec_text(i as nat) + "' is out of bounds"@,
        CmdErr::InvalidSubCmd(s) => "invalid sub-command '"@ + s@ + "'"@,
        CmdErr::MissingConId(s) => "missing context id for '"@ + s@ + "'"@,
        CmdErr::MissingList(s) => "missing list for '"@ + s@ + "'"@,
        CmdErr::MissingLocation(s) => "missing location for '"@ + s@ + "'"@,
        CmdErr::MissingName(s) => "missing name for '"@ + s@ + "'"@,
        CmdErr::MissingRange(s) => "missing range for '"@ + s@ + "'"@,
        CmdErr::MissingValue(s) => "missing value for '"@ + s@ + "'"@,
        CmdErr::MissingSubCmd(s) => "missing sub-command for '"@ + s@ + "'"@,
        CmdErr::MissingTarget(s) => "missing target index for '"@ + s@ + "'"@,
        CmdErr::NoId(s) => "no column id '"@ + s@ + "'"@,
        CmdErr::NoName(s) => "no column called '"@ + s@ + "'"@,
        CmdErr::NoNameContains(s) => "no column name contains '"@ + s@ + "'"@,
        CmdErr::SameCon => "can't splice the active context to itself"@,
        CmdErr::StdinErr(s) => "stdin error while processing '"@ + s@ + "'"@,
        CmdErr::TooManyArgs(s) => "too many argumentss for '"@ + s@ + "'"@,
        CmdErr::UnknownSpec(s) => "unknown specifier '"@ + s@ + "'"@,
    }
}

/// Whether the message for `err` starts with the escape character.
pub open spec fn message_plain(err: CmdErr) -> bool {
    match err {
        CmdErr::StdinErr(_) => false,
        CmdErr::TooManyArgs(_) => false,
        _ => true,
    }
}

/// The whole message for `err` shown on row `line`.
pub open spec fn message_text(err: CmdErr, line: nat) -> Seq<char> {
    message_prefix(message_plain(err), line) + message_body(err)
}

/// The message for `err`, placed on row `line` of the terminal.
pub fn message(err: &CmdErr, line: usize) -> (s: String)
    ensures
        s@ == message_text(*err, line as nat),
{
    let mut out = String::new();
    let plain = match err {
        CmdErr::StdinErr(_) => false,
        CmdErr::TooManyArgs(_) => false,
        _ => true,
    };
    if plain {
        push_text(&mut out, "\x1b[");
    } else {
        push_text(&mut out, "x1b[");
    }
    push_dec(&mut out, line);
    push_text(&mut out, ";1H\x1b[2KERR: ");
    match err {
        CmdErr::InvalidArg(s) => {
            push_text(&mut out, "invalid argument '");
            push_text(&mut out, s);
            push_text(&mut out, "'");
        },
        CmdErr::InvalidCommand(s) => {
            push_text(&mut out, "invalid command '");
            push_text(&mut out, s);
            push_text(&mut out, "'");
        },
        CmdErr::InvalidConId(s) => {
            push_text(&mut out, "invalid context id '");
            push_text(&mut out, s);
            push_text(&mut out, "'");
        },
        CmdErr::InvalidDec(s) => {
            push_text(&mut out, "'");
            push_text(&mut out, s);
            push_text(&mut out, "' cannot be coerced to decimal");
        },
        CmdErr::InvalidHex(c) => {
            push_text(&mut out, "'");
            out.push(*c);
            push_text(&mut out, "' is not valid hexadecimal");
        },
        CmdErr::InvalidIndex(i) => {
            push_text(&mut out, "index '");
            push_dec(&mut out, *i);
            push_text(&mut out, "' is out of bounds");
        },
        CmdErr::InvalidSubCmd(s) => {
            push_text(&mut out, "invalid sub-command '");
            push_text(&mut out, s);
            push_text(&mut out, "'");
        },
        CmdErr::MissingConId(s) => {
            push_text(&mut out, "missing context id for '");
            push_text(&mut out, s);
            push_text(&mut out, "'");
        },
        CmdErr::MissingList(s) => {
            push_text(&mut out, "missing list for '");
            push_text(&mut out, s);
            push_text(&mut out, "'");
        },
        CmdErr::MissingLocation(s) => {
            push_text(&mut out, "missing location for '");
            push_text(&mut out, s);
            push_text(&mut out, "'");
        },
        CmdErr::MissingName(s) => {
            push_text(&mut out, "missing name for '");
            push_text(&mut out, s);
            push_text(&mut out, "'");
        },
        CmdErr::MissingRange(s) => {
            push_text(&mut out, "missing range for '");
            push_text(&mut out, s);
            push_text(&mut out, "'");
        },
        CmdErr::MissingValue(s) => {
            push_text(&mut out, "missing value for '");
            push_text(&mut out, s);
            push_text(&mut out, "'");
        },
        CmdErr::MissingSubCmd(s) => {
            push_text(&mut out, "missing sub-command for '");
            push_text(&mut out, s);
            push_text(&mut out, "'");
        },
        CmdErr::MissingTarget(s) => {
            push_text(&mut out, "missing target index for '");
            push_text(&mut out, s);
            push_text(&mut out, "'");
        },
        CmdErr::NoId(s) => {
            push_text(&mut out, "no column id '");
            push_text(&mut out, s);
            push_text(&mut out, "'");
        },
        CmdErr::NoName(s) => {
            push_text(&mut out, "no column called '");
            push_text(&mut out, s);
            push_text(&mut out, "'");
        },
        CmdErr::NoNameContains(s) => {
            push_text(&mut out, "no column name contains '");
            push_text(&mut out, s);
            push_text(&mut out, "'");
        },
        CmdErr::SameCon => {
            push_text(&mut out, "can't splice the active context to itself");
        },
        CmdErr::StdinErr(s) => {
            push_text(&mut out, "stdin error while processing '");
            push_text(&mut out, s);
            push_text(&mut out, "'");
        },
        CmdErr::TooManyArgs(s) => {
            push_text(&mut out, "too many argumentss for '");
            push_text(&mut out, s);
            push_text(&mut out, "'");
        },
        CmdErr::UnknownSpec(s) => {
            push_text(&mut out, "unknown specifier '");
            push_text(&mut out, s);
            push_text(&mut out, "'");
        },
    }
    out
}

} // verus!
