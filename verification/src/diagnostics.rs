//! What a run reports: the parse trace as text, the message of an error,
//! the time that the run took.

use crate::machine::{ErrorKind, ParseState};
use crate::parser::ParseError;
use crate::trace::{trace_window, window};
use vstd::prelude::*;

verus! {

/// The name of a state.
pub open spec fn state_label(state: ParseState) -> Seq<char> {
    match state {
        ParseState::TagName => "TagName"@,
        ParseState::Id => "Id"@,
        ParseState::Class => "Class"@,
        ParseState::AttrKey => "AttrKey"@,
        ParseState::AttrValOpen => "AttrValOpen"@,
        ParseState::AttrVal => "AttrVal"@,
        ParseState::AttrValClose => "AttrValClose"@,
        ParseState::PostAttr => "PostAttr"@,
        ParseState::Text => "Text"@,
    }
}

/// The name of a state.
pub fn state_name(state: ParseState) -> (name: &'static str)
    ensures
        name@ == state_label(state),
{
    match state {
        ParseState::TagName => "TagName",
        ParseState::Id => "Id",
        ParseState::Class => "Class",
        ParseState::AttrKey => "AttrKey",
        ParseState::AttrValOpen => "AttrValOpen",
        ParseState::AttrVal => "AttrVal",
        ParseState::AttrValClose => "AttrValClose",
        ParseState::PostAttr => "PostAttr",
        ParseState::Text => "Text",
    }
}

/// What an error of kind `kind` says.
pub open spec fn message_text(kind: ErrorKind) -> Seq<char> {
    match kind {
        ErrorKind::Misplaced => "Parse error. The character is not allowed at this place of a header"@,
        ErrorKind::EmptyToken => "Parse error. An id, a class or an attribute key cannot be blank"@,
        ErrorKind::DuplicateId => "Parse error. An element cannot have two ids"@,
        ErrorKind::Unterminated => "Parse error. Invalid line ending"@,
    }
}

impl ErrorKind {
    /// The message that describes the rule which the line broke.
    pub fn message(self) -> (text: &'static str)
        ensures
            text@ == message_text(self),
    {
        match self {
            ErrorKind::Misplaced => "Parse error. The character is not allowed at this place of a header",
            ErrorKind::EmptyToken => "Parse error. An id, a class or an attribute key cannot be blank",
            ErrorKind::DuplicateId => "Parse error. An element cannot have two ids",
            ErrorKind::Unterminated => "Parse error. Invalid line ending",
        }
    }
}

impl ParseError {
    /// The message that describes the rule which the line broke.
    pub fn message(&self) -> (text: &'static str)
        ensures
            text@ == message_text(self.kind),
    {
        self.kind.message()
    }
}

/// One trace entry as a line of text: the state, a colon, the character.
pub open spec fn entry_text(entry: (ParseState, char)) -> Seq<char> {
    state_label(entry.0) + ": "@ + seq![entry.1] + "\n"@
}

/// The trace entries as text, one line for each.
pub open spec fn stack_text(entries: Seq<(ParseState, char)>) -> Seq<char>
    decreases entries.len(),
{
    if entries.len() == 0 {
        Seq::empty()
    } else {
        stack_text(entries.drop_last()) + entry_text(entries.last())
    }
}

/// Appends the trace entries to `out`, one line for each.
fn push_stack(out: &mut String, entries: &Vec<(ParseState, char)>)
    ensures
        final(out)@ == old(out)@ + stack_text(entries@),
{
    let ghost start = out@;
    let mut i: usize = 0;
    while i < entries.len()
        invariant
            i <= entries.len(),
            out@ == start + stack_text(entries@.take(i as int)),
        decreases entries.len() - i,
    {
        let ghost done = entries@.take(i as int);
        let ghost more = entries@.take(i + 1);
        assert(more.drop_last() == done);
        let (state, c) = entries[i];
        out.append(state_name(state));
        out.append(": ");
        out.push(c);
        out.append("\n");
        i = i + 1;
    }
    assert(entries@.take(entries.len() as int) == entries@);
}

/// The last `limit` entries of the trace as text, one line for each; the
/// whole trace where `limit` is 0.
pub fn get_stack_string(trace: &Vec<(ParseState, char)>, limit: usize) -> (out: String)
    ensures
        out@ == stack_text(window(trace@, limit as nat)),
{
    let entries = trace_window(trace, limit);
    let mut out = String::new();
    push_stack(&mut out, &entries);
    out
}

/// The decimal digit for a number below ten.
pub open spec fn digit(d: nat) -> char {
    if d == 0 {
        '0'
    } else if d == 1 {
        '1'
    } else if d == 2 {
        '2'
    } else if d == 3 {
        '3'
    } else if d == 4 {
        '4'
    } else if d == 5 {
        '5'
    } else if d == 6 {
        '6'
    } else if d == 7 {
        '7'
    } else if d == 8 {
        '8'
    } else {
        '9'
    }
}

/// A number in decimal digits, without leading zeros.
pub open spec fn decimal(n: nat) -> Seq<char>
    decreases n,
{
    if n < 10 {
        seq![digit(n)]
    } else {
        decimal(n / 10).push(digit(n % 10))
    }
}

/// Appends `n` in decimal digits to `out`.
fn push_decimal(out: &mut String, n: u128)
    ensures
        final(out)@ == old(out)@ + decimal(n as nat),
    decreases n,
{
    if n >= 10 {
        push_decimal(out, n / 10);
    }
    let d = n % 10;
    let c = if d == 0 {
        '0'
    } else if d == 1 {
        '1'
    } else if d == 2 {
        '2'
    } else if d == 3 {
        '3'
    } else if d == 4 {
        '4'
    } else if d == 5 {
        '5'
    } else if d == 6 {
        '6'
    } else if d == 7 {
        '7'
    } else if d == 8 {
        '8'
    } else {
        '9'
    };
    out.push(c);
}

/// A span of time as text: its whole seconds, then the milliseconds that
/// are left.
pub open spec fn time_diff_text(millis: nat) -> Seq<char> {
    decimal(millis / 1000) + "s "@ + decimal(millis % 1000) + "ms"@
}

/// Appends a span of `millis` milliseconds to `out`.
fn push_time_diff(out: &mut String, millis: u128)
    ensures
        final(out)@ == old(out)@ + time_diff_text(millis as nat),
{
    let secs = millis / 1000;
    push_decimal(out, secs);
    out.append("s ");
    push_decimal(out, millis - secs * 1000);
    out.append("ms");
}

/// A span of `millis` milliseconds as text, such as `1s 250ms`.
pub fn get_time_diff_string(millis: u128) -> (out: String)
    ensures
        out@ == time_diff_text(millis as nat),
{
    let mut out = String::new();
    push_time_diff(&mut out, millis);
    out
}

/// What a failed run reports: the time it took, the line that failed, the
/// last entries of the parse trace, and the message.
pub open spec fn failure_text(
    millis: nat,
    line: nat,
    entries: Seq<(ParseState, char)>,
    kind: ErrorKind,
) -> Seq<char> {
    "Parser failed in "@ + time_diff_text(millis) + " on line "@ + decimal(line) + "\n\n"@
        + "Stack: \n"@ + stack_text(entries) + "\n\n"@ + "Message: "@ + message_text(kind)
        + "\n\n"@
}

/// The report of a run that failed with `error` after `millis` milliseconds.
pub fn get_parser_error_string(error: &ParseError, millis: u128) -> (out: String)
    ensures
        out@ == failure_text(millis as nat, error.line as nat, error.window@, error.kind),
{
    let mut out = String::from_str("Parser failed in ");
    push_time_diff(&mut out, millis);
    out.append(" on line ");
    push_decimal(&mut out, error.line as u128);
    out.append("\n\n");
    out.append("Stack: \n");
    push_stack(&mut out, &error.window);
    out.append("\n\n");
    out.append("Message: ");
    out.append(error.kind.message());
    out.append("\n\n");
    out
}

/// What a run that succeeded reports: the time it took and, in debug mode,
/// the whole parse trace.
pub open spec fn success_text(millis: nat, trace: Seq<(ParseState, char)>, debug: bool) -> Seq<
    char,
> {
    let summary = "Parser succeeded in "@ + time_diff_text(millis) + "\n\n"@;
    if debug {
        summary + "Stack:\n"@ + stack_text(trace) + "\n\n"@
    } else {
        summary
    }
}

/// The report of a run that succeeded after `millis` milliseconds.
pub fn get_parser_success_string(millis: u128, trace: &Vec<(ParseState, char)>, debug: bool) -> (out:
    String)
    ensures
        out@ == success_text(millis as nat, trace@, debug),
{
    let mut out = String::from_str("Parser succeeded in ");
    push_time_diff(&mut out, millis);
    out.append("\n\n");
    if debug {
        out.append("Stack:\n");
        push_stack(&mut out, trace);
        out.append("\n\n");
    }
    out
}

} // verus!
