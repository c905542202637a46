//! The privileged shell as the library sees it: a command goes in as text,
//! and what the command printed comes back with its success. The library
//! builds the commands and reads the outputs; running them is the caller's
//! part.

use vstd::prelude::*;
use vstd::string::StringExecFns;
use crate::text::{chars_of, replace, replaced, string_of};

verus! {

/// What a privileged command left behind.
#[derive(Debug)]
pub struct CommandOutput {
    pub stdout: String,
    pub stderr: String,
    pub success: bool,
}

/// The value of a command's output.
pub struct Output {
    pub stdout: Seq<char>,
    pub stderr: Seq<char>,
    pub success: bool,
}

impl View for CommandOutput {
    type V = Output;

    open spec fn view(&self) -> Output {
        Output { stdout: self.stdout@, stderr: self.stderr@, success: self.success }
    }
}

/// What the caller reports when it asks for the next step.
#[derive(Debug)]
pub enum ShellEvent {
    /// Nothing yet: the work starts.
    Begin,
    /// The command handed out last was run, with this output.
    Output(CommandOutput),
}

/// The value of an event.
pub enum Event {
    Begin,
    Output(Output),
}

impl View for ShellEvent {
    type V = Event;

    open spec fn view(&self) -> Event {
        match self {
            ShellEvent::Begin => Event::Begin,
            ShellEvent::Output(out) => Event::Output(out@),
        }
    }
}

/// What a command's output means. A command that succeeded gives what it
/// printed, or `OK` where it printed nothing. A command that failed gives its
/// complaint: what it wrote to the error stream, or, where that is empty,
/// what it printed.
pub open spec fn outcome(out: Output) -> Result<Seq<char>, Seq<char>> {
    if out.success {
        Ok(
            if out.stdout.len() == 0 {
                "OK"@
            } else {
                out.stdout
            },
        )
    } else {
        Err(
            if out.stderr.len() > 0 {
                out.stderr
            } else {
                out.stdout
            },
        )
    }
}

/// Reads the outcome of a command from its output.
pub fn command_outcome(out: CommandOutput) -> (r: Result<String, String>)
    ensures
        match r {
            Ok(m) => outcome(out@) == Ok::<Seq<char>, Seq<char>>(m@),
            Err(m) => outcome(out@) == Err::<Seq<char>, Seq<char>>(m@),
        },
{
    if out.success {
        if out.stdout.as_str().is_empty() {
            Ok(String::from_str("OK"))
        } else {
            Ok(out.stdout)
        }
    } else {
        if !out.stderr.as_str().is_empty() {
            Err(out.stderr)
        } else {
            Err(out.stdout)
        }
    }
}

/// `s` as one word of a shell command: in single quotes, each single quote
/// of `s` written as `'\''`.
pub open spec fn shell_quoted(s: Seq<char>) -> Seq<char> {
    "'"@ + replaced(s, "'"@, "'\\''"@) + "'"@
}

/// Writes `s` as one word of a shell command.
pub fn shell_quote(s: &str) -> (r: String)
    ensures
        r@ == shell_quoted(s@),
{
    let text = chars_of(s);
    let quote = chars_of("'");
    let inner = chars_of("'\\''");
    let body = replace(text.as_slice(), quote.as_slice(), inner.as_slice());
    let mut r = String::from_str("'");
    r.append(string_of(body.as_slice()).as_str());
    r.append("'");
    r
}

} // verus!
