//! The content that a command prints: what to hand out of it, and when.
//!
//! The command itself is run elsewhere. What it printed, or why it could not be run, comes in
//! here; what goes out is the content to show, where there is something new to show.

use crate::chars::same_text;
use crate::error::SourceError;
use vstd::prelude::*;
use vstd::string::*;

verus! {

/// Why the output of a command cannot be had.
#[derive(Debug)]
pub enum CommandError {
    /// The command could not be run; the message says why.
    Io(String),
    /// The command printed what is no UTF-8 text; the message says where.
    UTF8(String),
}

/// The text of a command error.
pub open spec fn command_error_text(e: CommandError) -> Seq<char> {
    match e {
        CommandError::Io(m) => "Io error while executing command: "@ + m@,
        CommandError::UTF8(m) => "Child process has outputed invalid UTF-8: "@ + m@,
    }
}

impl CommandError {
    /// The error as a text.
    pub fn to_string(&self) -> (r: String)
        ensures
            r@ == command_error_text(*self),
    {
        match self {
            CommandError::Io(m) => "Io error while executing command: ".to_owned().concat(
                m.as_str(),
            ),
            CommandError::UTF8(m) => "Child process has outputed invalid UTF-8: ".to_owned().concat(
                m.as_str(),
            ),
        }
    }

    /// The error as the error of a source.
    pub fn into_source_error(self) -> (r: SourceError)
        ensures
            r.message@ == command_error_text(self),
    {
        SourceError::new(self.to_string())
    }
}

/// What the command printed when it was last run.
pub struct LastOutput {
    last_output: String,
}

impl View for LastOutput {
    type V = Seq<char>;

    closed spec fn view(&self) -> Seq<char> {
        self.last_output@
    }
}

/// What a run of the command gives to show: `None` where it printed what it printed before,
/// else its output, or the reason why there is none.
pub open spec fn observed(last: Seq<char>, run: Result<String, CommandError>) -> Option<
    Result<Seq<char>, Seq<char>>,
> {
    match run {
        Err(e) => Some(Err(command_error_text(e))),
        Ok(output) => if output@ == last {
            None
        } else {
            Some(Ok(output@))
        },
    }
}

/// What is kept after a run of the command: its output, where it has one.
pub open spec fn kept(last: Seq<char>, run: Result<String, CommandError>) -> Seq<char> {
    match run {
        Err(_) => last,
        Ok(output) => output@,
    }
}

/// A result for a source as a mathematical value.
pub open spec fn outcome(r: Option<Result<String, SourceError>>) -> Option<
    Result<Seq<char>, Seq<char>>,
> {
    match r {
        None => None,
        Some(Ok(s)) => Some(Ok(s@)),
        Some(Err(e)) => Some(Err(e.message@)),
    }
}

impl LastOutput {
    /// Before the command has run, nothing is kept.
    pub fn new() -> (r: Self)
        ensures
            r@ == Seq::<char>::empty(),
    {
        LastOutput { last_output: String::new() }
    }

    /// The output that is kept, where it is not empty. Where it is empty, the command must be
    /// run to have a content.
    pub fn get(&self) -> (r: Option<String>)
        ensures
            match r {
                Some(s) => self@.len() > 0 && s@ == self@,
                None => self@.len() == 0,
            },
    {
        if self.last_output.as_str().unicode_len() > 0 {
            Some(self.last_output.clone())
        } else {
            None
        }
    }

    /// The content after the first run of the command, of which `run` is the outcome: its
    /// output or the reason why there is none; the empty text where the output is the one that
    /// is kept.
    pub fn first(&mut self, run: Result<String, CommandError>) -> (r: Result<String, SourceError>)
        ensures
            match observed(old(self)@, run) {
                Some(Ok(s)) => r is Ok && r->Ok_0@ == s,
                Some(Err(m)) => r is Err && r->Err_0.message@ == m,
                None => r is Ok && r->Ok_0@ == Seq::<char>::empty(),
            },
            final(self)@ == kept(old(self)@, run),
    {
        match self.observe(run) {
            Some(r) => r,
            None => Ok(String::new()),
        }
    }

    /// Takes in the outcome `run` of a run of the command, and hands out what there is to
    /// show: the output where it differs from the one that is kept, which it then replaces; the
    /// error where the run failed; nothing where the output is the one that is kept.
    pub fn observe(&mut self, run: Result<String, CommandError>) -> (r: Option<
        Result<String, SourceError>,
    >)
        ensures
            outcome(r) == observed(old(self)@, run),
            final(self)@ == kept(old(self)@, run),
    {
        match run {
            Err(e) => Some(Err(e.into_source_error())),
            Ok(output) => {
                if same_text(self.last_output.as_str(), output.as_str()) {
                    None
                } else {
                    self.last_output = output.clone();
                    Some(Ok(output))
                }
            },
        }
    }
}

} // verus!
