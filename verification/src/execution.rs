//! A recorded execution of a shell command.

use vstd::prelude::*;

verus! {

/// One execution of a shell command, with the metadata the shell reported.
#[derive(Clone, Debug, Default, PartialEq, Eq)]
pub struct Execution {
    pub command: String,
    pub directory: Option<String>,
    pub duration_ns: Option<i64>,
    pub exit_code: Option<i32>,
    pub hostname: Option<String>,
    pub session: Option<String>,
    pub shell: Option<String>,
    pub timestamp_ns: i64,
}

/// The text of an optional string.
pub open spec fn text_view(s: Option<String>) -> Option<Seq<char>> {
    match s {
        Some(s) => Some(s@),
        None => None,
    }
}

pub struct ExecutionView {
    pub command: Seq<char>,
    pub directory: Option<Seq<char>>,
    pub duration_ns: Option<i64>,
    pub exit_code: Option<i32>,
    pub hostname: Option<Seq<char>>,
    pub session: Option<Seq<char>>,
    pub shell: Option<Seq<char>>,
    pub timestamp_ns: i64,
}

impl View for Execution {
    type V = ExecutionView;

    open spec fn view(&self) -> ExecutionView {
        ExecutionView {
            command: self.command@,
            directory: text_view(self.directory),
            duration_ns: self.duration_ns,
            exit_code: self.exit_code,
            hostname: text_view(self.hostname),
            session: text_view(self.session),
            shell: text_view(self.shell),
            timestamp_ns: self.timestamp_ns,
        }
    }
}

/// An execution of `command` at `timestamp_ns`, with nothing else known.
pub open spec fn bare_execution(
    command: Seq<char>,
    duration_ns: Option<i64>,
    timestamp_ns: i64,
) -> ExecutionView {
    ExecutionView {
        command,
        directory: None,
        duration_ns,
        exit_code: None,
        hostname: None,
        session: None,
        shell: None,
        timestamp_ns,
    }
}

impl Execution {
    /// The working directory the command ran in, as text.
    pub fn directory(&self) -> (r: Result<Option<&str>, crate::error::HonuError>)
        ensures
            match r {
                Ok(Some(d)) => self.directory matches Some(s) && d@ == s@,
                Ok(None) => self.directory is None,
                Err(_) => false,
            },
    {
        match &self.directory {
            Some(directory) => Ok(Some(directory.as_str())),
            None => Ok(None),
        }
    }
}

} // verus!

verus! {

/// The line listing an execution: its timestamp, its exit code (empty when
/// unknown) and its command, separated by tabs.
pub open spec fn listing_text(execution: ExecutionView) -> Seq<char> {
    crate::text::signed_decimal(execution.timestamp_ns as int) + seq!['\t'] + match execution.exit_code {
        Some(code) => crate::text::signed_decimal(code as int),
        None => Seq::empty(),
    } + seq!['\t'] + execution.command
}

impl Execution {
    /// The line `list` and `search` print for this execution.
    pub fn listing(&self) -> (r: String)
        ensures
            r@ == listing_text(self@),
    {
        let mut out: Vec<char> = Vec::new();
        crate::text::push_signed_decimal(&mut out, self.timestamp_ns);
        out.push('\t');
        let ghost after_timestamp = out@;
        match self.exit_code {
            Some(code) => crate::text::push_signed_decimal(&mut out, code as i64),
            None => {},
        }
        let ghost exit_text = match self.exit_code {
            Some(code) => crate::text::signed_decimal(code as int),
            None => Seq::<char>::empty(),
        };
        assert(out@ == after_timestamp + exit_text);
        out.push('\t');
        crate::text::push_str(&mut out, self.command.as_str());
        crate::text::string_from_chars(out.as_slice())
    }
}

} // verus!
