//! The most recent execution of a distinct command line, as search lists it.

use vstd::prelude::*;
use crate::path::{base_name, file_name_of};
use crate::text::{chars_of, string_from_chars};

verus! {

#[derive(Clone, Debug, Default, PartialEq, Eq)]
pub struct Command {
    pub directory: Option<String>,
    pub exit_code: Option<i32>,
    pub text: String,
    pub timestamp_ns: i64,
}

/// The final component of `directory`, or all of it when it has none.
pub fn base_name_of(directory: &str) -> (r: String)
    ensures
        r@ == base_name(directory@),
{
    let chars = chars_of(directory);
    match file_name_of(&chars) {
        Some(name) => string_from_chars(name.as_slice()),
        None => string_from_chars(chars.as_slice()),
    }
}

impl Command {
    /// The name of the directory the command ran in.
    pub fn directory_name(&self) -> (r: Option<String>)
        ensures
            match self.directory {
                Some(d) => r matches Some(n) && n@ == base_name(d@),
                None => r is None,
            },
    {
        match &self.directory {
            Some(directory) => Some(base_name_of(directory.as_str())),
            None => None,
        }
    }
}

} // verus!
