//! How an import's progress is shown on a terminal.

use vstd::prelude::*;

verus! {

/// The `indicatif` template of the import spinner: elapsed time, bytes read
/// and read rate, and the message.
pub const SPINNER_STYLE: &'static str = "{spinner:.green} ⟪{elapsed_precise}⟫ {binary_bytes} ⟨{binary_bytes_per_sec}⟩ {msg}";

} // verus!
