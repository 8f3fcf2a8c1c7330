//! Preparing a parsed history for import, and reporting the import.

use vstd::prelude::*;
use crate::error::HonuError;
use crate::execution::ExecutionView;
use crate::record::{Record, RecordView};

verus! {

/// `record` marked as run by `shell`.
pub open spec fn with_shell(record: RecordView, shell: Seq<char>) -> RecordView {
    RecordView { execution: ExecutionView { shell: Some(shell), ..record.execution }, ..record }
}

/// The record an item holds, if it holds one.
pub open spec fn item_view(item: Result<Record, HonuError>) -> Option<RecordView> {
    match item {
        Ok(record) => Some(record@),
        Err(_) => None,
    }
}

/// What is handed to `Database::import` for a parsed history of `shell`: each
/// record marked as run by `shell`, or the error that stopped the parse.
pub fn import_items(parsed: Result<Vec<Record>, HonuError>, shell: &str) -> (r: Vec<
    Result<Record, HonuError>,
>)
    ensures
        match parsed {
            Ok(records) => r@.len() == records@.len() && forall|i: int|
                0 <= i < r@.len() ==> item_view(#[trigger] r@[i]) == Some(with_shell(records@[i]@, shell@)),
            Err(e) => r@ == seq![Err::<Record, HonuError>(e)],
        },
{
    match parsed {
        Ok(records) => {
            let ghost all = records@;
            let mut items: Vec<Result<Record, HonuError>> = Vec::new();
            for record in it: records
                invariant
                    it.seq() == all,
                    items@.len() == it.index(),
                    forall|i: int|
                        0 <= i < it.index() ==> item_view(#[trigger] items@[i]) == Some(
                            with_shell(all[i]@, shell@),
                        ),
            {
                let mut record = record;
                record.execution.shell = Some(String::from_str(shell));
                items.push(Ok(record));
            }
            items
        },
        Err(e) => {
            let mut items: Vec<Result<Record, HonuError>> = Vec::new();
            items.push(Err(e));
            items
        },
    }
}

/// The report of an import of `inserted` new executions from `path`.
pub fn import_message(inserted: usize, path: &str) -> (r: String)
    ensures
        r@ == "imported "@ + crate::text::decimal(inserted as nat) + " executions from "@ + path@,
{
    let mut out: Vec<char> = Vec::new();
    crate::text::push_str(&mut out, "imported ");
    crate::text::push_decimal(&mut out, inserted as u64);
    crate::text::push_str(&mut out, " executions from ");
    crate::text::push_str(&mut out, path);
    crate::text::string_from_chars(out.as_slice())
}

} // verus!
