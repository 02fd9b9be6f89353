//! Decisions of the places readings are stored in.

use vstd::prelude::*;

verus! {

/// Whether a CSV file about to be appended to needs its header row first:
/// `existing_len` is the file's length in bytes, or `None` when there is
/// no such file. A missing or empty file gets the header.
pub fn csv_needs_header(existing_len: Option<u64>) -> (needs: bool)
    ensures
        needs == match existing_len {
            None => true,
            Some(n) => n == 0,
        },
{
    match existing_len {
        None => true,
        Some(n) => n == 0,
    }
}

} // verus!
