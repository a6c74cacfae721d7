//! Row dumps (`--csv`, `--ndjson`): how many rows `--head` lets through.

use vstd::prelude::*;

verus! {

/// The row limit of `--csv`: `--head n` for `n` above zero, as the 32-bit
/// row count that the scanner takes (`n as u32`); no limit otherwise.
pub fn csv_row_limit(head: Option<u64>) -> (r: Option<u32>)
    ensures
        r == match head {
            Some(n) => if n > 0 {
                Some(n as u32)
            } else {
                None
            },
            None => None::<u32>,
        },
{
    match head {
        Some(n) => if n > 0 {
            Some(#[verifier::truncate] (n as u32))
        } else {
            None
        },
        None => None,
    }
}

/// The row limit of `--ndjson`: `--head n` (as `n as u32`) unless rows are
/// sampled, in which case `--head` is ignored.
pub fn ndjson_row_limit(head: Option<u64>, sample: Option<u64>) -> (r: Option<u32>)
    ensures
        r == match head {
            Some(n) => if sample is None {
                Some(n as u32)
            } else {
                None
            },
            None => None::<u32>,
        },
{
    match head {
        Some(n) => if sample.is_none() {
            Some(#[verifier::truncate] (n as u32))
        } else {
            None
        },
        None => None,
    }
}

} // verus!
