//! Data tables whose header follows the magic directly.
use vstd::prelude::*;
use std::collections::HashMap;

use crate::wdc::{check_layout, content_spec, extract, layout_ok, rows_view, WdcError};

verus! {

/// Where the header's fields start.
pub const FIELDS_AT: usize = 4;

/// The strings of each row of a one-section table, keyed by row id.
pub fn strings(data: &[u8]) -> (r: Result<HashMap<u32, Vec<String>>, WdcError>)
    ensures
        !layout_ok(data@, FIELDS_AT as int) ==> r == Err::<HashMap<u32, Vec<String>>, WdcError>(
            WdcError::Parse,
        ),
        layout_ok(data@, FIELDS_AT as int) ==> match content_spec(data@, FIELDS_AT as int) {
            Ok(m) => r is Ok && rows_view(r->Ok_0@) == m,
            Err(e) => r is Err && r->Err_0 == e,
        },
{
    match check_layout(data, FIELDS_AT) {
        Err(e) => Err(e),
        Ok(()) => extract(data, FIELDS_AT),
    }
}

} // verus!
