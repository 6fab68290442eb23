//! Data tables with the `WDC5` magic and a 132-byte block before the header.
use vstd::prelude::*;
use std::collections::HashMap;

use crate::wdc::{check_layout, content_spec, extract, layout_ok, rows_view, WdcError};

verus! {

/// Where the header's fields start.
pub const FIELDS_AT: usize = 136;

pub open spec fn has_wdc5_magic(d: Seq<u8>) -> bool {
    d[0] == 0x57 && d[1] == 0x44 && d[2] == 0x43 && d[3] == 0x35
}

/// The strings of each row of a one-section `WDC5` table, keyed by row id.
pub fn strings(data: &[u8]) -> (r: Result<HashMap<u32, Vec<String>>, WdcError>)
    ensures
        !layout_ok(data@, FIELDS_AT as int) ==> r == Err::<HashMap<u32, Vec<String>>, WdcError>(
            WdcError::Parse,
        ),
        layout_ok(data@, FIELDS_AT as int) && !has_wdc5_magic(data@) ==> r == Err::<
            HashMap<u32, Vec<String>>,
            WdcError,
        >(WdcError::Magic),
        layout_ok(data@, FIELDS_AT as int) && has_wdc5_magic(data@) ==> match content_spec(
            data@,
            FIELDS_AT as int,
        ) {
            Ok(m) => r is Ok && rows_view(r->Ok_0@) == m,
            Err(e) => r is Err && r->Err_0 == e,
        },
{
    match check_layout(data, FIELDS_AT) {
        Err(e) => Err(e),
        Ok(()) => {
            if !(data[0] == 0x57 && data[1] == 0x44 && data[2] == 0x43 && data[3] == 0x35) {
                return Err(WdcError::Magic);
            }
            extract(data, FIELDS_AT)
        },
    }
}

} // verus!
