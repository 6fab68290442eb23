//! The string view of a data table: the layout shared by the table variants.
use vstd::prelude::*;
use std::collections::HashMap;

use vstd::slice::slice_to_vec;
use vstd::utf8::{decode_utf8, valid_utf8};

use crate::text::utf8_string;

use crate::wire::{le16, le32, read_le16, read_le32};

verus! {

broadcast use vstd::std_specs::hash::group_hash_axioms;

/// Why a data table was refused.
#[derive(Debug, Clone, Copy, PartialEq, Eq, Structural)]
pub enum WdcError {
    /// The data ends inside the header or a part that the header declares.
    Parse,
    /// The magic is not the one this variant reads.
    Magic,
    /// The header's flags are not 4.
    Flags,
    /// The table has more or fewer than one section.
    Sections,
    /// The id list's length differs from the record count.
    RecordCount,
    /// The record size is not a multiple of 4.
    RecordSize,
    /// A field points before the string table, or at bytes that are not UTF-8.
    BadString,
}

/// Where the fields of the header start, after the magic and anything else.
pub open spec fn field(d: Seq<u8>, base: int, off: int) -> nat {
    le32(d, base + off)
}

pub open spec fn record_size(d: Seq<u8>, base: int) -> nat {
    field(d, base, 8)
}

pub open spec fn flags(d: Seq<u8>, base: int) -> nat {
    le16(d, base + 36)
}

pub open spec fn section_count(d: Seq<u8>, base: int) -> nat {
    field(d, base, 64)
}

/// Start of the section headers.
pub open spec fn section_headers(base: int) -> int {
    base + 68
}

/// Size of one section, from its header at `h`.
pub open spec fn section_size(d: Seq<u8>, h: int, rs: nat) -> nat {
    le32(d, h + 12) * rs + le32(d, h + 16) + (le32(d, h + 24) / 4) * 4 + le32(d, h + 36) * 8 + le32(
        d,
        h + 32,
    ) * 6 + le32(d, h + 28)
}

/// Total size of sections `i..count`.
pub open spec fn sections_size(d: Seq<u8>, base: int, i: nat) -> nat
    decreases section_count(d, base) - i,
{
    if i >= section_count(d, base) {
        0
    } else {
        section_size(d, section_headers(base) + 40 * i, record_size(d, base)) + sections_size(
            d,
            base,
            i + 1,
        )
    }
}

/// Start of the first section: after the header, section headers, field
/// structures, field storage info, pallet data and common data.
pub open spec fn sections_start(d: Seq<u8>, base: int) -> int {
    section_headers(base) + 40 * section_count(d, base) + 28 * field(d, base, 40) + field(
        d,
        base,
        60,
    ) + field(d, base, 56)
}

/// Whether the data holds everything that its header declares.
pub open spec fn layout_ok(d: Seq<u8>, base: int) -> bool {
    &&& section_headers(base) <= d.len()
    &&& sections_start(d, base) <= d.len()
    &&& sections_start(d, base) + sections_size(d, base, 0) <= d.len()
}

pub open spec fn num_records(d: Seq<u8>, base: int) -> nat {
    le32(d, section_headers(base) + 12)
}

pub open spec fn strings_start(d: Seq<u8>, base: int) -> int {
    sections_start(d, base) + num_records(d, base) * record_size(d, base)
}

pub open spec fn string_table_size(d: Seq<u8>, base: int) -> nat {
    le32(d, section_headers(base) + 16)
}

pub open spec fn ids_start(d: Seq<u8>, base: int) -> int {
    strings_start(d, base) + string_table_size(d, base)
}

pub open spec fn id_count(d: Seq<u8>, base: int) -> nat {
    le32(d, section_headers(base) + 24) / 4
}

/// End of a zero-terminated string that starts at `i` of `t`.
pub open spec fn cstr_end(t: Seq<u8>, i: int) -> int
    decreases t.len() - i,
{
    if i >= t.len() || i < 0 {
        t.len() as int
    } else if t[i] == 0 {
        i
    } else {
        cstr_end(t, i + 1)
    }
}

/// The zero-terminated string at `i` of `t`; empty past the end.
pub open spec fn cstr_at(t: Seq<u8>, i: int) -> Seq<u8> {
    if i >= t.len() {
        Seq::empty()
    } else {
        t.subrange(i, cstr_end(t, i))
    }
}

/// Where in the string table field `j` of record `k` points.
pub open spec fn string_index(d: Seq<u8>, base: int, k: int, j: int) -> int {
    let rs = record_size(d, base);
    let v = le32(d, sections_start(d, base) + k * rs + 4 * j);
    v - (num_records(d, base) - k) * rs + 4 * j
}

pub open spec fn string_table(d: Seq<u8>, base: int) -> Seq<u8> {
    d.subrange(strings_start(d, base), ids_start(d, base))
}

/// The bytes of field `j` of record `k`.
pub open spec fn field_bytes(d: Seq<u8>, base: int, k: int, j: int) -> Seq<u8> {
    cstr_at(string_table(d, base), string_index(d, base, k, j))
}

pub open spec fn field_ok(d: Seq<u8>, base: int, k: int, j: int) -> bool {
    string_index(d, base, k, j) >= 0 && valid_utf8(field_bytes(d, base, k, j))
}

/// The strings of record `k`.
pub open spec fn record_strings(d: Seq<u8>, base: int, k: int) -> Seq<Seq<char>> {
    Seq::new(record_size(d, base) / 4, |j: int| decode_utf8(field_bytes(d, base, k, j)))
}

/// Row id `k` of the id list.
pub open spec fn row_id(d: Seq<u8>, base: int, k: int) -> u32 {
    le32(d, ids_start(d, base) + 4 * k) as u32
}

/// The rows among the first `k` records, each id mapped to its strings.
pub open spec fn rows_map(d: Seq<u8>, base: int, k: nat) -> Map<u32, Seq<Seq<char>>>
    decreases k,
{
    if k == 0 {
        Map::empty()
    } else {
        rows_map(d, base, (k - 1) as nat).insert(
            row_id(d, base, k - 1),
            record_strings(d, base, k - 1),
        )
    }
}

/// The checks after the layout, in order.
pub open spec fn content_spec(d: Seq<u8>, base: int) -> Result<Map<u32, Seq<Seq<char>>>, WdcError> {
    if flags(d, base) != 4 {
        Err(WdcError::Flags)
    } else if section_count(d, base) != 1 {
        Err(WdcError::Sections)
    } else if id_count(d, base) != num_records(d, base) {
        Err(WdcError::RecordCount)
    } else if record_size(d, base) % 4 != 0 {
        Err(WdcError::RecordSize)
    } else if exists|k: int, j: int|
        0 <= k < num_records(d, base) && 0 <= j < record_size(d, base) / 4 && !#[trigger] field_ok(
            d,
            base,
            k,
            j,
        ) {
        Err(WdcError::BadString)
    } else {
        Ok(rows_map(d, base, num_records(d, base)))
    }
}

pub open spec fn rows_view(m: Map<u32, Vec<String>>) -> Map<u32, Seq<Seq<char>>> {
    m.map_values(|v: Vec<String>| v@.map_values(|s: String| s@))
}

/// Checks that the data holds every part that its header declares.
pub(crate) fn check_layout(data: &[u8], base: usize) -> (r: Result<(), WdcError>)
    requires
        base <= 136,
    ensures
        r is Ok <==> layout_ok(data@, base as int),
        r is Err ==> r == Err::<(), WdcError>(WdcError::Parse),
{
    let ghost d = data@;
    let n = data.len() as u128;
    let sh = base + 68;
    if sh as u128 > n {
        return Err(WdcError::Parse);
    }
    let sc = read_le32(data, base + 64) as u128;
    let rs = read_le32(data, base + 8) as u128;
    let start = sh as u128 + 40 * sc + 28 * (read_le32(data, base + 40) as u128) + (read_le32(
        data,
        base + 60,
    ) as u128) + (read_le32(data, base + 56) as u128);
    if start > n {
        return Err(WdcError::Parse);
    }
    let mut end = start;
    let mut i: u128 = 0;
    while i < sc
        invariant
            d == data@,
            n == d.len(),
            n <= usize::MAX,
            sh == section_headers(base as int),
            sc == section_count(d, base as int),
            rs == record_size(d, base as int),
            start == sections_start(d, base as int),
            start <= n,
            sh + 40 * sc <= start,
            i <= sc,
            start <= end <= n,
            start + sections_size(d, base as int, 0) == end + sections_size(d, base as int, i as nat),
        decreases sc - i,
    {
        assert(sh + 40 * i + 40 <= n);
        let h = (sh as u128 + 40 * i) as usize;
        let rc = read_le32(data, h + 12) as u128;
        assert(rc * rs <= 0xffff_ffff * 0xffff_ffff) by (nonlinear_arith)
            requires
                rc <= 0xffff_ffff,
                rs <= 0xffff_ffff,
        ;
        let size = rc * rs + (read_le32(data, h + 16) as u128) + ((read_le32(data, h + 24) / 4) as u128)
            * 4 + (read_le32(data, h + 36) as u128) * 8 + (read_le32(data, h + 32) as u128) * 6 + (
        read_le32(data, h + 28) as u128);
        if size > n - end {
            return Err(WdcError::Parse);
        }
        end = end + size;
        i = i + 1;
    }
    Ok(())
}

/// Reads the strings of every record, keyed by row id.
pub(crate) fn extract(data: &[u8], base: usize) -> (r: Result<HashMap<u32, Vec<String>>, WdcError>)
    requires
        base <= 136,
        layout_ok(data@, base as int),
    ensures
        match content_spec(data@, base as int) {
            Ok(m) => r is Ok && rows_view(r->Ok_0@) == m,
            Err(e) => r is Err && r->Err_0 == e,
        },
{
    let ghost d = data@;
    let ghost b = base as int;
    let n = data.len();
    if read_le16(data, base + 36) != 4 {
        return Err(WdcError::Flags);
    }
    if read_le32(data, base + 64) != 1 {
        return Err(WdcError::Sections);
    }
    let sh = base + 68;
    let nr = read_le32(data, sh + 12) as usize;
    if (read_le32(data, sh + 24) / 4) as usize != nr {
        return Err(WdcError::RecordCount);
    }
    let rs = read_le32(data, base + 8) as usize;
    if rs % 4 != 0 {
        return Err(WdcError::RecordSize);
    }
    assert(sections_size(d, b, 1) == 0);
    let start = (sh as u128 + 40 + 28 * (read_le32(data, base + 40) as u128) + (read_le32(
        data,
        base + 60,
    ) as u128) + (read_le32(data, base + 56) as u128)) as usize;
    assert(nr * rs <= section_size(d, sh as int, rs as nat)) by (nonlinear_arith)
        requires
            nr == le32(d, sh + 12),
            section_size(d, sh as int, rs as nat) == le32(d, sh + 12) * rs + le32(d, sh + 16) + (
            le32(d, sh + 24) / 4) * 4 + le32(d, sh + 36) * 8 + le32(d, sh + 32) * 6 + le32(
                d,
                sh + 28,
            ),
    ;
    let strings = start + nr * rs;
    let table_size = read_le32(data, sh + 16) as usize;
    let ids = strings + table_size;
    let table = &data[strings..ids];
    let per_record = rs / 4;
    let mut map: HashMap<u32, Vec<String>> = HashMap::new();
    let mut k: usize = 0;
    proof {
        assert(rows_view(map@) =~= rows_map(d, b, 0));
    }
    while k < nr
        invariant
            d == data@,
            b == base,
            n == d.len(),
            base <= 136,
            sh == section_headers(b),
            start == sections_start(d, b),
            nr == num_records(d, b),
            rs == record_size(d, b),
            rs % 4 == 0,
            per_record == rs / 4,
            strings == strings_start(d, b),
            strings == start + nr * rs,
            ids == ids_start(d, b),
            ids + 4 * nr <= n,
            table@ == string_table(d, b),
            content_spec(d, b) == (if exists|k: int, j: int|
                0 <= k < nr && 0 <= j < per_record && !#[trigger] field_ok(d, b, k, j) {
                Err(WdcError::BadString)
            } else {
                Ok(rows_map(d, b, nr as nat))
            }),
            k <= nr,
            forall|kk: int, j: int| 0 <= kk < k && 0 <= j < per_record ==> #[trigger] field_ok(d, b, kk, j),
            rows_view(map@) == rows_map(d, b, k as nat),
        decreases nr - k,
    {
        assert(k * rs + rs <= nr * rs) by (nonlinear_arith)
            requires
                k < nr,
        ;
        let rec = start + k * rs;
        let mut row: Vec<String> = Vec::new();
        let mut j: usize = 0;
        while j < per_record
            invariant
                d == data@,
                b == base,
                n == d.len(),
                start == sections_start(d, b),
                nr == num_records(d, b),
                rs == record_size(d, b),
                rs % 4 == 0,
                per_record == rs / 4,
                k < nr,
                nr <= 0xffff_ffff,
                rs <= 0xffff_ffff,
                rec == start + k * rs,
                rec + rs <= strings,
                strings <= n,
                table@ == string_table(d, b),
                j <= per_record,
                content_spec(d, b) == (if exists|k: int, j: int|
                    0 <= k < nr && 0 <= j < per_record && !#[trigger] field_ok(d, b, k, j) {
                    Err(WdcError::BadString)
                } else {
                    Ok(rows_map(d, b, nr as nat))
                }),
                forall|jj: int| 0 <= jj < j ==> #[trigger] field_ok(d, b, k as int, jj),
                row@.len() == j,
                forall|jj: int|
                    0 <= jj < j ==> #[trigger] row@[jj]@ == decode_utf8(
                        field_bytes(d, b, k as int, jj),
                    ),
            decreases per_record - j,
        {
            let v = read_le32(data, rec + 4 * j) as u128;
            assert((nr - k) * rs <= 0xffff_ffff * 0xffff_ffff) by (nonlinear_arith)
                requires
                    nr - k <= 0xffff_ffff,
                    rs <= 0xffff_ffff,
            ;
            let back = ((nr - k) as u128) * (rs as u128);
            assert(back == (nr - k) * rs);
            if v + 4 * (j as u128) < back {
                assert(!field_ok(d, b, k as int, j as int));
                return Err(WdcError::BadString);
            }
            let idx = v + 4 * (j as u128) - back;
            let tl = table.len();
            let mut e: usize = if idx < tl as u128 {
                idx as usize
            } else {
                tl
            };
            let s = e;
            while e < tl && table[e] != 0
                invariant
                    tl == table@.len(),
                    s <= e <= tl,
                    cstr_end(table@, s as int) == cstr_end(table@, e as int),
                decreases tl - e,
            {
                e = e + 1;
            }
            let bytes = slice_to_vec(&table[s..e]);
            assert(bytes@ == field_bytes(d, b, k as int, j as int));
            match utf8_string(bytes) {
                Some(text) => {
                    row.push(text);
                },
                None => {
                    assert(!field_ok(d, b, k as int, j as int));
                    return Err(WdcError::BadString);
                },
            }
            j = j + 1;
        }
        let id = read_le32(data, ids + 4 * k);
        let ghost before = map@;
        map.insert(id, row);
        proof {
            assert(row@.map_values(|s: String| s@) =~= record_strings(d, b, k as int));
            assert(rows_view(map@) =~= rows_view(before).insert(id, record_strings(d, b, k as int)));
        }
        k = k + 1;
    }
    Ok(map)
}

} // verus!
