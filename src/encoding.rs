//! The encoding table: content key to the list of its encoding keys.
use vstd::prelude::*;
use std::collections::HashMap;

use vstd::slice::slice_to_vec;
use vstd::utf8::{decode_utf8, valid_utf8};

use crate::hashing::{content_hash_of, md5hash};
use crate::text::utf8_string;
use crate::keys::{ContentKey, EncodingKey, LookupError};
use crate::wire::{be128, be16, be32, be40, read_be128, read_be16, read_be32, read_be40};

verus! {

broadcast use vstd::std_specs::hash::group_hash_axioms;

/// Why an encoding table was refused.
#[derive(Debug, Clone, Copy, PartialEq, Eq, Structural)]
pub enum EncodingError {
    /// The data ends before a header field, a directory, a page or an entry.
    Truncated,
    /// The data does not start with `EN`.
    NotEncoding,
    /// The version byte is not 1.
    Version,
    /// The content-key size is not 16.
    ContentKeySize,
    /// The encoding-key size is not 16.
    EncodingKeySize,
    /// The reserved header byte is not zero.
    NonzeroByte,
    /// A page does not match its hash in the directory.
    PageChecksum,
    /// A page's first entry does not carry the directory's first key.
    FirstKeyMismatch,
    /// An encoding spec is not UTF-8 text.
    Espec,
}

/// The pieces of `s` between occurrences of `sep`: one more than there are
/// separators.
pub open spec fn split_bytes(s: Seq<u8>, sep: u8) -> Seq<Seq<u8>>
    decreases s.len(),
{
    if s.len() == 0 {
        seq![Seq::empty()]
    } else {
        let rest = split_bytes(s.drop_last(), sep);
        if s.last() == sep {
            rest.push(Seq::empty())
        } else {
            rest.update(rest.len() - 1, rest.last().push(s.last()))
        }
    }
}

/// The encoding specs of the table after the header, split at zero bytes.
pub open spec fn espec_table(d: Seq<u8>) -> Seq<Seq<u8>> {
    split_bytes(d.subrange(22, cdir_start(d)), 0)
}

pub open spec fn all_utf8(p: Seq<Seq<u8>>) -> bool {
    forall|i: int| 0 <= i < p.len() ==> valid_utf8(#[trigger] p[i])
}

/// The text after the last encoding page.
pub open spec fn trailing_espec(d: Seq<u8>) -> Seq<u8> {
    d.subrange(epages_start(d) + epage_size(d) * ecount(d), d.len() as int)
}

/// Size of the header.
pub const HEADER_SIZE: u64 = 22;

/// The value of a content-key entry: its encoding keys and the file size.
pub type CEntry = (Seq<u128>, u64);

/// Encoding keys `k..count` of an entry whose keys start at `at`.
pub open spec fn ekeys_at(d: Seq<u8>, at: int, count: nat) -> Seq<u128> {
    Seq::new(count, |k: int| be128(d, at + 16 * k) as u128)
}

/// The entries of a content page from `pos` to `end`, added to `m`; the
/// first of them must carry `first_key`.
pub open spec fn cpage_spec(
    d: Seq<u8>,
    end: int,
    first_key: u128,
    first: bool,
    pos: int,
    m: Map<u128, CEntry>,
) -> Result<Map<u128, CEntry>, EncodingError>
    decreases end - pos,
{
    if pos + 22 > end || d[pos] == 0 {
        Ok(m)
    } else {
        let count = d[pos] as nat;
        let ckey = be128(d, pos + 6) as u128;
        if first && ckey != first_key {
            Err(EncodingError::FirstKeyMismatch)
        } else if pos + 22 + 16 * count > end {
            Err(EncodingError::Truncated)
        } else {
            let entry = (ekeys_at(d, pos + 22, count), be40(d, pos + 1) as u64);
            cpage_spec(d, end, first_key, false, pos + 22 + 16 * count, m.insert(ckey, entry))
        }
    }
}

/// Content pages `i..count`, each `psize` bytes from `pages` on, with their
/// directory at `dir`.
pub open spec fn cpages_spec(
    d: Seq<u8>,
    dir: int,
    pages: int,
    psize: nat,
    count: nat,
    i: nat,
    m: Map<u128, CEntry>,
) -> Result<Map<u128, CEntry>, EncodingError>
    decreases count - i,
{
    if i >= count {
        Ok(m)
    } else {
        let start = pages + psize * i;
        if start + psize > d.len() {
            Err(EncodingError::Truncated)
        } else if content_hash_of(d.subrange(start, start + psize)) != be128(d, dir + 32 * i + 16) {
            Err(EncodingError::PageChecksum)
        } else {
            match cpage_spec(d, start + psize, be128(d, dir + 32 * i) as u128, true, start, m) {
                Err(e) => Err(e),
                Ok(m2) => cpages_spec(d, dir, pages, psize, count, i + 1, m2),
            }
        }
    }
}

/// The entries of an encoding page from `pos` to `end`; an all-zero key ends
/// them.
pub open spec fn epage_spec(d: Seq<u8>, end: int, first_key: u128, first: bool, pos: int) -> Result<
    (),
    EncodingError,
>
    decreases end - pos,
{
    if pos + 25 > end || be128(d, pos) == 0 {
        Ok(())
    } else if first && be128(d, pos) != first_key {
        Err(EncodingError::FirstKeyMismatch)
    } else {
        epage_spec(d, end, first_key, false, pos + 25)
    }
}

/// Encoding pages `i..count`.
pub open spec fn epages_spec(d: Seq<u8>, dir: int, pages: int, psize: nat, count: nat, i: nat) -> Result<
    (),
    EncodingError,
>
    decreases count - i,
{
    if i >= count {
        Ok(())
    } else {
        let start = pages + psize * i;
        if start + psize > d.len() {
            Err(EncodingError::Truncated)
        } else if content_hash_of(d.subrange(start, start + psize)) != be128(d, dir + 32 * i + 16) {
            Err(EncodingError::PageChecksum)
        } else {
            match epage_spec(d, start + psize, be128(d, dir + 32 * i) as u128, true, start) {
                Err(e) => Err(e),
                Ok(_) => epages_spec(d, dir, pages, psize, count, i + 1),
            }
        }
    }
}

proof fn lemma_epages_fit(d: Seq<u8>, dir: int, pages: int, psize: nat, count: nat, i: nat)
    requires
        epages_spec(d, dir, pages, psize, count, i) is Ok,
        i <= count,
        pages + psize * i <= d.len(),
    ensures
        pages + psize * count <= d.len(),
    decreases count - i,
{
    if i < count {
        assert(pages + psize * (i + 1) == pages + psize * i + psize) by (nonlinear_arith);
        lemma_epages_fit(d, dir, pages, psize, count, i + 1);
    }
}

pub open spec fn cpage_size(d: Seq<u8>) -> nat {
    be16(d, 5) * 1024
}

pub open spec fn epage_size(d: Seq<u8>) -> nat {
    be16(d, 7) * 1024
}

pub open spec fn ccount(d: Seq<u8>) -> nat {
    be32(d, 9)
}

pub open spec fn ecount(d: Seq<u8>) -> nat {
    be32(d, 13)
}

/// Start of the content-page directory, after the header and espec table.
pub open spec fn cdir_start(d: Seq<u8>) -> int {
    22 + be32(d, 18) as int
}

pub open spec fn cpages_start(d: Seq<u8>) -> int {
    cdir_start(d) + 32 * ccount(d)
}

pub open spec fn edir_start(d: Seq<u8>) -> int {
    cpages_start(d) + cpage_size(d) * ccount(d)
}

pub open spec fn epages_start(d: Seq<u8>) -> int {
    edir_start(d) + 32 * ecount(d)
}

/// The header checks, in order.
pub open spec fn header_spec(d: Seq<u8>) -> Result<(), EncodingError> {
    if d.len() < 22 {
        Err(EncodingError::Truncated)
    } else if d[0] != 0x45 || d[1] != 0x4e {
        Err(EncodingError::NotEncoding)
    } else if d[2] != 1 {
        Err(EncodingError::Version)
    } else if d[3] != 16 {
        Err(EncodingError::ContentKeySize)
    } else if d[4] != 16 {
        Err(EncodingError::EncodingKeySize)
    } else if d[17] != 0 {
        Err(EncodingError::NonzeroByte)
    } else if cdir_start(d) > d.len() {
        Err(EncodingError::Truncated)
    } else if !all_utf8(espec_table(d)) {
        Err(EncodingError::Espec)
    } else if cpages_start(d) > d.len() {
        Err(EncodingError::Truncated)
    } else {
        Ok(())
    }
}

/// The content-key map of an encoding table.
pub open spec fn encoding_spec(d: Seq<u8>) -> Result<Map<u128, CEntry>, EncodingError> {
    match header_spec(d) {
        Err(e) => Err(e),
        Ok(_) => match cpages_spec(
            d,
            cdir_start(d),
            cpages_start(d),
            cpage_size(d),
            ccount(d),
            0,
            Map::empty(),
        ) {
            Err(e) => Err(e),
            Ok(m) => if epages_start(d) > d.len() {
                Err(EncodingError::Truncated)
            } else {
                match epages_spec(d, edir_start(d), epages_start(d), epage_size(d), ecount(d), 0) {
                    Err(e) => Err(e),
                    Ok(_) => if valid_utf8(trailing_espec(d)) {
                        Ok(m)
                    } else {
                        Err(EncodingError::Espec)
                    },
                }
            },
        },
    }
}

/// Whether content page `i` of a table either holds no entry or starts
/// with an entry for the directory's first key of that page.
pub open spec fn page_starts_with_first_key(d: Seq<u8>, i: nat) -> bool {
    let start = cpages_start(d) + cpage_size(d) * i;
    (22 <= cpage_size(d) && d[start] != 0) ==> be128(d, start + 6) == be128(d, cdir_start(d) + 32 * i)
}

proof fn lemma_cpages_first_keys(
    d: Seq<u8>,
    psize: nat,
    count: nat,
    i: nat,
    m: Map<u128, CEntry>,
)
    requires
        cpages_spec(d, cdir_start(d), cpages_start(d), psize, count, i, m) is Ok,
        psize == cpage_size(d),
    ensures
        forall|j: nat| i <= j < count ==> #[trigger] page_starts_with_first_key(d, j),
    decreases count - i,
{
    if i < count {
        let start = cpages_start(d) + psize * i;
        let first = cpage_spec(d, start + psize, be128(d, cdir_start(d) + 32 * i) as u128, true, start, m);
        assert(first is Ok);
        assert(page_starts_with_first_key(d, i));
        lemma_cpages_first_keys(d, psize, count, i + 1, first->Ok_0);
    }
}

/// In a table that parses, every content page that holds an entry starts
/// with the entry for the first key that the page directory gives it.
pub proof fn lemma_page_first_keys(d: Seq<u8>)
    requires
        encoding_spec(d) is Ok,
    ensures
        forall|i: nat| i < ccount(d) ==> #[trigger] page_starts_with_first_key(d, i),
{
    lemma_cpages_first_keys(d, cpage_size(d), ccount(d), 0, Map::empty());
}

pub open spec fn entry_view(v: (Vec<u128>, u64)) -> CEntry {
    (v.0@, v.1)
}

pub open spec fn cmap_view(m: Map<u128, (Vec<u128>, u64)>) -> Map<u128, CEntry> {
    m.map_values(|v: (Vec<u128>, u64)| entry_view(v))
}

/// The content-key to encoding-keys mapping of one build.
pub struct Encoding {
    cmap: HashMap<u128, (Vec<u128>, u64)>,
    especs: Vec<String>,
    espec: String,
}

impl Encoding {
    /// The encoding specs of the table's espec table, in order.
    pub closed spec fn especs_view(&self) -> Seq<Seq<char>> {
        self.especs@.map_values(|s: String| s@)
    }

    /// The encoding spec text that follows the last page.
    pub closed spec fn espec_view(&self) -> Seq<char> {
        self.espec@
    }

    pub fn especs(&self) -> (r: &Vec<String>)
        ensures
            r@.map_values(|s: String| s@) == self.especs_view(),
    {
        &self.especs
    }

    pub fn espec(&self) -> (r: &String)
        ensures
            r@ == self.espec_view(),
    {
        &self.espec
    }

    pub closed spec fn view(&self) -> Map<u128, CEntry> {
        cmap_view(self.cmap@)
    }

    /// The canonical (first) encoding key of a content key.
    pub fn c2e(&self, c: ContentKey) -> (r: Result<EncodingKey, LookupError>)
        ensures
            match r {
                Ok(e) => self@.contains_key(c.0) && self@[c.0].0.len() > 0 && e.0
                    == self@[c.0].0[0],
                Err(e) => (!self@.contains_key(c.0) && e == LookupError::NoContentKey(c)) || (
                self@.contains_key(c.0) && self@[c.0].0.len() == 0 && e
                    == LookupError::NoEncodingKey(c)),
            },
    {
        match self.cmap.get(&c.0) {
            None => Err(LookupError::NoContentKey(c)),
            Some(entry) => {
                if entry.0.len() == 0 {
                    Err(LookupError::NoEncodingKey(c))
                } else {
                    Ok(EncodingKey(entry.0[0]))
                }
            },
        }
    }
}

fn split_bytes_exec(s: &[u8], sep: u8) -> (r: Vec<Vec<u8>>)
    ensures
        r@.map_values(|v: Vec<u8>| v@) == split_bytes(s@, sep),
{
    let mut pieces: Vec<Vec<u8>> = Vec::new();
    let mut cur: Vec<u8> = Vec::new();
    let mut i: usize = 0;
    while i < s.len()
        invariant
            i <= s@.len(),
            pieces@.map_values(|v: Vec<u8>| v@).push(cur@) == split_bytes(s@.subrange(0, i as int), sep),
        decreases s@.len() - i,
    {
        let c = s[i];
        let ghost prefix = s@.subrange(0, i as int + 1);
        assert(prefix.drop_last() =~= s@.subrange(0, i as int));
        let ghost before = pieces@.map_values(|v: Vec<u8>| v@);
        if c == sep {
            let done = cur;
            pieces.push(done);
            cur = Vec::new();
            assert(pieces@.map_values(|v: Vec<u8>| v@) =~= before.push(done@));
            assert(pieces@.map_values(|v: Vec<u8>| v@).push(cur@) =~= split_bytes(prefix, sep));
        } else {
            cur.push(c);
            assert(pieces@.map_values(|v: Vec<u8>| v@).push(cur@) =~= split_bytes(prefix, sep));
        }
        i = i + 1;
    }
    assert(s@.subrange(0, s@.len() as int) =~= s@);
    let ghost before = pieces@.map_values(|v: Vec<u8>| v@);
    let last = cur;
    pieces.push(last);
    assert(pieces@.map_values(|v: Vec<u8>| v@) =~= before.push(last@));
    pieces
}

/// The encoding specs as text, or `None` where one is not UTF-8.
fn espec_strings(table: &[u8]) -> (r: Option<Vec<String>>)
    ensures
        match r {
            Some(v) => all_utf8(split_bytes(table@, 0)) && v@.map_values(|s: String| s@)
                == split_bytes(table@, 0).map_values(|b: Seq<u8>| decode_utf8(b)),
            None => !all_utf8(split_bytes(table@, 0)),
        },
{
    let pieces = split_bytes_exec(table, 0);
    let ghost pv = pieces@.map_values(|v: Vec<u8>| v@);
    let mut out: Vec<String> = Vec::new();
    let mut i: usize = 0;
    while i < pieces.len()
        invariant
            i <= pieces@.len(),
            pv == pieces@.map_values(|v: Vec<u8>| v@),
            pv == split_bytes(table@, 0),
            forall|j: int| 0 <= j < i ==> valid_utf8(#[trigger] pv[j]),
            out@.map_values(|s: String| s@) == pv.map_values(|b: Seq<u8>| decode_utf8(b)).subrange(0, i as int),
        decreases pieces@.len() - i,
    {
        let piece = slice_to_vec(pieces[i].as_slice());
        assert(piece@ == pv[i as int]);
        match utf8_string(piece) {
            None => {
                return None;
            },
            Some(text) => {
                let ghost before = out@.map_values(|s: String| s@);
                out.push(text);
                assert(out@.map_values(|s: String| s@) =~= before.push(decode_utf8(pv[i as int])));
            },
        }
        i = i + 1;
        assert(out@.map_values(|s: String| s@) =~= pv.map_values(|b: Seq<u8>| decode_utf8(b)).subrange(0, i as int));
    }
    assert(pv.map_values(|b: Seq<u8>| decode_utf8(b)).subrange(0, i as int) =~= pv.map_values(|b: Seq<u8>| decode_utf8(b)));
    Some(out)
}

/// Parses one content page, from `start` to `end`.
fn parse_cpage(
    data: &[u8],
    start: usize,
    end: usize,
    first_key: u128,
    cmap: &mut HashMap<u128, (Vec<u128>, u64)>,
) -> (r: Result<(), EncodingError>)
    requires
        start <= end <= data@.len(),
    ensures
        match cpage_spec(
            data@,
            end as int,
            first_key,
            true,
            start as int,
            cmap_view(old(cmap)@),
        ) {
            Ok(m) => r is Ok && cmap_view(final(cmap)@) == m,
            Err(e) => r == Err::<(), EncodingError>(e),
        },
{
    let ghost d = data@;
    let ghost m0 = cmap_view(cmap@);
    let mut pos = start;
    let mut first = true;
    while end - pos >= 22 && data[pos] != 0
        invariant
            d == data@,
            m0 == cmap_view(old(cmap)@),
            start <= pos <= end <= d.len(),
            cpage_spec(d, end as int, first_key, true, start as int, m0) == cpage_spec(
                d,
                end as int,
                first_key,
                first,
                pos as int,
                cmap_view(cmap@),
            ),
        decreases end - pos,
    {
        let count = data[pos] as usize;
        let size = read_be40(data, pos + 1);
        let ckey = read_be128(data, pos + 6);
        if first && ckey != first_key {
            return Err(EncodingError::FirstKeyMismatch);
        }
        if 16 * count > end - (pos + 22) {
            assert(pos + 22 + 16 * (d[pos as int] as nat) > end);
            return Err(EncodingError::Truncated);
        }
        first = false;
        let at = pos + 22;
        let mut ekeys: Vec<u128> = Vec::new();
        let mut k: usize = 0;
        while k < count
            invariant
                d == data@,
                at + 16 * count <= end <= d.len(),
                k <= count,
                ekeys@ == ekeys_at(d, at as int, k as nat),
            decreases count - k,
        {
            ekeys.push(read_be128(data, at + 16 * k));
            k = k + 1;
            assert(ekeys@ =~= ekeys_at(d, at as int, k as nat));
        }
        let ghost before = cmap@;
        cmap.insert(ckey, (ekeys, size));
        proof {
            assert(cmap_view(cmap@) =~= cmap_view(before).insert(
                ckey,
                (ekeys_at(d, at as int, count as nat), size),
            ));
        }
        pos = at + 16 * count;
    }
    Ok(())
}

/// Checks one encoding page, from `start` to `end`.
fn check_epage(data: &[u8], start: usize, end: usize, first_key: u128) -> (r: Result<
    (),
    EncodingError,
>)
    requires
        start <= end <= data@.len(),
    ensures
        r == epage_spec(data@, end as int, first_key, true, start as int),
{
    let mut pos = start;
    let mut first = true;
    while end - pos >= 25 && read_be128(data, pos) != 0
        invariant
            start <= pos <= end <= data@.len(),
            epage_spec(data@, end as int, first_key, true, start as int) == epage_spec(
                data@,
                end as int,
                first_key,
                first,
                pos as int,
            ),
        decreases end - pos,
    {
        if first && read_be128(data, pos) != first_key {
            return Err(EncodingError::FirstKeyMismatch);
        }
        first = false;
        pos = pos + 25;
    }
    Ok(())
}

/// The content pages, added to a fresh map.
fn parse_cpages(data: &[u8], cdir: u128, cpages: u128, cpsize: u128, cc: u128) -> (r: Result<
    HashMap<u128, (Vec<u128>, u64)>,
    EncodingError,
>)
    requires
        cdir == cdir_start(data@),
        cpages == cpages_start(data@),
        cpages <= data@.len(),
        cpsize == cpage_size(data@),
        cc == ccount(data@),
        data@.len() >= 22,
    ensures
        match cpages_spec(data@, cdir as int, cpages as int, cpsize as nat, cc as nat, 0, Map::empty()) {
            Ok(m) => r is Ok && cmap_view(r->Ok_0@) == m,
            Err(e) => r is Err && r->Err_0 == e,
        },
{
    let ghost d = data@;
    let n = data.len();
    let n128 = n as u128;
    let mut cmap: HashMap<u128, (Vec<u128>, u64)> = HashMap::new();
    proof {
        assert(cmap_view(cmap@) =~= Map::<u128, CEntry>::empty());
    }
    let mut i: u128 = 0;
    while i < cc
        invariant
            d == data@,
            n == d.len(),
            n128 == n,
            cdir == cdir_start(d),
            cpages == cpages_start(d),
            cpages <= n,
            cpsize == cpage_size(d),
            cpsize <= 0xffff * 1024,
            cc == ccount(d),
            cc <= 0xffff_ffff,
            i <= cc,
            cpages_spec(d, cdir as int, cpages as int, cpsize as nat, cc as nat, 0, Map::empty())
                == cpages_spec(d, cdir as int, cpages as int, cpsize as nat, cc as nat, i as nat, cmap_view(cmap@)),
        decreases cc - i,
    {
        assert(cpsize * i <= 0xffff * 1024 * 0xffff_ffff) by (nonlinear_arith)
            requires
                i <= cc,
                cc <= 0xffff_ffff,
                cpsize <= 0xffff * 1024,
        ;
        let start = cpages + cpsize * i;
        if start + cpsize > n128 {
            return Err(EncodingError::Truncated);
        }
        let s = start as usize;
        let e = (start + cpsize) as usize;
        let at = (cdir + 32 * i) as usize;
        if md5hash(&data[s..e]) != read_be128(data, at + 16) {
            return Err(EncodingError::PageChecksum);
        }
        let first_key = read_be128(data, at);
        match parse_cpage(data, s, e, first_key, &mut cmap) {
            Err(err) => {
                return Err(err);
            },
            Ok(()) => {},
        }
        i = i + 1;
    }
    Ok(cmap)
}

/// Checks the encoding pages.
fn check_epages(data: &[u8], edir: u128, epages: u128, epsize: u128, ec: u128) -> (r: Result<(), EncodingError>)
    requires
        epages <= data@.len(),
        epsize <= 0xffff * 1024,
        ec <= 0xffff_ffff,
        edir + 32 * ec == epages,
    ensures
        r == epages_spec(data@, edir as int, epages as int, epsize as nat, ec as nat, 0),
{
    let ghost d = data@;
    let n = data.len();
    let n128 = n as u128;
    let mut i: u128 = 0;
    while i < ec
        invariant
            d == data@,
            n == d.len(),
            n128 == n,
            epages <= n,
            edir + 32 * ec == epages,
            epsize <= 0xffff * 1024,
            ec <= 0xffff_ffff,
            i <= ec,
            epages_spec(d, edir as int, epages as int, epsize as nat, ec as nat, 0) == epages_spec(
                d,
                edir as int,
                epages as int,
                epsize as nat,
                ec as nat,
                i as nat,
            ),
        decreases ec - i,
    {
        assert(epsize * i <= 0xffff * 1024 * 0xffff_ffff) by (nonlinear_arith)
            requires
                i <= ec,
                ec <= 0xffff_ffff,
                epsize <= 0xffff * 1024,
        ;
        let start = epages + epsize * i;
        if start + epsize > n128 {
            return Err(EncodingError::Truncated);
        }
        let s = start as usize;
        let e = (start + epsize) as usize;
        let at = (edir + 32 * i) as usize;
        if md5hash(&data[s..e]) != read_be128(data, at + 16) {
            return Err(EncodingError::PageChecksum);
        }
        let first_key = read_be128(data, at);
        match check_epage(data, s, e, first_key) {
            Err(err) => {
                return Err(err);
            },
            Ok(()) => {},
        }
        i = i + 1;
    }
    Ok(())
}

/// Parses an encoding table.
pub fn parse(data: &[u8]) -> (r: Result<Encoding, EncodingError>)
    ensures
        match encoding_spec(data@) {
            Ok(m) => r is Ok && r->Ok_0@ == m,
            Err(e) => r is Err && r->Err_0 == e,
        },
        r is Ok ==> forall|i: nat| i < ccount(data@) ==> #[trigger] page_starts_with_first_key(data@, i),
        r is Ok ==> r->Ok_0.especs_view() == espec_table(data@).map_values(|b: Seq<u8>| decode_utf8(b)),
        r is Ok ==> r->Ok_0.espec_view() == decode_utf8(trailing_espec(data@)),
{
    let ghost d = data@;
    let n = data.len();
    if n < 22 {
        return Err(EncodingError::Truncated);
    }
    if data[0] != 0x45 || data[1] != 0x4e {
        return Err(EncodingError::NotEncoding);
    }
    if data[2] != 1 {
        return Err(EncodingError::Version);
    }
    if data[3] != 16 {
        return Err(EncodingError::ContentKeySize);
    }
    if data[4] != 16 {
        return Err(EncodingError::EncodingKeySize);
    }
    if data[17] != 0 {
        return Err(EncodingError::NonzeroByte);
    }
    let n128 = n as u128;
    let cpsize = (read_be16(data, 5) as u128) * 1024;
    let epsize = (read_be16(data, 7) as u128) * 1024;
    let cc = read_be32(data, 9) as u128;
    let ec = read_be32(data, 13) as u128;
    let cdir = HEADER_SIZE as u128 + read_be32(data, 18) as u128;
    if cdir > n128 {
        return Err(EncodingError::Truncated);
    }
    let especs = match espec_strings(&data[22..cdir as usize]) {
        None => {
            return Err(EncodingError::Espec);
        },
        Some(v) => v,
    };
    let cpages = cdir + 32 * cc;
    if cpages > n128 {
        return Err(EncodingError::Truncated);
    }
    assert(header_spec(d) == Ok::<(), EncodingError>(()));
    let cmap = match parse_cpages(data, cdir, cpages, cpsize, cc) {
        Err(e) => {
            return Err(e);
        },
        Ok(m) => m,
    };
    assert(cpsize * cc <= 0xffff * 1024 * 0xffff_ffff) by (nonlinear_arith)
        requires
            cpsize <= 0xffff * 1024,
            cc <= 0xffff_ffff,
    ;
    let edir = cpages + cpsize * cc;
    let epages = edir + 32 * ec;
    if epages > n128 {
        return Err(EncodingError::Truncated);
    }
    match check_epages(data, edir, epages, epsize, ec) {
        Err(e) => {
            return Err(e);
        },
        Ok(()) => {},
    }
    assert(epsize * ec <= 0xffff * 1024 * 0xffff_ffff) by (nonlinear_arith)
        requires
            epsize <= 0xffff * 1024,
            ec <= 0xffff_ffff,
    ;
    proof {
        assert(epages + epsize * 0 <= d.len());
        lemma_epages_fit(d, edir as int, epages as int, epsize as nat, ec as nat, 0);
    }
    let tail = epages + epsize * ec;
    let espec = match utf8_string(slice_to_vec(&data[tail as usize..n])) {
        None => {
            return Err(EncodingError::Espec);
        },
        Some(t) => t,
    };
    proof {
        lemma_page_first_keys(d);
    }
    Ok(Encoding { cmap, especs, espec })
}

} // verus!
