//! The root table: file id and name hash to content key.
use vstd::prelude::*;
use std::collections::HashMap;
use vstd::string::StringSliceAdditionalSpecFns;

use crate::hashing::{name_hash, name_hash_of};
use crate::keys::{ContentKey, FileDataID, LookupError};
use crate::wire::{be128, le32, le64, le_i32, read_be128, read_le32, read_le64, read_le_i32};

verus! {

broadcast use vstd::std_specs::hash::group_hash_axioms;

/// Why a root table was refused.
#[derive(Debug, Clone, Copy, PartialEq, Eq, Structural)]
pub enum RootError {
    /// Shorter than a magic.
    Empty,
    /// The data ends inside a header, a block header or a block.
    Truncated,
    /// A file id is negative or does not fit 32 bits.
    BadFileId,
}

/// Content-flags bit that marks a block without name hashes.
pub const NO_NAME_HASH: u32 = 0x1000_0000;

/// One file of the root.
#[derive(Debug, Clone, Copy, PartialEq, Eq, Structural)]
pub struct RootRecord {
    pub fdid: u32,
    pub content_key: u128,
    pub name_hash: Option<u64>,
}

/// File id `i` of a block whose deltas start at `at`.
pub open spec fn fdid_at(d: Seq<u8>, at: int, i: nat) -> int
    decreases i,
{
    if i == 0 {
        le_i32(d, at)
    } else {
        fdid_at(d, at, (i - 1) as nat) + le_i32(d, at + 4 * i) + 1
    }
}

pub open spec fn fdid_ok(v: int) -> bool {
    0 <= v < 0x1_0000_0000
}

/// Record `i` of a block with `n` records whose file-id deltas start at `at`
/// and content keys at `keys`.
pub open spec fn record_at(
    d: Seq<u8>,
    at: int,
    n: nat,
    keys: int,
    interleave: bool,
    skip: bool,
    i: int,
) -> RootRecord {
    RootRecord {
        fdid: fdid_at(d, at, i as nat) as u32,
        content_key: (if interleave {
            be128(d, keys + 24 * i)
        } else {
            be128(d, keys + 16 * i)
        }) as u128,
        name_hash: if interleave {
            Some(le64(d, keys + 24 * i + 16) as u64)
        } else if skip {
            None
        } else {
            Some(le64(d, keys + 16 * n + 8 * i) as u64)
        },
    }
}

/// Whether a block's name hashes are left out.
pub open spec fn skips_names(interleave: bool, can_skip: bool, flags: nat) -> bool {
    !interleave && can_skip && (flags as u32) & NO_NAME_HASH != 0
}

/// Blocks from `pos` to the end, after the records `acc`.
pub open spec fn blocks_spec(
    d: Seq<u8>,
    pos: int,
    interleave: bool,
    can_skip: bool,
    acc: Seq<RootRecord>,
) -> Result<Seq<RootRecord>, RootError>
    decreases d.len() - pos,
{
    if pos >= d.len() || pos < 0 {
        Ok(acc)
    } else if pos + 12 > d.len() {
        Err(RootError::Truncated)
    } else {
        let n = le32(d, pos);
        let at = pos + 12;
        let keys = at + 4 * n;
        let skip = skips_names(interleave, can_skip, le32(d, pos + 4));
        let next = if skip {
            keys + 16 * n
        } else {
            keys + 24 * n
        };
        if keys > d.len() {
            Err(RootError::Truncated)
        } else if exists|i: nat| i < n && !fdid_ok(#[trigger] fdid_at(d, at, i)) {
            Err(RootError::BadFileId)
        } else if next > d.len() {
            Err(RootError::Truncated)
        } else {
            let recs = Seq::new(n, |i: int| record_at(d, at, n, keys, interleave, skip, i));
            blocks_spec(d, next, interleave, can_skip, acc + recs)
        }
    }
}

pub open spec fn has_tsfm_magic(d: Seq<u8>) -> bool {
    d[0] == 0x54 && d[1] == 0x53 && d[2] == 0x46 && d[3] == 0x4d
}

/// The records of a root table, in the order of the file.
pub open spec fn root_spec(d: Seq<u8>) -> Result<Seq<RootRecord>, RootError> {
    if d.len() < 4 {
        Err(RootError::Empty)
    } else if has_tsfm_magic(d) {
        if d.len() < 12 {
            Err(RootError::Truncated)
        } else {
            blocks_spec(d, 12, false, le32(d, 4) != le32(d, 8), Seq::empty())
        }
    } else {
        blocks_spec(d, 0, true, false, Seq::empty())
    }
}

/// For each file id, the position of the last record that carries it, among
/// the first `k` records.
pub open spec fn fid_positions(recs: Seq<RootRecord>, k: nat) -> Map<u32, usize>
    decreases k,
{
    if k == 0 || k > recs.len() {
        Map::empty()
    } else {
        fid_positions(recs, (k - 1) as nat).insert(recs[k - 1].fdid, (k - 1) as usize)
    }
}

/// For each name hash, the position of the last record that carries it,
/// among the first `k` records.
pub open spec fn name_positions(recs: Seq<RootRecord>, k: nat) -> Map<u64, usize>
    decreases k,
{
    if k == 0 || k > recs.len() {
        Map::empty()
    } else {
        match recs[k - 1].name_hash {
            Some(h) => name_positions(recs, (k - 1) as nat).insert(h, (k - 1) as usize),
            None => name_positions(recs, (k - 1) as nat),
        }
    }
}

pub proof fn lemma_positions_bounded(recs: Seq<RootRecord>, k: nat)
    requires
        k <= recs.len() <= usize::MAX,
    ensures
        forall|f: u32| #[trigger]
            fid_positions(recs, k).contains_key(f) ==> fid_positions(recs, k)[f] < k,
        forall|h: u64| #[trigger]
            name_positions(recs, k).contains_key(h) ==> name_positions(recs, k)[h] < k,
    decreases k,
{
    if k > 0 {
        let p = (k - 1) as nat;
        lemma_positions_bounded(recs, p);
        assert forall|f: u32| #[trigger] fid_positions(recs, k).contains_key(f) implies fid_positions(
            recs,
            k,
        )[f] < k by {
            if f != recs[p as int].fdid {
                assert(fid_positions(recs, p).contains_key(f));
            }
        }
        assert forall|h: u64| #[trigger] name_positions(recs, k).contains_key(h) implies name_positions(
            recs,
            k,
        )[h] < k by {
            if recs[p as int].name_hash != Some(h) {
                assert(name_positions(recs, p).contains_key(h));
            }
        }
    }
}

/// The records of one build, indexed by file id and by name hash. Where
/// two records carry the same file id or name hash, the later one wins.
pub struct Root {
    records: Vec<RootRecord>,
    fmap: HashMap<u32, usize>,
    nmap: HashMap<u64, usize>,
}

impl Root {
    pub closed spec fn view(&self) -> Seq<RootRecord> {
        self.records@
    }

    pub closed spec fn wf(&self) -> bool {
        &&& self.fmap@ == fid_positions(self.records@, self.records@.len())
        &&& self.nmap@ == name_positions(self.records@, self.records@.len())
    }

    /// The content key of a file id: that of the last record carrying it.
    pub fn f2c(&self, fdid: FileDataID) -> (r: Result<ContentKey, LookupError>)
        requires
            self.wf(),
        ensures
            match r {
                Ok(c) => {
                    let m = fid_positions(self@, self@.len());
                    m.contains_key(fdid.0) && c.0 == self@[m[fdid.0] as int].content_key
                },
                Err(e) => !fid_positions(self@, self@.len()).contains_key(fdid.0) && e
                    == LookupError::NoFileDataID(fdid),
            },
    {
        let _count = self.records.len();
        proof {
            lemma_positions_bounded(self.records@, self.records@.len());
        }
        match self.fmap.get(&fdid.0) {
            Some(k) => Ok(ContentKey(self.records[*k].content_key)),
            None => Err(LookupError::NoFileDataID(fdid)),
        }
    }

    /// The content key of a name hash: that of the last record carrying it.
    pub fn h2c(&self, hash: u64) -> (r: Result<ContentKey, LookupError>)
        requires
            self.wf(),
        ensures
            match r {
                Ok(c) => {
                    let m = name_positions(self@, self@.len());
                    m.contains_key(hash) && c.0 == self@[m[hash] as int].content_key
                },
                Err(e) => !name_positions(self@, self@.len()).contains_key(hash) && e
                    == LookupError::NoNameHash(hash),
            },
    {
        let _count = self.records.len();
        proof {
            lemma_positions_bounded(self.records@, self.records@.len());
        }
        match self.nmap.get(&hash) {
            Some(k) => Ok(ContentKey(self.records[*k].content_key)),
            None => Err(LookupError::NoNameHash(hash)),
        }
    }

    /// The content key of a file name, through its name hash.
    pub fn n2c(&self, name: &str) -> (r: Result<ContentKey, LookupError>)
        requires
            self.wf(),
        ensures
            ({
                let h = name_hash_of(name.spec_bytes());
                let m = name_positions(self@, self@.len());
                match r {
                    Ok(c) => m.contains_key(h) && c.0 == self@[m[h] as int].content_key,
                    Err(e) => !m.contains_key(h) && e == LookupError::NoNameHash(h),
                }
            }),
    {
        self.h2c(name_hash(name))
    }
}

/// Reads the file ids of a block; `None` where one is out of range.
fn read_fdids(data: &[u8], at: usize, n: usize) -> (r: Option<Vec<u32>>)
    requires
        at + 4 * n <= data@.len(),
    ensures
        match r {
            Some(v) => (forall|i: nat| i < n ==> fdid_ok(#[trigger] fdid_at(data@, at as int, i)))
                && v@.len() == n && forall|i: int|
                0 <= i < n ==> #[trigger] v@[i] == fdid_at(data@, at as int, i as nat),
            None => exists|i: nat| i < n && !fdid_ok(#[trigger] fdid_at(data@, at as int, i)),
        },
{
    let len = data.len();
    let mut v: Vec<u32> = Vec::new();
    let mut prev: i64 = -1;
    let mut i: usize = 0;
    while i < n
        invariant
            at + 4 * n <= data@.len(),
            len == data@.len(),
            i <= n,
            v@.len() == i,
            forall|j: nat| j < i ==> fdid_ok(#[trigger] fdid_at(data@, at as int, j)),
            forall|j: int| 0 <= j < i ==> #[trigger] v@[j] == fdid_at(data@, at as int, j as nat),
            i == 0 ==> prev == -1,
            i > 0 ==> prev == fdid_at(data@, at as int, (i - 1) as nat),
            -1 <= prev < 0x1_0000_0000,
        decreases n - i,
    {
        let delta = read_le_i32(data, at + 4 * i);
        let cur = prev + delta + 1;
        assert(cur == fdid_at(data@, at as int, i as nat));
        if cur < 0 || cur >= 0x1_0000_0000 {
            return None;
        }
        v.push(cur as u32);
        prev = cur;
        i = i + 1;
    }
    Some(v)
}

/// Parses a root table.
pub fn parse(data: &[u8]) -> (r: Result<Root, RootError>)
    ensures
        match root_spec(data@) {
            Ok(recs) => r is Ok && r->Ok_0@ == recs && r->Ok_0.wf(),
            Err(e) => r is Err && r->Err_0 == e,
        },
{
    let ghost d = data@;
    let len = data.len();
    if len < 4 {
        return Err(RootError::Empty);
    }
    let mut pos: usize;
    let interleave: bool;
    let can_skip: bool;
    if data[0] == 0x54 && data[1] == 0x53 && data[2] == 0x46 && data[3] == 0x4d {
        if len < 12 {
            return Err(RootError::Truncated);
        }
        let total = read_le32(data, 4);
        let named = read_le32(data, 8);
        interleave = false;
        can_skip = total != named;
        pos = 12;
    } else {
        interleave = true;
        can_skip = false;
        pos = 0;
    }
    let mut records: Vec<RootRecord> = Vec::new();
    while pos < len
        invariant
            d == data@,
            len == d.len(),
            pos <= len,
            root_spec(d) == blocks_spec(d, pos as int, interleave, can_skip, records@),
        decreases len - pos,
    {
        if len - pos < 12 {
            return Err(RootError::Truncated);
        }
        let n = read_le32(data, pos) as usize;
        let flags = read_le32(data, pos + 4);
        let at = pos + 12;
        if n > (len - at) / 4 {
            return Err(RootError::Truncated);
        }
        let keys = at + 4 * n;
        let fdids = match read_fdids(data, at, n) {
            Some(v) => v,
            None => {
                return Err(RootError::BadFileId);
            },
        };
        let skip = !interleave && can_skip && flags & NO_NAME_HASH != 0;
        assert(skip == skips_names(interleave, can_skip, le32(d, pos + 4)));
        if (if skip {
            n > (len - keys) / 16
        } else {
            n > (len - keys) / 24
        }) {
            return Err(RootError::Truncated);
        }
        let ghost before = records@;
        let mut i: usize = 0;
        while i < n
            invariant
                d == data@,
                len == d.len(),
                keys == at + 4 * n,
                fdids@.len() == n,
                forall|j: int| 0 <= j < n ==> #[trigger] fdids@[j] == fdid_at(d, at as int, j as nat),
                skip ==> keys + 16 * n <= len,
                !skip ==> keys + 24 * n <= len,
                i <= n,
                records@.len() == before.len() + i,
                forall|j: int| 0 <= j < before.len() ==> #[trigger] records@[j] == before[j],
                interleave ==> !skip,
                forall|j: int|
                    before.len() <= j < before.len() + i ==> #[trigger] records@[j] == record_at(
                        d,
                        at as int,
                        n as nat,
                        keys as int,
                        interleave,
                        skip,
                        j - before.len(),
                    ),
            decreases n - i,
        {
            let rec = if interleave {
                RootRecord {
                    fdid: fdids[i],
                    content_key: read_be128(data, keys + 24 * i),
                    name_hash: Some(read_le64(data, keys + 24 * i + 16)),
                }
            } else if skip {
                RootRecord { fdid: fdids[i], content_key: read_be128(data, keys + 16 * i), name_hash: None }
            } else {
                RootRecord {
                    fdid: fdids[i],
                    content_key: read_be128(data, keys + 16 * i),
                    name_hash: Some(read_le64(data, keys + 16 * n + 8 * i)),
                }
            };
            records.push(rec);
            i = i + 1;
        }
        let next = if skip {
            keys + 16 * n
        } else {
            keys + 24 * n
        };
        proof {
            assert(records@ =~= before + Seq::new(
                n as nat,
                |j: int| record_at(d, at as int, n as nat, keys as int, interleave, skip, j),
            ));
        }
        pos = next;
    }
    let mut fmap: HashMap<u32, usize> = HashMap::new();
    let mut nmap: HashMap<u64, usize> = HashMap::new();
    let total = records.len();
    let mut k: usize = 0;
    while k < total
        invariant
            total == records@.len(),
            k <= total,
            fmap@ == fid_positions(records@, k as nat),
            nmap@ == name_positions(records@, k as nat),
        decreases records@.len() - k,
    {
        fmap.insert(records[k].fdid, k);
        match records[k].name_hash {
            Some(h) => {
                nmap.insert(h, k);
            },
            None => {},
        }
        k = k + 1;
    }
    Ok(Root { records, fmap, nmap })
}

} // verus!
