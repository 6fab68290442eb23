//! The per-archive index: encoding key to (archive, size, offset).
use vstd::prelude::*;
use std::collections::HashMap;

use vstd::slice::slice_to_vec;

use crate::hashing::{content_hash_of, md5hash};
use crate::keys::{ArchiveKey, EncodingKey};
use crate::wire::{be128, be32, be64, le32, read_be128, read_be32, read_be64, read_le32};

verus! {

broadcast use vstd::std_specs::hash::group_hash_axioms;

/// Size of one block of entries.
pub const BLOCK_SIZE: usize = 4096;

/// Size of one entry: key, size, offset.
pub const ENTRY_SIZE: usize = 24;

/// Size of the footer.
pub const FOOTER_SIZE: usize = 28;

/// Entries a block holds at most.
pub const ENTRIES_PER_BLOCK: usize = 170;

/// Why an archive index was refused.
#[derive(Debug, Clone, Copy, PartialEq, Eq, Structural)]
pub enum IndexError {
    /// Shorter than a footer.
    Truncated,
    /// The body is not a whole number of blocks with their table of contents.
    BadLayout,
    /// The footer's hash is not the archive's key.
    BadName,
    /// The table of contents does not match its hash in the footer.
    TocChecksum,
    /// The footer's version byte is not 1.
    Version,
    /// A reserved footer byte is not zero.
    NonzeroByte,
    /// The footer's block size is not 4 KiB.
    BlockSize,
    /// The footer's offset width is not 4.
    OffsetBytes,
    /// The footer's size width is not 4.
    SizeBytes,
    /// The footer's key size is not 16.
    KeySize,
    /// The footer's checksum size is not 8.
    ChecksumSize,
    /// The footer does not match its own checksum.
    FooterChecksum,
    /// A block does not match its hash in the table of contents.
    BlockChecksum,
    /// An encoding key occurs twice.
    DuplicateKey,
    /// A block ends before the entry whose key is its last key.
    LastKeyMissing,
    /// The number of entries differs from the footer's element count.
    ElementCount,
}

/// The value of an entry: archive, size in bytes, offset in bytes.
pub type Location = (u128, usize, usize);

/// The high 64 bits of a 128-bit hash.
pub open spec fn high64(x: u128) -> nat {
    (x as nat) / 0x1_0000_0000_0000_0000
}

pub open spec fn non_footer_size(d: Seq<u8>) -> int {
    d.len() - 28
}

pub open spec fn block_count(d: Seq<u8>) -> nat {
    (non_footer_size(d) / 4120) as nat
}

/// Start of the table of contents: the last keys, then the block hashes.
pub open spec fn toc_start(d: Seq<u8>) -> int {
    non_footer_size(d) - 24 * block_count(d)
}

/// Entries of one block from entry `j` on, added to `m`, up to the entry
/// whose key is `last`.
pub open spec fn block_spec(
    d: Seq<u8>,
    start: int,
    last: u128,
    archive: u128,
    j: nat,
    m: Map<u128, Location>,
) -> Result<Map<u128, Location>, IndexError>
    decreases 170 - j,
{
    if j >= 170 {
        Err(IndexError::LastKeyMissing)
    } else {
        let off = start + 24 * j;
        let key = be128(d, off) as u128;
        if m.contains_key(key) {
            Err(IndexError::DuplicateKey)
        } else {
            let m2 = m.insert(key, (archive, be32(d, off + 16) as usize, be32(d, off + 20) as usize));
            if key == last {
                Ok(m2)
            } else {
                block_spec(d, start, last, archive, j + 1, m2)
            }
        }
    }
}

/// Blocks `b..` of the index, added to `m`.
pub open spec fn blocks_spec(d: Seq<u8>, archive: u128, b: nat, m: Map<u128, Location>) -> Result<
    Map<u128, Location>,
    IndexError,
>
    decreases block_count(d) - b,
{
    if b >= block_count(d) {
        Ok(m)
    } else {
        let start = 4096 * (b as int);
        let nb = block_count(d);
        if high64(content_hash_of(d.subrange(start, start + 4096))) != be64(
            d,
            toc_start(d) + 16 * nb + 8 * b,
        ) {
            Err(IndexError::BlockChecksum)
        } else {
            match block_spec(d, start, be128(d, toc_start(d) + 16 * b) as u128, archive, 0, m) {
                Err(e) => Err(e),
                Ok(m2) => blocks_spec(d, archive, b + 1, m2),
            }
        }
    }
}

/// The footer bytes covered by the footer checksum, padded with zeros.
pub open spec fn footer_checked_bytes(d: Seq<u8>) -> Seq<u8> {
    d.subrange(non_footer_size(d) + 8, non_footer_size(d) + 20) + Seq::new(8, |i: int| 0u8)
}

/// The checks of the footer and table of contents, in order.
pub open spec fn footer_spec(archive: u128, d: Seq<u8>) -> Result<(), IndexError> {
    let f = non_footer_size(d);
    if d.len() < 28 {
        Err(IndexError::Truncated)
    } else if f % 4120 != 0 {
        Err(IndexError::BadLayout)
    } else if content_hash_of(d.subrange(f, d.len() as int)) != archive {
        Err(IndexError::BadName)
    } else if high64(content_hash_of(d.subrange(toc_start(d), f))) != be64(d, f) {
        Err(IndexError::TocChecksum)
    } else if d[f + 8] != 1 {
        Err(IndexError::Version)
    } else if d[f + 9] != 0 || d[f + 10] != 0 {
        Err(IndexError::NonzeroByte)
    } else if d[f + 11] != 4 {
        Err(IndexError::BlockSize)
    } else if d[f + 12] != 4 {
        Err(IndexError::OffsetBytes)
    } else if d[f + 13] != 4 {
        Err(IndexError::SizeBytes)
    } else if d[f + 14] != 16 {
        Err(IndexError::KeySize)
    } else if d[f + 15] != 8 {
        Err(IndexError::ChecksumSize)
    } else if high64(content_hash_of(footer_checked_bytes(d))) != be64(d, f + 20) {
        Err(IndexError::FooterChecksum)
    } else {
        Ok(())
    }
}

/// The footer's element count.
pub open spec fn num_elements(d: Seq<u8>) -> nat {
    le32(d, d.len() - 12)
}

/// The entries of the index of `archive`, added to `m`.
pub open spec fn index_spec(archive: u128, d: Seq<u8>, m: Map<u128, Location>) -> Result<
    Map<u128, Location>,
    IndexError,
> {
    match footer_spec(archive, d) {
        Err(e) => Err(e),
        Ok(_) => match blocks_spec(d, archive, 0, m) {
            Err(e) => Err(e),
            Ok(m2) => if m2.len() - m.len() != num_elements(d) {
                Err(IndexError::ElementCount)
            } else {
                Ok(m2)
            },
        },
    }
}

/// The union of the indices of several archives.
pub struct Index {
    pub map: HashMap<u128, Location>,
}

impl Index {
    pub open spec fn view(&self) -> Map<u128, Location> {
        self.map@
    }

    /// An index that holds no entry.
    pub fn new() -> (r: Index)
        ensures
            r@ == Map::<u128, Location>::empty(),
    {
        Index { map: HashMap::new() }
    }

    /// Where an encoding is stored: archive, size, offset.
    pub fn get(&self, ekey: EncodingKey) -> (r: Option<(ArchiveKey, usize, usize)>)
        ensures
            match r {
                Some(l) => self@.contains_key(ekey.0) && self@[ekey.0] == ((l.0).0, l.1, l.2),
                None => !self@.contains_key(ekey.0),
            },
    {
        match self.map.get(&ekey.0) {
            Some(l) => Some((ArchiveKey(l.0), l.1, l.2)),
            None => None,
        }
    }

    /// Adds the entries of the index of `archive`. On success the entries
    /// are exactly those of `index_spec`; on failure the index may hold some
    /// of the entries.
    pub fn absorb(&mut self, archive: u128, data: &[u8]) -> (r: Result<(), IndexError>)
        requires
            old(self)@.dom().finite(),
        ensures
            final(self)@.dom().finite(),
            match index_spec(archive, data@, old(self)@) {
                Ok(m) => r is Ok && final(self)@ == m,
                Err(e) => r == Err::<(), IndexError>(e),
            },
    {
        let n = data.len();
        if n < FOOTER_SIZE {
            return Err(IndexError::Truncated);
        }
        let f = n - FOOTER_SIZE;
        if f % 4120 != 0 {
            return Err(IndexError::BadLayout);
        }
        let nb = f / 4120;
        if md5hash(&data[f..n]) != archive {
            return Err(IndexError::BadName);
        }
        let toc = f - 24 * nb;
        if (md5hash(&data[toc..f]) / 0x1_0000_0000_0000_0000) as u64 != read_be64(data, f) {
            return Err(IndexError::TocChecksum);
        }
        if data[f + 8] != 1 {
            return Err(IndexError::Version);
        }
        if data[f + 9] != 0 || data[f + 10] != 0 {
            return Err(IndexError::NonzeroByte);
        }
        if data[f + 11] != 4 {
            return Err(IndexError::BlockSize);
        }
        if data[f + 12] != 4 {
            return Err(IndexError::OffsetBytes);
        }
        if data[f + 13] != 4 {
            return Err(IndexError::SizeBytes);
        }
        if data[f + 14] != 16 {
            return Err(IndexError::KeySize);
        }
        if data[f + 15] != 8 {
            return Err(IndexError::ChecksumSize);
        }
        let element_count = read_le32(data, f + 16);
        let mut checked = slice_to_vec(&data[f + 8..f + 20]);
        checked.resize(20, 0u8);
        assert(checked@ == footer_checked_bytes(data@));
        if (md5hash(checked.as_slice()) / 0x1_0000_0000_0000_0000) as u64 != read_be64(data, f + 20) {
            return Err(IndexError::FooterChecksum);
        }
        let ghost d = data@;
        let ghost m0 = self@;
        let len0 = self.map.len();
        let mut b: usize = 0;
        while b < nb
            invariant
                d == data@,
                n == d.len(),
                f == non_footer_size(d),
                nb == block_count(d),
                toc == toc_start(d),
                4120 * nb == f,
                b <= nb,
                self@.dom().finite(),
                blocks_spec(d, archive, 0, m0) == blocks_spec(d, archive, b as nat, self@),
                footer_spec(archive, d) == Ok::<(), IndexError>(()),
                m0 == old(self)@,
                len0 == m0.len(),
                element_count == num_elements(d),
            decreases nb - b,
        {
            let start = BLOCK_SIZE * b;
            let block_hash = read_be64(data, toc + 16 * nb + 8 * b);
            if (md5hash(&data[start..start + BLOCK_SIZE]) / 0x1_0000_0000_0000_0000) as u64
                != block_hash {
                return Err(IndexError::BlockChecksum);
            }
            let last = read_be128(data, toc + 16 * b);
            let mut j: usize = 0;
            let ghost mb = self@;
            let mut found = false;
            while !found && j < ENTRIES_PER_BLOCK
                invariant
                    d == data@,
                    n == d.len(),
                    start + BLOCK_SIZE <= toc,
                    toc + 16 * nb + 8 * nb <= f,
                    f + 28 == n,
                    j <= ENTRIES_PER_BLOCK,
                    self@.dom().finite(),
                    !found ==> block_spec(d, start as int, last, archive, 0, mb)
                        == block_spec(d, start as int, last, archive, j as nat, self@),
                    blocks_spec(d, archive, 0, m0) == blocks_spec(d, archive, b as nat, mb),
                    footer_spec(archive, d) == Ok::<(), IndexError>(()),
                    m0 == old(self)@,
                    len0 == m0.len(),
                    element_count == num_elements(d),
                    last == be128(d, toc_start(d) + 16 * b),
                    high64(content_hash_of(d.subrange(start as int, start + 4096))) == be64(
                        d,
                        toc_start(d) + 16 * nb + 8 * b,
                    ),
                    b < nb,
                    nb == block_count(d),
                    start == 4096 * b,
                    toc == toc_start(d),
                    4120 * nb == f,
                    found ==> block_spec(d, start as int, last, archive, 0, mb) == Ok::<Map<u128, Location>, IndexError>(self@),
                decreases ENTRIES_PER_BLOCK - j,
            {
                let off = start + ENTRY_SIZE * j;
                let key = read_be128(data, off);
                if self.map.contains_key(&key) {
                    return Err(IndexError::DuplicateKey);
                }
                let size = read_be32(data, off + 16) as usize;
                let offset = read_be32(data, off + 20) as usize;
                self.map.insert(key, (archive, size, offset));
                found = key == last;
                j = j + 1;
            }
            if !found {
                return Err(IndexError::LastKeyMissing);
            }
            b = b + 1;
        }
        if self.map.len() as u128 != len0 as u128 + element_count as u128 {
            return Err(IndexError::ElementCount);
        }
        Ok(())
    }
}

/// Parses the index of one archive on its own.
pub fn parse_index(name: u128, data: &[u8]) -> (r: Result<Index, IndexError>)
    ensures
        match index_spec(name, data@, Map::empty()) {
            Ok(m) => r is Ok && r->Ok_0@ == m,
            Err(e) => r is Err && r->Err_0 == e,
        },
        r is Ok ==> r->Ok_0@.len() == num_elements(data@),
{
    let mut index = Index::new();
    match index.absorb(name, data) {
        Ok(()) => Ok(index),
        Err(e) => Err(e),
    }
}

} // verus!
