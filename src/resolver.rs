//! The key-resolution chain: file id or name, to content key, to encoding
//! key, to a byte range of an archive; and the checks on what comes back.
use vstd::prelude::*;
use vstd::string::StringSliceAdditionalSpecFns;
use vstd::utf8::encode_utf8;

use crate::archive::{Index, Location};
use crate::blte::{blte_spec, parse as blte_parse, BlteError};
use crate::encoding::{CEntry, Encoding};
use crate::hashing::{content_hash_of, md5hash, name_hash_of};
use crate::keys::{ArchiveKey, ContentKey, EncodingKey, FileDataID, LookupError};
use crate::root::{fid_positions, name_positions, Root, RootRecord};
use crate::walker::{lower_of, name_lookup, toc_candidates, toc_candidates_spec, FileNames};
use crate::wire::be32;

verus! {

/// Where the bytes of one file are: a range of an archive, and the keys to
/// check them against.
#[derive(Debug, Clone, Copy, PartialEq, Eq, Structural)]
pub struct Locator {
    pub archive: ArchiveKey,
    pub offset: usize,
    pub length: usize,
    pub content_key: ContentKey,
    pub encoding_key: EncodingKey,
}

/// The locator of a content key: its first encoding key, and where the
/// archive index puts that encoding.
pub open spec fn locate_spec(enc: Map<u128, CEntry>, idx: Map<u128, Location>, c: u128) -> Result<
    Locator,
    LookupError,
> {
    if !enc.contains_key(c) {
        Err(LookupError::NoContentKey(ContentKey(c)))
    } else if enc[c].0.len() == 0 {
        Err(LookupError::NoEncodingKey(ContentKey(c)))
    } else {
        let e = enc[c].0[0];
        if !idx.contains_key(e) {
            Err(LookupError::NotInArchives(EncodingKey(e)))
        } else {
            Ok(
                Locator {
                    archive: ArchiveKey(idx[e].0),
                    offset: idx[e].2,
                    length: idx[e].1,
                    content_key: ContentKey(c),
                    encoding_key: EncodingKey(e),
                },
            )
        }
    }
}

/// The content key that the root gives a file id.
pub open spec fn fid_content(recs: Seq<RootRecord>, f: u32) -> Option<u128> {
    let m = fid_positions(recs, recs.len());
    if m.contains_key(f) {
        Some(recs[m[f] as int].content_key)
    } else {
        None
    }
}

/// The content key that the root gives a name hash.
pub open spec fn name_content(recs: Seq<RootRecord>, h: u64) -> Option<u128> {
    let m = name_positions(recs, recs.len());
    if m.contains_key(h) {
        Some(recs[m[h] as int].content_key)
    } else {
        None
    }
}

/// The three tables of one build, joined.
pub struct Resolver {
    pub encoding: Encoding,
    pub root: Root,
    pub index: Index,
}

impl Resolver {
    pub open spec fn wf(&self) -> bool {
        self.root.wf()
    }

    /// Where the encoding of a content key is stored.
    pub fn locate(&self, c: ContentKey) -> (r: Result<Locator, LookupError>)
        ensures
            r == locate_spec(self.encoding@, self.index@, c.0),
    {
        let e = self.encoding.c2e(c)?;
        match self.index.get(e) {
            None => Err(LookupError::NotInArchives(e)),
            Some((archive, length, offset)) => Ok(
                Locator { archive, offset, length, content_key: c, encoding_key: e },
            ),
        }
    }

    /// Where a file, named by id, is stored.
    pub fn by_id(&self, fdid: FileDataID) -> (r: Result<Locator, LookupError>)
        requires
            self.wf(),
        ensures
            match fid_content(self.root@, fdid.0) {
                None => r == Err::<Locator, LookupError>(LookupError::NoFileDataID(fdid)),
                Some(c) => r == locate_spec(self.encoding@, self.index@, c),
            },
    {
        let c = self.root.f2c(fdid)?;
        self.locate(c)
    }

    /// Where a file, named by path, is stored.
    pub fn by_name(&self, name: &str) -> (r: Result<Locator, LookupError>)
        requires
            self.wf(),
        ensures
            ({
                let h = name_hash_of(name.spec_bytes());
                match name_content(self.root@, h) {
                    None => r == Err::<Locator, LookupError>(LookupError::NoNameHash(h)),
                    Some(c) => r == locate_spec(self.encoding@, self.index@, c),
                }
            }),
    {
        let c = self.root.n2c(name)?;
        self.locate(c)
    }
}

/// Whether the root has a record for the name hash of a path.
pub open spec fn root_names(recs: Seq<RootRecord>, path: Seq<char>) -> bool {
    name_content(recs, name_hash_of(encode_utf8(path))) is Some
}

impl Resolver {
    /// The content key of a path met during the walk: through its name
    /// hash, else through the file id that the name table gives its lower
    /// case.
    pub fn content_key_for(&self, names: &FileNames, file: &str) -> (r: Option<ContentKey>)
        requires
            self.wf(),
        ensures
            match name_content(self.root@, name_hash_of(file.spec_bytes())) {
                Some(c) => r == Some(ContentKey(c)),
                None => match name_lookup(names@, lower_of(file@)) {
                    None => r is None,
                    Some(id) => match fid_content(self.root@, id) {
                        Some(c) => r == Some(ContentKey(c)),
                        None => r is None,
                    },
                },
            },
    {
        match self.root.n2c(file) {
            Ok(c) => Some(c),
            Err(_) => match names.find(file) {
                None => None,
                Some(id) => match self.root.f2c(id) {
                    Ok(c) => Some(c),
                    Err(_) => None,
                },
            },
        }
    }

    /// The manifest that seeds the walk of a directory: the product's own
    /// when the root names it, else the plain one when the root names that.
    pub fn seed_manifest(&self, dir: &str, product: &str) -> (r: Option<String>)
        requires
            self.wf(),
        ensures
            match toc_candidates_spec(dir@, product@) {
                None => r is None,
                Some((first, second)) => if root_names(self.root@, first) {
                    r is Some && r->0@ == first
                } else if root_names(self.root@, second) {
                    r is Some && r->0@ == second
                } else {
                    r is None
                },
            },
    {
        let (first, second) = toc_candidates(dir, product)?;
        if self.root.n2c(first.as_str()).is_ok() {
            Some(first)
        } else if self.root.n2c(second.as_str()).is_ok() {
            Some(second)
        } else {
            None
        }
    }
}

/// The inclusive byte range to request for a locator: `length` bytes from
/// `offset`. `None` for an empty range or one past the address space.
pub fn fetch_range(l: &Locator) -> (r: Option<(usize, usize)>)
    ensures
        match r {
            Some((start, end)) => l.length > 0 && start == l.offset && end - start + 1 == l.length,
            None => l.length == 0 || l.offset + l.length - 1 > usize::MAX,
        },
{
    if l.length == 0 || l.offset > usize::MAX - (l.length - 1) {
        None
    } else {
        Some((l.offset, l.offset + (l.length - 1)))
    }
}

/// Why fetched bytes were refused.
#[derive(Debug, Clone, Copy, PartialEq, Eq, Structural)]
pub enum FetchError {
    /// The fetcher returned another number of bytes than the range holds.
    Length,
    /// The container did not decode.
    Blte(BlteError),
    /// The decoded bytes do not hash to the content key.
    ContentChecksum,
}

/// What the bytes fetched for a locator decode to.
pub open spec fn content_spec(l: Locator, raw: Seq<u8>) -> Result<Seq<u8>, FetchError> {
    if raw.len() != l.length {
        Err(FetchError::Length)
    } else {
        match blte_spec(l.encoding_key.0, raw) {
            Err(e) => Err(FetchError::Blte(e)),
            Ok(v) => if content_hash_of(v) == l.content_key.0 {
                Ok(v)
            } else {
                Err(FetchError::ContentChecksum)
            },
        }
    }
}

/// Decodes the bytes fetched for a locator: the container is checked
/// against the encoding key, the result against the content key.
pub fn decode_content(l: &Locator, raw: &[u8]) -> (r: Result<Vec<u8>, FetchError>)
    ensures
        match content_spec(*l, raw@) {
            Ok(v) => r is Ok && r->Ok_0@ == v,
            Err(e) => r == Err::<Vec<u8>, FetchError>(e),
        },
        r is Ok ==> content_hash_of(r->Ok_0@) == l.content_key.0,
        r is Ok ==> raw@.len() == l.length,
{
    if raw.len() != l.length {
        return Err(FetchError::Length);
    }
    let bytes = match blte_parse(l.encoding_key.0, raw) {
        Err(e) => {
            return Err(FetchError::Blte(e));
        },
        Ok(b) => b,
    };
    if md5hash(bytes.as_slice()) != l.content_key.0 {
        return Err(FetchError::ContentChecksum);
    }
    Ok(bytes)
}

/// The hash that a container is checked against: of all its bytes when its
/// header size is zero, else of its header.
pub open spec fn container_hash(raw: Seq<u8>) -> u128 {
    if be32(raw, 4) == 0 {
        content_hash_of(raw)
    } else {
        content_hash_of(raw.subrange(0, be32(raw, 4) as int))
    }
}

/// Bytes accepted for a content key are the range that the archive index
/// gives its encoding key, exactly that long, hashing to that encoding key,
/// and they decode to bytes that hash to the content key.
pub proof fn lemma_accepted_bytes_match_index(
    enc: Map<u128, CEntry>,
    idx: Map<u128, Location>,
    c: u128,
    raw: Seq<u8>,
)
    requires
        locate_spec(enc, idx, c) is Ok,
        content_spec(locate_spec(enc, idx, c)->Ok_0, raw) is Ok,
    ensures
        ({
            let l = locate_spec(enc, idx, c)->Ok_0;
            let e = l.encoding_key.0;
            &&& idx.contains_key(e)
            &&& e == enc[c].0[0]
            &&& l.archive.0 == idx[e].0
            &&& l.offset == idx[e].2
            &&& raw.len() == idx[e].1
            &&& container_hash(raw) == e
            &&& content_hash_of(content_spec(l, raw)->Ok_0) == c
        }),
{
}

} // verus!
