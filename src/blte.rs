//! The chunked container that wraps every compressed object of the store.
use vstd::prelude::*;

use vstd::slice::slice_to_vec;

use crate::hashing::{content_hash_of, md5hash};
use crate::wire::{be128, be24, be32, read_be128, read_be16, read_be32};

verus! {

/// Why a container was refused.
#[derive(Debug, Clone, Copy, PartialEq, Eq, Structural)]
pub enum BlteError {
    /// The data ends before a header field or a chunk that it declares.
    Truncated,
    /// The data does not start with the container's magic.
    NotBlte,
    /// The container's hash differs from the expected checksum.
    HeaderChecksum,
    /// The flag byte after the header size is not 0x0f.
    BadFlag,
    /// The header size disagrees with the chunk count.
    HeaderSizeMismatch,
    /// A chunk's hash differs from its descriptor's checksum.
    ChunkChecksum,
    /// A chunk's encoding tag is neither literal nor zlib.
    UnknownEncoding,
    /// The zlib stream of a chunk could not be inflated.
    Inflate,
    /// A chunk decoded to another length than its descriptor declares.
    SizeMismatch,
    /// Bytes follow the last chunk.
    TrailingData,
}

impl BlteError {
    /// The stage that failed, in words.
    pub fn message(&self) -> (r: &'static str) {
        match self {
            BlteError::Truncated => "truncated BLTE data",
            BlteError::NotBlte => "not BLTE format",
            BlteError::HeaderChecksum => "BLTE header checksum",
            BlteError::BadFlag => "bad BLTE flag byte",
            BlteError::HeaderSizeMismatch => "BLTE header size mismatch",
            BlteError::ChunkChecksum => "BLTE chunk checksum",
            BlteError::UnknownEncoding => "invalid BLTE chunk encoding",
            BlteError::Inflate => "BLTE chunk inflate error",
            BlteError::SizeMismatch => "invalid BLTE uncompressed size",
            BlteError::TrailingData => "trailing BLTE data",
        }
    }
}

/// What a zlib stream inflates to, or `None` where it is not a valid stream.
pub uninterp spec fn zlib_inflate_of(b: Seq<u8>) -> Option<Seq<u8>>;

#[verifier::external_type_specification]
#[verifier::external_body]
pub struct ExDecompressError(miniz_oxide::inflate::DecompressError);

/// Relies on miniz_oxide::inflate::decompress_to_vec_zlib: inflates a zlib
/// stream; success and output depend on the input bytes alone.
#[verifier::external_body]
fn inflate_zlib(b: &[u8]) -> (r: Result<Vec<u8>, miniz_oxide::inflate::DecompressError>)
    ensures
        match r {
            Ok(v) => zlib_inflate_of(b@) == Some(v@),
            Err(_) => zlib_inflate_of(b@) is None,
        },
{
    miniz_oxide::inflate::decompress_to_vec_zlib(b)
}

/// A decoded byte vector seen as its sequence.
pub open spec fn bytes_result<E>(r: Result<Vec<u8>, E>) -> Result<Seq<u8>, E> {
    match r {
        Ok(v) => Ok(v@),
        Err(e) => Err(e),
    }
}

/// One chunk: a tag byte, then literal bytes (`N`) or a zlib stream (`Z`).
pub open spec fn chunk_spec(c: Seq<u8>) -> Result<Seq<u8>, BlteError> {
    if c.len() == 0 {
        Err(BlteError::Truncated)
    } else if c[0] == 0x4e {
        Ok(c.drop_first())
    } else if c[0] == 0x5a {
        match zlib_inflate_of(c.drop_first()) {
            Some(v) => Ok(v),
            None => Err(BlteError::Inflate),
        }
    } else {
        Err(BlteError::UnknownEncoding)
    }
}

/// Offset of the descriptor of chunk `i`.
pub open spec fn descriptor_at(i: nat) -> int {
    12 + 24 * (i as int)
}

/// Chunks `i..count`, the first of them starting at `pos`; all input must be
/// consumed by the last.
pub open spec fn chunks_spec(d: Seq<u8>, count: nat, i: nat, pos: nat) -> Result<
    Seq<u8>,
    BlteError,
>
    decreases count - i,
{
    if i >= count {
        if pos == d.len() {
            Ok(Seq::empty())
        } else {
            Err(BlteError::TrailingData)
        }
    } else {
        let desc = descriptor_at(i);
        let csize = be32(d, desc);
        if pos + csize > d.len() {
            Err(BlteError::Truncated)
        } else {
            let c = d.subrange(pos as int, (pos + csize) as int);
            if content_hash_of(c) != be128(d, desc + 8) {
                Err(BlteError::ChunkChecksum)
            } else {
                match chunk_spec(c) {
                    Err(e) => Err(e),
                    Ok(out) => if out.len() != be32(d, desc + 4) {
                        Err(BlteError::SizeMismatch)
                    } else {
                        prepend(out, chunks_spec(d, count, i + 1, pos + csize))
                    },
                }
            }
        }
    }
}

pub open spec fn prepend(front: Seq<u8>, r: Result<Seq<u8>, BlteError>) -> Result<
    Seq<u8>,
    BlteError,
> {
    match r {
        Ok(rest) => Ok(front + rest),
        Err(e) => Err(e),
    }
}

pub open spec fn has_blte_magic(d: Seq<u8>) -> bool {
    d[0] == 0x42 && d[1] == 0x4c && d[2] == 0x54 && d[3] == 0x45
}

/// The decoding of a whole container whose hash should be `expected`.
pub open spec fn blte_spec(expected: u128, d: Seq<u8>) -> Result<Seq<u8>, BlteError> {
    if d.len() < 12 {
        Err(BlteError::Truncated)
    } else if !has_blte_magic(d) {
        Err(BlteError::NotBlte)
    } else if be32(d, 4) == 0 {
        if content_hash_of(d) != expected {
            Err(BlteError::HeaderChecksum)
        } else {
            chunk_spec(d.subrange(8, d.len() as int))
        }
    } else if be32(d, 4) > d.len() {
        Err(BlteError::Truncated)
    } else if content_hash_of(d.subrange(0, be32(d, 4) as int)) != expected {
        Err(BlteError::HeaderChecksum)
    } else if d[8] != 0x0f {
        Err(BlteError::BadFlag)
    } else if be32(d, 4) != be24(d, 9) * 24 + 12 {
        Err(BlteError::HeaderSizeMismatch)
    } else {
        chunks_spec(d, be24(d, 9), 0, be32(d, 4))
    }
}

fn parse_blte_chunk(c: &[u8]) -> (r: Result<Vec<u8>, BlteError>)
    ensures
        bytes_result(r) == chunk_spec(c@),
{
    let n = c.len();
    if n == 0 {
        return Err(BlteError::Truncated);
    }
    let body = &c[1..n];
    assert(body@ == c@.drop_first());
    if c[0] == 0x4e {
        Ok(slice_to_vec(body))
    } else if c[0] == 0x5a {
        match inflate_zlib(body) {
            Ok(v) => Ok(v),
            Err(_) => Err(BlteError::Inflate),
        }
    } else {
        Err(BlteError::UnknownEncoding)
    }
}

/// Decodes a container whose hash should be `expected_checksum`: the hash of
/// the whole input when the header size is zero, else of the header.
pub fn parse(expected_checksum: u128, data: &[u8]) -> (r: Result<Vec<u8>, BlteError>)
    ensures
        bytes_result(r) == blte_spec(expected_checksum, data@),
{
    let n = data.len();
    if n < 12 {
        return Err(BlteError::Truncated);
    }
    if !(data[0] == 0x42 && data[1] == 0x4c && data[2] == 0x54 && data[3] == 0x45) {
        return Err(BlteError::NotBlte);
    }
    let header_size = read_be32(data, 4);
    if header_size == 0 {
        if md5hash(data) != expected_checksum {
            return Err(BlteError::HeaderChecksum);
        }
        return parse_blte_chunk(&data[8..n]);
    }
    let hs = header_size as usize;
    if hs > n {
        return Err(BlteError::Truncated);
    }
    if md5hash(&data[0..hs]) != expected_checksum {
        return Err(BlteError::HeaderChecksum);
    }
    if data[8] != 0x0f {
        return Err(BlteError::BadFlag);
    }
    let count: u32 = (data[9] as u32) * 0x10000 + (read_be16(data, 10) as u32);
    assert(count == be24(data@, 9));
    if header_size != count * 24 + 12 {
        return Err(BlteError::HeaderSizeMismatch);
    }
    let ghost d = data@;
    let mut out: Vec<u8> = Vec::new();
    let mut pos: usize = hs;
    let mut i: u32 = 0;
    while i < count
        invariant
            d == data@,
            n == d.len(),
            count == be24(d, 9),
            hs == count * 24 + 12,
            hs <= n,
            i <= count,
            pos <= n,
            blte_spec(expected_checksum, d) == prepend(out@, chunks_spec(d, count as nat, i as nat, pos as nat)),
        decreases count - i,
    {
        let desc: usize = 12 + 24 * (i as usize);
        let csize = read_be32(data, desc) as usize;
        let usize_declared = read_be32(data, desc + 4) as usize;
        let sum = read_be128(data, desc + 8);
        if csize > n - pos {
            return Err(BlteError::Truncated);
        }
        let chunk = &data[pos..pos + csize];
        if md5hash(chunk) != sum {
            return Err(BlteError::ChunkChecksum);
        }
        match parse_blte_chunk(chunk) {
            Err(e) => {
                return Err(e);
            },
            Ok(v) => {
                if v.len() != usize_declared {
                    return Err(BlteError::SizeMismatch);
                }
                let ghost before = out@;
                out.extend_from_slice(&v);
                proof {
                    match chunks_spec(d, count as nat, (i + 1) as nat, (pos + csize) as nat) {
                        Ok(rest) => {
                            assert(before + (v@ + rest) == out@ + rest);
                        },
                        Err(_) => {},
                    }
                }
            },
        }
        pos = pos + csize;
        i = i + 1;
    }
    if pos != n {
        return Err(BlteError::TrailingData);
    }
    assert(out@ + Seq::<u8>::empty() == out@);
    Ok(out)
}

} // verus!
