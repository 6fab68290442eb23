//! The two hashing primitives of the store: the 128-bit content hash and the
//! 64-bit name hash.
use vstd::prelude::*;
use vstd::string::StringSliceAdditionalSpecFns;

verus! {

/// The MD5 digest of a byte sequence, read as a big-endian 128-bit integer.
pub uninterp spec fn content_hash_of(b: Seq<u8>) -> u128;

/// Relies on md5::compute: the digest depends on the bytes alone; its 16
/// bytes are read big-endian.
#[verifier::external_body]
pub fn md5hash(p: &[u8]) -> (r: u128)
    ensures
        r == content_hash_of(p@),
{
    u128::from_be_bytes(md5::compute(p).0)
}

/// Jenkins' lookup3 hash of a byte sequence, as the hashers crate returns it.
pub uninterp spec fn lookup3_of(b: Seq<u8>) -> u64;

/// Relies on hashers::jenkins::lookup3: the hash depends on the bytes alone.
#[verifier::external_body]
fn jenkins_lookup3(b: &[u8]) -> (r: u64)
    ensures
        r == lookup3_of(b@),
{
    hashers::jenkins::lookup3(b)
}

/// A byte as ASCII upper case, with `/` turned into `\`.
pub open spec fn name_byte(c: u8) -> u8 {
    if 0x61 <= c <= 0x7a {
        (c - 0x20) as u8
    } else if c == 0x2f {
        0x5c
    } else {
        c
    }
}

/// The bytes that the name hash is computed over.
pub open spec fn name_key(s: Seq<u8>) -> Seq<u8> {
    s.map_values(|c: u8| name_byte(c))
}

/// A byte as ASCII upper case.
pub open spec fn upper_byte(c: u8) -> u8 {
    if 0x61 <= c <= 0x7a {
        (c - 0x20) as u8
    } else {
        c
    }
}

pub open spec fn ascii_upper(s: Seq<u8>) -> Seq<u8> {
    s.map_values(|c: u8| upper_byte(c))
}

/// A path with every `/` turned into `\`.
pub open spec fn backslashed(s: Seq<u8>) -> Seq<u8> {
    s.map_values(|c: u8| if c == 0x2f { 0x5c } else { c })
}

/// The two 32-bit halves of a 64-bit value, exchanged.
pub open spec fn swap_halves(h: u64) -> u64 {
    ((h % 0x1_0000_0000) * 0x1_0000_0000 + h / 0x1_0000_0000) as u64
}

/// The name hash of a file name given as bytes.
pub open spec fn name_hash_of(s: Seq<u8>) -> u64 {
    swap_halves(lookup3_of(name_key(s)))
}

/// The name hash of a file name: lookup3 of its ASCII upper case with
/// backslash separators, with the two 32-bit halves of the result exchanged.
pub fn name_hash(name: &str) -> (r: u64)
    ensures
        r == name_hash_of(name.spec_bytes()),
{
    let b = name.as_bytes();
    let mut key: Vec<u8> = Vec::new();
    let mut i: usize = 0;
    while i < b.len()
        invariant
            i <= b@.len(),
            key@ == name_key(b@.subrange(0, i as int)),
        decreases b@.len() - i,
    {
        let c = b[i];
        let u = if 0x61 <= c && c <= 0x7a {
            c - 0x20
        } else if c == 0x2f {
            0x5c
        } else {
            c
        };
        key.push(u);
        i = i + 1;
        assert(key@ =~= name_key(b@.subrange(0, i as int)));
    }
    assert(b@.subrange(0, b@.len() as int) =~= b@);
    let h = jenkins_lookup3(key.as_slice());
    (h % 0x1_0000_0000) * 0x1_0000_0000 + h / 0x1_0000_0000
}

/// The name hash does not depend on the separator a path is written with:
/// turning `/` into `\\` first changes nothing, with or without upper-casing.
pub proof fn lemma_name_hash_separator_stable(s: Seq<u8>)
    ensures
        name_hash_of(backslashed(s)) == name_hash_of(s),
        name_hash_of(ascii_upper(backslashed(s))) == name_hash_of(ascii_upper(s)),
        name_hash_of(ascii_upper(s)) == name_hash_of(s),
{
    assert(name_key(backslashed(s)) =~= name_key(s));
    assert(name_key(ascii_upper(backslashed(s))) =~= name_key(s));
    assert(name_key(ascii_upper(s)) =~= name_key(s));
}

} // verus!
