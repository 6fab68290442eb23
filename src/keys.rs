//! The identifier types of the store. Each wraps its integer; none converts
//! into another without naming the field.
use vstd::prelude::*;

verus! {

/// Hash of the bytes of an uncompressed logical file.
#[derive(Debug, Clone, Copy, PartialEq, Eq, Hash, Structural)]
pub struct ContentKey(pub u128);

/// Hash of one compressed encoding of a file: the outermost container.
#[derive(Debug, Clone, Copy, PartialEq, Eq, Hash, Structural)]
pub struct EncodingKey(pub u128);

/// Identifier of a physical archive blob; also the hash of its index's footer.
#[derive(Debug, Clone, Copy, PartialEq, Eq, Hash, Structural)]
pub struct ArchiveKey(pub u128);

/// The product's stable numeric file name.
#[derive(Debug, Clone, Copy, PartialEq, Eq, Hash, Structural)]
pub struct FileDataID(pub u32);

/// A lookup that found nothing, naming the step that missed.
#[derive(Debug, Clone, Copy, PartialEq, Eq, Structural)]
pub enum LookupError {
    /// The encoding table has no entry for this content key.
    NoContentKey(ContentKey),
    /// The encoding table's entry for this content key lists no encoding key.
    NoEncodingKey(ContentKey),
    /// The root has no entry for this file id.
    NoFileDataID(FileDataID),
    /// The root has no entry for this name hash.
    NoNameHash(u64),
    /// No archive index holds this encoding key.
    NotInArchives(EncodingKey),
}

} // verus!
