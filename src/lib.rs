//! Resolution and decoding of a content-addressed game-asset store: the
//! chunked container, the encoding, root and archive-index tables, the
//! data-table string view, the patch-server text formats and the key
//! resolution chain that joins them.
pub mod wire;
pub mod hashing;
pub mod blte;
pub mod keys;
pub mod archive;
pub mod encoding;
pub mod root;
pub mod wdc;
pub mod wdc3;
pub mod db2;
pub mod text;
pub mod info;
pub mod paths;
pub mod grammar;
pub mod ribbit;
pub mod resolver;
pub mod walker;
