//! Selective encryption of structured configuration documents.
//!
//! A document (JSON, YAML, or an opaque binary blob) is parsed into a
//! format-agnostic tree; every scalar value is encrypted in place with a
//! per-document data key, while the tree shape, mapping keys, and subtrees
//! under keys carrying a configured cleartext suffix stay readable.  The data
//! key itself is wrapped by one or more key groups (optionally combined with
//! Shamir secret sharing across groups), and the whole document is guarded by
//! an authenticated digest stored in an embedded metadata block.

pub mod api;
pub mod b64;
pub mod bytes;
pub mod cipher;
pub mod enc;
pub mod doc;
pub mod error;
pub mod gf;
pub mod groups;
pub mod keysvc;
pub mod mac;
pub mod json;
pub mod meta;
pub mod num;
pub mod path;
pub mod shamir;
pub mod tree;
pub mod validate;
pub mod value;
pub mod yaml;
pub mod walk;
