//! The rewrite behind the `int_keys` attribute of `cbor2`.
//!
//! A field marked `#[cbor(key = <integer>)]` is to be written as an integer
//! CBOR map key. The attribute is replaced by
//! `#[serde(rename = "@@KEY@@<integer>")]`, a name that the `cbor2`
//! serializers recognize and write as that integer.
//!
//! - `decimal`: decimal text of `i128` values, written and read.
//! - `key`: the key argument, the CBOR integer range and the marker name.
//! - `plan`: what happens to one field, decided from what its attributes say.
//! - `serde_args`: whether a `#[serde(...)]` attribute names `rename`.
//! - `expand`: the expansion of an item, over the syntax trees of `syn`.
//! - `syntax`: the calls into `syn`, `proc-macro2` and `quote`.
pub mod decimal;
pub mod expand;
pub mod key;
pub mod plan;
pub mod serde_args;
pub mod syntax;
