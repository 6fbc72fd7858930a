//! Bounded JVM artifact and class-file reading: the facts decoded from class bytes, the
//! budget that bounds a request, and the identities and result semantics derived from them.

pub mod text;
pub mod error;
pub mod cancel;
pub mod budget;
pub mod model;
pub mod bytes;
pub mod cpool;
pub mod release;
pub mod version;
pub mod names;
pub mod header;
pub mod declared;
pub mod attributes;
pub mod descriptor;
pub mod bytecode;
pub mod instruction;
pub mod body;
pub mod decoder;
pub mod classfile;
pub mod ledger;
pub mod modern;
pub mod facts_cache;
pub mod zip;
pub mod artifact;
pub mod entry_cursor;
pub mod inspect;
