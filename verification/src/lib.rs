//! Save and restore file modification times.
//!
//! A save pass walks a directory tree, fingerprints each regular file's
//! content and records its modification time under the file's canonical
//! absolute path. A restore pass re-hashes each recorded file and puts the
//! saved modification time back, but only where the content still matches
//! the recorded fingerprint, so that a stale timestamp is never placed on
//! changed content.

pub mod codec;
pub mod hashing;
pub mod ignore;
pub mod record;
pub mod restore;
pub mod save;
pub mod strutil;
