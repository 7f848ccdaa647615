//! A miniature version-control engine: a content-addressable object store
//! holding blobs, trees and commits, a staging index, named branch refs and a
//! HEAD pointer, and the pure logic of the usual commands (add, commit,
//! branch, checkout, diff, log, status). All state is held and transformed as
//! plain values; reading and writing the repository's files is the caller's
//! business.

pub mod types;
pub mod errors;
pub mod strutil;
pub mod hashing;
pub mod compress;
pub mod codec;
pub mod object_store;
pub mod refs;
pub mod utils;
pub mod add;
pub mod commit;
pub mod branch;
pub mod log;
pub mod checkout;
pub mod lines;
pub mod diff;
pub mod status;
pub mod init;

pub use types::{Blob, Tree, TreeEntry, Commit, Index, IndexEntry, Branch, Remote, Repository};
pub use errors::GitError;
pub use object_store::ObjectStore;
