//! A content-addressed object store: blobs, trees and commits are framed into
//! canonical byte encodings, identified by the SHA-1 digest of those bytes and
//! stored under a path derived from that digest.

pub mod encoding;
pub mod hash;
pub mod object;
pub mod blob;
pub mod tree;
pub mod commit;
pub mod database;
pub mod repository;
