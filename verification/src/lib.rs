//! Export of a git object store into the file layout that git's dumb HTTP
//! protocol serves, and the decisions of publishing that layout into IPFS.
//!
//! Everything here works on plain values. Reading the repository and talking
//! to the IPFS daemon are left to the program around this library, which
//! hands over what it read and performs the steps that the library decides.

pub mod bridge;
pub mod error;
pub mod export;
pub mod files;
pub mod git;
pub mod ipfs;
pub mod oid;
