//! The calls that leave this library: zlib compression, the `Bytes` buffer,
//! the seeded random generator and the UTF-8 check of the standard library.
//!
//! Verus does not look into the functions called here. Each contract below
//! is believed as written, and every proof that passes through one of these
//! calls rests on it.

use crate::git::{is_listed, RefEntry, Reference};
use bytes::Bytes;
use itertools::Itertools;
use rand::distributions::{Alphanumeric, DistString};
use rand::SeedableRng;
use std::io::Read;
use std::string::FromUtf8Error;
use vstd::prelude::*;
use vstd::utf8::*;

verus! {

/// The error type of the standard library's readers and writers.
#[verifier::external_type_specification]
#[verifier::external_body]
pub struct ExIoError(std::io::Error);

/// What `String::from_utf8` returns for bytes that are no UTF-8.
#[verifier::external_type_specification]
#[verifier::external_body]
pub struct ExFromUtf8Error(FromUtf8Error);

/// The reference-counted byte buffer of the `bytes` crate.
#[verifier::external_type_specification]
#[verifier::external_body]
pub struct ExBytes(Bytes);

/// What comes of compressing `data` with flate2's zlib encoder at its
/// highest level: the zlib stream, or nothing where the encoder reports an
/// error.
pub uninterp spec fn zlib_best(data: Seq<u8>) -> Option<Seq<u8>>;

/// The bytes that a `Bytes` buffer holds.
pub uninterp spec fn bytes_contents(b: Bytes) -> Seq<u8>;

/// The string that `Alphanumeric` samples from a ChaCha8 generator seeded
/// with `seed`, `len` characters long.
pub uninterp spec fn alphanumeric_sample(seed: u64, len: nat) -> Seq<char>;

/// An ASCII letter or digit.
pub open spec fn is_alphanumeric(c: char) -> bool {
    ||| '0' <= c <= '9'
    ||| 'a' <= c <= 'z'
    ||| 'A' <= c <= 'Z'
}

/// Runs `flate2::read::ZlibEncoder` with `Compression::best()` over `data`
/// and reads it to its end. The encoder reads from memory, so what comes of
/// it depends on `data` alone, the stream as well as whether there is one:
/// that outcome is named `zlib_best`. On which data the encoder reports an
/// error is left open.
#[verifier::external_body]
pub(crate) fn zlib_compress(data: &[u8]) -> (r: Result<Vec<u8>, std::io::Error>)
    ensures
        match r {
            Ok(out) => zlib_best(data@) == Some(out@),
            Err(_) => zlib_best(data@) is None,
        },
{
    let mut out = Vec::new();
    flate2::read::ZlibEncoder::new(data, flate2::Compression::best()).read_to_end(&mut out)?;
    Ok(out)
}

/// `Bytes::from` on a vector: the buffer takes the vector over and holds
/// the same bytes.
#[verifier::external_body]
pub(crate) fn bytes_from_vec(v: Vec<u8>) -> (b: Bytes)
    ensures
        bytes_contents(b) == v@,
{
    Bytes::from(v)
}

/// `Alphanumeric.sample_string` on a `ChaCha8Rng` made by `seed_from_u64`.
/// The generator is seeded, so the string depends on `seed` and `len` alone.
/// It has `len` characters, each of them an ASCII letter or digit.
#[verifier::external_body]
pub(crate) fn sample_alphanumeric(seed: u64, len: usize) -> (s: String)
    requires
        len <= isize::MAX,
    ensures
        s@ == alphanumeric_sample(seed, len as nat),
        s@.len() == len,
        forall|i: int| 0 <= i < s@.len() ==> is_alphanumeric(#[trigger] s@[i]),
{
    let mut rng = rand_chacha::ChaCha8Rng::seed_from_u64(seed);
    Alphanumeric.sample_string(&mut rng, len)
}

/// `String::from_utf8`: succeeds exactly on valid UTF-8, and the string it
/// returns is encoded by the bytes it was given.
#[verifier::external_body]
pub(crate) fn string_from_utf8(bytes: Vec<u8>) -> (r: Result<String, FromUtf8Error>)
    ensures
        r is Ok <==> valid_utf8(bytes@),
        r matches Ok(s) ==> encode_utf8(s@) == bytes@,
{
    String::from_utf8(bytes)
}

/// `Itertools::filter_ok` with `Reference::is_local`, collected into a
/// vector: every failure stays, a reference stays if it is local, and what
/// stays keeps its order.
#[verifier::external_body]
pub(crate) fn filter_ok_local(refs: Vec<RefEntry>) -> (kept: Vec<RefEntry>)
    ensures
        kept@ == refs@.filter(|e: RefEntry| is_listed(e)),
{
    refs.into_iter().filter_ok(Reference::is_local).collect()
}

} // verus!
