//! The byte channels that a running program reads from and writes to.
//!
//! The interpreter treats both as opaque capabilities: nothing is known of
//! what a read returns or of whether a write succeeds.

use std::io::{Read, Write};
use vstd::prelude::*;

verus! {

/// The fault that a channel reports.
#[verifier::external_type_specification]
#[verifier::external_body]
pub struct ExIoError(std::io::Error);

/// Reads exactly one byte with `Read::read_exact` and returns it, or the
/// reader's fault. Nothing is claimed of the result.
#[verifier::external_body]
pub(crate) fn read_one<R: Read>(cin: &mut R) -> (r: Result<u8, std::io::Error>) {
    let mut b = [0u8];
    match cin.read_exact(&mut b) {
        Ok(_) => Ok(b[0]),
        Err(err) => Err(err),
    }
}

/// Whether `std::io::Error::kind` says `UnexpectedEof`, which is how
/// `read_exact` reports the end of the stream. Nothing is claimed of the
/// result.
#[verifier::external_body]
pub(crate) fn is_end_of_stream(err: &std::io::Error) -> (r: bool) {
    matches!(err.kind(), std::io::ErrorKind::UnexpectedEof)
}

/// Writes one byte with `Write::write_all` and hands on the writer's fault.
/// Nothing is claimed of the result.
#[verifier::external_body]
pub(crate) fn write_one<W: Write>(cout: &mut W, b: u8) -> (r: Result<(), std::io::Error>) {
    cout.write_all(&[b])
}

/// Appends the rest of a stream to `data` with `Read::read_to_end` and
/// returns the number of bytes read, or the reader's fault. Nothing is
/// claimed of the result or of `data` afterwards.
#[verifier::external_body]
pub(crate) fn read_rest<R: Read>(file: &mut R, data: &mut Vec<u8>) -> (r: Result<
    usize,
    std::io::Error,
>) {
    file.read_to_end(data)
}

} // verus!
