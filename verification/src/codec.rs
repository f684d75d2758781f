use vstd::prelude::*;
use std::io::Read;
use std::io::Write;

verus! {

/// What gzip decompression yields on a given stream: `Some` of the
/// decompressed bytes when the stream is a well-formed gzip stream,
/// `None` when it is truncated or malformed. The result depends on the
/// bytes alone.
pub uninterp spec fn gunzip_of(s: Seq<u8>) -> Option<Seq<u8>>;

/// Reverses the standard stream-compression format.
///
/// Relies on `flate2::read::GzDecoder`: reading it to the end yields
/// the decompressed payload of the stream's first member and errors on
/// a truncated or malformed one; bytes after a complete member are
/// ignored.
#[verifier::external_body]
fn gunzip(bytes: &Vec<u8>) -> (r: Option<Vec<u8>>)
    ensures
        match r {
            Some(v) => gunzip_of(bytes@) == Some(v@),
            None => gunzip_of(bytes@) is None,
        },
{
    let mut decoder = flate2::read::GzDecoder::new(bytes.as_slice());
    let mut buf = vec![];
    match decoder.read_to_end(&mut buf) {
        Ok(_) => Some(buf),
        Err(_) => None,
    }
}

/// Produces a gzip stream at the highest compression ratio.
///
/// Relies on `flate2::write::GzEncoder` with `Compression::best`: the
/// stream it produces decompresses back to exactly the bytes written
/// into it. Its `write_all` and `finish` only propagate errors of the
/// underlying sink, and writing into a `Vec` cannot fail, so the call
/// always succeeds.
#[verifier::external_body]
fn gzip_best(bytes: &Vec<u8>) -> (r: Vec<u8>)
    ensures
        gunzip_of(r@) == Some(bytes@),
{
    let mut encoder = flate2::write::GzEncoder::new(vec![], flate2::Compression::best());
    encoder
        .write_all(bytes.as_slice())
        .expect("writing into a Vec cannot fail");
    encoder.finish().expect("writing into a Vec cannot fail")
}

/// Reverses the stream-compression format; fails with `CorruptData` if
/// the stream is truncated or malformed.
pub fn decompress(bytes: &Vec<u8>) -> (r: Result<Vec<u8>, crate::ToolError>)
    ensures
        match r {
            Ok(v) => gunzip_of(bytes@) == Some(v@),
            Err(e) => e == crate::ToolError::CorruptData && gunzip_of(bytes@) is None,
        },
{
    match gunzip(bytes) {
        Some(v) => Ok(v),
        None => Err(crate::ToolError::CorruptData),
    }
}

/// Produces a stream-compression output at maximum compression ratio.
/// Total: the output always decompresses back to exactly the input.
pub fn compress(bytes: &Vec<u8>) -> (r: Vec<u8>)
    ensures
        gunzip_of(r@) == Some(bytes@),
{
    gzip_best(bytes)
}

} // verus!
