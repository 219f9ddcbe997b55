//! Transparent compressed-stream codec: decides between plain and gzip
//! treatment of a byte stream from the path suffix and the gzip magic
//! number, and performs the byte-level (de)compression through flate2.
//! Opening files and moving bytes to and from disk is the caller's side.
use vstd::prelude::*;
use std::io::Read;
use std::io::Write;

verus! {

/// Errors of the stream layer: a stream that cannot be probed or decoded.
#[derive(Debug, Clone, Copy, PartialEq, Eq, Structural)]
pub enum StreamError {
    IoError,
}

/// What gzip decompression yields on a byte sequence: the original bytes
/// when the sequence is a well-formed gzip stream, nothing otherwise.
pub uninterp spec fn gunzip_of(data: Seq<u8>) -> Option<Seq<u8>>;

/// Relies on flate2's read::GzDecoder over an in-memory byte slice:
/// decompression is a function of the input bytes alone, and a stream that
/// is not well-formed gzip data fails to decode.
#[verifier::external_body]
fn gunzip(data: &Vec<u8>) -> (r: Option<Vec<u8>>)
    ensures
        match r {
            Some(d) => gunzip_of(data@) == Some(d@),
            None => gunzip_of(data@) is None,
        },
{
    let mut out = Vec::new();
    let mut dec = flate2::read::GzDecoder::new(data.as_slice());
    match dec.read_to_end(&mut out) {
        Ok(_) => Some(out),
        Err(_) => None,
    }
}

/// Relies on flate2's write::GzEncoder at the default compression level:
/// its output is a gzip stream that decompresses back to the input bytes.
/// Writing into an in-memory `Vec` cannot fail.
#[verifier::external_body]
fn gzip(data: &Vec<u8>) -> (r: Vec<u8>)
    ensures
        gunzip_of(r@) == Some(data@),
{
    let mut enc = flate2::write::GzEncoder::new(Vec::new(), flate2::Compression::default());
    enc.write_all(data.as_slice()).expect("writing to an in-memory buffer cannot fail");
    enc.finish().expect("finishing an in-memory gzip stream cannot fail")
}

/// A path that names a gzip-compressed file by its extension.
pub open spec fn is_gz_path(p: Seq<char>) -> bool {
    p.len() >= 3 && p[p.len() - 3] == '.' && p[p.len() - 2] == 'g' && p[p.len() - 1] == 'z'
}

/// Whether the path ends with the `.gz` extension.
pub fn has_gz_suffix(path: &str) -> (r: bool)
    ensures
        r == is_gz_path(path@),
{
    let n = path.unicode_len();
    if n < 3 {
        return false;
    }
    path.get_char(n - 3) == '.' && path.get_char(n - 2) == 'g' && path.get_char(n - 1) == 'z'
}

/// What reading a file stream yields from its raw bytes: a `.gz` path or a
/// leading gzip magic number selects decompression (failing on bytes that
/// are not well-formed gzip data); a stream of fewer than two bytes cannot
/// be probed; anything else passes through unchanged.
pub open spec fn decode_result(path: Seq<char>, content: Seq<u8>) -> Result<Seq<u8>, StreamError> {
    if is_gz_path(path) {
        match gunzip_of(content) {
            Some(d) => Ok(d),
            None => Err(StreamError::IoError),
        }
    } else if content.len() < 2 {
        Err(StreamError::IoError)
    } else if content[0] == 0x1f && content[1] == 0x8b {
        match gunzip_of(content) {
            Some(d) => Ok(d),
            None => Err(StreamError::IoError),
        }
    } else {
        Ok(content)
    }
}

/// Decode the raw bytes of the file at `path` as the reading side of the
/// stream factory does: gzip streams are recognized by extension or magic
/// number and decompressed, all other streams pass through.
pub fn decode_content(path: &str, content: &Vec<u8>) -> (r: Result<Vec<u8>, StreamError>)
    ensures
        match r {
            Ok(d) => decode_result(path@, content@) == Ok::<Seq<u8>, StreamError>(d@),
            Err(e) => decode_result(path@, content@) == Err::<Seq<u8>, StreamError>(e),
        },
{
    if has_gz_suffix(path) {
        match gunzip(content) {
            Some(d) => Ok(d),
            None => Err(StreamError::IoError),
        }
    } else if content.len() < 2 {
        Err(StreamError::IoError)
    } else if content[0] == 0x1f && content[1] == 0x8b {
        match gunzip(content) {
            Some(d) => Ok(d),
            None => Err(StreamError::IoError),
        }
    } else {
        Ok(content.clone())
    }
}

/// Encode bytes for the file at `path` as the writing side of the stream
/// factory does: a `.gz` path selects gzip compression, any other path
/// takes the bytes unchanged.
pub fn encode_content(path: &str, data: &Vec<u8>) -> (r: Vec<u8>)
    ensures
        is_gz_path(path@) ==> gunzip_of(r@) == Some(data@),
        !is_gz_path(path@) ==> r@ == data@,
{
    if has_gz_suffix(path) {
        gzip(data)
    } else {
        data.clone()
    }
}

/// Round trip through the stream factory: bytes encoded for a `.gz` path
/// decode back to exactly the original bytes. Together with the contract
/// of `encode_content`, writing a table to a `.gz` path and reading it
/// back reproduces its byte content.
pub proof fn lemma_gz_round_trip(path: Seq<char>, data: Seq<u8>, enc: Seq<u8>)
    requires
        is_gz_path(path),
        gunzip_of(enc) == Some(data),
    ensures
        decode_result(path, enc) == Ok::<Seq<u8>, StreamError>(data),
{
}

} // verus!
