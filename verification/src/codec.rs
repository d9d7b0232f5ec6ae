//! The container decompressor.  A container payload is `compression: u8`,
//! `compressed_size: u32 BE`, then a codec-specific body: raw bytes, a bzip2
//! stream whose four magic bytes were stripped on disk, or a raw deflate
//! stream behind a ten-byte gzip header.

use vstd::prelude::*;

use crate::cursor::{be32_at, byte_at, Cursor};
use crate::errors::CacheError;

verus! {

/// Containers may not declare a compressed size over this many bytes.
pub const MAX_COMPRESSED_SIZE: u32 = 5_000_000;

/// What a single bzip2 stream decodes to, or `None` where the stream is
/// rejected.  The result depends on the input bytes alone.
pub uninterp spec fn bunzip_of(s: Seq<u8>) -> Option<Seq<u8>>;

/// What a raw deflate stream decodes to, or `None` where the stream is
/// rejected.  The result depends on the input bytes alone.
pub uninterp spec fn inflate_of(s: Seq<u8>) -> Option<Seq<u8>>;

/// Relies on bzip2's `bufread::BzDecoder` with `Read::read_to_end`: decoding
/// one bzip2 stream is a function of the input bytes alone; an invalid stream
/// is reported as an I/O error.
#[verifier::external_body]
fn bunzip(data: &Vec<u8>) -> (r: Option<Vec<u8>>)
    ensures
        match r {
            Some(v) => bunzip_of(data@) == Some(v@),
            None => bunzip_of(data@) is None,
        },
{
    let mut out = Vec::new();
    let mut decoder = bzip2::bufread::BzDecoder::new(&data[..]);
    match std::io::Read::read_to_end(&mut decoder, &mut out) {
        Ok(_) => Some(out),
        Err(_) => None,
    }
}

/// Relies on `inflate::inflate_bytes`: decoding a raw deflate stream is a
/// function of the input bytes alone; a malformed stream is an `Err`.
#[verifier::external_body]
fn inflate_raw(data: &Vec<u8>) -> (r: Option<Vec<u8>>)
    ensures
        match r {
            Some(v) => inflate_of(data@) == Some(v@),
            None => inflate_of(data@) is None,
        },
{
    match inflate::inflate_bytes(&data[..]) {
        Ok(v) => Some(v),
        Err(_) => None,
    }
}

/// The four magic bytes the on-disk format strips from a bzip2 stream.
pub open spec fn bzip_magic() -> Seq<u8> {
    seq![0x42u8, 0x5au8, 0x68u8, 0x31u8]
}

/// What decompressing a container payload yields, for every payload.
pub open spec fn spec_decompress(s: Seq<u8>) -> Result<Seq<u8>, CacheError> {
    if s.len() == 0 {
        Ok(Seq::empty())
    } else if s.len() < 5 {
        Err(CacheError::DecodeError)
    } else {
        let compression = byte_at(s, 0);
        let csize = be32_at(s, 1);
        if csize > MAX_COMPRESSED_SIZE {
            Err(CacheError::OversizeContainer)
        } else if compression == 0 {
            if 5 + csize <= s.len() {
                Ok(s.subrange(5, 5 + csize))
            } else {
                Err(CacheError::DecodeError)
            }
        } else if compression == 1 {
            if s.len() < 9 {
                Err(CacheError::DecodeError)
            } else {
                let dsize = be32_at(s, 5);
                match bunzip_of(bzip_magic() + s.skip(9)) {
                    Some(out) => if out.len() == dsize {
                        Ok(out)
                    } else {
                        Err(CacheError::SizeMismatch)
                    },
                    None => Err(CacheError::DecodeError),
                }
            }
        } else if compression == 2 {
            if s.len() < 19 {
                Err(CacheError::DecodeError)
            } else {
                let dsize = be32_at(s, 5);
                match inflate_of(s.skip(19)) {
                    Some(out) => if out.len() == dsize {
                        Ok(out)
                    } else {
                        Err(CacheError::SizeMismatch)
                    },
                    None => Err(CacheError::DecodeError),
                }
            }
        } else {
            Err(CacheError::UnknownCodec)
        }
    }
}

/// Decompresses a container payload.
///
/// An empty payload stands for an empty archive and yields no bytes.  The
/// raw codec returns exactly the declared number of bytes; the bzip2 codec
/// reinstates the stripped `BZh1` magic before decoding; the deflate codec
/// skips the ten-byte gzip header and inflates the rest.  Either compressed
/// codec must produce exactly the declared decompressed size.
pub fn decompress_container_data(packed_data: Vec<u8>) -> (r: Result<Vec<u8>, CacheError>)
    ensures
        match r {
            Ok(v) => spec_decompress(packed_data@) == Ok::<Seq<u8>, CacheError>(v@),
            Err(e) => spec_decompress(packed_data@) == Err::<Seq<u8>, CacheError>(e),
        },
{
    let ghost s = packed_data@;
    let mut data = Cursor::with_vec(packed_data);

    if data.len() == 0 {
        return Ok(Vec::new());
    }
    let compression = match data.read_u8() {
        Some(c) => c,
        None => { return Err(CacheError::DecodeError) },
    };
    let container_size = match data.read_u32() {
        Some(v) => v,
        None => { return Err(CacheError::DecodeError) },
    };

    if container_size > MAX_COMPRESSED_SIZE {
        return Err(CacheError::OversizeContainer);
    }

    if compression == 0 {
        match data.read_bytes(container_size as usize) {
            Some(raw) => Ok(raw),
            None => Err(CacheError::DecodeError),
        }
    } else if compression == 1 {
        let decompressed_size = match data.read_u32() {
            Some(v) => v,
            None => { return Err(CacheError::DecodeError) },
        };
        // Reinstate the magic the format strips.
        let mut stream: Vec<u8> = Vec::new();
        stream.push(0x42);
        stream.push(0x5a);
        stream.push(0x68);
        stream.push(0x31);
        let mut rest = data.read_remaining();
        stream.append(&mut rest);
        assert(stream@ == bzip_magic() + s.skip(9));
        match bunzip(&stream) {
            Some(unpacked) => {
                if unpacked.len() == decompressed_size as usize {
                    Ok(unpacked)
                } else {
                    Err(CacheError::SizeMismatch)
                }
            },
            None => Err(CacheError::DecodeError),
        }
    } else if compression == 2 {
        let decompressed_size = match data.read_u32() {
            Some(v) => v,
            None => { return Err(CacheError::DecodeError) },
        };
        // Skip the gzip header in front of the deflate stream.
        if data.len() < 19 {
            return Err(CacheError::DecodeError);
        }
        data.set_pos(19);
        let trimmed = data.read_remaining();
        assert(trimmed@ == s.skip(19));
        match inflate_raw(&trimmed) {
            Some(unpacked) => {
                if unpacked.len() == decompressed_size as usize {
                    Ok(unpacked)
                } else {
                    Err(CacheError::SizeMismatch)
                }
            },
            None => Err(CacheError::DecodeError),
        }
    } else {
        Err(CacheError::UnknownCodec)
    }
}

} // verus!
