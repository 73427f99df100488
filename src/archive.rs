use vstd::prelude::*;
use vstd::slice::{slice_subrange, slice_to_vec};
use std::io::Read;

use crate::directory::{decode_directory, decodes_to, TileEntries, TileEntry};
use crate::error::ParseError;
use crate::header::{Compression, Header};

verus! {

/// What gzip-decompressing `s` yields, or `None` where `s` is not a valid gzip stream.
pub uninterp spec fn gunzip_of(s: Seq<u8>) -> Option<Seq<u8>>;

/// Relies on `flate2::read::GzDecoder` read to the end: decompresses a gzip stream
/// held in memory; what comes out, or whether it fails, depends on the bytes alone.
#[verifier::external_body]
fn gunzip(data: &[u8]) -> (r: Result<Vec<u8>, std::io::Error>)
    ensures
        match gunzip_of(data@) {
            Some(d) => r is Ok && r->Ok_0@ == d,
            None => r is Err,
        },
{
    let mut decoder = flate2::read::GzDecoder::new(data);
    let mut out: Vec<u8> = Vec::new();
    match decoder.read_to_end(&mut out) {
        Ok(_) => Ok(out),
        Err(e) => Err(e),
    }
}

/// Gzip-decompresses the bytes `file[start..end]`.
pub fn decompress_range(file: &Vec<u8>, start: usize, end: usize) -> (r: Result<
    Vec<u8>,
    std::io::Error,
>)
    requires
        start <= end <= file@.len(),
    ensures
        match gunzip_of(file@.subrange(start as int, end as int)) {
            Some(d) => r is Ok && r->Ok_0@ == d,
            None => r is Err,
        },
{
    let compressed = slice_subrange(file.as_slice(), start, end);
    gunzip(compressed)
}

/// Whether `[start, start + len)` lies within a file of `file_len` bytes.
pub open spec fn in_bounds(file_len: nat, start: int, len: int) -> bool {
    0 <= start && 0 <= len && start + len <= file_len
}

/// The bytes of region `[start, start + len)` of `file` once decompressed with
/// `codec`; `None` where the region lies outside the file, the codec is not
/// supported, or decompression fails.
pub open spec fn region_data(file: Seq<u8>, start: int, len: int, codec: Compression) -> Option<
    Seq<u8>,
> {
    if !in_bounds(file.len(), start, len) {
        None
    } else {
        let raw = file.subrange(start, start + len);
        match codec {
            Compression::Uncompressed => Some(raw),
            Compression::GZip => gunzip_of(raw),
            _ => None,
        }
    }
}

/// The error reported where `region_data` gives `None`.
pub open spec fn region_error(
    file: Seq<u8>,
    start: int,
    len: int,
    codec: Compression,
    e: ParseError,
) -> bool {
    if !in_bounds(file.len(), start, len) {
        e is OutOfBounds
    } else if codec is GZip {
        e is IoError
    } else {
        e is UnsupportedCompression
    }
}

/// Reads region `[start, start + len)` of `file` and decompresses it with `codec`.
fn region_bytes(file: &Vec<u8>, start: u64, len: u64, codec: Compression) -> (r: Result<
    Vec<u8>,
    ParseError,
>)
    ensures
        match region_data(file@, start as int, len as int, codec) {
            Some(d) => r is Ok && r->Ok_0@ == d,
            None => r is Err && region_error(file@, start as int, len as int, codec, r->Err_0),
        },
{
    let file_len = file.len() as u64;
    if len > file_len || start > file_len - len {
        return Err(ParseError::OutOfBounds);
    }
    let begin = start as usize;
    let end = (start + len) as usize;
    let raw = slice_subrange(file.as_slice(), begin, end);
    match codec {
        Compression::Uncompressed => Ok(slice_to_vec(raw)),
        Compression::GZip => match gunzip(raw) {
            Ok(d) => Ok(d),
            Err(e) => Err(ParseError::from(e)),
        },
        _ => Err(ParseError::UnsupportedCompression),
    }
}

/// Reads and decodes the root directory that `header` locates in `file`,
/// decompressing it with the header's internal compression.
pub fn parse_root_directory(file: &Vec<u8>, header: &Header) -> (r: Result<TileEntries, ParseError>)
    ensures
        match region_data(
            file@,
            header.root_directory_offset as int,
            header.root_directory_length as int,
            header.internal_compression,
        ) {
            Some(d) => decodes_to(d, r),
            None => r is Err && region_error(
                file@,
                header.root_directory_offset as int,
                header.root_directory_length as int,
                header.internal_compression,
                r->Err_0,
            ),
        },
        r is Ok ==> r->Ok_0.ids_ascending(),
{
    let bytes = match region_bytes(
        file,
        header.root_directory_offset,
        header.root_directory_length,
        header.internal_compression,
    ) {
        Ok(b) => b,
        Err(e) => return Err(e),
    };
    decode_directory(bytes.as_slice())
}

/// Absolute start of a tile's bytes: the tile-data region's offset plus the entry's offset.
pub open spec fn tile_start(header: Header, tile: TileEntry) -> int {
    header.tile_data_offset + tile.offset
}

/// Reads the bytes of `tile` from the tile-data region of `file` and decompresses
/// them with the header's tile compression.
pub fn tile_data(file: &Vec<u8>, header: &Header, tile: &TileEntry) -> (r: Result<
    Vec<u8>,
    ParseError,
>)
    ensures
        match region_data(file@, tile_start(*header, *tile), tile.length as int, header.tile_compression) {
            Some(d) => r is Ok && r->Ok_0@ == d,
            None => r is Err && region_error(
                file@,
                tile_start(*header, *tile),
                tile.length as int,
                header.tile_compression,
                r->Err_0,
            ),
        },
{
    let file_len = file.len();
    if tile.offset > u64::MAX - header.tile_data_offset {
        proof {
            assert(file_len <= u64::MAX);
        }
        return Err(ParseError::OutOfBounds);
    }
    region_bytes(file, header.tile_data_offset + tile.offset, tile.length, header.tile_compression)
}

} // verus!
