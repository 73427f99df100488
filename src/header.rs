use vstd::prelude::*;
use bytes::Bytes;

use crate::buffer::{advance, bytes_view, remaining_slice};
use crate::error::ParseError;

verus! {

/// Length of the fixed archive header in bytes.
pub const HEADER_LEN: usize = 127;

/// The only archive version this reader accepts.
pub const ARCHIVE_VERSION: u8 = 3;

/// The seven bytes every archive starts with: ASCII `PMTiles`.
pub open spec fn archive_magic() -> Seq<u8> {
    seq![0x50u8, 0x4d, 0x54, 0x69, 0x6c, 0x65, 0x73]
}

/// Whether the tile entries of an archive are ordered by tile id.
#[derive(Debug, Clone, Copy, PartialEq, Eq, Structural)]
pub enum Clustered {
    NotClustered,
    Clustered,
}

/// A compression codec named by the header.
#[derive(Debug, Clone, Copy, PartialEq, Eq, Structural)]
pub enum Compression {
    Unknown,
    Uncompressed,
    GZip,
    Brotli,
    ZStd,
}

/// The format of the tile payloads.
#[derive(Debug, Clone, Copy, PartialEq, Eq, Structural)]
pub enum TileType {
    Unknown,
    MVT,
    PNG,
    JPEG,
    WebP,
    AVIF,
}

pub open spec fn clustered_of(b: u8) -> Option<Clustered> {
    if b == 0 {
        Some(Clustered::NotClustered)
    } else if b == 1 {
        Some(Clustered::Clustered)
    } else {
        None
    }
}

pub open spec fn compression_of(b: u8) -> Option<Compression> {
    if b == 0 {
        Some(Compression::Unknown)
    } else if b == 1 {
        Some(Compression::Uncompressed)
    } else if b == 2 {
        Some(Compression::GZip)
    } else if b == 3 {
        Some(Compression::Brotli)
    } else if b == 4 {
        Some(Compression::ZStd)
    } else {
        None
    }
}

pub open spec fn tile_type_of(b: u8) -> Option<TileType> {
    if b == 0 {
        Some(TileType::Unknown)
    } else if b == 1 {
        Some(TileType::MVT)
    } else if b == 2 {
        Some(TileType::PNG)
    } else if b == 3 {
        Some(TileType::JPEG)
    } else if b == 4 {
        Some(TileType::WebP)
    } else if b == 5 {
        Some(TileType::AVIF)
    } else {
        None
    }
}

/// A byte code turned into a value, or `InvalidValue` for a code outside the set.
pub open spec fn known_or_invalid<T>(v: Option<T>) -> Result<T, ParseError> {
    match v {
        Some(t) => Ok(t),
        None => Err(ParseError::InvalidValue),
    }
}

impl TryFrom<u8> for Clustered {
    type Error = ParseError;

    fn try_from(value: u8) -> (r: Result<Self, Self::Error>) {
        match value {
            0 => Ok(Self::NotClustered),
            1 => Ok(Self::Clustered),
            _ => Err(ParseError::InvalidValue),
        }
    }
}

impl vstd::std_specs::convert::TryFromSpecImpl<u8> for Clustered {
    open spec fn obeys_try_from_spec() -> bool {
        true
    }

    open spec fn try_from_spec(v: u8) -> Result<Clustered, ParseError> {
        known_or_invalid(clustered_of(v))
    }
}

impl TryFrom<u8> for TileType {
    type Error = ParseError;

    fn try_from(value: u8) -> (r: Result<Self, Self::Error>) {
        match value {
            0 => Ok(Self::Unknown),
            1 => Ok(Self::MVT),
            2 => Ok(Self::PNG),
            3 => Ok(Self::JPEG),
            4 => Ok(Self::WebP),
            5 => Ok(Self::AVIF),
            _ => Err(ParseError::InvalidValue),
        }
    }
}

impl vstd::std_specs::convert::TryFromSpecImpl<u8> for TileType {
    open spec fn obeys_try_from_spec() -> bool {
        true
    }

    open spec fn try_from_spec(v: u8) -> Result<TileType, ParseError> {
        known_or_invalid(tile_type_of(v))
    }
}

impl TryFrom<u8> for Compression {
    type Error = ParseError;

    fn try_from(value: u8) -> (r: Result<Self, Self::Error>) {
        match value {
            0x0 => Ok(Self::Unknown),
            0x1 => Ok(Self::Uncompressed),
            0x2 => Ok(Self::GZip),
            0x3 => Ok(Self::Brotli),
            0x4 => Ok(Self::ZStd),
            _ => Err(ParseError::InvalidValue),
        }
    }
}

impl vstd::std_specs::convert::TryFromSpecImpl<u8> for Compression {
    open spec fn obeys_try_from_spec() -> bool {
        true
    }

    open spec fn try_from_spec(v: u8) -> Result<Compression, ParseError> {
        known_or_invalid(compression_of(v))
    }
}

/// A geographic position in units of 10^-7 degrees.
#[derive(Debug, Clone, Copy, PartialEq, Eq, Structural)]
pub struct Position {
    pub lat_e7: i32,
    pub long_e7: i32,
}

/// The 32-bit two's-complement reading of `u < 2^32`.
pub open spec fn signed32(u: nat) -> int {
    if u < 0x8000_0000 {
        u as int
    } else {
        u - 0x1_0000_0000
    }
}

/// A packed position: longitude in the low 32 bits, latitude in the high 32 bits,
/// each a signed count of 10^-7 degrees.
pub open spec fn position_of(v: u64) -> Position {
    Position {
        lat_e7: signed32(v as nat / 0x1_0000_0000) as i32,
        long_e7: signed32(v as nat % 0x1_0000_0000) as i32,
    }
}

fn to_signed32(u: u64) -> (r: i32)
    requires
        u < 0x1_0000_0000,
    ensures
        r as int == signed32(u as nat),
{
    if u < 0x8000_0000 {
        u as i32
    } else {
        (u as i64 - 0x1_0000_0000) as i32
    }
}

impl From<u64> for Position {
    fn from(value: u64) -> (r: Position) {
        let long_e7 = to_signed32(value % 0x1_0000_0000);
        let lat_e7 = to_signed32(value / 0x1_0000_0000);
        Position { lat_e7, long_e7 }
    }
}

impl vstd::std_specs::convert::FromSpecImpl<u64> for Position {
    open spec fn obeys_from_spec() -> bool {
        true
    }

    open spec fn from_spec(v: u64) -> Position {
        position_of(v)
    }
}

/// The fixed-layout header of an archive (version 3).
#[derive(Debug, Clone, Copy, PartialEq, Eq, Structural)]
pub struct Header {
    pub root_directory_offset: u64,
    pub root_directory_length: u64,
    pub metadata_offset: u64,
    pub metadata_length: u64,
    pub leaf_directories_offset: u64,
    pub leaf_directories_length: u64,
    pub tile_data_offset: u64,
    pub tile_data_length: u64,
    pub number_of_addressed_tiles: u64,
    pub number_of_tile_entries: u64,
    pub number_of_tile_contents: u64,
    pub clustered: Clustered,
    pub internal_compression: Compression,
    pub tile_compression: Compression,
    pub tile_type: TileType,
    pub min_zoom: u8,
    pub max_zoom: u8,
    pub min_position: Position,
    pub max_position: Position,
    pub center_zoom: u8,
    pub center_position: Position,
}

/// The little-endian 64-bit integer in the eight bytes of `s` from `at` on.
pub open spec fn le_u64(s: Seq<u8>, at: int) -> u64 {
    (s[at] as nat + s[at + 1] as nat * 0x100 + s[at + 2] as nat * 0x1_0000 + s[at + 3] as nat
        * 0x100_0000 + s[at + 4] as nat * 0x1_0000_0000 + s[at + 5] as nat * 0x100_0000_0000
        + s[at + 6] as nat * 0x1_0000_0000_0000 + s[at + 7] as nat * 0x100_0000_0000_0000) as u64
}

/// The header that the first `HEADER_LEN` bytes of `s` describe, once magic,
/// version and the four enumeration codes have been found valid.
pub open spec fn header_fields(
    s: Seq<u8>,
    clustered: Clustered,
    internal_compression: Compression,
    tile_compression: Compression,
    tile_type: TileType,
) -> Header {
    Header {
        root_directory_offset: le_u64(s, 8),
        root_directory_length: le_u64(s, 16),
        metadata_offset: le_u64(s, 24),
        metadata_length: le_u64(s, 32),
        leaf_directories_offset: le_u64(s, 40),
        leaf_directories_length: le_u64(s, 48),
        tile_data_offset: le_u64(s, 56),
        tile_data_length: le_u64(s, 64),
        number_of_addressed_tiles: le_u64(s, 72),
        number_of_tile_entries: le_u64(s, 80),
        number_of_tile_contents: le_u64(s, 88),
        clustered,
        internal_compression,
        tile_compression,
        tile_type,
        min_zoom: s[100],
        max_zoom: s[101],
        min_position: position_of(le_u64(s, 102)),
        max_position: position_of(le_u64(s, 110)),
        center_zoom: s[118],
        center_position: position_of(le_u64(s, 119)),
    }
}

/// Outcome of decoding a header from the start of `s`: the magic is checked
/// first, then the version, then the length, then the enumeration codes in order.
pub open spec fn header_spec(s: Seq<u8>) -> Result<Header, ParseError> {
    if s.len() < 7 {
        Err(ParseError::UnexpectedEnd)
    } else if s.take(7) != archive_magic() {
        Err(ParseError::InvalidMagic)
    } else if s.len() < 8 {
        Err(ParseError::UnexpectedEnd)
    } else if s[7] != ARCHIVE_VERSION {
        Err(ParseError::InvalidVersion)
    } else if s.len() < HEADER_LEN {
        Err(ParseError::UnexpectedEnd)
    } else {
        match (clustered_of(s[96]), compression_of(s[97]), compression_of(s[98]), tile_type_of(s[99])) {
            (Some(c), Some(ic), Some(tc), Some(tt)) => Ok(header_fields(s, c, ic, tc, tt)),
            _ => Err(ParseError::InvalidValue),
        }
    }
}

fn read_u64_le(data: &[u8], at: usize) -> (r: u64)
    requires
        at + 8 <= data@.len(),
    ensures
        r == le_u64(data@, at as int),
{
    let b0 = data[at] as u64;
    let b1 = data[at + 1] as u64;
    let b2 = data[at + 2] as u64;
    let b3 = data[at + 3] as u64;
    let b4 = data[at + 4] as u64;
    let b5 = data[at + 5] as u64;
    let b6 = data[at + 6] as u64;
    let b7 = data[at + 7] as u64;
    b0 + b1 * 0x100 + b2 * 0x1_0000 + b3 * 0x100_0000 + b4 * 0x1_0000_0000 + b5 * 0x100_0000_0000
        + b6 * 0x1_0000_0000_0000 + b7 * 0x100_0000_0000_0000
}

fn has_magic(data: &[u8]) -> (r: bool)
    requires
        data@.len() >= 7,
    ensures
        r == (data@.take(7) == archive_magic()),
{
    let r = data[0] == 0x50 && data[1] == 0x4d && data[2] == 0x54 && data[3] == 0x69 && data[4]
        == 0x6c && data[5] == 0x65 && data[6] == 0x73;
    proof {
        let t = data@.take(7);
        let m = archive_magic();
        if r {
            assert(t =~= m);
        } else if t == m {
            assert(t[0] == m[0] && t[1] == m[1] && t[2] == m[2] && t[3] == m[3]);
            assert(t[4] == m[4] && t[5] == m[5] && t[6] == m[6]);
        }
    }
    r
}

/// Decodes the archive header at the front of `bytes`. On success the header's
/// `HEADER_LEN` bytes are consumed; on failure `bytes` is left as it was.
pub fn parse_header(bytes: &mut Bytes) -> (r: Result<Header, ParseError>)
    ensures
        r == header_spec(bytes_view(*old(bytes))),
        r is Ok ==> bytes_view(*final(bytes)) == bytes_view(*old(bytes)).skip(HEADER_LEN as int),
        r is Err ==> bytes_view(*final(bytes)) == bytes_view(*old(bytes)),
{
    let data = remaining_slice(bytes);
    if data.len() < 7 {
        return Err(ParseError::UnexpectedEnd);
    }
    if !has_magic(data) {
        return Err(ParseError::InvalidMagic);
    }
    if data.len() < 8 {
        return Err(ParseError::UnexpectedEnd);
    }
    if data[7] != ARCHIVE_VERSION {
        return Err(ParseError::InvalidVersion);
    }
    if data.len() < HEADER_LEN {
        return Err(ParseError::UnexpectedEnd);
    }
    let clustered = match Clustered::try_from(data[96]) {
        Ok(c) => c,
        Err(e) => return Err(e),
    };
    let internal_compression = match Compression::try_from(data[97]) {
        Ok(c) => c,
        Err(e) => return Err(e),
    };
    let tile_compression = match Compression::try_from(data[98]) {
        Ok(c) => c,
        Err(e) => return Err(e),
    };
    let tile_type = match TileType::try_from(data[99]) {
        Ok(t) => t,
        Err(e) => return Err(e),
    };
    let header = Header {
        root_directory_offset: read_u64_le(data, 8),
        root_directory_length: read_u64_le(data, 16),
        metadata_offset: read_u64_le(data, 24),
        metadata_length: read_u64_le(data, 32),
        leaf_directories_offset: read_u64_le(data, 40),
        leaf_directories_length: read_u64_le(data, 48),
        tile_data_offset: read_u64_le(data, 56),
        tile_data_length: read_u64_le(data, 64),
        number_of_addressed_tiles: read_u64_le(data, 72),
        number_of_tile_entries: read_u64_le(data, 80),
        number_of_tile_contents: read_u64_le(data, 88),
        clustered,
        internal_compression,
        tile_compression,
        tile_type,
        min_zoom: data[100],
        max_zoom: data[101],
        min_position: Position::from(read_u64_le(data, 102)),
        max_position: Position::from(read_u64_le(data, 110)),
        center_zoom: data[118],
        center_position: Position::from(read_u64_le(data, 119)),
    };
    advance(bytes, HEADER_LEN);
    Ok(header)
}

/// A buffer whose first seven bytes are not the magic is rejected with
/// `InvalidMagic`; one with the magic but another version byte with `InvalidVersion`.
pub proof fn header_rejects_bad_magic_or_version(s: Seq<u8>)
    requires
        s.len() >= 8,
    ensures
        s.take(7) != archive_magic() ==> header_spec(s) == Err::<Header, ParseError>(
            ParseError::InvalidMagic,
        ),
        s.take(7) == archive_magic() && s[7] != ARCHIVE_VERSION ==> header_spec(s) == Err::<
            Header,
            ParseError,
        >(ParseError::InvalidVersion),
{
}

} // verus!
