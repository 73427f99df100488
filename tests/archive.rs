use std::io::Write;

use bytes::Bytes;
use flate2::write::GzEncoder;
use pmtiles_reader::archive::{decompress_range, parse_root_directory, tile_data};
use pmtiles_reader::directory::{decode_directory, resolve_offsets, TileEntries, TileEntry};
use pmtiles_reader::error::ParseError;
use pmtiles_reader::header::{
    parse_header, Clustered, Compression, Header, Position, TileType, HEADER_LEN,
};
use pmtiles_reader::tile_id::TileId;

fn gzip(data: &[u8]) -> Vec<u8> {
    let mut encoder = GzEncoder::new(Vec::new(), flate2::Compression::default());
    encoder.write_all(data).unwrap();
    encoder.finish().unwrap()
}

fn packed(lat_e7: i32, long_e7: i32) -> u64 {
    ((lat_e7 as u32 as u64) << 32) | (long_e7 as u32 as u64)
}

struct HeaderBytes {
    fields: [u64; 11],
    codes: [u8; 4],
    min_zoom: u8,
    max_zoom: u8,
    min_position: u64,
    max_position: u64,
    center_zoom: u8,
    center_position: u64,
}

impl HeaderBytes {
    fn sample() -> HeaderBytes {
        HeaderBytes {
            fields: [127, 20, 147, 30, 177, 0, 177, 400, 1000, 900, 800],
            codes: [1, 2, 2, 1],
            min_zoom: 0,
            max_zoom: 14,
            min_position: packed(-850_000_000, -1_800_000_000),
            max_position: packed(850_000_000, 1_800_000_000),
            center_zoom: 11,
            center_position: packed(524_000_000, 133_000_000),
        }
    }

    fn bytes(&self) -> Vec<u8> {
        let mut out = b"PMTiles".to_vec();
        out.push(3);
        for f in self.fields {
            out.extend_from_slice(&f.to_le_bytes());
        }
        out.extend_from_slice(&self.codes);
        out.push(self.min_zoom);
        out.push(self.max_zoom);
        out.extend_from_slice(&self.min_position.to_le_bytes());
        out.extend_from_slice(&self.max_position.to_le_bytes());
        out.push(self.center_zoom);
        out.extend_from_slice(&self.center_position.to_le_bytes());
        out
    }
}

fn header_with(root_offset: u64, root_length: u64, internal: Compression, tile: Compression) -> Header {
    let mut bytes = Bytes::from(HeaderBytes::sample().bytes());
    let mut h = parse_header(&mut bytes).unwrap();
    h.root_directory_offset = root_offset;
    h.root_directory_length = root_length;
    h.internal_compression = internal;
    h.tile_compression = tile;
    h
}

#[test]
fn parse_header_reads_every_field() {
    let raw = HeaderBytes::sample().bytes();
    assert_eq!(raw.len(), HEADER_LEN);
    let mut with_tail = raw.clone();
    with_tail.extend_from_slice(&[9, 9, 9]);
    let mut bytes = Bytes::from(with_tail);
    let h = parse_header(&mut bytes).unwrap();
    assert_eq!(bytes.len(), 3);
    assert_eq!(h.root_directory_offset, 127);
    assert_eq!(h.root_directory_length, 20);
    assert_eq!(h.metadata_offset, 147);
    assert_eq!(h.metadata_length, 30);
    assert_eq!(h.leaf_directories_offset, 177);
    assert_eq!(h.leaf_directories_length, 0);
    assert_eq!(h.tile_data_offset, 177);
    assert_eq!(h.tile_data_length, 400);
    assert_eq!(h.number_of_addressed_tiles, 1000);
    assert_eq!(h.number_of_tile_entries, 900);
    assert_eq!(h.number_of_tile_contents, 800);
    assert_eq!(h.clustered, Clustered::Clustered);
    assert_eq!(h.internal_compression, Compression::GZip);
    assert_eq!(h.tile_compression, Compression::GZip);
    assert_eq!(h.tile_type, TileType::MVT);
    assert_eq!(h.min_zoom, 0);
    assert_eq!(h.max_zoom, 14);
    assert_eq!(h.min_position, Position { lat_e7: -850_000_000, long_e7: -1_800_000_000 });
    assert_eq!(h.max_position, Position { lat_e7: 850_000_000, long_e7: 1_800_000_000 });
    assert_eq!(h.center_zoom, 11);
    assert_eq!(h.center_position, Position { lat_e7: 524_000_000, long_e7: 133_000_000 });
}

#[test]
fn header_with_wrong_magic_is_rejected() {
    let mut raw = HeaderBytes::sample().bytes();
    raw[0] = b'X';
    let mut bytes = Bytes::from(raw);
    assert!(matches!(parse_header(&mut bytes), Err(ParseError::InvalidMagic)));
    assert_eq!(bytes.len(), HEADER_LEN);
    let mut short = Bytes::from(b"PMTilez".to_vec());
    assert!(matches!(parse_header(&mut short), Err(ParseError::InvalidMagic)));
}

#[test]
fn header_with_version_4_is_rejected() {
    let mut raw = HeaderBytes::sample().bytes();
    raw[7] = 4;
    let mut bytes = Bytes::from(raw);
    assert!(matches!(parse_header(&mut bytes), Err(ParseError::InvalidVersion)));
}

#[test]
fn header_with_unknown_codes_is_rejected() {
    for (i, bad) in [(0usize, 2u8), (1, 5), (2, 9), (3, 6)] {
        let mut h = HeaderBytes::sample();
        h.codes[i] = bad;
        let mut bytes = Bytes::from(h.bytes());
        assert!(matches!(parse_header(&mut bytes), Err(ParseError::InvalidValue)));
    }
}

#[test]
fn header_truncated_is_rejected() {
    let raw = HeaderBytes::sample().bytes();
    let mut bytes = Bytes::from(raw[..100].to_vec());
    assert!(matches!(parse_header(&mut bytes), Err(ParseError::UnexpectedEnd)));
    let mut bytes = Bytes::from(b"PMT".to_vec());
    assert!(matches!(parse_header(&mut bytes), Err(ParseError::UnexpectedEnd)));
}

#[test]
fn enumeration_codes_convert() {
    assert_eq!(Compression::try_from(0u8).unwrap(), Compression::Unknown);
    assert_eq!(Compression::try_from(1u8).unwrap(), Compression::Uncompressed);
    assert_eq!(Compression::try_from(4u8).unwrap(), Compression::ZStd);
    assert!(matches!(Compression::try_from(5u8), Err(ParseError::InvalidValue)));
    assert_eq!(TileType::try_from(5u8).unwrap(), TileType::AVIF);
    assert!(matches!(TileType::try_from(6u8), Err(ParseError::InvalidValue)));
    assert_eq!(Clustered::try_from(0u8).unwrap(), Clustered::NotClustered);
    assert!(matches!(Clustered::try_from(2u8), Err(ParseError::InvalidValue)));
}

#[test]
fn packed_positions_split_into_signed_halves() {
    assert_eq!(Position::from(0u64), Position { lat_e7: 0, long_e7: 0 });
    assert_eq!(
        Position::from(packed(-123_456_789, 987_654_321)),
        Position { lat_e7: -123_456_789, long_e7: 987_654_321 }
    );
    assert_eq!(Position::from(u64::MAX), Position { lat_e7: -1, long_e7: -1 });
    assert_eq!(
        Position::from(0x8000_0000_7FFF_FFFFu64),
        Position { lat_e7: i32::MIN, long_e7: i32::MAX }
    );
}

fn directory_bytes() -> Vec<u8> {
    // three entries: deltas 1,1,1; runs 1,1,1; lengths 10,20,30; offset codes 5,0,3
    vec![3, 1, 1, 1, 1, 1, 1, 10, 20, 30, 5, 0, 3]
}

#[test]
fn offset_code_zero_continues_previous_entry() {
    let offsets = resolve_offsets(&vec![5, 0, 3], &vec![10, 20, 30]).unwrap();
    assert_eq!(offsets, vec![4, 14, 2]);
    let dir = decode_directory(&directory_bytes()).unwrap();
    assert_eq!(dir.entries[0].offset, 4);
    assert_eq!(dir.entries[1].offset, dir.entries[0].offset + dir.entries[0].length);
    assert_eq!(dir.entries[2].offset, 2);
}

#[test]
fn offset_code_zero_first_is_invalid() {
    assert!(matches!(resolve_offsets(&vec![0, 1], &vec![1, 1]), Err(ParseError::InvalidValue)));
    assert!(matches!(
        resolve_offsets(&vec![u64::MAX, 0], &vec![2, 1]),
        Err(ParseError::InvalidValue)
    ));
}

#[test]
fn decode_directory_builds_entries() {
    let dir = decode_directory(&directory_bytes()).unwrap();
    assert_eq!(
        dir.entries,
        vec![
            TileEntry { id: 1, offset: 4, length: 10, run_length: 1 },
            TileEntry { id: 2, offset: 14, length: 20, run_length: 1 },
            TileEntry { id: 3, offset: 2, length: 30, run_length: 1 },
        ]
    );
}

#[test]
fn decoded_ids_strictly_ascend() {
    let data = vec![4, 0, 5, 1, 100, 1, 3, 1, 2, 7, 7, 7, 7, 1, 0, 0, 0];
    let dir = decode_directory(&data).unwrap();
    let ids: Vec<u64> = dir.entries.iter().map(|e| e.id).collect();
    assert_eq!(ids, vec![0, 5, 6, 106]);
    assert_eq!(dir.entries[3].run_length, 2);
    assert_eq!(dir.entries[3].offset, 21);
}

#[test]
fn zero_id_delta_after_first_is_invalid() {
    let data = vec![2, 0, 0, 1, 1, 1, 1, 1, 1];
    assert!(matches!(decode_directory(&data), Err(ParseError::InvalidValue)));
    let mut file = vec![0u8; 3];
    file.extend_from_slice(&data);
    let header = header_with(3, 9, Compression::Uncompressed, Compression::GZip);
    assert!(matches!(parse_root_directory(&file, &header), Err(ParseError::InvalidValue)));
}

#[test]
fn io_errors_convert_into_parse_errors() {
    let e = std::io::Error::new(std::io::ErrorKind::UnexpectedEof, "short");
    let p = ParseError::from(e);
    assert!(matches!(p, ParseError::IoError(ref inner) if inner.kind() == std::io::ErrorKind::UnexpectedEof));
}

#[test]
fn empty_directory() {
    let dir = decode_directory(&[0]).unwrap();
    assert!(dir.entries.is_empty());
    assert!(dir.find_tile(TileId(0)).is_none());
}

#[test]
fn leaf_reference_is_unsupported() {
    let data = vec![2, 1, 1, 1, 0, 10, 20, 1, 0];
    assert!(matches!(decode_directory(&data), Err(ParseError::LeafDirectoryUnsupported)));
}

#[test]
fn truncated_directory_is_rejected() {
    let data = vec![3, 1, 1, 1, 1, 1];
    assert!(matches!(decode_directory(&data), Err(ParseError::UnexpectedEnd)));
    assert!(matches!(decode_directory(&[]), Err(ParseError::UnexpectedEnd)));
}

#[test]
fn id_overflow_is_invalid() {
    let mut data = vec![2, 1];
    data.extend_from_slice(&[0xFF, 0xFF, 0xFF, 0xFF, 0xFF, 0xFF, 0xFF, 0xFF, 0xFF, 0x01]);
    data.extend_from_slice(&[1, 1, 1, 1, 1, 1]);
    assert!(matches!(decode_directory(&data), Err(ParseError::InvalidValue)));
}

#[test]
fn find_tile_follows_runs() {
    let dir = TileEntries {
        entries: vec![
            TileEntry { id: 2, offset: 0, length: 5, run_length: 1 },
            TileEntry { id: 10, offset: 5, length: 7, run_length: 4 },
            TileEntry { id: 20, offset: 12, length: 3, run_length: 1 },
        ],
    };
    assert_eq!(dir.find_tile(TileId(2)).unwrap().offset, 0);
    assert_eq!(dir.find_tile(TileId(10)).unwrap().offset, 5);
    assert_eq!(dir.find_tile(TileId(13)).unwrap().offset, 5);
    assert!(dir.find_tile(TileId(14)).is_none());
    assert!(dir.find_tile(TileId(1)).is_none());
    assert!(dir.find_tile(TileId(3)).is_none());
    assert_eq!(dir.find_tile(TileId(20)).unwrap().length, 3);
    assert!(dir.find_tile(TileId(21)).is_none());
    assert!(dir.find_tile(TileId(u64::MAX)).is_none());
}

#[test]
fn test_gzip() {
    let compressed = gzip(b"hello world\n");
    let mut file = vec![1, 2, 3];
    file.extend_from_slice(&compressed);
    let out = decompress_range(&file, 3, file.len()).unwrap();
    assert_eq!(String::from_utf8(out).unwrap(), String::from("hello world\n"));
    assert!(decompress_range(&file, 0, 3).is_err());
}

#[test]
fn parse_root_directory_gzip() {
    let compressed = gzip(&directory_bytes());
    let mut file = vec![0u8; 127];
    file.extend_from_slice(&compressed);
    let header = header_with(127, compressed.len() as u64, Compression::GZip, Compression::GZip);
    let dir = parse_root_directory(&file, &header).unwrap();
    assert_eq!(dir.entries.len(), 3);
    assert_eq!(dir.entries[1].offset, 14);
}

#[test]
fn parse_root_directory_uncompressed() {
    let mut file = vec![0u8; 5];
    file.extend_from_slice(&directory_bytes());
    let header = header_with(5, 13, Compression::Uncompressed, Compression::GZip);
    let dir = parse_root_directory(&file, &header).unwrap();
    assert_eq!(dir.entries[2].id, 3);
}

#[test]
fn parse_root_directory_errors() {
    let file = directory_bytes();
    let header = header_with(5, 100, Compression::Uncompressed, Compression::GZip);
    assert!(matches!(parse_root_directory(&file, &header), Err(ParseError::OutOfBounds)));
    let header = header_with(u64::MAX, 2, Compression::Uncompressed, Compression::GZip);
    assert!(matches!(parse_root_directory(&file, &header), Err(ParseError::OutOfBounds)));
    let header = header_with(0, 13, Compression::Brotli, Compression::GZip);
    assert!(matches!(
        parse_root_directory(&file, &header),
        Err(ParseError::UnsupportedCompression)
    ));
    let header = header_with(0, 13, Compression::GZip, Compression::GZip);
    assert!(matches!(parse_root_directory(&file, &header), Err(ParseError::IoError(_))));
}

#[test]
fn tile_data_reads_from_tile_region() {
    let payload = b"tile payload".to_vec();
    let compressed = gzip(&payload);
    let mut file = vec![0u8; 177];
    file.extend_from_slice(&[0xAA; 4]);
    file.extend_from_slice(&compressed);
    let header = header_with(127, 20, Compression::GZip, Compression::GZip);
    let entry = TileEntry { id: 1, offset: 4, length: compressed.len() as u64, run_length: 1 };
    assert_eq!(tile_data(&file, &header, &entry).unwrap(), payload);
    let raw_header = header_with(127, 20, Compression::GZip, Compression::Uncompressed);
    let raw_entry = TileEntry { id: 1, offset: 0, length: 4, run_length: 1 };
    assert_eq!(tile_data(&file, &raw_header, &raw_entry).unwrap(), vec![0xAA; 4]);
    let far = TileEntry { id: 1, offset: u64::MAX, length: 1, run_length: 1 };
    assert!(matches!(tile_data(&file, &header, &far), Err(ParseError::OutOfBounds)));
}
