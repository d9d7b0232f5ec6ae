//! Unit tests for the byte-level pieces: the cursor, the decompressor, the
//! sector layer, the splitter, and the name hash.

use idx::cache::CacheIndex;
use idx::codec::decompress_container_data;
use idx::cursor::Cursor;
use idx::sector::{collect_chain, decode_record, encode_record, SectorRecord};
use idx::splitter::split_archive;
use idx::util::get_name_hash;
use idx::{CacheError, IdxContainerInfo};

fn be32(v: u32) -> [u8; 4] {
    [(v >> 24) as u8, (v >> 16) as u8, (v >> 8) as u8, v as u8]
}

#[test]
fn test_cursor_reads_big_endian() {
    let mut c = Cursor::with_vec(vec![0x01, 0x02, 0x03, 0x04, 0xff, 0xff, 0xff, 0xfe, 0x2a]);
    assert_eq!(c.len(), 9);
    assert_eq!(c.read_u8(), Some(0x01));
    assert_eq!(c.read_u16(), Some(0x0203));
    assert_eq!(c.get_pos(), 3);
    assert_eq!(c.read_i32(), Some(0x04ffffff));
    c.set_pos(4);
    assert_eq!(c.read_i32(), Some(-2)); // 0xfffffffe as two's complement
    assert_eq!(c.read_u8(), Some(0x2a));
    assert_eq!(c.read_u8(), None);
    c.set_pos(1);
    assert_eq!(c.read_u32(), Some(0x020304ff));
}

#[test]
fn test_cursor_read_bytes_and_deconstruct() {
    let mut c = Cursor::with_vec(vec![9, 8, 7, 6, 5]);
    assert_eq!(c.read_bytes(2), Some(vec![9, 8]));
    assert_eq!(c.read_bytes(9), None);
    let rest = c.read_remaining();
    assert_eq!(rest, vec![7, 6, 5]);
    let mut c2 = Cursor::with_vec(vec![1, 2]);
    let _ = c2.read_u8();
    assert_eq!(c2.deconstruct(), vec![1, 2]);
}

#[test]
fn test_record_round_trip() {
    let rec = decode_record(&vec![0x01, 0x02, 0x03, 0x04, 0x05, 0x06]);
    assert_eq!(rec.size, 0x010203);
    assert_eq!(rec.first_sector, 0x040506);
    assert_eq!(encode_record(&rec), vec![0x01, 0x02, 0x03, 0x04, 0x05, 0x06]);

    let rec2 = SectorRecord { size: 513, first_sector: 7 };
    let bytes = encode_record(&rec2);
    assert_eq!(bytes, vec![0, 2, 1, 0, 0, 7]);
    let back = decode_record(&bytes);
    assert_eq!(back.size, 513);
    assert_eq!(back.first_sector, 7);
}

#[test]
fn test_decompress_raw() {
    let mut packed = vec![0u8];
    packed.extend_from_slice(&be32(3));
    packed.extend_from_slice(&[9, 8, 7, 6]); // one spare byte past the declared size
    assert_eq!(decompress_container_data(packed), Ok(vec![9, 8, 7]));

    assert_eq!(decompress_container_data(Vec::new()), Ok(Vec::new()));
}

#[test]
fn test_decompress_errors() {
    // too short for the codec header
    assert_eq!(decompress_container_data(vec![0, 0, 0]), Err(CacheError::DecodeError));

    // declared compressed size over the cap
    let mut oversize = vec![0u8];
    oversize.extend_from_slice(&be32(5_000_001));
    assert_eq!(decompress_container_data(oversize), Err(CacheError::OversizeContainer));

    // raw body shorter than declared
    let mut short = vec![0u8];
    short.extend_from_slice(&be32(9));
    short.push(1);
    assert_eq!(decompress_container_data(short), Err(CacheError::DecodeError));

    // a compression scheme nobody knows
    let mut unknown = vec![9u8];
    unknown.extend_from_slice(&be32(1));
    unknown.extend_from_slice(&[0; 20]);
    assert_eq!(decompress_container_data(unknown), Err(CacheError::UnknownCodec));
}

fn bzip2_compress(data: &[u8]) -> Vec<u8> {
    let mut out = Vec::new();
    let mut enc = bzip2::read::BzEncoder::new(data, bzip2::Compression::new(1));
    std::io::Read::read_to_end(&mut enc, &mut out).unwrap();
    out
}

#[test]
fn test_decompress_bzip2() {
    let plain = b"the sector pool holds the sectors and the sectors hold the bytes";
    let stream = bzip2_compress(plain);
    assert_eq!(&stream[0..3], b"BZh");

    let mut packed = vec![1u8];
    packed.extend_from_slice(&be32(stream.len() as u32));
    packed.extend_from_slice(&be32(plain.len() as u32));
    packed.extend_from_slice(&stream[4..]); // the format strips the magic
    assert_eq!(decompress_container_data(packed), Ok(plain.to_vec()));
}

#[test]
fn test_decompress_bzip2_size_mismatch() {
    let plain = b"mismatched decompressed size";
    let stream = bzip2_compress(plain);
    let mut packed = vec![1u8];
    packed.extend_from_slice(&be32(stream.len() as u32));
    packed.extend_from_slice(&be32(plain.len() as u32 + 1));
    packed.extend_from_slice(&stream[4..]);
    assert_eq!(decompress_container_data(packed), Err(CacheError::SizeMismatch));
}

#[test]
fn test_decompress_bzip2_bad_stream() {
    let mut packed = vec![1u8];
    packed.extend_from_slice(&be32(8));
    packed.extend_from_slice(&be32(4));
    packed.extend_from_slice(&[0x55; 8]); // not a bzip2 stream
    assert_eq!(decompress_container_data(packed), Err(CacheError::DecodeError));
}

/// A raw deflate stream of one stored (uncompressed) block.
fn stored_deflate(data: &[u8]) -> Vec<u8> {
    let len = data.len() as u16;
    let mut out = vec![0x01, (len & 0xff) as u8, (len >> 8) as u8];
    out.push(!(len & 0xff) as u8);
    out.push(!(len >> 8) as u8);
    out.extend_from_slice(data);
    out
}

#[test]
fn test_decompress_deflate() {
    let plain = b"gzip header then a raw deflate stream";
    let stream = stored_deflate(plain);

    let mut packed = vec![2u8];
    packed.extend_from_slice(&be32(stream.len() as u32));
    packed.extend_from_slice(&be32(plain.len() as u32));
    packed.extend_from_slice(&[0x1f, 0x8b, 8, 0, 0, 0, 0, 0, 0, 0]); // ten skipped bytes
    packed.extend_from_slice(&stream);
    assert_eq!(decompress_container_data(packed), Ok(plain.to_vec()));
}

fn sector(container_id: u16, part: u16, next: u32, idx_id: u8, payload: &[u8]) -> Vec<u8> {
    let mut s = vec![
        (container_id >> 8) as u8,
        container_id as u8,
        (part >> 8) as u8,
        part as u8,
        (next >> 16) as u8,
        (next >> 8) as u8,
        next as u8,
        idx_id,
    ];
    s.extend_from_slice(payload);
    while s.len() < 520 {
        s.push(0);
    }
    s
}

#[test]
fn test_single_sector_ignores_next_pointer() {
    // an archive of exactly 512 bytes ends with its first sector, whatever
    // the header's next pointer claims
    let payload = [0x5au8; 512];
    let mut dat = vec![0u8; 520];
    dat.extend_from_slice(&sector(5, 0, 0xabcdef, 7, &payload));

    let r = collect_chain(&dat, 5, 7, 1, 512).unwrap();
    assert_eq!(r.len(), 512);
    assert_eq!(r, payload.to_vec());
}

#[test]
fn test_two_sector_chain() {
    // 513 bytes: a full sector, then one byte in a second sector of part 1
    let mut payload = vec![0x11u8; 512];
    payload.push(0x77);
    let mut dat = vec![0u8; 520];
    dat.extend_from_slice(&sector(6, 0, 2, 3, &payload[0..512]));
    dat.extend_from_slice(&sector(6, 1, 0, 3, &payload[512..]));

    let r = collect_chain(&dat, 6, 3, 1, 513).unwrap();
    assert_eq!(r, payload);
}

#[test]
fn test_chain_rejects_wrong_part() {
    let mut payload = vec![0x11u8; 512];
    payload.push(0x77);
    let mut dat = vec![0u8; 520];
    dat.extend_from_slice(&sector(6, 0, 2, 3, &payload[0..512]));
    dat.extend_from_slice(&sector(6, 2, 0, 3, &payload[512..])); // part should be 1

    assert_eq!(collect_chain(&dat, 6, 3, 1, 513), Err(CacheError::SectorMetadataMismatch));
}

#[test]
fn test_chain_rejects_wrong_archive_and_index() {
    let payload = [1u8; 10];
    let mut dat = vec![0u8; 520];
    dat.extend_from_slice(&sector(4, 0, 0, 3, &payload));

    assert_eq!(collect_chain(&dat, 9, 3, 1, 10), Err(CacheError::SectorMetadataMismatch));
    assert_eq!(collect_chain(&dat, 4, 8, 1, 10), Err(CacheError::SectorMetadataMismatch));
}

#[test]
fn test_chain_truncated() {
    // the chain claims more bytes than its sectors deliver
    let payload = [1u8; 512];
    let mut dat = vec![0u8; 520];
    dat.extend_from_slice(&sector(4, 0, 0, 3, &payload));

    assert_eq!(collect_chain(&dat, 4, 3, 1, 600), Err(CacheError::TruncatedChain));
}

fn test_index(idx_data: Vec<u8>, file_id: u8, max: u32) -> CacheIndex {
    CacheIndex {
        file_id,
        idx_data,
        max_container_size: max,
        container_info: IdxContainerInfo::new(),
        last_archive_id: 0,
    }
}

#[test]
fn test_container_data_oversize_and_empty() {
    // slot 0: size 600 over a cap of 500; slot 1: no first sector
    let mut idx_data = vec![0, 2, 88, 0, 0, 1];
    idx_data.extend_from_slice(&[0, 0, 9, 0, 0, 0]);
    let dat = vec![0u8; 1040];

    let mut index = test_index(idx_data, 2, 500);
    assert_eq!(index.container_data(&dat, 0), Err(CacheError::OversizeContainer));
    assert_eq!(index.container_data(&dat, 1), Err(CacheError::EmptyArchive));
    // a record outside the table reads as zeroes: an empty archive
    assert_eq!(index.container_data(&dat, 9), Err(CacheError::EmptyArchive));
    assert_eq!(index.last_archive_id, 9);
}

#[test]
fn test_split_single_file_returns_whole_payload() {
    let data = vec![1, 2, 3, 4, 5];
    let parts = split_archive(&data, 1).unwrap();
    assert_eq!(parts.len(), 1);
    assert_eq!(parts[0], data);
}

#[test]
fn test_split_two_files_one_chunk() {
    // data region [10,11,12,20,21]; deltas 3 and -1: segment lengths 3 and 2
    let mut data = vec![10, 11, 12, 20, 21];
    data.extend_from_slice(&be32(3));
    data.extend_from_slice(&be32(-1i32 as u32));
    data.push(1);

    let parts = split_archive(&data, 2).unwrap();
    assert_eq!(parts, vec![vec![10, 11, 12], vec![20, 21]]);

    // the outputs together cover the whole data region
    let total: usize = parts.iter().map(|p| p.len()).sum();
    assert_eq!(total, data.len() - 1 - 2 * 4);
}

#[test]
fn test_split_two_files_two_chunks() {
    // row 0 hands file 0 one byte and file 1 two; row 1 hands file 0 two
    // bytes and file 1 one: files interleave by chunk
    let mut data = vec![1, 21, 22, 2, 3, 23];
    for delta in [1i32, 1, 2, -1] {
        data.extend_from_slice(&be32(delta as u32));
    }
    data.push(2);

    let parts = split_archive(&data, 2).unwrap();
    assert_eq!(parts, vec![vec![1, 2, 3], vec![21, 22, 23]]);

    let total: usize = parts.iter().map(|p| p.len()).sum();
    assert_eq!(total, data.len() - 1 - 2 * 2 * 4);
}

#[test]
fn test_split_rejects_bad_tables() {
    // empty archive
    assert!(split_archive(&Vec::new(), 2).is_none());

    // a negative first segment
    let mut neg = vec![0, 0];
    neg.extend_from_slice(&be32(-1i32 as u32));
    neg.extend_from_slice(&be32(1));
    neg.push(1);
    assert!(split_archive(&neg, 2).is_none());

    // a table larger than the archive
    let mut big = vec![0, 0, 0];
    big.push(200);
    assert!(split_archive(&big, 2).is_none());

    // segments that run past the end
    let mut over = vec![0, 0];
    over.extend_from_slice(&be32(500));
    over.extend_from_slice(&be32(0));
    over.push(1);
    assert!(split_archive(&over, 2).is_none());
}

#[test]
fn test_name_hash_values() {
    assert_eq!(get_name_hash("logo"), 3327403);
    assert_eq!(get_name_hash("LOGO"), 3327403);
    assert_eq!(get_name_hash(""), 0);
    assert_eq!(get_name_hash("a"), 97);
    assert_eq!(get_name_hash("ab"), 97 * 31 + 98);
}
