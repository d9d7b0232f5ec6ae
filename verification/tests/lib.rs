//! End-to-end tests over a small cache built in memory: an idx255 table, a
//! shared sector pool, and per-index tables, all assembled byte by byte.

use idx::cursor::Cursor;
use idx::util::{DefParser, DefProvider, FileProvider};
use idx::Cache;

fn be16(v: u16) -> [u8; 2] {
    [(v >> 8) as u8, v as u8]
}

fn be24(v: u32) -> [u8; 3] {
    [(v >> 16) as u8, (v >> 8) as u8, v as u8]
}

fn be32(v: u32) -> [u8; 4] {
    [(v >> 24) as u8, (v >> 16) as u8, (v >> 8) as u8, v as u8]
}

/// A six-byte index record: 24-bit size, 24-bit first sector.
fn record(size: u32, first_sector: u32) -> Vec<u8> {
    let mut r = Vec::new();
    r.extend_from_slice(&be24(size));
    r.extend_from_slice(&be24(first_sector));
    r
}

/// Wraps a body in a raw (uncompressed) container.
fn raw_container(body: &[u8]) -> Vec<u8> {
    let mut c = vec![0u8];
    c.extend_from_slice(&be32(body.len() as u32));
    c.extend_from_slice(body);
    c
}

/// The shared data file under construction; sector 0 stays unused.
struct DatBuilder {
    data: Vec<u8>,
}

impl DatBuilder {
    fn new() -> DatBuilder {
        DatBuilder { data: vec![0u8; 520] }
    }

    /// Appends the sector chain for one container and returns its record.
    fn add_container(&mut self, idx_file_id: u8, container_id: u32, payload: &[u8]) -> Vec<u8> {
        let first = (self.data.len() / 520) as u32;
        if payload.is_empty() {
            // an empty container still needs a nonzero first sector
            return record(0, 1);
        }
        let chunks: Vec<&[u8]> = payload.chunks(512).collect();
        for (part, chunk) in chunks.iter().enumerate() {
            let cur = first + part as u32;
            let next = if part + 1 == chunks.len() { 0 } else { cur + 1 };
            self.data.extend_from_slice(&be16(container_id as u16));
            self.data.extend_from_slice(&be16(part as u16));
            self.data.extend_from_slice(&be24(next));
            self.data.push(idx_file_id);
            self.data.extend_from_slice(chunk);
            for _ in chunk.len()..512 {
                self.data.push(0);
            }
        }
        record(payload.len() as u32, first)
    }
}

/// One archive of a directory under construction.
struct ArchiveSpec {
    id: u32,
    name_hash: u32,
    file_ids: Vec<u32>,
}

/// Encodes a protocol-5 directory payload (not yet wrapped in a container).
fn directory_payload(named: bool, archives: &[ArchiveSpec]) -> Vec<u8> {
    let mut p = vec![5u8];
    p.push(if named { 1 } else { 0 });
    p.extend_from_slice(&be16(archives.len() as u16));
    let mut prev = 0u32;
    for (i, a) in archives.iter().enumerate() {
        let delta = if i == 0 { a.id } else { a.id - prev };
        p.extend_from_slice(&be16(delta as u16));
        prev = a.id;
    }
    if named {
        for a in archives {
            p.extend_from_slice(&be32(a.name_hash));
        }
    }
    for _ in archives {
        p.extend_from_slice(&be32(0)); // crc
    }
    for _ in archives {
        p.extend_from_slice(&be32(0)); // version
    }
    for a in archives {
        p.extend_from_slice(&be16(a.file_ids.len() as u16));
    }
    for a in archives {
        let mut fprev = 0u32;
        for (k, f) in a.file_ids.iter().enumerate() {
            let delta = if k == 0 { *f } else { *f - fprev };
            p.extend_from_slice(&be16(delta as u16));
            fprev = *f;
        }
    }
    if named {
        for a in archives {
            for _ in &a.file_ids {
                p.extend_from_slice(&be32(0)); // per-file name hash
            }
        }
    }
    p
}

/// Builds the shared test cache:
/// - index 19: 61 archives (ids 0..=60); archives 0..=59 hold one file each,
///   archive 60 holds 72, so the index counts 15432 files; archive 16's only
///   file is file 56 with a known seven-byte payload;
/// - index 8: named; archive 1 ("first", file 0 = [7]) and archive 2
///   (hash of "logo", file 0 nonempty);
/// - index 3: an empty directory payload.
fn build_test_cache() -> Cache {
    let mut dat = DatBuilder::new();

    // index 19
    let mut archives19 = Vec::new();
    for id in 0..=60u32 {
        let file_ids: Vec<u32> = if id == 60 {
            (0..72).collect()
        } else if id == 16 {
            vec![56]
        } else {
            vec![0]
        };
        archives19.push(ArchiveSpec { id, name_hash: 0, file_ids });
    }
    let dir19 = directory_payload(false, &archives19);
    let dir19_record = dat.add_container(255, 19, &raw_container(&dir19));

    let whip = raw_container(&[97, 16, 55, 98, 3, 31, 0]);
    let whip_record = dat.add_container(19, 16, &whip);
    let mut idx19 = Vec::new();
    for slot in 0..=60u32 {
        if slot == 16 {
            idx19.extend_from_slice(&whip_record);
        } else {
            idx19.extend_from_slice(&record(0, 0));
        }
    }

    // index 8
    let logo_hash = idx::util::get_name_hash("logo");
    let archives8 = vec![
        ArchiveSpec { id: 1, name_hash: 1111, file_ids: vec![0] },
        ArchiveSpec { id: 2, name_hash: logo_hash, file_ids: vec![0] },
    ];
    let dir8 = directory_payload(true, &archives8);
    let dir8_record = dat.add_container(255, 8, &raw_container(&dir8));

    let rec8_1 = dat.add_container(8, 1, &raw_container(&[7]));
    let rec8_2 = dat.add_container(8, 2, &raw_container(&[1, 2, 3]));
    let mut idx8 = Vec::new();
    idx8.extend_from_slice(&record(0, 0));
    idx8.extend_from_slice(&rec8_1);
    idx8.extend_from_slice(&rec8_2);

    // index 3: empty directory payload
    let dir3_record = dat.add_container(255, 3, &[]);
    let idx3 = record(0, 0);

    // idx255: 20 candidate indices
    let mut idx255 = Vec::new();
    for slot in 0..20u32 {
        if slot == 19 {
            idx255.extend_from_slice(&dir19_record);
        } else if slot == 8 {
            idx255.extend_from_slice(&dir8_record);
        } else if slot == 3 {
            idx255.extend_from_slice(&dir3_record);
        } else {
            idx255.extend_from_slice(&record(0, 0));
        }
    }

    let mut idx_files: Vec<Option<Vec<u8>>> = Vec::new();
    for slot in 0..20usize {
        if slot == 19 {
            idx_files.push(Some(idx19.clone()));
        } else if slot == 8 {
            idx_files.push(Some(idx8.clone()));
        } else if slot == 3 {
            idx_files.push(Some(idx3.clone()));
        } else {
            idx_files.push(None);
        }
    }

    Cache::with(idx255, dat.data, idx_files, true)
}

#[test]
fn test_load_cache() {
    let cache = build_test_cache();
    assert!(cache.indices.len() > 0);
}

#[test]
fn test_file_amounts() {
    let mut cache = build_test_cache();
    let index = cache.index(19).unwrap();

    assert_eq!(15432, index.get_total_files());
}

#[test]
fn test_retrieve_filedata() {
    let mut cache = build_test_cache();
    let mut provider = FileProvider::from(&cache);
    provider.index(19);

    let whip_id = 4152;

    provider.archive(&cache, &(whip_id >> 8));
    let data = provider.request(&mut cache, &(whip_id & 0xff));

    assert_eq!(vec![97, 16, 55, 98, 3, 31, 0], data);
}

#[test]
fn test_hashnames() {
    let mut cache = build_test_cache();
    let mut provider = FileProvider::from(&cache);
    provider.index(8);
    provider.archive(&cache, &String::from("logo"));

    let data = provider.request(&mut cache, &0);

    assert_ne!(0, data.len())
}

#[test]
fn test_defprovider() {
    struct Bogus {
        op: u8,
    }

    impl DefParser for Bogus {
        fn parse_buff(mut buffer: Cursor) -> Self {
            Self {
                op: match buffer.read_u8() {
                    Some(b) => b,
                    None => 0,
                },
            }
        }
    }

    let mut cache = build_test_cache();
    let mut provider = DefProvider::<Bogus>::with(&cache, 8);

    let data = provider.get_def(&mut cache, &1, &0, 1);

    assert_ne!(data.op, 0);

    // blank the data file: a second call with the same id must be answered
    // from the memo table, without touching the cache again
    let blank = vec![0u8; cache.data_file.len()];
    cache.data_file = blank;

    let data = provider.get_def(&mut cache, &String::from("logo"), &0, 1);

    assert_ne!(data.op, 0);
}

#[test]
fn test_request_twice_hits_cache() {
    let mut cache = build_test_cache();
    let mut provider = FileProvider::from(&cache);
    provider.index(19);
    provider.archive(&cache, &16u32);

    let first = provider.request(&mut cache, &56u32);
    assert_eq!(vec![97, 16, 55, 98, 3, 31, 0], first);

    // blank the data file: the second request must come from the file's slot
    let blank = vec![0u8; cache.data_file.len()];
    cache.data_file = blank;

    let second = provider.request(&mut cache, &56u32);
    assert_eq!(first, second);
}

#[test]
fn test_empty_directory() {
    let mut cache = build_test_cache();
    let index = cache.index(3).unwrap();
    assert_eq!(0, index.container_info.container_indices.len());
    assert_eq!(0, index.container_info.containers.len());
    assert_eq!(0, index.container_info.protocol);
}

#[test]
fn test_unknown_index() {
    let mut cache = build_test_cache();
    assert!(cache.index(7).is_none());
    assert!(cache.index(19).is_some());
    assert!(cache.index(255).is_some());
}

#[test]
fn test_directory_crc_is_over_compressed_bytes() {
    let archives = vec![ArchiveSpec { id: 4, name_hash: 0, file_ids: vec![0, 2] }];
    let packed = raw_container(&directory_payload(false, &archives));

    let info = idx::IdxContainerInfo::from(packed.clone(), true);
    assert_eq!(info.crc, crc32fast::hash(&packed));
    assert_eq!(vec![4], info.container_indices);
    assert_eq!(vec![0, 2], info.containers[0].file_indices);

    let no_crc = idx::IdxContainerInfo::from(packed, false);
    assert_eq!(no_crc.crc, 0);
}

#[test]
fn test_directory_rejects_bad_protocol() {
    let payload = vec![7u8, 0, 0, 0];
    let info = idx::IdxContainerInfo::from(raw_container(&payload), true);
    assert_eq!(0, info.container_indices.len());
    assert_eq!(0, info.protocol);
}

#[test]
fn test_directory_rejects_duplicate_archive_id() {
    // two archives with delta 0 between them: the same id twice
    let mut payload = vec![5u8, 0];
    payload.extend_from_slice(&be16(2));
    payload.extend_from_slice(&be16(9));
    payload.extend_from_slice(&be16(0));
    payload.extend_from_slice(&[0u8; 16]); // crcs, versions
    payload.extend_from_slice(&[0u8; 4]); // counts
    let info = idx::IdxContainerInfo::from(raw_container(&payload), false);
    assert_eq!(0, info.container_indices.len());
}

#[test]
fn test_directory_protocol_six_revision() {
    let mut payload = vec![6u8];
    payload.extend_from_slice(&be32(77));
    payload.push(0);
    payload.extend_from_slice(&be16(1));
    payload.extend_from_slice(&be16(5));
    payload.extend_from_slice(&be32(0x01020304)); // crc
    payload.extend_from_slice(&be32(9)); // version
    payload.extend_from_slice(&be16(1)); // count
    payload.extend_from_slice(&be16(3)); // file id delta
    let info = idx::IdxContainerInfo::from(raw_container(&payload), false);
    assert_eq!(6, info.protocol);
    assert_eq!(77, info.revision);
    assert_eq!(vec![5], info.container_indices);
    assert_eq!(0x01020304, info.containers[0].crc);
    assert_eq!(9, info.containers[0].version);
    assert_eq!(vec![3], info.containers[0].file_indices);
}

#[test]
fn test_directory_whirlpool_versions() {
    // flags 2: a 64-byte whirlpool blob per archive; the per-file version is
    // the blob byte at the file's own id, and ids past the blob keep zero
    let mut payload = vec![5u8, 2];
    payload.extend_from_slice(&be16(1)); // one archive, id 9
    payload.extend_from_slice(&be16(9));
    let mut blob = [0u8; 64];
    blob[3] = 0xab;
    payload.extend_from_slice(&blob);
    payload.extend_from_slice(&be32(0)); // crc
    payload.extend_from_slice(&be32(0)); // version
    payload.extend_from_slice(&be16(2)); // two files
    payload.extend_from_slice(&be16(3)); // file id 3
    payload.extend_from_slice(&be16(67)); // file id 70

    let info = idx::IdxContainerInfo::from(raw_container(&payload), false);
    assert_eq!(vec![9], info.container_indices);
    assert_eq!(vec![3, 70], info.containers[0].file_indices);
    assert_eq!(0xab, info.containers[0].file_containers[0].version);
    assert_eq!(0, info.containers[0].file_containers[1].version);
}

#[test]
fn test_directory_named_file_hashes() {
    let mut payload = vec![5u8, 1];
    payload.extend_from_slice(&be16(1)); // one archive, id 2
    payload.extend_from_slice(&be16(2));
    payload.extend_from_slice(&be32(777)); // archive name hash
    payload.extend_from_slice(&be32(0)); // crc
    payload.extend_from_slice(&be32(0)); // version
    payload.extend_from_slice(&be16(1)); // one file, id 0
    payload.extend_from_slice(&be16(0));
    payload.extend_from_slice(&be32(4242)); // file name hash

    let info = idx::IdxContainerInfo::from(raw_container(&payload), false);
    assert_eq!(777, info.containers[0].name_hash);
    assert_eq!(4242, info.containers[0].file_containers[0].name_hash);
    assert!(info.named_files);
}

#[test]
fn test_clear_raw_data() {
    let mut cache = build_test_cache();
    let mut provider = FileProvider::from(&cache);
    provider.index(19);
    provider.archive(&cache, &16u32);
    let data = provider.request(&mut cache, &56u32);
    assert_eq!(7, data.len());

    // archive 16 sits at slot 16 of index 19's directory; its only file now
    // holds the payload
    {
        let index = cache.index(19).unwrap();
        assert_eq!(7, index.container_info.containers[16].file_containers[0].data.len());
    }

    cache.clear_raw_data();

    {
        let index = cache.index(19).unwrap();
        assert_eq!(0, index.container_info.containers[16].file_containers[0].data.len());
    }

    // the data file is intact, so a new request materializes the bytes again
    let again = provider.request(&mut cache, &56u32);
    assert_eq!(data, again);
}

#[test]
fn test_with_keys_keeps_selection() {
    let cache = build_test_cache();
    let mut provider = FileProvider::from(&cache);
    provider.index(19);
    provider.archive(&cache, &16u32);
    provider.with_keys(vec![1, 2, 3, 4]);
    let mut cache = cache;
    let data = provider.request(&mut cache, &56u32);
    assert_eq!(vec![97, 16, 55, 98, 3, 31, 0], data);
}
