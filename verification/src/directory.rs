//! The directory decoder.  A decompressed index-255 entry describes one
//! index: a protocol byte (5 or 6), an optional revision, a flags byte, and
//! then per-archive tables — id deltas, optional name hashes, optional
//! 64-byte whirlpool blobs, crcs, versions, file counts, per-file id deltas
//! and optional per-file name hashes — every integer big-endian.

use vstd::prelude::*;

use crate::codec::{decompress_container_data, spec_decompress};
use crate::cursor::{be16_at, be32_at, bei32_at, byte_at, Cursor};

verus! {

/// What the CRC-32 (IEEE) of a byte string is.  The stored directory crc is
/// taken over the still-compressed container bytes.
pub uninterp spec fn crc32_of(data: Seq<u8>) -> u32;

/// Relies on `crc32fast::hash`: the CRC-32 (IEEE) of the bytes, a function of
/// the bytes alone.
#[verifier::external_body]
fn crc32(data: &Vec<u8>) -> (r: u32)
    ensures
        r == crc32_of(data@),
{
    crc32fast::hash(&data[..])
}

/// A sequence of ids with no duplicates, in ascending order.
pub open spec fn strictly_increasing(s: Seq<u32>) -> bool {
    forall|i: int, j: int| 0 <= i < j < s.len() ==> s[i] < s[j]
}

// The wire positions of a directory's pieces, as functions of the decoded
// bytes `s`.  Reads past the end see zero bytes; whether they stay inside the
// buffer is exactly what `dir_wf` asks.

pub open spec fn dir_protocol(s: Seq<u8>) -> u8 {
    byte_at(s, 0)
}

pub open spec fn dir_header_end(s: Seq<u8>) -> int {
    if dir_protocol(s) == 6 {
        5
    } else {
        1
    }
}

pub open spec fn dir_revision(s: Seq<u8>) -> int {
    if dir_protocol(s) == 6 {
        be32_at(s, 1)
    } else {
        0
    }
}

pub open spec fn dir_flags(s: Seq<u8>) -> u8 {
    byte_at(s, dir_header_end(s))
}

pub open spec fn dir_named(s: Seq<u8>) -> bool {
    dir_flags(s) & 0x1 != 0
}

pub open spec fn dir_whirlpool(s: Seq<u8>) -> bool {
    dir_flags(s) & 0x2 != 0
}

pub open spec fn dir_num_archives(s: Seq<u8>) -> int {
    be16_at(s, dir_header_end(s) + 1)
}

pub open spec fn dir_ids_start(s: Seq<u8>) -> int {
    dir_header_end(s) + 3
}

pub open spec fn dir_archive_delta(s: Seq<u8>, i: int) -> int {
    be16_at(s, dir_ids_start(s) + 2 * i)
}

/// Archive ids are a running sum of deltas, starting from zero.
pub open spec fn dir_archive_id(s: Seq<u8>, i: int) -> int
    decreases i,
{
    if i <= 0 {
        dir_archive_delta(s, 0)
    } else {
        dir_archive_id(s, i - 1) + dir_archive_delta(s, i)
    }
}

pub open spec fn dir_names_start(s: Seq<u8>) -> int {
    dir_ids_start(s) + 2 * dir_num_archives(s)
}

pub open spec fn dir_name_hash(s: Seq<u8>, i: int) -> int {
    if dir_named(s) {
        be32_at(s, dir_names_start(s) + 4 * i)
    } else {
        0
    }
}

pub open spec fn dir_whirl_start(s: Seq<u8>) -> int {
    dir_names_start(s) + if dir_named(s) {
        4 * dir_num_archives(s)
    } else {
        0
    }
}

pub open spec fn dir_whirl_byte(s: Seq<u8>, i: int, j: int) -> u8 {
    byte_at(s, dir_whirl_start(s) + 64 * i + j)
}

pub open spec fn dir_crcs_start(s: Seq<u8>) -> int {
    dir_whirl_start(s) + if dir_whirlpool(s) {
        64 * dir_num_archives(s)
    } else {
        0
    }
}

pub open spec fn dir_archive_crc(s: Seq<u8>, i: int) -> int {
    bei32_at(s, dir_crcs_start(s) + 4 * i)
}

pub open spec fn dir_versions_start(s: Seq<u8>) -> int {
    dir_crcs_start(s) + 4 * dir_num_archives(s)
}

pub open spec fn dir_archive_version(s: Seq<u8>, i: int) -> int {
    bei32_at(s, dir_versions_start(s) + 4 * i)
}

pub open spec fn dir_counts_start(s: Seq<u8>) -> int {
    dir_versions_start(s) + 4 * dir_num_archives(s)
}

pub open spec fn dir_file_count(s: Seq<u8>, i: int) -> int {
    be16_at(s, dir_counts_start(s) + 2 * i)
}

/// How many file-id slots the archives before archive `i` use together.
pub open spec fn dir_counts_sum(s: Seq<u8>, i: int) -> int
    decreases i,
{
    if i <= 0 {
        0
    } else {
        dir_counts_sum(s, i - 1) + dir_file_count(s, i - 1)
    }
}

pub open spec fn dir_file_ids_start(s: Seq<u8>) -> int {
    dir_counts_start(s) + 2 * dir_num_archives(s)
}

pub open spec fn dir_file_delta(s: Seq<u8>, i: int, k: int) -> int {
    be16_at(s, dir_file_ids_start(s) + 2 * (dir_counts_sum(s, i) + k))
}

/// File ids inside an archive are a running sum of deltas as well.
pub open spec fn dir_file_id(s: Seq<u8>, i: int, k: int) -> int
    decreases k,
{
    if k <= 0 {
        dir_file_delta(s, i, 0)
    } else {
        dir_file_id(s, i, k - 1) + dir_file_delta(s, i, k)
    }
}

pub open spec fn dir_file_names_start(s: Seq<u8>) -> int {
    dir_file_ids_start(s) + 2 * dir_counts_sum(s, dir_num_archives(s))
}

pub open spec fn dir_file_name_hash(s: Seq<u8>, i: int, k: int) -> int {
    if dir_named(s) {
        be32_at(s, dir_file_names_start(s) + 4 * (dir_counts_sum(s, i) + k))
    } else {
        0
    }
}

/// One past the last byte the directory layout uses.
pub open spec fn dir_end(s: Seq<u8>) -> int {
    dir_file_names_start(s) + if dir_named(s) {
        4 * dir_counts_sum(s, dir_num_archives(s))
    } else {
        0
    }
}

/// The per-file version byte: taken from the archive's whirlpool blob at the
/// file's own id.  The legacy format never defined this mapping for ids of 64
/// and over, so those files keep version zero; the blob is carried only for
/// this best-effort assignment.
pub open spec fn dir_file_version(s: Seq<u8>, i: int, k: int) -> u8 {
    if dir_whirlpool(s) && 0 <= dir_file_id(s, i, k) < 64 {
        dir_whirl_byte(s, i, dir_file_id(s, i, k))
    } else {
        0
    }
}

/// Every delta after the first in a running-sum table must be at least one;
/// that is what makes archive and file ids strictly increasing and unique.
pub open spec fn dir_deltas_ok(s: Seq<u8>) -> bool {
    &&& forall|i: int| 1 <= i < dir_num_archives(s) ==> #[trigger] dir_archive_delta(s, i) >= 1
    &&& forall|i: int, k: int|
        0 <= i < dir_num_archives(s) && 1 <= k < dir_file_count(s, i)
            ==> #[trigger] dir_file_delta(s, i, k) >= 1
}

/// A directory that decodes: known protocol, the whole layout inside the
/// buffer, and id tables that are strictly increasing.
pub open spec fn dir_wf(s: Seq<u8>) -> bool {
    &&& s.len() >= 1
    &&& (dir_protocol(s) == 5 || dir_protocol(s) == 6)
    &&& dir_end(s) <= s.len()
    &&& dir_deltas_ok(s)
}

pub proof fn lemma_counts_sum_nonneg(s: Seq<u8>, i: int)
    ensures
        dir_counts_sum(s, i) >= 0,
    decreases i,
{
    if i > 0 {
        lemma_counts_sum_nonneg(s, i - 1);
    }
}

pub proof fn lemma_counts_sum_mono(s: Seq<u8>, i: int, j: int)
    requires
        i <= j,
    ensures
        dir_counts_sum(s, i) <= dir_counts_sum(s, j),
    decreases j - i,
{
    if i < j {
        lemma_counts_sum_mono(s, i, j - 1);
        if j > 0 {
            lemma_counts_sum_nonneg(s, j);
        }
    }
}

/// The layout's section starts come in order; nothing here depends on the
/// buffer being well formed.
pub proof fn lemma_dir_positions(s: Seq<u8>)
    ensures
        1 <= dir_header_end(s) <= 5,
        dir_ids_start(s) == dir_header_end(s) + 3,
        dir_ids_start(s) <= dir_names_start(s),
        dir_names_start(s) <= dir_whirl_start(s),
        dir_whirl_start(s) <= dir_crcs_start(s),
        dir_crcs_start(s) <= dir_versions_start(s),
        dir_versions_start(s) <= dir_counts_start(s),
        dir_counts_start(s) <= dir_file_ids_start(s),
        dir_file_ids_start(s) <= dir_file_names_start(s),
        dir_file_names_start(s) <= dir_end(s),
        dir_counts_sum(s, dir_num_archives(s)) >= 0,
{
    lemma_counts_sum_nonneg(s, dir_num_archives(s));
}

/// In a well-formed directory the decoded archive ids are strictly
/// increasing, so each id occurs exactly once.
pub proof fn lemma_archive_ids_strictly_increasing(s: Seq<u8>, i: int, j: int)
    requires
        dir_wf(s),
        0 <= i < j < dir_num_archives(s),
    ensures
        dir_archive_id(s, i) < dir_archive_id(s, j),
    decreases j - i,
{
    if i < j - 1 {
        lemma_archive_ids_strictly_increasing(s, i, j - 1);
    }
    assert(dir_archive_delta(s, j) >= 1);
}

/// In a well-formed directory the file ids of each archive are strictly
/// increasing, so each file id occurs exactly once in its archive.
pub proof fn lemma_file_ids_strictly_increasing(s: Seq<u8>, i: int, k: int, l: int)
    requires
        dir_wf(s),
        0 <= i < dir_num_archives(s),
        0 <= k < l < dir_file_count(s, i),
    ensures
        dir_file_id(s, i, k) < dir_file_id(s, i, l),
    decreases l - k,
{
    if k < l - 1 {
        lemma_file_ids_strictly_increasing(s, i, k, l - 1);
    }
    assert(dir_file_delta(s, i, l) >= 1);
}

/// One file inside an archive: its per-file metadata and, once materialized,
/// its raw bytes.
pub struct IdxFileContainer {
    pub version: u8,
    pub name_hash: u32,
    pub crc: i32,
    pub data: Vec<u8>,
}

impl IdxFileContainer {
    pub fn new() -> (r: IdxFileContainer)
        ensures
            r.version == 0,
            r.name_hash == 0,
            r.crc == 0,
            r.data@ == Seq::<u8>::empty(),
    {
        IdxFileContainer { version: 0, name_hash: 0, crc: 0, data: Vec::new() }
    }
}

/// One archive (container) of an index: its metadata and its files, the file
/// list kept in the decoded id order.
pub struct IdxContainer {
    pub version: i32,
    pub name_hash: u32,
    pub crc: i32,
    pub file_indices: Vec<u32>,
    pub file_containers: Vec<IdxFileContainer>,
}

impl IdxContainer {
    /// The file table is one slot per file id, ids ascending.
    pub open spec fn wf(&self) -> bool {
        &&& self.file_containers@.len() == self.file_indices@.len()
        &&& strictly_increasing(self.file_indices@)
    }

    pub fn new() -> (r: IdxContainer)
        ensures
            r.version == 0,
            r.name_hash == 0,
            r.crc == 0,
            r.file_indices@ == Seq::<u32>::empty(),
            r.file_containers@ == Seq::<IdxFileContainer>::empty(),
            r.wf(),
    {
        IdxContainer {
            version: 0,
            name_hash: 0,
            crc: 0,
            file_indices: Vec::new(),
            file_containers: Vec::new(),
        }
    }

    /// Drops every file's materialized bytes, keeping all metadata.
    pub fn clear_filedata(&mut self)
        ensures
            cleared_archive(*old(self), *final(self)),
    {
        let n = self.file_containers.len();
        let mut i: usize = 0;
        while i < n
            invariant
                i <= n,
                n == self.file_containers@.len(),
                self.version == old(self).version,
                self.name_hash == old(self).name_hash,
                self.crc == old(self).crc,
                self.file_indices@ == old(self).file_indices@,
                self.file_containers@.len() == old(self).file_containers@.len(),
                forall|k: int|
                    0 <= k < n ==> {
                        &&& (#[trigger] self.file_containers@[k]).version == old(
                            self,
                        ).file_containers@[k].version
                        &&& self.file_containers@[k].name_hash == old(
                            self,
                        ).file_containers@[k].name_hash
                        &&& self.file_containers@[k].crc == old(self).file_containers@[k].crc
                    },
                forall|k: int|
                    0 <= k < i ==> (#[trigger] self.file_containers@[k]).data@ == Seq::<
                        u8,
                    >::empty(),
            decreases n - i,
        {
            self.file_containers[i].data = Vec::new();
            i = i + 1;
        }
    }
}

/// `b` is the file slot `a` with its payload dropped.
pub open spec fn cleared_slot(a: IdxFileContainer, b: IdxFileContainer) -> bool {
    &&& b.version == a.version
    &&& b.name_hash == a.name_hash
    &&& b.crc == a.crc
    &&& b.data@ == Seq::<u8>::empty()
}

/// `b` is the archive `a` with every file's payload dropped.
pub open spec fn cleared_archive(a: IdxContainer, b: IdxContainer) -> bool {
    &&& b.version == a.version
    &&& b.name_hash == a.name_hash
    &&& b.crc == a.crc
    &&& b.file_indices@ == a.file_indices@
    &&& b.file_containers@.len() == a.file_containers@.len()
    &&& forall|k: int|
        0 <= k < a.file_containers@.len() ==> cleared_slot(
            a.file_containers@[k],
            #[trigger] b.file_containers@[k],
        )
}

/// `b` is the directory `a` with every file's payload dropped.
pub open spec fn cleared_info(a: IdxContainerInfo, b: IdxContainerInfo) -> bool {
    &&& b.protocol == a.protocol
    &&& b.revision == a.revision
    &&& b.crc == a.crc
    &&& b.container_indices@ == a.container_indices@
    &&& b.named_files == a.named_files
    &&& b.whirlpool == a.whirlpool
    &&& b.containers@.len() == a.containers@.len()
    &&& forall|i: int|
        0 <= i < a.containers@.len() ==> cleared_archive(
            a.containers@[i],
            #[trigger] b.containers@[i],
        )
}

/// The decoded directory of one index: which archives it holds and what is
/// known about each.
pub struct IdxContainerInfo {
    pub protocol: u8,
    pub revision: u32,
    pub crc: u32,
    pub container_indices: Vec<u32>,
    pub containers: Vec<IdxContainer>,
    pub named_files: bool,
    pub whirlpool: bool,
}

/// The freshly-made, empty directory: what a failed decode hands back.
pub open spec fn spec_empty_info(info: IdxContainerInfo) -> bool {
    &&& info.protocol == 0
    &&& info.revision == 0
    &&& info.crc == 0
    &&& info.container_indices@ == Seq::<u32>::empty()
    &&& info.containers@ == Seq::<IdxContainer>::empty()
    &&& !info.named_files
    &&& !info.whirlpool
}

/// One decoded file slot, before any data is materialized.
pub open spec fn file_slot_matches(f: IdxFileContainer, s: Seq<u8>, i: int, k: int) -> bool {
    &&& f.version == dir_file_version(s, i, k)
    &&& f.name_hash == dir_file_name_hash(s, i, k)
    &&& f.crc == 0
    &&& f.data@ == Seq::<u8>::empty()
}

/// One decoded archive of the directory bytes `s`.
pub open spec fn archive_matches(a: IdxContainer, s: Seq<u8>, i: int) -> bool {
    &&& a.version == dir_archive_version(s, i)
    &&& a.crc == dir_archive_crc(s, i)
    &&& a.name_hash == dir_name_hash(s, i)
    &&& a.file_indices@.len() == dir_file_count(s, i)
    &&& (forall|k: int|
        0 <= k < dir_file_count(s, i) ==> #[trigger] a.file_indices@[k] == dir_file_id(s, i, k))
    &&& a.file_containers@.len() == dir_file_count(s, i)
    &&& (forall|k: int|
        0 <= k < dir_file_count(s, i) ==> file_slot_matches(
            #[trigger] a.file_containers@[k],
            s,
            i,
            k,
        ))
}

/// The whole decoded directory of the bytes `s`, with `crcv` as stored crc.
pub open spec fn info_matches(info: IdxContainerInfo, s: Seq<u8>, crcv: u32) -> bool {
    &&& info.protocol == dir_protocol(s)
    &&& info.revision == dir_revision(s)
    &&& info.crc == crcv
    &&& info.named_files == dir_named(s)
    &&& info.whirlpool == dir_whirlpool(s)
    &&& info.container_indices@.len() == dir_num_archives(s)
    &&& (forall|i: int|
        0 <= i < dir_num_archives(s) ==> #[trigger] info.container_indices@[i] == dir_archive_id(
            s,
            i,
        ))
    &&& info.containers@.len() == dir_num_archives(s)
    &&& (forall|i: int|
        0 <= i < dir_num_archives(s) ==> archive_matches(#[trigger] info.containers@[i], s, i))
}

/// What `IdxContainerInfo::from` yields for a compressed payload: the decoded
/// directory when the payload decompresses to a well-formed directory, and
/// the empty directory otherwise.
pub open spec fn spec_info_from(packed: Seq<u8>, gencrc: bool, info: IdxContainerInfo) -> bool {
    match spec_decompress(packed) {
        Ok(s) => if dir_wf(s) {
            info_matches(
                info,
                s,
                if gencrc {
                    crc32_of(packed)
                } else {
                    0u32
                },
            )
        } else {
            spec_empty_info(info)
        },
        Err(_) => spec_empty_info(info),
    }
}

impl IdxContainerInfo {
    /// One archive slot per id, ids ascending, every archive well formed.
    pub open spec fn wf(&self) -> bool {
        &&& self.containers@.len() == self.container_indices@.len()
        &&& strictly_increasing(self.container_indices@)
        &&& forall|i: int| 0 <= i < self.containers@.len() ==> (#[trigger] self.containers@[i]).wf()
    }

    pub fn new() -> (r: IdxContainerInfo)
        ensures
            spec_empty_info(r),
            r.wf(),
    {
        IdxContainerInfo {
            protocol: 0,
            revision: 0,
            crc: 0,
            container_indices: Vec::new(),
            containers: Vec::new(),
            named_files: false,
            whirlpool: false,
        }
    }

    /// Drops every archive's materialized file payloads, keeping all
    /// directory metadata.
    pub fn clear_all_filedata(&mut self)
        ensures
            cleared_info(*old(self), *final(self)),
    {
        let n = self.containers.len();
        let mut i: usize = 0;
        while i < n
            invariant
                i <= n,
                n == self.containers@.len(),
                self.protocol == old(self).protocol,
                self.revision == old(self).revision,
                self.crc == old(self).crc,
                self.container_indices@ == old(self).container_indices@,
                self.named_files == old(self).named_files,
                self.whirlpool == old(self).whirlpool,
                self.containers@.len() == old(self).containers@.len(),
                forall|j: int|
                    i <= j < n ==> #[trigger] self.containers@[j] == old(self).containers@[j],
                forall|j: int|
                    0 <= j < i ==> cleared_archive(
                        old(self).containers@[j],
                        #[trigger] self.containers@[j],
                    ),
            decreases n - i,
        {
            self.containers[i].clear_filedata();
            i = i + 1;
        }
    }

    /// Decodes the directory held in a still-compressed container payload.
    ///
    /// The crc stored on the directory is the CRC-32 of the compressed bytes
    /// themselves, computed only when `gencrc` asks for it.  A payload that
    /// does not decompress, names an unknown protocol, runs out of bytes
    /// mid-decode, or repeats an id in a running-sum table yields the empty
    /// directory instead.
    #[verifier::loop_isolation(false)]
    #[verifier::rlimit(90)]
    pub fn from(packed_data: Vec<u8>, gencrc: bool) -> (r: IdxContainerInfo)
        ensures
            r.wf(),
            spec_info_from(packed_data@, gencrc, r),
    {
        let mut crc: u32 = 0;
        if gencrc {
            crc = crc32(&packed_data);
        }

        let data = match decompress_container_data(packed_data) {
            Ok(d) => d,
            Err(_) => { return IdxContainerInfo::new() },
        };
        let ghost s = data@;
        proof {
            lemma_dir_positions(s);
        }
        let mut cur = Cursor::with_vec(data);

        let protocol = match cur.read_u8() {
            Some(p) => p,
            None => { return IdxContainerInfo::new() },
        };
        if protocol != 5 && protocol != 6 {
            return IdxContainerInfo::new();
        }
        let revision: u32 = if protocol == 6 {
            match cur.read_u32() {
                Some(v) => v,
                None => { return IdxContainerInfo::new() },
            }
        } else {
            0
        };
        let settings_hash = match cur.read_u8() {
            Some(v) => v,
            None => { return IdxContainerInfo::new() },
        };
        let files_named = (settings_hash & 0x1) != 0;
        let whirlpool = (settings_hash & 0x2) != 0;
        assert(files_named == dir_named(s));
        assert(whirlpool == dir_whirlpool(s));
        let num_archives = match cur.read_u16() {
            Some(v) => v,
            None => { return IdxContainerInfo::new() },
        };
        let n = num_archives as usize;
        assert(cur.position() == dir_ids_start(s));
        assert(n == dir_num_archives(s));

        // Archive ids: running sum of 16-bit deltas.
        let mut container_indices: Vec<u32> = Vec::new();
        let mut prev: u32 = 0;
        let mut i: usize = 0;
        while i < n
            invariant
                i <= n,
                cur.bytes() == s,
                cur.position() == dir_ids_start(s) + 2 * i,
                cur.position() <= s.len(),
                container_indices@.len() == i,
                forall|j: int|
                    0 <= j < i ==> #[trigger] container_indices@[j] == dir_archive_id(s, j),
                forall|j: int| 1 <= j < i ==> #[trigger] dir_archive_delta(s, j) >= 1,
                i > 0 ==> prev == dir_archive_id(s, i - 1),
                prev <= i * 0xffff,
            decreases n - i,
        {
            let delta = match cur.read_u16() {
                Some(d) => d,
                None => {
                    proof {
                        assert(dir_ids_start(s) + 2 * i + 2 <= dir_names_start(s));
                        assert(!dir_wf(s));
                    }
                    return IdxContainerInfo::new();
                },
            };
            if i > 0 && delta == 0 {
                proof {
                    assert(dir_archive_delta(s, i as int) == 0);
                    assert(!dir_deltas_ok(s));
                }
                return IdxContainerInfo::new();
            }
            let id: u32 = if i == 0 {
                delta as u32
            } else {
                prev + delta as u32
            };
            assert(id == dir_archive_id(s, i as int));
            container_indices.push(id);
            prev = id;
            i = i + 1;
        }

        // Archive name hashes, present only when the index names its files.
        let mut names: Vec<u32> = Vec::new();
        if files_named {
            let mut i: usize = 0;
            while i < n
                invariant
                    i <= n,
                    cur.bytes() == s,
                    cur.position() == dir_names_start(s) + 4 * i,
                    cur.position() <= s.len(),
                    names@.len() == i,
                    forall|j: int| 0 <= j < i ==> #[trigger] names@[j] == dir_name_hash(s, j),
                decreases n - i,
            {
                let v = match cur.read_u32() {
                    Some(v) => v,
                    None => {
                        proof {
                            assert(dir_names_start(s) + 4 * i + 4 <= dir_whirl_start(s));
                            assert(!dir_wf(s));
                        }
                        return IdxContainerInfo::new();
                    },
                };
                names.push(v);
                i = i + 1;
            }
        } else {
            let mut i: usize = 0;
            while i < n
                invariant
                    i <= n,
                    names@.len() == i,
                    forall|j: int| 0 <= j < i ==> #[trigger] names@[j] == dir_name_hash(s, j),
                decreases n - i,
            {
                names.push(0);
                i = i + 1;
            }
        }
        assert(cur.position() == dir_whirl_start(s));

        // Whirlpool blobs: one 64-byte blob per archive when flagged.
        let mut blobs: Vec<Vec<u8>> = Vec::new();
        if whirlpool {
            let mut i: usize = 0;
            while i < n
                invariant
                    i <= n,
                    cur.bytes() == s,
                    cur.position() == dir_whirl_start(s) + 64 * i,
                    cur.position() <= s.len(),
                    blobs@.len() == i,
                    forall|j: int|
                        0 <= j < i ==> (#[trigger] blobs@[j])@ == s.subrange(
                            dir_whirl_start(s) + 64 * j,
                            dir_whirl_start(s) + 64 * j + 64,
                        ),
                decreases n - i,
            {
                let b = match cur.read_bytes(64) {
                    Some(b) => b,
                    None => {
                        proof {
                            assert(dir_whirl_start(s) + 64 * i + 64 <= dir_crcs_start(s));
                            assert(!dir_wf(s));
                        }
                        return IdxContainerInfo::new();
                    },
                };
                blobs.push(b);
                i = i + 1;
            }
        }
        assert(cur.position() == dir_crcs_start(s));

        // Per-archive crcs.
        let mut crcs: Vec<i32> = Vec::new();
        let mut i: usize = 0;
        while i < n
            invariant
                i <= n,
                cur.bytes() == s,
                cur.position() == dir_crcs_start(s) + 4 * i,
                cur.position() <= s.len(),
                crcs@.len() == i,
                forall|j: int| 0 <= j < i ==> #[trigger] crcs@[j] == dir_archive_crc(s, j),
            decreases n - i,
        {
            let v = match cur.read_i32() {
                Some(v) => v,
                None => {
                    proof {
                        assert(dir_crcs_start(s) + 4 * i + 4 <= dir_versions_start(s));
                        assert(!dir_wf(s));
                    }
                    return IdxContainerInfo::new();
                },
            };
            crcs.push(v);
            i = i + 1;
        }

        // Per-archive versions.
        let mut versions: Vec<i32> = Vec::new();
        let mut i: usize = 0;
        while i < n
            invariant
                i <= n,
                cur.bytes() == s,
                cur.position() == dir_versions_start(s) + 4 * i,
                cur.position() <= s.len(),
                versions@.len() == i,
                forall|j: int| 0 <= j < i ==> #[trigger] versions@[j] == dir_archive_version(s, j),
            decreases n - i,
        {
            let v = match cur.read_i32() {
                Some(v) => v,
                None => {
                    proof {
                        assert(dir_versions_start(s) + 4 * i + 4 <= dir_counts_start(s));
                        assert(!dir_wf(s));
                    }
                    return IdxContainerInfo::new();
                },
            };
            versions.push(v);
            i = i + 1;
        }

        // Per-archive file counts.
        let mut counts: Vec<u16> = Vec::new();
        let mut i: usize = 0;
        while i < n
            invariant
                i <= n,
                cur.bytes() == s,
                cur.position() == dir_counts_start(s) + 2 * i,
                cur.position() <= s.len(),
                counts@.len() == i,
                forall|j: int| 0 <= j < i ==> #[trigger] counts@[j] == dir_file_count(s, j),
            decreases n - i,
        {
            let v = match cur.read_u16() {
                Some(v) => v,
                None => {
                    proof {
                        assert(dir_counts_start(s) + 2 * i + 2 <= dir_file_ids_start(s));
                        assert(!dir_wf(s));
                    }
                    return IdxContainerInfo::new();
                },
            };
            counts.push(v);
            i = i + 1;
        }

        // Per-archive file ids: running sums again, one table per archive.
        let mut file_ids: Vec<Vec<u32>> = Vec::new();
        let mut i: usize = 0;
        while i < n
            invariant
                i <= n,
                cur.bytes() == s,
                cur.position() == dir_file_ids_start(s) + 2 * dir_counts_sum(s, i as int),
                cur.position() <= s.len(),
                file_ids@.len() == i,
                forall|j: int|
                    0 <= j < i ==> (#[trigger] file_ids@[j])@.len() == dir_file_count(s, j),
                forall|j: int, l: int|
                    #![trigger file_ids@[j]@[l]]
                    0 <= j < i && 0 <= l < dir_file_count(s, j) ==> file_ids@[j]@[l]
                        == dir_file_id(s, j, l),
                forall|j: int, l: int|
                    0 <= j < i && 1 <= l < dir_file_count(s, j) ==> #[trigger] dir_file_delta(
                        s,
                        j,
                        l,
                    ) >= 1,
            decreases n - i,
        {
            let count = counts[i] as usize;
            let mut ids_i: Vec<u32> = Vec::new();
            let mut fprev: u32 = 0;
            let mut k: usize = 0;
            while k < count
                invariant
                    k <= count,
                    cur.bytes() == s,
                    cur.position() == dir_file_ids_start(s) + 2 * (dir_counts_sum(s, i as int)
                        + k),
                    cur.position() <= s.len(),
                    ids_i@.len() == k,
                    forall|l: int| 0 <= l < k ==> #[trigger] ids_i@[l] == dir_file_id(s, i as int, l),
                    forall|l: int| 1 <= l < k ==> #[trigger] dir_file_delta(s, i as int, l) >= 1,
                    k > 0 ==> fprev == dir_file_id(s, i as int, k - 1),
                    fprev <= k * 0xffff,
                decreases count - k,
            {
                let delta = match cur.read_u16() {
                    Some(d) => d,
                    None => {
                        proof {
                            lemma_counts_sum_mono(s, i as int + 1, dir_num_archives(s));
                            assert(dir_counts_sum(s, i as int) + k + 1 <= dir_counts_sum(
                                s,
                                i as int + 1,
                            ));
                            assert(cur.position() + 2 <= dir_file_names_start(s));
                            assert(!dir_wf(s));
                        }
                        return IdxContainerInfo::new();
                    },
                };
                if k > 0 && delta == 0 {
                    proof {
                        assert(dir_file_delta(s, i as int, k as int) == 0);
                        assert(!dir_deltas_ok(s));
                    }
                    return IdxContainerInfo::new();
                }
                let id: u32 = if k == 0 {
                    delta as u32
                } else {
                    fprev + delta as u32
                };
                assert(id == dir_file_id(s, i as int, k as int));
                ids_i.push(id);
                fprev = id;
                k = k + 1;
            }
            file_ids.push(ids_i);
            i = i + 1;
        }
        assert(cur.position() == dir_file_names_start(s));

        // Per-file name hashes, again only when the index names its files.
        let mut fnames: Vec<Vec<u32>> = Vec::new();
        if files_named {
            let mut i: usize = 0;
            while i < n
                invariant
                    i <= n,
                    cur.bytes() == s,
                    cur.position() == dir_file_names_start(s) + 4 * dir_counts_sum(s, i as int),
                    cur.position() <= s.len(),
                    fnames@.len() == i,
                    forall|j: int|
                        0 <= j < i ==> (#[trigger] fnames@[j])@.len() == dir_file_count(s, j),
                    forall|j: int, l: int|
                        #![trigger fnames@[j]@[l]]
                        0 <= j < i && 0 <= l < dir_file_count(s, j) ==> fnames@[j]@[l]
                            == dir_file_name_hash(s, j, l),
                decreases n - i,
            {
                let count = counts[i] as usize;
                let mut row: Vec<u32> = Vec::new();
                let mut k: usize = 0;
                while k < count
                    invariant
                        k <= count,
                        cur.bytes() == s,
                        cur.position() == dir_file_names_start(s) + 4 * (dir_counts_sum(
                            s,
                            i as int,
                        ) + k),
                        cur.position() <= s.len(),
                        row@.len() == k,
                        forall|l: int|
                            0 <= l < k ==> #[trigger] row@[l] == dir_file_name_hash(s, i as int, l),
                    decreases count - k,
                {
                    let v = match cur.read_u32() {
                        Some(v) => v,
                        None => {
                            proof {
                                lemma_counts_sum_mono(s, i as int + 1, dir_num_archives(s));
                                assert(dir_counts_sum(s, i as int) + k + 1 <= dir_counts_sum(
                                    s,
                                    i as int + 1,
                                ));
                                assert(cur.position() + 4 <= dir_end(s));
                                assert(!dir_wf(s));
                            }
                            return IdxContainerInfo::new();
                        },
                    };
                    row.push(v);
                    k = k + 1;
                }
                fnames.push(row);
                i = i + 1;
            }
        }
        assert(cur.position() == dir_end(s));
        assert(dir_wf(s));

        // Assemble the archives in decoded order.
        let mut containers: Vec<IdxContainer> = Vec::new();
        let mut i: usize = 0;
        while i < n
            invariant
                i <= n,
                containers@.len() == i,
                forall|j: int| 0 <= j < i ==> archive_matches(#[trigger] containers@[j], s, j),
                forall|j: int| 0 <= j < i ==> (#[trigger] containers@[j]).wf(),
            decreases n - i,
        {
            let count = counts[i] as usize;
            let mut ids_i: Vec<u32> = Vec::new();
            let mut slots: Vec<IdxFileContainer> = Vec::new();
            let mut k: usize = 0;
            while k < count
                invariant
                    k <= count,
                    ids_i@.len() == k,
                    slots@.len() == k,
                    forall|l: int| 0 <= l < k ==> #[trigger] ids_i@[l] == dir_file_id(s, i as int, l),
                    forall|l: int|
                        0 <= l < k ==> file_slot_matches(#[trigger] slots@[l], s, i as int, l),
                decreases count - k,
            {
                let fid = file_ids[i][k];
                let version: u8 = if whirlpool && fid < 64 {
                    blobs[i][fid as usize]
                } else {
                    0
                };
                assert(version == dir_file_version(s, i as int, k as int));
                let fname: u32 = if files_named {
                    fnames[i][k]
                } else {
                    0
                };
                slots.push(IdxFileContainer { version, name_hash: fname, crc: 0, data: Vec::new() });
                ids_i.push(fid);
                k = k + 1;
            }
            proof {
                assert forall|k1: int, k2: int| 0 <= k1 < k2 < ids_i@.len() implies ids_i@[k1]
                    < ids_i@[k2] by {
                    lemma_file_ids_strictly_increasing(s, i as int, k1, k2);
                }
            }
            let c = IdxContainer {
                version: versions[i],
                name_hash: names[i],
                crc: crcs[i],
                file_indices: ids_i,
                file_containers: slots,
            };
            containers.push(c);
            i = i + 1;
        }

        proof {
            assert forall|i1: int, i2: int| 0 <= i1 < i2 < container_indices@.len() implies
                container_indices@[i1] < container_indices@[i2] by {
                lemma_archive_ids_strictly_increasing(s, i1, i2);
            }
        }

        IdxContainerInfo {
            crc,
            protocol,
            revision,
            container_indices,
            containers,
            named_files: files_named,
            whirlpool,
        }
    }
}

} // verus!
