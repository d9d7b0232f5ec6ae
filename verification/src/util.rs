//! The retrieval layer: name hashing, id resolution, the raw-data
//! `FileProvider` and the memoizing `DefProvider`.  A provider holds only its
//! selection state; the cache itself is handed in by the caller on every
//! request.

use vstd::prelude::*;
use vstd::string::StringSliceAdditionalSpecFns;

use crate::cache::{
    lemma_index_pos_props, spec_container_data, spec_has_index, spec_index_pos,
    spec_last_name_match, Cache, CacheIndex,
};
use crate::codec::spec_decompress;
use crate::cursor::Cursor;
use crate::directory::IdxContainer;
use crate::splitter::{split_archive, split_file_out, split_num_chunks, split_wf};

verus! {

/// ASCII upper-case letters fold to lower case; every other byte stands.
pub open spec fn ascii_lower_byte(b: u8) -> u8 {
    if 0x41 <= b <= 0x5a {
        (b + 0x20) as u8
    } else {
        b
    }
}

/// The rolling name hash over the lowercased bytes: each byte contributes
/// `b + 31 * h`, modulo two to the 32nd.
pub open spec fn name_hash_of(s: Seq<u8>) -> u32
    decreases s.len(),
{
    if s.len() == 0 {
        0
    } else {
        ((ascii_lower_byte(s.last()) + 31 * name_hash_of(s.drop_last())) % 0x1_0000_0000) as u32
    }
}

/// The 32-bit rolling hash of a name, over its ASCII-lowercased bytes, used
/// to look archives up by name.
pub fn get_name_hash(name: &str) -> (r: u32)
    ensures
        r == name_hash_of(name.spec_bytes()),
{
    let bytes = name.as_bytes();
    let ghost gb = bytes@;
    let n = bytes.len();
    let mut hash: u32 = 0;
    let mut i: usize = 0;
    proof {
        assert(gb.take(0) =~= Seq::<u8>::empty());
    }
    while i < n
        invariant
            i <= n,
            n == gb.len(),
            gb == bytes@,
            hash == name_hash_of(gb.take(i as int)),
        decreases n - i,
    {
        let mut b = bytes[i];
        if b >= 0x41 && b <= 0x5a {
            b = b + 0x20;
        }
        assert(b == ascii_lower_byte(gb[i as int]));
        let next = hash.wrapping_mul(31).wrapping_add(b as u32);
        proof {
            assert(next == (b + 31 * hash) % 0x1_0000_0000) by (nonlinear_arith)
                requires
                    next == ((31 * hash) % 0x1_0000_0000 + b) % 0x1_0000_0000,
                    0 <= hash < 0x1_0000_0000,
                    0 <= b < 0x100,
            ;
            assert(gb.take(i + 1).drop_last() =~= gb.take(i as int));
            assert(gb.take(i + 1).last() == gb[i as int]);
        }
        hash = next;
        i = i + 1;
    }
    proof {
        assert(gb.take(n as int) =~= gb);
    }
    hash
}

/// Something that can stand for an archive or file id: either a plain id, or
/// a name resolved through an index's name hashes.
pub trait ContainerIdProvider {
    /// The id this value names with no index at hand.
    spec fn spec_id_plain(&self) -> u32;

    /// The id this value names within `index`.
    spec fn spec_id_in(&self, index: &CacheIndex) -> u32;

    /// Resolves the id, against `idx` when one is given.
    fn get_id(&self, idx: Option<&CacheIndex>) -> (r: u32)
        requires
            match idx {
                Some(i) => i.container_info.containers@.len()
                    == i.container_info.container_indices@.len(),
                None => true,
            },
        ensures
            r == match idx {
                None => self.spec_id_plain(),
                Some(i) => self.spec_id_in(i),
            },
    ;
}

impl ContainerIdProvider for u32 {
    open spec fn spec_id_plain(&self) -> u32 {
        *self
    }

    open spec fn spec_id_in(&self, index: &CacheIndex) -> u32 {
        *self
    }

    fn get_id(&self, idx: Option<&CacheIndex>) -> u32 {
        *self
    }
}

impl ContainerIdProvider for String {
    open spec fn spec_id_plain(&self) -> u32 {
        name_hash_of(vstd::utf8::encode_utf8(self@))
    }

    open spec fn spec_id_in(&self, index: &CacheIndex) -> u32 {
        let h = name_hash_of(vstd::utf8::encode_utf8(self@));
        let p = spec_last_name_match(index.container_info.containers@, h);
        if p >= 0 {
            index.container_info.container_indices@[p]
        } else {
            h
        }
    }

    fn get_id(&self, idx: Option<&CacheIndex>) -> u32 {
        let hash = get_name_hash(self.as_str());
        match idx {
            Some(index) => index.get_container_by_name_hash(hash),
            None => hash,
        }
    }
}

/// Does `v` occur in `s`?
pub open spec fn spec_u32_has(s: Seq<u32>, v: u32) -> bool {
    exists|j: int| 0 <= j < s.len() && s[j] == v
}

/// The first position of `v` in `s` (meaningful when it occurs).
pub open spec fn spec_u32_pos(s: Seq<u32>, v: u32) -> int {
    choose|j: int| 0 <= j < s.len() && s[j] == v && (forall|l: int| 0 <= l < j ==> s[l] != v)
}

/// When `v` occurs, `spec_u32_pos` names its first occurrence.
pub proof fn lemma_u32_pos_props(s: Seq<u32>, v: u32)
    requires
        spec_u32_has(s, v),
    ensures
        0 <= spec_u32_pos(s, v) < s.len(),
        s[spec_u32_pos(s, v)] == v,
        forall|l: int| 0 <= l < spec_u32_pos(s, v) ==> s[l] != v,
{
    let j0 = choose|j: int| 0 <= j < s.len() && s[j] == v;
    lemma_u32_first_match(s, v, j0);
}

proof fn lemma_u32_first_match(s: Seq<u32>, v: u32, j: int)
    requires
        0 <= j < s.len(),
        s[j] == v,
    ensures
        0 <= spec_u32_pos(s, v) < s.len(),
        s[spec_u32_pos(s, v)] == v,
        forall|l: int| 0 <= l < spec_u32_pos(s, v) ==> s[l] != v,
    decreases j,
{
    if forall|l: int| 0 <= l < j ==> s[l] != v {
        assert(0 <= j < s.len() && s[j] == v && (forall|l: int| 0 <= l < j ==> s[l] != v));
    } else {
        let l0 = choose|l: int| 0 <= l < j && s[l] == v;
        lemma_u32_first_match(s, v, l0);
    }
}

/// The first position of `v` in the vector, scanning forward.
#[verifier::loop_isolation(false)]
fn u32_pos(s: &Vec<u32>, v: u32) -> (r: Option<usize>)
    ensures
        match r {
            Some(p) => {
                &&& spec_u32_has(s@, v)
                &&& p == spec_u32_pos(s@, v)
                &&& p < s@.len()
                &&& s@[p as int] == v
            },
            None => !spec_u32_has(s@, v),
        },
{
    let n = s.len();
    let mut i: usize = 0;
    while i < n
        invariant
            i <= n,
            forall|l: int| 0 <= l < i ==> s@[l] != v,
        decreases n - i,
    {
        if s[i] == v {
            proof {
                assert(s@[i as int] == v);
                assert(spec_u32_has(s@, v));
                lemma_u32_pos_props(s@, v);
                let p = spec_u32_pos(s@, v);
                if p < i {
                    assert(s@[p] != v);
                }
                if p > i {
                    assert(s@[i as int] != v);
                }
            }
            return Some(i);
        }
        i = i + 1;
    }
    None
}

/// An owned copy of a byte vector.
fn clone_bytes(v: &Vec<u8>) -> (r: Vec<u8>)
    ensures
        r@ == v@,
{
    let r = v.clone();
    proof {
        assert forall|i: int| 0 <= i < v@.len() implies r@[i] == v@[i] by {
            assert(cloned::<u8>(v@[i], r@[i]));
        }
        assert(r@ =~= v@);
    }
    r
}

/// An owned copy of an id vector.
fn clone_u32s(v: &Vec<u32>) -> (r: Vec<u32>)
    ensures
        r@ == v@,
{
    let r = v.clone();
    proof {
        assert forall|i: int| 0 <= i < v@.len() implies r@[i] == v@[i] by {
            assert(cloned::<u32>(v@[i], r@[i]));
        }
        assert(r@ =~= v@);
    }
    r
}

// The spec-level picture of a request.  Requests walk: index slot (by the
// low eight bits of the index id), archive slot (by archive id), file slot
// (by file id).

/// Is `archive` in the directory of index `index`?
pub open spec fn spec_archive_known(c: Cache, index: u32, archive: u32) -> bool {
    let id = (index % 256) as u8;
    &&& spec_has_index(c.indices@, id)
    &&& spec_u32_has(
        c.indices@[spec_index_pos(c.indices@, id)].container_info.container_indices@,
        archive,
    )
}

/// The bytes stored in the slot of file `fid`, if every lookup step lands.
pub open spec fn spec_slot_data(c: Cache, index: u32, archive: u32, fid: u32) -> Option<Seq<u8>> {
    let id = (index % 256) as u8;
    if !spec_has_index(c.indices@, id) {
        None
    } else {
        let ci = c.indices@[spec_index_pos(c.indices@, id)];
        if !spec_u32_has(ci.container_info.container_indices@, archive) {
            None
        } else {
            let a = ci.container_info.containers@[spec_u32_pos(
                ci.container_info.container_indices@,
                archive,
            )];
            if !spec_u32_has(a.file_indices@, fid) {
                None
            } else {
                Some(a.file_containers@[spec_u32_pos(a.file_indices@, fid)].data@)
            }
        }
    }
}

/// The decompressed container payload a load of `archive` works from: the
/// sector chain read through the index's record, then the decompressor; any
/// failure on the way yields no bytes and the load stops there.
pub open spec fn spec_request_payload(c: Cache, index: u32, archive: u32) -> Seq<u8> {
    let id = (index % 256) as u8;
    let ci = c.indices@[spec_index_pos(c.indices@, id)];
    match spec_container_data(
        ci.idx_data@,
        c.data_file@,
        ci.file_id,
        ci.max_container_size,
        archive,
    ) {
        Ok(p) => match spec_decompress(p) {
            Ok(d) => d,
            Err(_) => Seq::empty(),
        },
        Err(_) => Seq::empty(),
    }
}

/// Does the splitter accept this payload for `n` files?
pub open spec fn spec_split_ok(b: Seq<u8>, n: int) -> bool {
    n == 1 || split_wf(b, n)
}

/// What the splitter hands file `k` of `n`.
pub open spec fn spec_split_part(b: Seq<u8>, n: int, k: int) -> Seq<u8> {
    if n == 1 {
        b
    } else {
        split_file_out(b, n, k, split_num_chunks(b))
    }
}

/// One archive after a load from `payload`: metadata untouched; when the
/// payload is nonempty and the splitter accepts it, every file slot holds its
/// part, and otherwise no slot changes.
pub open spec fn spec_archive_after_load(a: IdxContainer, a2: IdxContainer, payload: Seq<u8>) -> bool {
    let n = a.file_indices@.len() as int;
    &&& a2.version == a.version
    &&& a2.crc == a.crc
    &&& a2.name_hash == a.name_hash
    &&& a2.file_indices@ == a.file_indices@
    &&& a2.file_containers@.len() == a.file_containers@.len()
    &&& (forall|k: int|
        0 <= k < a.file_containers@.len() ==> {
            &&& (#[trigger] a2.file_containers@[k]).version == a.file_containers@[k].version
            &&& a2.file_containers@[k].name_hash == a.file_containers@[k].name_hash
            &&& a2.file_containers@[k].crc == a.file_containers@[k].crc
        })
    &&& if payload.len() == 0 || !spec_split_ok(payload, n) {
        forall|k: int|
            0 <= k < a.file_containers@.len() ==> (#[trigger] a2.file_containers@[k]).data@
                == a.file_containers@[k].data@
    } else {
        forall|k: int|
            0 <= k < a.file_containers@.len() ==> (#[trigger] a2.file_containers@[k]).data@
                == spec_split_part(payload, n, k)
    }
}

/// One index after a load of `archive`: only the read-seek hint and the
/// loaded archive's file slots can differ.
pub open spec fn spec_index_after_load(
    ci: CacheIndex,
    ci2: CacheIndex,
    archive: u32,
    payload: Seq<u8>,
) -> bool {
    &&& ci2.file_id == ci.file_id
    &&& ci2.idx_data == ci.idx_data
    &&& ci2.max_container_size == ci.max_container_size
    &&& ci2.last_archive_id == archive
    &&& ci2.container_info.protocol == ci.container_info.protocol
    &&& ci2.container_info.revision == ci.container_info.revision
    &&& ci2.container_info.crc == ci.container_info.crc
    &&& ci2.container_info.named_files == ci.container_info.named_files
    &&& ci2.container_info.whirlpool == ci.container_info.whirlpool
    &&& ci2.container_info.container_indices@ == ci.container_info.container_indices@
    &&& ci2.container_info.containers@.len() == ci.container_info.containers@.len()
    &&& (forall|q: int|
        0 <= q < ci.container_info.containers@.len()
            && ci.container_info.container_indices@[q] != archive
            ==> #[trigger] ci2.container_info.containers@[q] == ci.container_info.containers@[q])
    &&& (forall|q: int|
        0 <= q < ci.container_info.containers@.len()
            && ci.container_info.container_indices@[q] == archive ==> spec_archive_after_load(
            ci.container_info.containers@[q],
            #[trigger] ci2.container_info.containers@[q],
            payload,
        ))
}

/// The cache after `load_requested_container_files` for `(index, archive)`.
pub open spec fn spec_load_post(c: Cache, c2: Cache, index: u32, archive: u32) -> bool {
    let id = (index % 256) as u8;
    let p = spec_index_pos(c.indices@, id);
    &&& c2.data_file == c.data_file
    &&& c2.indices@.len() == c.indices@.len()
    &&& (forall|j: int|
        0 <= j < c.indices@.len() && j != p ==> #[trigger] c2.indices@[j] == c.indices@[j])
    &&& spec_index_after_load(
        c.indices@[p],
        c2.indices@[p],
        archive,
        spec_request_payload(c, index, archive),
    )
}

/// What a whole `request` does: an unknown archive answers empty bytes at
/// once; a file already materialized with bytes is answered from memory with
/// nothing touched; otherwise the archive is loaded and whatever its slot
/// then holds is the answer.
pub open spec fn spec_request_post(
    c: Cache,
    c2: Cache,
    index: u32,
    archive: u32,
    fid: u32,
    r: Seq<u8>,
) -> bool {
    if !spec_archive_known(c, index, archive) {
        c2 == c && r == Seq::<u8>::empty()
    } else {
        let first = spec_slot_data(c, index, archive, fid);
        let hit = match first {
            Some(d) => d.len() > 0,
            None => false,
        };
        if hit {
            c2 == c && Some(r) == first
        } else {
            &&& spec_load_post(c, c2, index, archive)
            &&& r == match spec_slot_data(c2, index, archive, fid) {
                Some(d) => d,
                None => Seq::<u8>::empty(),
            }
        }
    }
}

/// Stores one split part into each file slot, in table order.
#[verifier::loop_isolation(false)]
fn store_file_data(arch: &mut IdxContainer, parts: Vec<Vec<u8>>)
    requires
        parts@.len() == old(arch).file_containers@.len(),
    ensures
        final(arch).version == old(arch).version,
        final(arch).crc == old(arch).crc,
        final(arch).name_hash == old(arch).name_hash,
        final(arch).file_indices@ == old(arch).file_indices@,
        final(arch).file_containers@.len() == old(arch).file_containers@.len(),
        forall|k: int|
            0 <= k < old(arch).file_containers@.len() ==> {
                &&& (#[trigger] final(arch).file_containers@[k]).version == old(
                    arch,
                ).file_containers@[k].version
                &&& final(arch).file_containers@[k].name_hash == old(
                    arch,
                ).file_containers@[k].name_hash
                &&& final(arch).file_containers@[k].crc == old(arch).file_containers@[k].crc
                &&& final(arch).file_containers@[k].data@ == parts@[k]@
            },
{
    let ghost gparts = parts@;
    let mut parts = parts;
    let n = arch.file_containers.len();
    let mut k: usize = n;
    proof {
        assert(gparts.take(n as int) =~= gparts);
    }
    while k > 0
        invariant
            k <= n,
            arch.file_containers@.len() == n,
            parts@ == gparts.take(k as int),
            gparts.len() == n,
            arch.version == old(arch).version,
            arch.crc == old(arch).crc,
            arch.name_hash == old(arch).name_hash,
            arch.file_indices@ == old(arch).file_indices@,
            forall|j: int|
                0 <= j < k ==> #[trigger] arch.file_containers@[j] == old(
                    arch,
                ).file_containers@[j],
            forall|j: int|
                k <= j < n ==> {
                    &&& (#[trigger] arch.file_containers@[j]).version == old(
                        arch,
                    ).file_containers@[j].version
                    &&& arch.file_containers@[j].name_hash == old(
                        arch,
                    ).file_containers@[j].name_hash
                    &&& arch.file_containers@[j].crc == old(arch).file_containers@[j].crc
                    &&& arch.file_containers@[j].data@ == gparts[j]@
                },
        decreases k,
    {
        let part = match parts.pop() {
            Some(p) => p,
            None => {
                proof {
                    assert(false);
                }
                Vec::new()
            },
        };
        proof {
            assert(parts@ =~= gparts.take(k - 1));
            assert(part == gparts[k - 1]);
        }
        let slot = &mut arch.file_containers[k - 1];
        slot.data = part;
        k = k - 1;
    }
}

/// The primary way to read raw file bytes out of a cache: select an index
/// and an archive, then request files.  The provider holds the selection and
/// the (unused) encryption key slot; the cache is a parameter of each call.
pub struct FileProvider {
    pub index: u32,
    pub archive: u32,
    pub keys: Vec<i64>,
}

impl FileProvider {
    /// A fresh provider with nothing selected.
    pub fn from(_cache: &Cache) -> (r: FileProvider)
        ensures
            r.index == 0,
            r.archive == 0,
            r.keys@ == Seq::<i64>::empty(),
    {
        FileProvider { index: 0, archive: 0, keys: Vec::new() }
    }

    /// Selects the index the next requests read from.
    pub fn index(&mut self, index: u32) -> (r: &mut FileProvider)
        ensures
            *r == (FileProvider { index, archive: old(self).archive, keys: old(self).keys }),
            *final(self) == *final(r),
    {
        self.index = index;
        self
    }

    /// Selects the archive, resolving a name through the selected index's
    /// name hashes.
    pub fn archive<P: ContainerIdProvider>(&mut self, cache: &Cache, archive: &P) -> (r: &mut
        FileProvider)
        requires
            cache.wf(),
            spec_has_index(cache.indices@, (old(self).index % 256) as u8),
        ensures
            *r == (FileProvider {
                index: old(self).index,
                archive: archive.spec_id_in(
                    &cache.indices@[spec_index_pos(
                        cache.indices@,
                        (old(self).index % 256) as u8,
                    )],
                ),
                keys: old(self).keys,
            }),
            *final(self) == *final(r),
    {
        let pos = match cache.index_pos(self.index as usize) {
            Some(p) => p,
            None => {
                proof {
                    assert((self.index as usize % 256) as u8 == (self.index % 256) as u8);
                    assert(false);
                }
                0
            },
        };
        proof {
            assert((self.index as usize % 256) as u8 == (self.index % 256) as u8);
        }
        self.archive = archive.get_id(Some(&cache.indices[pos]));
        self
    }

    /// Stores the encryption keys for later requests.  The format reserves
    /// this slot; nothing in the read path uses it.
    pub fn with_keys(&mut self, keys: Vec<i64>)
        ensures
            final(self).index == old(self).index,
            final(self).archive == old(self).archive,
            final(self).keys == keys,
    {
        self.keys = keys
    }

    /// The selected archive's compressed container, decompressed; any
    /// failure along the way yields no bytes.  Updates the index's read-seek
    /// hint either way.
    fn get_requested_container_data(&self, cache: &mut Cache) -> (r: Vec<u8>)
        requires
            spec_has_index(old(cache).indices@, (self.index % 256) as u8),
        ensures
            r@ == spec_request_payload(*old(cache), self.index, self.archive),
            final(cache).data_file == old(cache).data_file,
            final(cache).indices@.len() == old(cache).indices@.len(),
            ({
                let p = spec_index_pos(old(cache).indices@, (self.index % 256) as u8);
                let before = old(cache).indices@;
                let after = final(cache).indices@;
                &&& (forall|j: int|
                    0 <= j < before.len() && j != p ==> #[trigger] after[j] == before[j])
                &&& after[p].file_id == before[p].file_id
                &&& after[p].idx_data == before[p].idx_data
                &&& after[p].max_container_size == before[p].max_container_size
                &&& after[p].container_info == before[p].container_info
                &&& after[p].last_archive_id == self.archive
            }),
    {
        proof {
            assert((self.index as usize % 256) as u8 == (self.index % 256) as u8);
        }
        let pos = match cache.index_pos(self.index as usize) {
            Some(p) => p,
            None => {
                proof {
                    assert(false);
                }
                0
            },
        };
        let result = cache.indices[pos].container_data(&cache.data_file, self.archive);
        match result {
            Ok(n) => match crate::codec::decompress_container_data(n) {
                Ok(d) => d,
                Err(_) => Vec::new(),
            },
            Err(_) => Vec::new(),
        }
    }

    /// The selected archive's file-id table, or nothing when the directory
    /// does not know the archive.
    fn get_container_file_info(&self, cache: &Cache) -> (r: Vec<u32>)
        requires
            cache.wf(),
            spec_has_index(cache.indices@, (self.index % 256) as u8),
        ensures
            ({
                let id = (self.index % 256) as u8;
                let ci = cache.indices@[spec_index_pos(cache.indices@, id)];
                if spec_u32_has(ci.container_info.container_indices@, self.archive) {
                    r@ == ci.container_info.containers@[spec_u32_pos(
                        ci.container_info.container_indices@,
                        self.archive,
                    )].file_indices@
                } else {
                    r@ == Seq::<u32>::empty()
                }
            }),
    {
        proof {
            assert((self.index as usize % 256) as u8 == (self.index % 256) as u8);
        }
        let pos = match cache.index_pos(self.index as usize) {
            Some(p) => p,
            None => {
                proof {
                    assert(false);
                }
                0
            },
        };
        let index = &cache.indices[pos];
        match u32_pos(&index.container_info.container_indices, self.archive) {
            Some(q) => clone_u32s(&index.container_info.containers[q].file_indices),
            None => Vec::new(),
        }
    }

    /// Fetches, decompresses and splits the selected archive, materializing
    /// every file slot of it; a payload that cannot be had or split leaves
    /// the slots as they were.
    fn load_requested_container_files(&self, cache: &mut Cache)
        requires
            old(cache).wf(),
            spec_has_index(old(cache).indices@, (self.index % 256) as u8),
        ensures
            final(cache).wf(),
            spec_load_post(*old(cache), *final(cache), self.index, self.archive),
    {
        let ghost c0 = *cache;
        let container_data = self.get_requested_container_data(cache);
        let file_info = self.get_container_file_info(cache);

        if container_data.len() == 0 {
            proof {
                lemma_load_wf_preserved(c0, *cache, self.index, self.archive);
            }
            return ;
        }
        let n = file_info.len();
        let parts = match split_archive(&container_data, n) {
            Some(p) => p,
            None => {
                proof {
                    lemma_load_wf_preserved(c0, *cache, self.index, self.archive);
                }
                return ;
            },
        };
        proof {
            assert((self.index as usize % 256) as u8 == (self.index % 256) as u8);
        }
        let pos = match cache.index_pos(self.index as usize) {
            Some(p) => p,
            None => {
                proof {
                    assert(false);
                }
                0
            },
        };
        let q = match u32_pos(
            &cache.indices[pos].container_info.container_indices,
            self.archive,
        ) {
            Some(q) => q,
            None => {
                proof {
                    lemma_load_wf_preserved(c0, *cache, self.index, self.archive);
                }
                return ;
            },
        };
        let idx_ref = &mut cache.indices[pos];
        let arch_ref = &mut idx_ref.container_info.containers[q];
        store_file_data(arch_ref, parts);
        proof {
            lemma_load_wf_preserved(c0, *cache, self.index, self.archive);
        }
    }

    /// The raw bytes of one file: from its slot when already materialized,
    /// otherwise by loading its whole archive first.  An archive the
    /// directory does not know yields empty bytes at once; so does a file id
    /// the archive does not list.
    pub fn request<P: ContainerIdProvider>(&mut self, cache: &mut Cache, file: &P) -> (r: Vec<u8>)
        requires
            old(cache).wf(),
            spec_has_index(old(cache).indices@, (old(self).index % 256) as u8),
        ensures
            *final(self) == *old(self),
            final(cache).wf(),
            spec_request_post(
                *old(cache),
                *final(cache),
                old(self).index,
                old(self).archive,
                file.spec_id_plain(),
                r@,
            ),
    {
        let file_id = file.get_id(None);
        proof {
            assert((self.index as usize % 256) as u8 == (self.index % 256) as u8);
        }
        let pos = match cache.index_pos(self.index as usize) {
            Some(p) => p,
            None => {
                proof {
                    assert(false);
                }
                0
            },
        };
        let q = match u32_pos(
            &cache.indices[pos].container_info.container_indices,
            self.archive,
        ) {
            Some(q) => q,
            None => { return Vec::new() },
        };
        match u32_pos(&cache.indices[pos].container_info.containers[q].file_indices, file_id) {
            Some(f) => {
                let d = &cache.indices[pos].container_info.containers[q].file_containers[f].data;
                if d.len() > 0 {
                    return clone_bytes(d);
                }
            },
            None => {},
        }

        self.load_requested_container_files(cache);

        let pos2 = match cache.index_pos(self.index as usize) {
            Some(p) => p,
            None => {
                proof {
                    assert(false);
                }
                0
            },
        };
        let q2 = match u32_pos(
            &cache.indices[pos2].container_info.container_indices,
            self.archive,
        ) {
            Some(q) => q,
            None => { return Vec::new() },
        };
        match u32_pos(&cache.indices[pos2].container_info.containers[q2].file_indices, file_id) {
            Some(f) => clone_bytes(
                &cache.indices[pos2].container_info.containers[q2].file_containers[f].data,
            ),
            None => Vec::new(),
        }
    }
}

/// A definition decoder: turns one file's raw bytes into a parsed value.
/// Implementations live with the caller; the cache never inspects them.
pub trait DefParser {
    /// Parses a definition out of raw file bytes.
    fn parse_bytes(bytes: Vec<u8>) -> Self where Self: Sized {
        Self::parse_buff(Cursor::with_vec(bytes))
    }

    /// Parses a definition from a cursor over the file bytes.
    fn parse_buff(buffer: Cursor) -> Self where Self: Sized;
}

/// Does a definition for `id` sit in the memo table?
pub open spec fn spec_def_has<T>(s: Seq<(u32, T)>, id: u32) -> bool {
    exists|j: int| 0 <= j < s.len() && s[j].0 == id
}

/// The first memo slot for `id` (meaningful when one exists).
pub open spec fn spec_def_pos<T>(s: Seq<(u32, T)>, id: u32) -> int {
    choose|j: int| 0 <= j < s.len() && s[j].0 == id && (forall|l: int| 0 <= l < j ==> s[l].0 != id)
}

/// When a memo slot for `id` exists, `spec_def_pos` names the first one.
pub proof fn lemma_def_pos_props<T>(s: Seq<(u32, T)>, id: u32)
    requires
        spec_def_has(s, id),
    ensures
        0 <= spec_def_pos(s, id) < s.len(),
        s[spec_def_pos(s, id)].0 == id,
        forall|l: int| 0 <= l < spec_def_pos(s, id) ==> s[l].0 != id,
{
    let j0 = choose|j: int| 0 <= j < s.len() && s[j].0 == id;
    lemma_def_first_match(s, id, j0);
}

proof fn lemma_def_first_match<T>(s: Seq<(u32, T)>, id: u32, j: int)
    requires
        0 <= j < s.len(),
        s[j].0 == id,
    ensures
        0 <= spec_def_pos(s, id) < s.len(),
        s[spec_def_pos(s, id)].0 == id,
        forall|l: int| 0 <= l < spec_def_pos(s, id) ==> s[l].0 != id,
    decreases j,
{
    if forall|l: int| 0 <= l < j ==> s[l].0 != id {
        assert(0 <= j < s.len() && s[j].0 == id && (forall|l: int| 0 <= l < j ==> s[l].0 != id));
    } else {
        let l0 = choose|l: int| 0 <= l < j && s[l].0 == id;
        lemma_def_first_match(s, id, l0);
    }
}

/// The memoizing definition provider: parses a file's bytes through the
/// caller's `DefParser` once per id and hands the parsed value back from its
/// memo table afterwards.
pub struct DefProvider<T> {
    pub file_provider: FileProvider,
    pub index: u32,
    pub def_cache: Vec<(u32, T)>,
}

impl<T: DefParser> DefProvider<T> {
    /// A provider over one index, with an empty memo table.
    pub fn with(cache: &Cache, index: u32) -> (r: DefProvider<T>)
        ensures
            r.index == index,
            r.file_provider.index == 0,
            r.file_provider.archive == 0,
            r.def_cache@ == Seq::<(u32, T)>::empty(),
    {
        DefProvider { file_provider: FileProvider::from(cache), index, def_cache: Vec::new() }
    }

    /// The parsed definition of `(archive, file)`, memoized under `id`: a
    /// known id is answered from the memo table with nothing touched; a new
    /// one is requested through the cache, parsed, and remembered.
    #[verifier::loop_isolation(false)]
    pub fn get_def<P: ContainerIdProvider, Q: ContainerIdProvider>(
        &mut self,
        cache: &mut Cache,
        archive: &P,
        file: &Q,
        id: u32,
    ) -> (r: &T)
        requires
            old(cache).wf(),
            spec_has_index(old(cache).indices@, (old(self).index % 256) as u8),
        ensures
            final(self).index == old(self).index,
            final(cache).wf(),
            spec_def_has(old(self).def_cache@, id) ==> {
                &&& *final(self) == *old(self)
                &&& *final(cache) == *old(cache)
                &&& *r == old(self).def_cache@[spec_def_pos(old(self).def_cache@, id)].1
            },
            !spec_def_has(old(self).def_cache@, id) ==> {
                &&& final(self).def_cache@ == old(self).def_cache@.push((id, *r))
                &&& spec_def_has(final(self).def_cache@, id)
            },
    {
        let n = self.def_cache.len();
        let mut i: usize = 0;
        while i < n
            invariant
                i <= n,
                n == self.def_cache@.len(),
                *self == *old(self),
                *cache == *old(cache),
                forall|l: int| 0 <= l < i ==> self.def_cache@[l].0 != id,
            decreases n - i,
        {
            if self.def_cache[i].0 == id {
                proof {
                    assert(self.def_cache@[i as int].0 == id);
                    assert(spec_def_has(self.def_cache@, id));
                    lemma_def_pos_props(self.def_cache@, id);
                    let p = spec_def_pos(self.def_cache@, id);
                    if p < i {
                        assert(self.def_cache@[p].0 != id);
                    }
                    if p > i {
                        assert(self.def_cache@[i as int].0 != id);
                    }
                }
                return &self.def_cache[i].1;
            }
            i = i + 1;
        }
        proof {
            if spec_def_has(self.def_cache@, id) {
                let j = choose|j: int| 0 <= j < self.def_cache@.len() && self.def_cache@[j].0 == id;
                assert(self.def_cache@[j].0 != id);
            }
        }

        self.file_provider.index(self.index);
        self.file_provider.archive(cache, archive);
        let data = self.file_provider.request(cache, file);

        let def = T::parse_bytes(data);
        self.def_cache.push((id, def));
        let m = self.def_cache.len();
        &self.def_cache[m - 1].1
    }
}

/// First-match index positions depend only on the ids, so a state change
/// that keeps every index's id keeps the positions.
proof fn lemma_index_pos_stable(s1: Seq<CacheIndex>, s2: Seq<CacheIndex>, id: u8)
    requires
        s1.len() == s2.len(),
        forall|j: int| 0 <= j < s1.len() ==> #[trigger] s2[j].file_id == s1[j].file_id,
        spec_has_index(s1, id),
    ensures
        spec_has_index(s2, id),
        spec_index_pos(s2, id) == spec_index_pos(s1, id),
{
    lemma_index_pos_props(s1, id);
    let p = spec_index_pos(s1, id);
    assert(s2[p].file_id == id);
    assert(spec_has_index(s2, id));
    lemma_index_pos_props(s2, id);
    let p2 = spec_index_pos(s2, id);
    if p2 < p {
        assert(s1[p2].file_id != id);
        assert(s2[p2].file_id == s1[p2].file_id);
    }
    if p2 > p {
        assert(s2[p].file_id != id);
    }
}

/// Requesting the same file twice yields byte-equal payloads; and when the
/// first request came back with bytes, the second is answered from the
/// file's slot and leaves the cache exactly as it was, with no further walk
/// of the data file.
pub proof fn lemma_request_idempotent(
    c0: Cache,
    c1: Cache,
    c2: Cache,
    index: u32,
    archive: u32,
    fid: u32,
    r1: Seq<u8>,
    r2: Seq<u8>,
)
    requires
        c0.wf(),
        spec_has_index(c0.indices@, (index % 256) as u8),
        spec_request_post(c0, c1, index, archive, fid, r1),
        spec_request_post(c1, c2, index, archive, fid, r2),
    ensures
        r2 == r1,
        r1.len() > 0 ==> c2 == c1,
{
    let id = (index % 256) as u8;
    if !spec_archive_known(c0, index, archive) {
        // nothing is known of the archive: both calls answer empty at once
        assert(c1 == c0 && r1 == Seq::<u8>::empty());
        assert(r2 == Seq::<u8>::empty());
    } else {
        let first = spec_slot_data(c0, index, archive, fid);
        let hit1 = match first {
            Some(d) => d.len() > 0,
            None => false,
        };
        if hit1 {
            assert(c1 == c0 && Some(r1) == first);
            assert(r2 == r1 && c2 == c1);
        } else {
            // the first call loaded; positions and id tables are unchanged
            assert(spec_load_post(c0, c1, index, archive));
            let p = spec_index_pos(c0.indices@, id);
            lemma_index_pos_props(c0.indices@, id);
            lemma_index_pos_stable(c0.indices@, c1.indices@, id);
            assert(spec_index_pos(c1.indices@, id) == p);
            let ci0 = c0.indices@[p];
            let ci1 = c1.indices@[p];
            assert(ci1.container_info.container_indices@
                == ci0.container_info.container_indices@);
            assert(spec_archive_known(c1, index, archive));
            let payload = spec_request_payload(c0, index, archive);
            assert(spec_request_payload(c1, index, archive) == payload);

            let q = spec_u32_pos(ci0.container_info.container_indices@, archive);
            lemma_u32_pos_props(ci0.container_info.container_indices@, archive);
            let a0 = ci0.container_info.containers@[q];
            let a1 = ci1.container_info.containers@[q];
            assert(spec_archive_after_load(a0, a1, payload));
            let second = spec_slot_data(c1, index, archive, fid);
            assert(r1 == match second {
                Some(d) => d,
                None => Seq::<u8>::empty(),
            });
            let hit2 = match second {
                Some(d) => d.len() > 0,
                None => false,
            };
            if hit2 {
                assert(c2 == c1 && Some(r2) == second);
                assert(r2 == r1);
            } else {
                // the second call loads again, from the same bytes, and
                // computes the same slots
                assert(spec_load_post(c1, c2, index, archive));
                lemma_index_pos_stable(c1.indices@, c2.indices@, id);
                let ci2 = c2.indices@[p];
                let a2 = ci2.container_info.containers@[q];
                assert(spec_archive_after_load(a1, a2, payload));
                assert(a1.file_indices@ == a0.file_indices@);
                if spec_u32_has(a0.file_indices@, fid) {
                    let f = spec_u32_pos(a0.file_indices@, fid);
                    lemma_u32_pos_props(a0.file_indices@, fid);
                    assert(a2.file_containers@[f].data@ == a1.file_containers@[f].data@);
                    assert(r2 == r1);
                } else {
                    assert(second is None);
                    assert(spec_slot_data(c2, index, archive, fid) is None);
                    assert(r2 == r1);
                }
            }
        }
    }
}

/// A load keeps the cache well formed: it neither renumbers indices nor
/// touches any id table.
proof fn lemma_load_wf_preserved(c: Cache, c2: Cache, index: u32, archive: u32)
    requires
        c.wf(),
        spec_has_index(c.indices@, (index % 256) as u8),
        spec_load_post(c, c2, index, archive),
    ensures
        c2.wf(),
{
    let id = (index % 256) as u8;
    let p = spec_index_pos(c.indices@, id);
    lemma_index_pos_props(c.indices@, id);
    assert forall|j1: int, j2: int|
        0 <= j1 < j2 < c2.indices@.len() implies c2.indices@[j1].file_id
        != c2.indices@[j2].file_id by {
        assert(c2.indices@[j1].file_id == c.indices@[j1].file_id);
        assert(c2.indices@[j2].file_id == c.indices@[j2].file_id);
    }
    assert forall|j: int| 0 <= j < c2.indices@.len() implies (#[trigger] c2.indices@[j])
        .container_info.wf() by {
        assert(c.indices@[j].container_info.wf());
        if j == p {
            let ci = c.indices@[p];
            let ci2 = c2.indices@[p];
            assert(ci2.container_info.containers@.len()
                == ci2.container_info.container_indices@.len());
            assert forall|q: int|
                0 <= q < ci2.container_info.containers@.len() implies (#[trigger] ci2
                .container_info.containers@[q]).wf() by {
                assert(ci.container_info.containers@[q].wf());
                if ci.container_info.container_indices@[q] == archive {
                    assert(spec_archive_after_load(
                        ci.container_info.containers@[q],
                        ci2.container_info.containers@[q],
                        spec_request_payload(c, index, archive),
                    ));
                } else {
                    assert(ci2.container_info.containers@[q]
                        == ci.container_info.containers@[q]);
                }
            }
        } else {
            assert(c2.indices@[j] == c.indices@[j]);
        }
    }
}

} // verus!
