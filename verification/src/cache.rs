//! The cache itself: one byte image of the shared `.dat2` sector pool plus
//! one `CacheIndex` per `.idx{N}` table the caller could read.  The special
//! index 255 is the directory of directories: its records locate, inside the
//! data file, the compressed directory of every other index.

use vstd::prelude::*;

use crate::directory::{spec_empty_info, spec_info_from, IdxContainerInfo};
use crate::errors::CacheError;
use crate::sector::{collect_chain, rec_first_sector, rec_size, record_at, spec_chain};

verus! {

/// The container cap for the directory-of-directories index.
pub const INFO_MAX_CONTAINER_SIZE: u32 = 500_000;

/// The container cap for every ordinary index.
pub const IDX_MAX_CONTAINER_SIZE: u32 = 1_000_000;

/// One `.idx{N}` table: its id, its raw record bytes, its container cap, its
/// decoded directory, and the id of the archive last read through it.
pub struct CacheIndex {
    pub file_id: u8,
    pub idx_data: Vec<u8>,
    pub max_container_size: u32,
    pub container_info: IdxContainerInfo,
    pub last_archive_id: u32,
}

/// What reading archive `archive_id` of an index yields: its record gives
/// size and first sector; the size is checked against the cap, an archive
/// with no first sector is empty, and otherwise the sector chain decides.
pub open spec fn spec_container_data(
    idx: Seq<u8>,
    dat: Seq<u8>,
    file_id: u8,
    max_size: u32,
    archive_id: u32,
) -> Result<Seq<u8>, CacheError> {
    let size = rec_size(idx, archive_id as int);
    let first = rec_first_sector(idx, archive_id as int);
    if size > max_size {
        Err(CacheError::OversizeContainer)
    } else if first <= 0 {
        Err(CacheError::EmptyArchive)
    } else {
        spec_chain(dat, archive_id, file_id, first, 0, size)
    }
}

/// The position of the last archive slot whose name hash is `hash`, or -1.
pub open spec fn spec_last_name_match(
    cs: Seq<crate::directory::IdxContainer>,
    hash: u32,
) -> int
    decreases cs.len(),
{
    if cs.len() == 0 {
        -1
    } else if cs[cs.len() - 1].name_hash == hash {
        cs.len() - 1
    } else {
        spec_last_name_match(cs.drop_last(), hash)
    }
}

impl CacheIndex {
    fn from(file_id: u8, max_size: u32, idx_data: Vec<u8>, container_info: IdxContainerInfo) -> (r:
        CacheIndex)
        ensures
            r.file_id == file_id,
            r.max_container_size == max_size,
            r.idx_data == idx_data,
            r.container_info == container_info,
            r.last_archive_id == 0,
    {
        CacheIndex { file_id, max_container_size: max_size, idx_data, container_info, last_archive_id: 0 }
    }

    /// The archive id whose name hash is `hash`: the last matching archive in
    /// id order, or the hash itself when nothing matches.
    pub fn get_container_by_name_hash(&self, hash: u32) -> (r: u32)
        requires
            self.container_info.containers@.len() == self.container_info.container_indices@.len(),
        ensures
            ({
                let p = spec_last_name_match(self.container_info.containers@, hash);
                if p >= 0 {
                    r == self.container_info.container_indices@[p]
                } else {
                    r == hash
                }
            }),
    {
        let ghost cs = self.container_info.containers@;
        let n = self.container_info.containers.len();
        proof {
            assert(cs.take(n as int) =~= cs);
        }
        let mut i: usize = n;
        while i > 0
            invariant
                i <= n,
                n == cs.len(),
                n == self.container_info.container_indices@.len(),
                cs == self.container_info.containers@,
                spec_last_name_match(cs, hash) == spec_last_name_match(cs.take(i as int), hash),
            decreases i,
        {
            if self.container_info.containers[i - 1].name_hash == hash {
                proof {
                    assert(cs.take(i as int).len() == i);
                    assert(cs.take(i as int)[i - 1] == cs[i - 1]);
                    assert(spec_last_name_match(cs.take(i as int), hash) == i - 1);
                }
                return self.container_info.container_indices[i - 1];
            }
            proof {
                assert(cs.take(i as int)[i - 1] == cs[i - 1]);
                assert(cs.take(i as int).drop_last() =~= cs.take(i - 1));
            }
            i = i - 1;
        }
        proof {
            assert(cs.take(0) =~= Seq::empty());
        }
        hash
    }

    /// Walks the sector chain of `archive_id` through the shared data file
    /// and returns the concatenated compressed container bytes; the bytes
    /// returned are exactly as many as the index record declares.
    pub fn container_data(&mut self, data_file: &Vec<u8>, archive_id: u32) -> (r: Result<
        Vec<u8>,
        CacheError,
    >)
        ensures
            final(self).file_id == old(self).file_id,
            final(self).idx_data == old(self).idx_data,
            final(self).max_container_size == old(self).max_container_size,
            final(self).container_info == old(self).container_info,
            final(self).last_archive_id == archive_id,
            match r {
                Ok(v) => spec_container_data(
                    old(self).idx_data@,
                    data_file@,
                    old(self).file_id,
                    old(self).max_container_size,
                    archive_id,
                ) == Ok::<Seq<u8>, CacheError>(v@) && v@.len() == rec_size(
                    old(self).idx_data@,
                    archive_id as int,
                ),
                Err(e) => spec_container_data(
                    old(self).idx_data@,
                    data_file@,
                    old(self).file_id,
                    old(self).max_container_size,
                    archive_id,
                ) == Err::<Seq<u8>, CacheError>(e),
            },
    {
        let record = record_at(&self.idx_data, archive_id);
        self.last_archive_id = archive_id;

        if record.size > self.max_container_size {
            return Err(CacheError::OversizeContainer);
        }
        if record.first_sector == 0 {
            return Err(CacheError::EmptyArchive);
        }
        collect_chain(data_file, archive_id, self.file_id, record.first_sector, record.size)
    }

    /// How many files the index holds, by the directory convention: every
    /// archive but the last counts as 256 files, the last counts its own.
    pub fn get_total_files(&mut self) -> (r: u32)
        requires
            old(self).container_info.container_indices@.len() > 0,
            old(self).container_info.container_indices@.len()
                == old(self).container_info.containers@.len(),
            old(self).container_info.container_indices@.len() <= 0xffff,
            old(self).container_info.containers@.last().file_indices@.len() <= 0xffff,
        ensures
            *final(self) == *old(self),
            r == 256 * (old(self).container_info.container_indices@.len() - 1) + old(
                self,
            ).container_info.containers@.last().file_indices@.len(),
    {
        let num_archives = self.container_info.container_indices.len();
        let last_archive = &self.container_info.containers[num_archives - 1];
        let last_archive_file_amount = last_archive.file_indices.len() as u32;
        let other_file_amounts = (num_archives as u32 - 1) * 256;
        last_archive_file_amount + other_file_amounts
    }
}

/// Is some index of the cache filed under `id`?
pub open spec fn spec_has_index(s: Seq<CacheIndex>, id: u8) -> bool {
    exists|j: int| 0 <= j < s.len() && s[j].file_id == id
}

/// The first position filed under `id` (meaningful when one exists).
pub open spec fn spec_index_pos(s: Seq<CacheIndex>, id: u8) -> int {
    choose|j: int|
        0 <= j < s.len() && s[j].file_id == id && (forall|l: int|
            0 <= l < j ==> s[l].file_id != id)
}

/// A cache whose index ids are unique: looking one up is unambiguous.
pub open spec fn spec_indices_unique(s: Seq<CacheIndex>) -> bool {
    forall|j1: int, j2: int|
        0 <= j1 < j2 < s.len() ==> s[j1].file_id != s[j2].file_id
}

/// When an index with `id` exists, `spec_index_pos` names a real slot: in
/// bounds, filed under `id`, and the first such.
pub proof fn lemma_index_pos_props(s: Seq<CacheIndex>, id: u8)
    requires
        spec_has_index(s, id),
    ensures
        0 <= spec_index_pos(s, id) < s.len(),
        s[spec_index_pos(s, id)].file_id == id,
        forall|l: int| 0 <= l < spec_index_pos(s, id) ==> s[l].file_id != id,
{
    let j0 = choose|j: int| 0 <= j < s.len() && s[j].file_id == id;
    lemma_first_match_exists(s, id, j0);
}

proof fn lemma_first_match_exists(s: Seq<CacheIndex>, id: u8, j: int)
    requires
        0 <= j < s.len(),
        s[j].file_id == id,
    ensures
        0 <= spec_index_pos(s, id) < s.len(),
        s[spec_index_pos(s, id)].file_id == id,
        forall|l: int| 0 <= l < spec_index_pos(s, id) ==> s[l].file_id != id,
    decreases j,
{
    if forall|l: int| 0 <= l < j ==> s[l].file_id != id {
        assert(0 <= j < s.len() && s[j].file_id == id && (forall|l: int|
            0 <= l < j ==> s[l].file_id != id));
    } else {
        let l0 = choose|l: int| 0 <= l < j && s[l].file_id == id;
        lemma_first_match_exists(s, id, l0);
    }
}

/// The process-level cache: the shared data file image and every index.
pub struct Cache {
    pub data_file: Vec<u8>,
    pub indices: Vec<CacheIndex>,
}

/// The directory payload of index `i`: what the idx255 records locate in the
/// shared data file, or nothing when that read fails.
pub open spec fn spec_index_payload(idx255: Seq<u8>, dat: Seq<u8>, i: u32) -> Seq<u8> {
    match spec_container_data(idx255, dat, 255, INFO_MAX_CONTAINER_SIZE, i) {
        Ok(p) => p,
        Err(_) => Seq::empty(),
    }
}

/// What one cache slot holds, given the bytes the cache was opened from:
/// slot 255 keeps the idx255 table itself with an empty directory; every
/// other slot keeps its own table bytes and the directory decoded from its
/// idx255-located payload.
pub open spec fn spec_index_entry_ok(
    ci: CacheIndex,
    idx255: Seq<u8>,
    dat: Seq<u8>,
    files: Seq<Option<Vec<u8>>>,
    gencrc: bool,
) -> bool {
    if ci.file_id == 255 {
        &&& ci.max_container_size == INFO_MAX_CONTAINER_SIZE
        &&& ci.idx_data@ == idx255
        &&& spec_empty_info(ci.container_info)
    } else {
        &&& (ci.file_id as int) < files.len()
        &&& files[ci.file_id as int] is Some
        &&& ci.idx_data@ == files[ci.file_id as int].unwrap()@
        &&& ci.max_container_size == IDX_MAX_CONTAINER_SIZE
        &&& ci.last_archive_id == 0
        &&& spec_info_from(
            spec_index_payload(idx255, dat, ci.file_id as u32),
            gencrc,
            ci.container_info,
        )
    }
}

/// Files `index` under its id: replaces the slot already filed under that id,
/// or appends a new one.
#[verifier::loop_isolation(false)]
fn insert_index(indices: &mut Vec<CacheIndex>, index: CacheIndex)
    requires
        spec_indices_unique(old(indices)@),
    ensures
        spec_indices_unique(final(indices)@),
        if spec_has_index(old(indices)@, index.file_id) {
            final(indices)@ == old(indices)@.update(
                spec_index_pos(old(indices)@, index.file_id),
                index,
            )
        } else {
            final(indices)@ == old(indices)@.push(index)
        },
{
    let ghost orig = indices@;
    let ghost gindex = index;
    let id = index.file_id;
    let n = indices.len();
    let mut i: usize = 0;
    while i < n
        invariant
            i <= n,
            indices@ == orig,
            forall|l: int| 0 <= l < i ==> indices@[l].file_id != id,
        decreases n - i,
    {
        if indices[i].file_id == id {
            proof {
                assert(orig[i as int].file_id == id);
                assert(spec_has_index(orig, id));
                lemma_index_pos_props(orig, id);
                let p = spec_index_pos(orig, id);
                if p < i {
                    assert(orig[p].file_id != id);
                }
                if p > i {
                    assert(orig[i as int].file_id != id);
                }
                assert(p == i);
            }
            indices.remove(i);
            indices.insert(i, index);
            proof {
                assert(indices@ =~= orig.update(i as int, gindex));
                assert forall|j1: int, j2: int|
                    0 <= j1 < j2 < indices@.len() implies indices@[j1].file_id
                    != indices@[j2].file_id by {
                    if j1 == i {
                        assert(indices@[j2] == orig[j2]);
                        assert(orig[j2].file_id != orig[i as int].file_id);
                    } else if j2 == i {
                        assert(indices@[j1] == orig[j1]);
                        assert(orig[j1].file_id != orig[i as int].file_id);
                    } else {
                        assert(indices@[j1] == orig[j1] && indices@[j2] == orig[j2]);
                    }
                }
            }
            return ;
        }
        i = i + 1;
    }
    proof {
        if spec_has_index(orig, id) {
            let j = choose|j: int| 0 <= j < orig.len() && orig[j].file_id == id;
            assert(orig[j].file_id != id);
        }
    }
    indices.push(index);
    proof {
        assert forall|j1: int, j2: int|
            0 <= j1 < j2 < indices@.len() implies indices@[j1].file_id != indices@[j2].file_id by {
            if j2 == orig.len() {
                assert(indices@[j1] == orig[j1]);
                assert(orig[j1].file_id != id);
            } else {
                assert(indices@[j1] == orig[j1] && indices@[j2] == orig[j2]);
            }
        }
    }
}

impl Cache {
    /// Builds a cache from the raw bytes of its files: the `.idx255` table,
    /// the shared `.dat2` pool, and one entry per candidate `.idx{i}` table
    /// (`None` where that file could not be read, which only skips the
    /// index).  The idx255 length names the candidates: one per six-byte
    /// record.  Each present index gets the directory decoded from its
    /// idx255-located, decompressed payload; a payload that cannot be read
    /// or decoded leaves that index with an empty directory.
    #[verifier::loop_isolation(false)]
    #[verifier::rlimit(60)]
    pub fn with(
        idx255_data: Vec<u8>,
        data_file: Vec<u8>,
        idx_files: Vec<Option<Vec<u8>>>,
        calculate_crc32: bool,
    ) -> (r: Cache)
        ensures
            r.wf(),
            r.data_file@ == data_file@,
            spec_has_index(r.indices@, 255),
            idx255_data@.len() / 6 <= 255 ==> {
                &&& forall|p: int|
                    0 <= p < r.indices@.len() ==> spec_index_entry_ok(
                        #[trigger] r.indices@[p],
                        idx255_data@,
                        data_file@,
                        idx_files@,
                        calculate_crc32,
                    )
                &&& forall|i: int|
                    #![auto]
                    0 <= i < idx255_data@.len() / 6 && i < idx_files@.len() && idx_files@[i]
                        is Some ==> spec_has_index(r.indices@, i as u8)
            },
    {
        let ghost gfiles = idx_files@;
        let ghost idx255 = idx255_data@;
        let num_files = idx255_data.len() / 6;

        let mut info = CacheIndex::from(
            255,
            INFO_MAX_CONTAINER_SIZE,
            idx255_data,
            IdxContainerInfo::new(),
        );
        let mut idx_files = idx_files;
        let mut indices: Vec<CacheIndex> = Vec::new();
        proof {
            assert(gfiles.skip(0) =~= gfiles);
        }
        let mut i: usize = 0;
        while i < num_files
            invariant
                i <= num_files,
                info.file_id == 255,
                info.max_container_size == INFO_MAX_CONTAINER_SIZE,
                info.idx_data@ == idx255,
                spec_empty_info(info.container_info),
                info.container_info.wf(),
                i <= gfiles.len() ==> idx_files@ == gfiles.skip(i as int),
                i >= gfiles.len() ==> idx_files@.len() == 0,
                spec_indices_unique(indices@),
                forall|p: int|
                    0 <= p < indices@.len() ==> (#[trigger] indices@[p]).container_info.wf(),
                num_files <= 255 ==> (forall|p: int|
                    0 <= p < indices@.len() ==> ((#[trigger] indices@[p]).file_id as int) < i
                        && indices@[p].file_id != 255),
                num_files <= 255 ==> (forall|p: int|
                    0 <= p < indices@.len() ==> spec_index_entry_ok(
                        #[trigger] indices@[p],
                        idx255,
                        data_file@,
                        gfiles,
                        calculate_crc32,
                    )),
                num_files <= 255 ==> (forall|j: int|
                    #![auto]
                    0 <= j < i && j < gfiles.len() && gfiles[j] is Some ==> spec_has_index(
                        indices@,
                        j as u8,
                    )),
            decreases num_files - i,
        {
            let opt: Option<Vec<u8>> = if idx_files.len() > 0 {
                idx_files.remove(0)
            } else {
                None
            };
            proof {
                if i < gfiles.len() {
                    assert(idx_files@ =~= gfiles.skip(i + 1));
                    assert(opt == gfiles[i as int]);
                } else {
                    assert(opt is None);
                }
            }
            match opt {
                Some(file_bytes) => {
                    let container_data = match info.container_data(
                        &data_file,
                        #[verifier::truncate] (i as u32),
                    ) {
                        Ok(n) => n,
                        Err(_) => Vec::new(),
                    };
                    let container_info = IdxContainerInfo::from(container_data, calculate_crc32);
                    let index = CacheIndex::from(
                        #[verifier::truncate] (i as u8),
                        IDX_MAX_CONTAINER_SIZE,
                        file_bytes,
                        container_info,
                    );
                    let ghost new_entry = index;
                    let ghost before = indices@;
                    insert_index(&mut indices, index);
                    proof {
                        if num_files <= 255 {
                            assert(i < gfiles.len());
                            assert(new_entry.file_id == i as u8);
                            assert(spec_index_entry_ok(
                                new_entry,
                                idx255,
                                data_file@,
                                gfiles,
                                calculate_crc32,
                            ));
                            if spec_has_index(before, new_entry.file_id) {
                                let j = choose|j: int|
                                    0 <= j < before.len() && before[j].file_id
                                        == new_entry.file_id;
                                assert((before[j].file_id as int) < i);
                                assert(false);
                            }
                            assert(indices@ == before.push(new_entry));
                            assert(indices@[indices@.len() - 1].file_id == i as u8);
                            assert(spec_has_index(indices@, i as u8));
                            assert forall|j: int|
                                0 <= j < i && j < gfiles.len() && gfiles[j]
                                    is Some implies spec_has_index(indices@, (j as u8)) by {
                                assert(spec_has_index(before, j as u8));
                                let w = choose|w: int|
                                    0 <= w < before.len() && before[w].file_id == j as u8;
                                assert(indices@[w].file_id == j as u8);
                            }
                        }
                    }
                },
                None => {},
            }
            i = i + 1;
        }
        let ghost ginfo = info;
        let ghost prev = indices@;
        insert_index(&mut indices, info);
        proof {
            if spec_has_index(prev, 255u8) {
                lemma_index_pos_props(prev, 255u8);
                let q = spec_index_pos(prev, 255u8);
                assert(indices@[q].file_id == 255);
            } else {
                assert(indices@[indices@.len() - 1].file_id == 255);
            }
            assert(spec_has_index(indices@, 255u8));
            assert forall|p: int| 0 <= p < indices@.len() implies (#[trigger] indices@[p])
                == ginfo || (0 <= p < prev.len() && indices@[p] == prev[p]) by {
                if spec_has_index(prev, 255u8) {
                    lemma_index_pos_props(prev, 255u8);
                    let q = spec_index_pos(prev, 255u8);
                    if p != q {
                        assert(indices@[p] == prev[p]);
                    }
                } else {
                    if p < prev.len() {
                        assert(indices@[p] == prev[p]);
                    }
                }
            }
            if num_files <= 255 {
                assert forall|p: int| 0 <= p < indices@.len() implies spec_index_entry_ok(
                    #[trigger] indices@[p],
                    idx255,
                    data_file@,
                    gfiles,
                    calculate_crc32,
                ) by {
                    if indices@[p] == ginfo {
                        assert(spec_index_entry_ok(
                            ginfo,
                            idx255,
                            data_file@,
                            gfiles,
                            calculate_crc32,
                        ));
                    }
                }
                assert forall|j: int|
                    0 <= j < idx255.len() / 6 && j < gfiles.len() && gfiles[j]
                        is Some implies spec_has_index(indices@, (j as u8)) by {
                    assert(spec_has_index(prev, j as u8));
                    let w = choose|w: int| 0 <= w < prev.len() && prev[w].file_id == j as u8;
                    if spec_has_index(prev, 255u8) {
                        lemma_index_pos_props(prev, 255u8);
                        let q = spec_index_pos(prev, 255u8);
                        assert(prev[q].file_id == 255 && prev[w].file_id != 255);
                        assert(indices@[w].file_id == j as u8);
                    } else {
                        assert(indices@[w].file_id == j as u8);
                    }
                }
            }
        }
        Cache { data_file, indices }
    }
}

impl Cache {
    /// Index ids unique and every directory internally consistent.
    pub open spec fn wf(&self) -> bool {
        &&& spec_indices_unique(self.indices@)
        &&& forall|j: int|
            0 <= j < self.indices@.len() ==> (#[trigger] self.indices@[j]).container_info.wf()
    }

    /// The position of index `idx`, if the cache holds it.  The id space is
    /// eight bits wide, so wider arguments wrap as the on-disk format does.
    #[verifier::loop_isolation(false)]
    pub fn index_pos(&self, idx: usize) -> (r: Option<usize>)
        ensures
            match r {
                Some(p) => {
                    &&& spec_has_index(self.indices@, (idx % 256) as u8)
                    &&& p == spec_index_pos(self.indices@, (idx % 256) as u8)
                    &&& p < self.indices@.len()
                    &&& self.indices@[p as int].file_id == (idx % 256) as u8
                },
                None => !spec_has_index(self.indices@, (idx % 256) as u8),
            },
    {
        let id = (idx % 256) as u8;
        let n = self.indices.len();
        let mut i: usize = 0;
        while i < n
            invariant
                i <= n,
                n == self.indices@.len(),
                forall|l: int| 0 <= l < i ==> self.indices@[l].file_id != id,
            decreases n - i,
        {
            if self.indices[i].file_id == id {
                proof {
                    assert(self.indices@[i as int].file_id == id);
                    assert(spec_has_index(self.indices@, id));
                    lemma_index_pos_props(self.indices@, id);
                    let p = spec_index_pos(self.indices@, id);
                    if p < i {
                        assert(self.indices@[p].file_id != id);
                    }
                    if p > i {
                        assert(self.indices@[i as int].file_id != id);
                    }
                }
                return Some(i);
            }
            i = i + 1;
        }
        None
    }

    /// A mutable borrow of the index filed under `idx`, when there is one.
    pub fn index(&mut self, idx: usize) -> (r: Option<&mut CacheIndex>)
        ensures
            match r {
                Some(m) => {
                    &&& spec_has_index(old(self).indices@, (idx % 256) as u8)
                    &&& *m == old(self).indices@[spec_index_pos(old(self).indices@, (idx % 256) as u8)]
                    &&& final(self).indices@ == old(self).indices@.update(
                        spec_index_pos(old(self).indices@, (idx % 256) as u8),
                        *final(m),
                    )
                    &&& final(self).data_file == old(self).data_file
                },
                None => {
                    &&& !spec_has_index(old(self).indices@, (idx % 256) as u8)
                    &&& *final(self) == *old(self)
                },
            },
    {
        match self.index_pos(idx) {
            Some(p) => Some(&mut self.indices[p]),
            None => None,
        }
    }

    /// Drops every materialized file payload in every index, keeping all
    /// directory metadata.
    pub fn clear_raw_data(&mut self)
        ensures
            final(self).data_file == old(self).data_file,
            final(self).indices@.len() == old(self).indices@.len(),
            forall|j: int|
                0 <= j < old(self).indices@.len() ==> {
                    &&& (#[trigger] final(self).indices@[j]).file_id == old(
                        self,
                    ).indices@[j].file_id
                    &&& final(self).indices@[j].idx_data == old(self).indices@[j].idx_data
                    &&& final(self).indices@[j].max_container_size == old(
                        self,
                    ).indices@[j].max_container_size
                    &&& final(self).indices@[j].last_archive_id == old(
                        self,
                    ).indices@[j].last_archive_id
                    &&& crate::directory::cleared_info(
                        old(self).indices@[j].container_info,
                        final(self).indices@[j].container_info,
                    )
                },
    {
        let n = self.indices.len();
        let mut i: usize = 0;
        while i < n
            invariant
                i <= n,
                n == self.indices@.len(),
                self.data_file == old(self).data_file,
                self.indices@.len() == old(self).indices@.len(),
                forall|j: int|
                    i <= j < n ==> #[trigger] self.indices@[j] == old(self).indices@[j],
                forall|j: int|
                    0 <= j < i ==> {
                        &&& (#[trigger] self.indices@[j]).file_id == old(self).indices@[j].file_id
                        &&& self.indices@[j].idx_data == old(self).indices@[j].idx_data
                        &&& self.indices@[j].max_container_size == old(
                            self,
                        ).indices@[j].max_container_size
                        &&& self.indices@[j].last_archive_id == old(
                            self,
                        ).indices@[j].last_archive_id
                        &&& crate::directory::cleared_info(
                            old(self).indices@[j].container_info,
                            self.indices@[j].container_info,
                        )
                    },
            decreases n - i,
        {
            self.indices[i].container_info.clear_all_filedata();
            i = i + 1;
        }
    }
}

} // verus!
