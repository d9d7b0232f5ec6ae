//! The sector layer.  An `.idx{N}` table holds one six-byte record per
//! archive: a 24-bit size and a 24-bit first sector.  The shared `.dat2` pool
//! holds 520-byte sectors, each an eight-byte header (`container_id: u16`,
//! `part: u16`, `next_sector: u24`, `idx_file_id: u8`) over 512 payload bytes.

use vstd::prelude::*;

use crate::cursor::{be16_at, be24_at, byte_at};
use crate::errors::CacheError;

verus! {

/// Bytes per sector in the shared data file.
pub const SECTOR_SIZE: u64 = 520;

/// Payload bytes per sector.
pub const SECTOR_DATA_SIZE: u32 = 512;

/// The declared byte length of archive `archive_id`, from its index record.
pub open spec fn rec_size(idx: Seq<u8>, archive_id: int) -> int {
    be24_at(idx, 6 * archive_id)
}

/// The first sector of archive `archive_id`, from its index record.
pub open spec fn rec_first_sector(idx: Seq<u8>, archive_id: int) -> int {
    be24_at(idx, 6 * archive_id + 3)
}

/// A decoded six-byte index record.
pub struct SectorRecord {
    pub size: u32,
    pub first_sector: u32,
}

impl SectorRecord {
    /// Both fields carry 24-bit values.
    pub open spec fn wf(&self) -> bool {
        self.size < 0x1000000 && self.first_sector < 0x1000000
    }
}

/// The six bytes that encode a record: three-byte big-endian `size`, then
/// three-byte big-endian `first_sector`.
pub open spec fn spec_encode_record(r: SectorRecord) -> Seq<u8> {
    seq![
        ((r.size / 0x10000) % 0x100) as u8,
        ((r.size / 0x100) % 0x100) as u8,
        (r.size % 0x100) as u8,
        ((r.first_sector / 0x10000) % 0x100) as u8,
        ((r.first_sector / 0x100) % 0x100) as u8,
        (r.first_sector % 0x100) as u8,
    ]
}

/// Reads the record of `archive_id` out of an index table.  A record that
/// lies wholly or partly outside the table reads as zero bytes, exactly as
/// the on-disk format treats unwritten slots.
pub fn record_at(idx_data: &Vec<u8>, archive_id: u32) -> (r: SectorRecord)
    ensures
        r.size == rec_size(idx_data@, archive_id as int),
        r.first_sector == rec_first_sector(idx_data@, archive_id as int),
        r.wf(),
{
    let base: u64 = 6u64 * archive_id as u64;
    let b0 = byte_at_exec(idx_data, base) as u32;
    let b1 = byte_at_exec(idx_data, base + 1) as u32;
    let b2 = byte_at_exec(idx_data, base + 2) as u32;
    let b3 = byte_at_exec(idx_data, base + 3) as u32;
    let b4 = byte_at_exec(idx_data, base + 4) as u32;
    let b5 = byte_at_exec(idx_data, base + 5) as u32;
    SectorRecord {
        size: b0 * 0x10000 + b1 * 0x100 + b2,
        first_sector: b3 * 0x10000 + b4 * 0x100 + b5,
    }
}

/// Decodes a six-byte record buffer; shorter buffers read as zero-padded.
pub fn decode_record(bytes: &Vec<u8>) -> (r: SectorRecord)
    ensures
        r.size == be24_at(bytes@, 0),
        r.first_sector == be24_at(bytes@, 3),
        r.wf(),
{
    let b0 = byte_at_exec(bytes, 0) as u32;
    let b1 = byte_at_exec(bytes, 1) as u32;
    let b2 = byte_at_exec(bytes, 2) as u32;
    let b3 = byte_at_exec(bytes, 3) as u32;
    let b4 = byte_at_exec(bytes, 4) as u32;
    let b5 = byte_at_exec(bytes, 5) as u32;
    SectorRecord {
        size: b0 * 0x10000 + b1 * 0x100 + b2,
        first_sector: b3 * 0x10000 + b4 * 0x100 + b5,
    }
}

/// Encodes a record back to its six on-disk bytes.
pub fn encode_record(r: &SectorRecord) -> (out: Vec<u8>)
    ensures
        out@ == spec_encode_record(*r),
{
    let mut out: Vec<u8> = Vec::new();
    let s = r.size;
    let f = r.first_sector;
    assert(((s >> 16) & 0xff) == (s / 0x10000) % 0x100) by (bit_vector);
    assert(((s >> 8) & 0xff) == (s / 0x100) % 0x100) by (bit_vector);
    assert((s & 0xff) == s % 0x100) by (bit_vector);
    assert(((f >> 16) & 0xff) == (f / 0x10000) % 0x100) by (bit_vector);
    assert(((f >> 8) & 0xff) == (f / 0x100) % 0x100) by (bit_vector);
    assert((f & 0xff) == f % 0x100) by (bit_vector);
    out.push(((s >> 16) & 0xff) as u8);
    out.push(((s >> 8) & 0xff) as u8);
    out.push((s & 0xff) as u8);
    out.push(((f >> 16) & 0xff) as u8);
    out.push(((f >> 8) & 0xff) as u8);
    out.push((f & 0xff) as u8);
    assert(out@ =~= spec_encode_record(*r));
    out
}

/// Re-encoding a decoded six-byte record reproduces the on-disk bytes, and
/// decoding an encoded record gives the record back: the six-byte wire form
/// and the `(size, first_sector)` pair carry exactly the same information.
pub proof fn lemma_record_round_trip(bytes: Seq<u8>, r: SectorRecord)
    requires
        bytes.len() == 6,
        r.wf(),
    ensures
        spec_encode_record(
            SectorRecord { size: be24_at(bytes, 0) as u32, first_sector: be24_at(bytes, 3) as u32 },
        ) == bytes,
        be24_at(spec_encode_record(r), 0) == r.size,
        be24_at(spec_encode_record(r), 3) == r.first_sector,
{
    let d = SectorRecord {
        size: be24_at(bytes, 0) as u32,
        first_sector: be24_at(bytes, 3) as u32,
    };
    let s0 = bytes[0];
    let s1 = bytes[1];
    let s2 = bytes[2];
    let f0 = bytes[3];
    let f1 = bytes[4];
    let f2 = bytes[5];
    assert((d.size / 0x10000) % 0x100 == s0 && (d.size / 0x100) % 0x100 == s1 && d.size % 0x100
        == s2) by (nonlinear_arith)
        requires
            d.size == s0 * 0x10000 + s1 * 0x100 + s2,
            s0 < 0x100,
            s1 < 0x100,
            s2 < 0x100,
    ;
    assert((d.first_sector / 0x10000) % 0x100 == f0 && (d.first_sector / 0x100) % 0x100 == f1
        && d.first_sector % 0x100 == f2) by (nonlinear_arith)
        requires
            d.first_sector == f0 * 0x10000 + f1 * 0x100 + f2,
            f0 < 0x100,
            f1 < 0x100,
            f2 < 0x100,
    ;
    assert(spec_encode_record(d) =~= bytes);
    let e = spec_encode_record(r);
    assert(be24_at(e, 0) == (r.size / 0x10000) % 0x100 * 0x10000 + (r.size / 0x100) % 0x100 * 0x100
        + r.size % 0x100);
    assert((r.size / 0x10000) % 0x100 * 0x10000 + (r.size / 0x100) % 0x100 * 0x100 + r.size % 0x100
        == r.size) by (nonlinear_arith)
        requires r.size < 0x1000000;
    assert((r.first_sector / 0x10000) % 0x100 * 0x10000 + (r.first_sector / 0x100) % 0x100 * 0x100
        + r.first_sector % 0x100 == r.first_sector) by (nonlinear_arith)
        requires r.first_sector < 0x1000000;
}

/// The `container_id` field of the sector starting at `520 * sector`.
pub open spec fn sec_container_id(dat: Seq<u8>, sector: int) -> int {
    be16_at(dat, 520 * sector)
}

/// The `part` field of the sector.
pub open spec fn sec_part(dat: Seq<u8>, sector: int) -> int {
    be16_at(dat, 520 * sector + 2)
}

/// The `next_sector` field of the sector.
pub open spec fn sec_next(dat: Seq<u8>, sector: int) -> int {
    be24_at(dat, 520 * sector + 4)
}

/// The `idx_file_id` field of the sector.
pub open spec fn sec_idx_id(dat: Seq<u8>, sector: int) -> int {
    byte_at(dat, 520 * sector + 7) as int
}

/// The first `n` payload bytes of the sector.
pub open spec fn sec_payload(dat: Seq<u8>, sector: int, n: int) -> Seq<u8> {
    Seq::new(n as nat, |k: int| byte_at(dat, 520 * sector + 8 + k))
}

/// What walking the chain from `sector` yields while `remaining` bytes are
/// still owed, with `part` parts already consumed.  Each sector must name the
/// archive being read, its own position in the chain, and the index it
/// belongs to; a zero sector before the size is satisfied truncates the
/// chain.  Whatever `next_sector` says in the sector that completes the size
/// is never looked at.
pub open spec fn spec_chain(
    dat: Seq<u8>,
    archive_id: u32,
    idx_file_id: u8,
    sector: int,
    part: int,
    remaining: int,
) -> Result<Seq<u8>, CacheError>
    decreases remaining,
{
    if remaining <= 0 {
        Ok(Seq::empty())
    } else if sector == 0 {
        Err(CacheError::TruncatedChain)
    } else if sec_container_id(dat, sector) != archive_id || sec_part(dat, sector) != part
        || sec_idx_id(dat, sector) != idx_file_id {
        Err(CacheError::SectorMetadataMismatch)
    } else {
        let to_read = if remaining > 512 {
            512
        } else {
            remaining
        };
        match spec_chain(dat, archive_id, idx_file_id, sec_next(dat, sector), part + 1, remaining
            - to_read) {
            Ok(rest) => Ok(sec_payload(dat, sector, to_read) + rest),
            Err(e) => Err(e),
        }
    }
}

/// Byte `i` of the data file; bytes past the end read as zero.
pub fn byte_at_exec(dat: &Vec<u8>, i: u64) -> (b: u8)
    ensures
        b == byte_at(dat@, i as int),
{
    if i < dat.len() as u64 {
        dat[i as usize]
    } else {
        0
    }
}

fn be16_exec(dat: &Vec<u8>, i: u64) -> (v: u32)
    requires
        i + 1 <= u64::MAX,
    ensures
        v == be16_at(dat@, i as int),
        v < 0x10000,
{
    let b0 = byte_at_exec(dat, i) as u32;
    let b1 = byte_at_exec(dat, i + 1) as u32;
    b0 * 0x100 + b1
}

fn be24_exec(dat: &Vec<u8>, i: u64) -> (v: u32)
    requires
        i + 2 <= u64::MAX,
    ensures
        v == be24_at(dat@, i as int),
        v < 0x1000000,
{
    let b0 = byte_at_exec(dat, i) as u32;
    let b1 = byte_at_exec(dat, i + 1) as u32;
    let b2 = byte_at_exec(dat, i + 2) as u32;
    b0 * 0x10000 + b1 * 0x100 + b2
}

/// Walks the sector chain of `archive_id` through the shared data file and
/// concatenates the payload bytes, validating every sector header on the way.
pub fn collect_chain(
    dat: &Vec<u8>,
    archive_id: u32,
    idx_file_id: u8,
    first_sector: u32,
    size: u32,
) -> (r: Result<Vec<u8>, CacheError>)
    requires
        first_sector < 0x1000000,
    ensures
        match r {
            Ok(v) => spec_chain(dat@, archive_id, idx_file_id, first_sector as int, 0, size as int)
                == Ok::<Seq<u8>, CacheError>(v@) && v@.len() == size,
            Err(e) => spec_chain(dat@, archive_id, idx_file_id, first_sector as int, 0, size as int)
                == Err::<Seq<u8>, CacheError>(e),
        },
{
    let ghost full = spec_chain(dat@, archive_id, idx_file_id, first_sector as int, 0, size as int);
    let mut out: Vec<u8> = Vec::new();
    let mut read: u32 = 0;
    let mut part: u32 = 0;
    let mut sector: u32 = first_sector;

    proof {
        if full is Ok {
            assert(out@ + full.unwrap() =~= full.unwrap());
        }
    }
    while read < size
        invariant
            read <= size,
            out@.len() == read,
            part <= read,
            sector < 0x1000000,
            full == spec_chain(
                dat@,
                archive_id,
                idx_file_id,
                first_sector as int,
                0,
                size as int,
            ),
            full == match spec_chain(
                dat@,
                archive_id,
                idx_file_id,
                sector as int,
                part as int,
                size - read,
            ) {
                Ok(rest) => Ok::<Seq<u8>, CacheError>(out@ + rest),
                Err(e) => Err::<Seq<u8>, CacheError>(e),
            },
        decreases size - read,
    {
        if sector == 0 {
            proof {
                assert(spec_chain(dat@, archive_id, idx_file_id, sector as int, part as int, size
                    - read) == Err::<Seq<u8>, CacheError>(CacheError::TruncatedChain));
            }
            return Err(CacheError::TruncatedChain);
        }
        let ghost sector0: int = sector as int;
        let ghost part0: int = part as int;
        let ghost rem0: int = size - read;
        let base: u64 = SECTOR_SIZE * sector as u64;
        let current_container_id = be16_exec(dat, base);
        let current_part = be16_exec(dat, base + 2);
        let next_sector = be24_exec(dat, base + 4);
        let current_idx_file_id = byte_at_exec(dat, base + 7);

        if current_container_id != archive_id || current_part != part || current_idx_file_id
            != idx_file_id {
            proof {
                assert(spec_chain(dat@, archive_id, idx_file_id, sector0, part0, rem0) == Err::<
                    Seq<u8>,
                    CacheError,
                >(CacheError::SectorMetadataMismatch));
            }
            return Err(CacheError::SectorMetadataMismatch);
        }

        let mut to_read = size - read;
        if to_read > SECTOR_DATA_SIZE {
            to_read = SECTOR_DATA_SIZE;
        }

        let ghost out_before = out@;
        let mut k: u32 = 0;
        while k < to_read
            invariant
                k <= to_read,
                base == 520 * sector as int,
                out@ == out_before + sec_payload(dat@, sector as int, k as int),
            decreases to_read - k,
        {
            out.push(byte_at_exec(dat, base + 8 + k as u64));
            assert(out@ =~= out_before + sec_payload(dat@, sector as int, k + 1));
            k = k + 1;
        }
        assert(out@ == out_before + sec_payload(dat@, sector as int, to_read as int));

        read = read + to_read;
        part = part + 1;
        sector = next_sector;

        proof {
            let c_new = spec_chain(
                dat@,
                archive_id,
                idx_file_id,
                sector as int,
                part as int,
                size - read,
            );
            // One unfolding of the chain at the sector just consumed.
            assert(spec_chain(dat@, archive_id, idx_file_id, sector0, part0, rem0) == match c_new {
                Ok(rest) => Ok::<Seq<u8>, CacheError>(
                    sec_payload(dat@, sector0, to_read as int) + rest,
                ),
                Err(e) => Err::<Seq<u8>, CacheError>(e),
            });
            if c_new is Ok {
                assert(out@ + c_new.unwrap() =~= out_before + (sec_payload(
                    dat@,
                    sector0,
                    to_read as int,
                ) + c_new.unwrap()));
            }
        }
    }
    Ok(out)
}

} // verus!
