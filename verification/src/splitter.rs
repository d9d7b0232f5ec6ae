//! The archive splitter.  A decompressed multi-file archive carries a stride
//! table at its tail: the last byte is the number of rows, and each row holds
//! one signed 32-bit big-endian delta per file.  Within a row the deltas
//! accumulate into segment lengths; a single shared cursor walks the data
//! region handing each file its segment, row by row.

use vstd::prelude::*;

use crate::cursor::{bei32_at, byte_at};

verus! {

/// The number of stride rows: the archive's last byte.
pub open spec fn split_num_chunks(b: Seq<u8>) -> int {
    byte_at(b, b.len() - 1) as int
}

/// Where the stride table begins: it ends one byte before the tail.
pub open spec fn split_table_start(b: Seq<u8>, n: int) -> int {
    b.len() - 1 - 4 * n * split_num_chunks(b)
}

/// The raw delta for file `k` in row `r`.
pub open spec fn split_delta(b: Seq<u8>, n: int, r: int, k: int) -> int {
    bei32_at(b, split_table_start(b, n) + 4 * (r * n + k))
}

/// The segment length for file `k` in row `r`: deltas accumulate within a
/// row.
pub open spec fn split_seg_len(b: Seq<u8>, n: int, r: int, k: int) -> int
    decreases k,
{
    if k <= 0 {
        split_delta(b, n, r, 0)
    } else {
        split_seg_len(b, n, r, k - 1) + split_delta(b, n, r, k)
    }
}

/// How far the shared cursor moves within row `r` before file `k`'s segment.
pub open spec fn split_row_advance(b: Seq<u8>, n: int, r: int, k: int) -> int
    decreases k,
{
    if k <= 0 {
        0
    } else {
        split_row_advance(b, n, r, k - 1) + split_seg_len(b, n, r, k - 1)
    }
}

/// The shared cursor's position at the start of row `r`.
pub open spec fn split_offset_before_row(b: Seq<u8>, n: int, r: int) -> int
    decreases r,
{
    if r <= 0 {
        0
    } else {
        split_offset_before_row(b, n, r - 1) + split_row_advance(b, n, r - 1, n)
    }
}

/// Where file `k`'s segment of row `r` begins.
pub open spec fn split_seg_start(b: Seq<u8>, n: int, r: int, k: int) -> int {
    split_offset_before_row(b, n, r) + split_row_advance(b, n, r, k)
}

/// Every segment has nonnegative length and lies inside the archive bytes.
pub open spec fn split_segments_ok(b: Seq<u8>, n: int) -> bool {
    forall|r: int, k: int|
        0 <= r < split_num_chunks(b) && 0 <= k < n ==> #[trigger] split_seg_len(b, n, r, k) >= 0
            && split_seg_start(b, n, r, k) + split_seg_len(b, n, r, k) <= b.len()
}

/// A stride table the splitter can follow without stepping outside the
/// archive.
pub open spec fn split_wf(b: Seq<u8>, n: int) -> bool {
    &&& b.len() >= 1
    &&& 4 * n * split_num_chunks(b) <= b.len() - 1
    &&& split_segments_ok(b, n)
}

/// File `k`'s output after the first `r` rows: its segments concatenated.
pub open spec fn split_file_out(b: Seq<u8>, n: int, k: int, r: int) -> Seq<u8>
    decreases r,
{
    if r <= 0 {
        Seq::empty()
    } else {
        split_file_out(b, n, k, r - 1) + b.subrange(
            split_seg_start(b, n, r - 1, k),
            split_seg_start(b, n, r - 1, k) + split_seg_len(b, n, r - 1, k),
        )
    }
}

/// The within-row advance never shrinks as more files are counted, and it
/// starts at zero: under a well-formed table it is nonnegative.
pub proof fn lemma_row_advance_nonneg(b: Seq<u8>, n: int, r: int, k: int)
    requires
        split_wf(b, n),
        0 <= r < split_num_chunks(b),
        0 <= k <= n,
    ensures
        split_row_advance(b, n, r, k) >= 0,
    decreases k,
{
    if k > 0 {
        lemma_row_advance_nonneg(b, n, r, k - 1);
        assert(split_seg_len(b, n, r, k - 1) >= 0);
    }
}

/// The shared cursor's position at any row start is nonnegative under a
/// well-formed table.
pub proof fn lemma_offset_before_row_nonneg(b: Seq<u8>, n: int, r: int)
    requires
        split_wf(b, n),
        n >= 0,
        0 <= r <= split_num_chunks(b),
    ensures
        split_offset_before_row(b, n, r) >= 0,
    decreases r,
{
    if r > 0 {
        lemma_offset_before_row_nonneg(b, n, r - 1);
        lemma_row_advance_nonneg(b, n, r - 1, n);
    }
}

/// File `k`'s segment lengths summed over the first `r` rows.
pub open spec fn split_col_sum(b: Seq<u8>, n: int, k: int, r: int) -> int
    decreases r,
{
    if r <= 0 {
        0
    } else {
        split_col_sum(b, n, k, r - 1) + split_seg_len(b, n, r - 1, k)
    }
}

/// Each file's output is exactly its column of the stride table.
pub proof fn lemma_file_out_len(b: Seq<u8>, n: int, k: int, r: int)
    requires
        split_wf(b, n),
        0 <= k < n,
        0 <= r <= split_num_chunks(b),
    ensures
        split_file_out(b, n, k, r).len() == split_col_sum(b, n, k, r),
    decreases r,
{
    if r > 0 {
        lemma_file_out_len(b, n, k, r - 1);
        lemma_offset_before_row_nonneg(b, n, r - 1);
        lemma_row_advance_nonneg(b, n, r - 1, k);
        assert(split_seg_len(b, n, r - 1, k) >= 0 && split_seg_start(b, n, r - 1, k)
            + split_seg_len(b, n, r - 1, k) <= b.len());
    }
}

/// The column sums of the first `k` files, after `r` rows.
pub open spec fn split_out_total(b: Seq<u8>, n: int, r: int, k: int) -> int
    decreases k,
{
    if k <= 0 {
        0
    } else {
        split_out_total(b, n, r, k - 1) + split_col_sum(b, n, k - 1, r)
    }
}

proof fn lemma_out_total_zero(b: Seq<u8>, n: int, k: int)
    ensures
        split_out_total(b, n, 0, k) == 0,
    decreases k,
{
    if k > 0 {
        lemma_out_total_zero(b, n, k - 1);
    }
}

proof fn lemma_out_total_step(b: Seq<u8>, n: int, r: int, k: int)
    requires
        k >= 0,
        r >= 0,
    ensures
        split_out_total(b, n, r + 1, k) == split_out_total(b, n, r, k) + split_row_advance(
            b,
            n,
            r,
            k,
        ),
    decreases k,
{
    if k > 0 {
        lemma_out_total_step(b, n, r, k - 1);
    }
}

proof fn lemma_out_total_rows(b: Seq<u8>, n: int, r: int)
    requires
        r >= 0,
        n >= 0,
    ensures
        split_out_total(b, n, r, n) == split_offset_before_row(b, n, r),
    decreases r,
{
    if r == 0 {
        lemma_out_total_zero(b, n, n);
    } else {
        lemma_out_total_rows(b, n, r - 1);
        lemma_out_total_step(b, n, r - 1, n);
    }
}

/// The output byte counts of the first `k` files, over the whole table.
pub open spec fn split_out_len_sum(b: Seq<u8>, n: int, k: int) -> int
    decreases k,
{
    if k <= 0 {
        0
    } else {
        split_out_len_sum(b, n, k - 1) + split_file_out(b, n, k - 1, split_num_chunks(b)).len()
    }
}

proof fn lemma_out_len_sum_is_total(b: Seq<u8>, n: int, k: int)
    requires
        split_wf(b, n),
        0 <= k <= n,
    ensures
        split_out_len_sum(b, n, k) == split_out_total(b, n, split_num_chunks(b), k),
    decreases k,
{
    if k > 0 {
        lemma_out_len_sum_is_total(b, n, k - 1);
        lemma_file_out_len(b, n, k - 1, split_num_chunks(b));
    }
}

/// The sum of the splitter's output byte counts over all files equals the
/// archive's data region: its length minus the tail byte and the stride
/// table, provided the table accounts for the whole region.
pub proof fn lemma_split_outputs_total(b: Seq<u8>, n: int)
    requires
        split_wf(b, n),
        n >= 0,
        split_offset_before_row(b, n, split_num_chunks(b)) == split_table_start(b, n),
    ensures
        split_out_len_sum(b, n, n) == b.len() - 1 - 4 * n * split_num_chunks(b),
{
    lemma_out_len_sum_is_total(b, n, n);
    lemma_out_total_rows(b, n, split_num_chunks(b));
}

/// Reads the signed 32-bit big-endian value at `i`.
fn bei32_exec(b: &Vec<u8>, i: usize) -> (v: i32)
    requires
        i + 4 <= b@.len(),
    ensures
        v == bei32_at(b@, i as int),
{
    let l = b.len();
    assert(i + 4 <= l);
    let b0 = b[i] as u32;
    let b1 = b[i + 1] as u32;
    let b2 = b[i + 2] as u32;
    let b3 = b[i + 3] as u32;
    let v = b0 * 0x1000000 + b1 * 0x10000 + b2 * 0x100 + b3;
    let sv: i64 = if v >= 0x8000_0000 {
        v as i64 - 0x1_0000_0000i64
    } else {
        v as i64
    };
    sv as i32
}

/// Splits a decompressed archive into one byte vector per file.
///
/// A single-file archive is the whole payload, stride table and all.  For a
/// multi-file archive the trailing stride table says how the shared cursor
/// deals the data region out to the files; a table that asks for a negative
/// segment or for bytes beyond the archive is rejected with `None` rather
/// than followed.
#[verifier::loop_isolation(false)]
#[verifier::rlimit(60)]
pub fn split_archive(data: &Vec<u8>, num_files: usize) -> (r: Option<Vec<Vec<u8>>>)
    ensures
        num_files == 1 ==> {
            &&& r is Some
            &&& r.unwrap()@.len() == 1
            &&& r.unwrap()@[0]@ == data@
        },
        num_files != 1 ==> match r {
            Some(parts) => {
                &&& split_wf(data@, num_files as int)
                &&& parts@.len() == num_files
                &&& forall|k: int|
                    0 <= k < num_files ==> (#[trigger] parts@[k])@ == split_file_out(
                        data@,
                        num_files as int,
                        k,
                        split_num_chunks(data@),
                    )
            },
            None => !split_wf(data@, num_files as int),
        },
{
    let ghost b = data@;
    let ghost gn = num_files as int;

    if num_files == 1 {
        let mut whole: Vec<u8> = Vec::new();
        whole.extend_from_slice(&data[0..data.len()]);
        assert(whole@ =~= b);
        let mut out: Vec<Vec<u8>> = Vec::new();
        out.push(whole);
        return Some(out);
    }

    let len = data.len();
    if len == 0 {
        return None;
    }
    let num_chunks = data[len - 1] as usize;
    assert(num_chunks == split_num_chunks(b));
    assert(num_chunks <= 0xff);

    proof {
        assert((num_files as u128) * (num_chunks as u128) <= (num_files as u128) * 255)
            by (nonlinear_arith)
            requires (num_chunks as u128) <= 255;
    }
    let t2: u128 = (num_files as u128) * (num_chunks as u128);
    let table: u128 = 4u128 * t2;
    proof {
        assert(4 * gn * (num_chunks as int) == 4 * (gn * (num_chunks as int)))
            by (nonlinear_arith);
        assert(table == 4 * gn * (num_chunks as int));
    }
    if table > (len - 1) as u128 {
        return None;
    }
    let table_start: usize = len - 1 - (table as usize);
    assert(table_start == split_table_start(b, gn));

    // First pass: follow the table, checking every segment, recording each
    // segment's start and length.
    let mut segs: Vec<Vec<usize>> = Vec::new();
    let mut starts: Vec<Vec<usize>> = Vec::new();
    let mut offset: usize = 0;
    let mut tpos: usize = table_start;
    let mut r_i: usize = 0;
    while r_i < num_chunks
        invariant
            r_i <= num_chunks,
            segs@.len() == r_i,
            starts@.len() == r_i,
            offset == split_offset_before_row(b, gn, r_i as int),
            offset <= len,
            tpos == table_start + 4 * (r_i * num_files),
            tpos <= table_start + table,
            forall|r0: int| 0 <= r0 < r_i ==> (#[trigger] segs@[r0])@.len() == gn,
            forall|r0: int| 0 <= r0 < r_i ==> (#[trigger] starts@[r0])@.len() == gn,
            forall|r0: int, k0: int|
                #![trigger segs@[r0]@[k0]]
                0 <= r0 < r_i && 0 <= k0 < gn ==> segs@[r0]@[k0] == split_seg_len(b, gn, r0, k0)
                    && split_seg_len(b, gn, r0, k0) >= 0,
            forall|r0: int, k0: int|
                #![trigger starts@[r0]@[k0]]
                0 <= r0 < r_i && 0 <= k0 < gn ==> starts@[r0]@[k0] == split_seg_start(b, gn, r0, k0)
                    && split_seg_start(b, gn, r0, k0) + split_seg_len(b, gn, r0, k0) <= len,
        decreases num_chunks - r_i,
    {
        let mut seg_row: Vec<usize> = Vec::new();
        let mut start_row: Vec<usize> = Vec::new();
        let mut data_read: i128 = 0;
        let mut k: usize = 0;
        while k < num_files
            invariant
                k <= num_files,
                seg_row@.len() == k,
                start_row@.len() == k,
                offset == split_offset_before_row(b, gn, r_i as int) + split_row_advance(
                    b,
                    gn,
                    r_i as int,
                    k as int,
                ),
                offset <= len,
                tpos == table_start + 4 * (r_i * num_files) + 4 * k,
                k > 0 ==> data_read == split_seg_len(b, gn, r_i as int, k - 1),
                k == 0 ==> data_read == 0,
                0 <= data_read <= len,
                forall|k0: int|
                    0 <= k0 < k ==> #[trigger] seg_row@[k0] == split_seg_len(b, gn, r_i as int, k0)
                        && split_seg_len(b, gn, r_i as int, k0) >= 0,
                forall|k0: int|
                    0 <= k0 < k ==> #[trigger] start_row@[k0] == split_seg_start(
                        b,
                        gn,
                        r_i as int,
                        k0,
                    ) && split_seg_start(b, gn, r_i as int, k0) + split_seg_len(
                        b,
                        gn,
                        r_i as int,
                        k0,
                    ) <= len,
            decreases num_files - k,
        {
            assert(4 * ((r_i * num_files) + k) + 4 <= table) by {
                assert(r_i * num_files + k + 1 <= num_files * num_chunks) by (nonlinear_arith)
                    requires r_i + 1 <= num_chunks && k + 1 <= num_files;
                assert(table == 4 * ((num_files as int) * (num_chunks as int)));
            }
            let d = bei32_exec(data, tpos);
            assert(d == split_delta(b, gn, r_i as int, k as int));
            let nd: i128 = data_read + d as i128;
            assert(nd == split_seg_len(b, gn, r_i as int, k as int));
            if nd < 0 {
                return None;
            }
            if nd > (len - offset) as i128 {
                return None;
            }
            let seg: usize = nd as usize;
            seg_row.push(seg);
            start_row.push(offset);
            offset = offset + seg;
            data_read = nd;
            tpos = tpos + 4;
            k = k + 1;
        }
        segs.push(seg_row);
        starts.push(start_row);
        proof {
            assert forall|k0: int| 0 <= k0 < gn implies segs@[r_i as int]@[k0] == split_seg_len(
                b,
                gn,
                r_i as int,
                k0,
            ) && starts@[r_i as int]@[k0] == split_seg_start(b, gn, r_i as int, k0) by {
                assert(segs@[r_i as int]@[k0] == seg_row@[k0]);
                assert(starts@[r_i as int]@[k0] == start_row@[k0]);
            }
            assert((r_i + 1) * num_files == r_i * num_files + num_files) by (nonlinear_arith);
            assert(4 * ((r_i + 1) * num_files) <= table) by (nonlinear_arith)
                requires
                    r_i + 1 <= num_chunks,
                    num_files >= 0,
                    table == 4 * ((num_files as int) * (num_chunks as int)),
            ;
        }
        r_i = r_i + 1;
    }

    proof {
        assert forall|r0: int, k0: int|
            0 <= r0 < split_num_chunks(b) && 0 <= k0 < gn implies #[trigger] split_seg_len(
            b,
            gn,
            r0,
            k0,
        ) >= 0 && split_seg_start(b, gn, r0, k0) + split_seg_len(b, gn, r0, k0) <= b.len() by {
            assert(segs@[r0]@[k0] == split_seg_len(b, gn, r0, k0));
            assert(starts@[r0]@[k0] == split_seg_start(b, gn, r0, k0));
        }
    }
    assert(split_wf(b, gn));

    // Second pass: deal the recorded segments out to each file.
    let mut out: Vec<Vec<u8>> = Vec::new();
    let mut k: usize = 0;
    while k < num_files
        invariant
            k <= num_files,
            out@.len() == k,
            forall|k0: int|
                0 <= k0 < k ==> (#[trigger] out@[k0])@ == split_file_out(
                    b,
                    gn,
                    k0,
                    split_num_chunks(b),
                ),
        decreases num_files - k,
    {
        let mut fk: Vec<u8> = Vec::new();
        let mut r_j: usize = 0;
        while r_j < num_chunks
            invariant
                r_j <= num_chunks,
                fk@ == split_file_out(b, gn, k as int, r_j as int),
            decreases num_chunks - r_j,
        {
            let st = starts[r_j][k];
            let sl = segs[r_j][k];
            let ghost fk_before = fk@;
            fk.extend_from_slice(&data[st..st + sl]);
            proof {
                assert(fk@ =~= fk_before + b.subrange(st as int, st + sl));
            }
            r_j = r_j + 1;
        }
        out.push(fk);
        k = k + 1;
    }
    Some(out)
}

} // verus!
