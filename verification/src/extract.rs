//! Bundle extraction: read each chunk descriptor's byte range out of a
//! fetched bundle blob, resolve its hash to every placement in the
//! fragment's files, and scatter-write the bytes to each placement's
//! file-local offset. Destination files are in-memory byte vectors here; the
//! caller loads them from and stores them back to disk.

use vstd::prelude::*;
use crate::models::{files_model, Bundle, Chunk, ChunkModel, FileM, FileModel};
use crate::resolve::{
    get_files_chunks_concerned, lemma_resolve_indexes_in_range, placements_model, resolve_model,
};
use crate::scatter::{
    apply_op, apply_ops, byte_at, grown_len, lemma_apply_ops_idempotent,
    lemma_apply_ops_pointwise, lemma_file_end_single, lemma_last_writer_wins, op_covers,
    valid_ops, write_seq, ExtractError, WriteOp,
};

verus! {

/// The byte-sequence model of a list of in-memory file contents.
pub open spec fn contents_model(cs: Seq<Vec<u8>>) -> Seq<Seq<u8>> {
    cs.map_values(|v: Vec<u8>| v@)
}

/// The bytes descriptor `d` names inside the blob (bundle-local range).
pub open spec fn chunk_data(blob: Seq<u8>, d: ChunkModel) -> Seq<u8> {
    blob.subrange(d.offset as int, d.offset + d.size as int)
}

/// A descriptor is extractable when its hash places somewhere and its byte
/// range lies inside the blob.
pub open spec fn chunk_ok(blob: Seq<u8>, d: ChunkModel, files: Seq<FileModel>) -> bool {
    resolve_model(files, d.hash).len() > 0 && d.offset + d.size <= blob.len()
}

/// One write per resolved placement, all carrying the same chunk bytes.
pub open spec fn placement_ops(r: Seq<(int, ChunkModel)>, data: Seq<u8>) -> Seq<WriteOp> {
    Seq::new(r.len(), |i: int| WriteOp { file: r[i].0, off: r[i].1.offset as int, data: data })
}

/// The writes one descriptor causes.
pub open spec fn chunk_ops(blob: Seq<u8>, d: ChunkModel, files: Seq<FileModel>) -> Seq<WriteOp> {
    placement_ops(resolve_model(files, d.hash), chunk_data(blob, d))
}

/// The writes a whole bundle causes, descriptor by descriptor in order.
pub open spec fn bundle_ops(blob: Seq<u8>, descs: Seq<ChunkModel>, files: Seq<FileModel>) -> Seq<
    WriteOp,
>
    decreases descs.len(),
{
    if descs.len() == 0 {
        Seq::empty()
    } else {
        bundle_ops(blob, descs.drop_last(), files) + chunk_ops(blob, descs.last(), files)
    }
}

/// Every descriptor of the bundle is extractable.
pub open spec fn descs_ok(blob: Seq<u8>, descs: Seq<ChunkModel>, files: Seq<FileModel>) -> bool {
    forall|i: int| 0 <= i < descs.len() ==> chunk_ok(blob, #[trigger] descs[i], files)
}

/// Machine limit: every placement the descriptor resolves to ends at an
/// offset a `usize` can address.
pub open spec fn placements_fit(files: Seq<FileModel>, d: ChunkModel) -> bool {
    forall|i: int|
        0 <= i < resolve_model(files, d.hash).len() ==> (#[trigger] resolve_model(
            files,
            d.hash,
        )[i]).1.offset + d.size <= usize::MAX
}

/// The writes of one descriptor name only file indexes of the fragment and
/// non-negative offsets.
pub proof fn lemma_chunk_ops_valid(blob: Seq<u8>, d: ChunkModel, files: Seq<FileModel>)
    ensures
        valid_ops(chunk_ops(blob, d, files), files.len() as int),
{
    lemma_resolve_indexes_in_range(files, d.hash);
}

/// The writes of a whole bundle name only file indexes of the fragment and
/// non-negative offsets.
pub proof fn lemma_bundle_ops_valid(blob: Seq<u8>, descs: Seq<ChunkModel>, files: Seq<FileModel>)
    ensures
        valid_ops(bundle_ops(blob, descs, files), files.len() as int),
    decreases descs.len(),
{
    if descs.len() > 0 {
        lemma_bundle_ops_valid(blob, descs.drop_last(), files);
        lemma_chunk_ops_valid(blob, descs.last(), files);
        let w1 = bundle_ops(blob, descs.drop_last(), files);
        let w2 = chunk_ops(blob, descs.last(), files);
        assert forall|i: int| 0 <= i < bundle_ops(blob, descs, files).len() implies 0 <= (
        #[trigger] bundle_ops(blob, descs, files)[i]).file < files.len() && bundle_ops(
            blob,
            descs,
            files,
        )[i].off >= 0 by {
            if i < w1.len() {
                assert(bundle_ops(blob, descs, files)[i] == w1[i]);
            } else {
                assert(bundle_ops(blob, descs, files)[i] == w2[i - w1.len()]);
            }
        }
    }
}

/// Applying concatenated write lists is applying them one after the other.
pub proof fn lemma_apply_ops_concat(cs: Seq<Seq<u8>>, ws1: Seq<WriteOp>, ws2: Seq<WriteOp>)
    ensures
        apply_ops(cs, ws1 + ws2) == apply_ops(apply_ops(cs, ws1), ws2),
    decreases ws2.len(),
{
    if ws2.len() == 0 {
        assert(ws1 + ws2 =~= ws1);
    } else {
        lemma_apply_ops_concat(cs, ws1, ws2.drop_last());
        assert((ws1 + ws2).drop_last() =~= ws1 + ws2.drop_last());
        assert((ws1 + ws2).last() == ws2.last());
    }
}

/// Idempotence law: extracting the same bundle twice over the same manifest
/// leaves byte-identical destination contents; a re-run neither corrupts nor
/// duplicates data.
pub proof fn lemma_extract_idempotent(
    cs: Seq<Seq<u8>>,
    blob: Seq<u8>,
    descs: Seq<ChunkModel>,
    files: Seq<FileModel>,
)
    requires
        cs.len() == files.len(),
    ensures
        apply_ops(apply_ops(cs, bundle_ops(blob, descs, files)), bundle_ops(blob, descs, files))
            == apply_ops(cs, bundle_ops(blob, descs, files)),
{
    lemma_bundle_ops_valid(blob, descs, files);
    lemma_apply_ops_idempotent(cs, bundle_ops(blob, descs, files));
}

/// Dedup fan-out law: every resolved placement that is the last one of its
/// file receives the descriptor's bytes at its declared file-local offset.
/// Two distinct files each holding one placement of the hash therefore both
/// end up with byte-identical content at their respective offsets.
pub proof fn lemma_dedup_fanout(
    cs: Seq<Seq<u8>>,
    blob: Seq<u8>,
    d: ChunkModel,
    files: Seq<FileModel>,
    i: int,
)
    requires
        cs.len() == files.len(),
        chunk_ok(blob, d, files),
        0 <= i < resolve_model(files, d.hash).len(),
        forall|k: int|
            i < k < resolve_model(files, d.hash).len() ==> (#[trigger] resolve_model(
                files,
                d.hash,
            )[k]).0 != resolve_model(files, d.hash)[i].0,
    ensures
        forall|p: int|
            resolve_model(files, d.hash)[i].1.offset <= p < resolve_model(files, d.hash)[i].1.offset
                + d.size ==> #[trigger] byte_at(
                apply_ops(cs, chunk_ops(blob, d, files))[resolve_model(files, d.hash)[i].0],
                p,
            ) == chunk_data(blob, d)[p - resolve_model(files, d.hash)[i].1.offset],
{
    let r = resolve_model(files, d.hash);
    let ops = chunk_ops(blob, d, files);
    let j = r[i].0;
    let off = r[i].1.offset as int;
    lemma_chunk_ops_valid(blob, d, files);
    lemma_apply_ops_pointwise(cs, ops);
    lemma_resolve_indexes_in_range(files, d.hash);
    assert(chunk_data(blob, d).len() == d.size);
    assert forall|p: int| off <= p < off + d.size implies #[trigger] byte_at(
        apply_ops(cs, ops)[j],
        p,
    ) == chunk_data(blob, d)[p - off] by {
        assert(ops[i] == (WriteOp { file: j, off: off, data: chunk_data(blob, d) }));
        assert(op_covers(ops[i], j, p));
        assert forall|k: int| i < k < ops.len() implies !op_covers(#[trigger] ops[k], j, p) by {
            assert(ops[k].file == r[k].0);
        }
        lemma_last_writer_wins(ops, i, j, p);
    }
}

/// Dedup fan-out, two-file form: when a descriptor's hash resolves to one
/// placement in each of two distinct files, extraction writes the same chunk
/// bytes to both files at their respective declared offsets.
pub proof fn lemma_dedup_fanout_two_files(
    cs: Seq<Seq<u8>>,
    blob: Seq<u8>,
    d: ChunkModel,
    files: Seq<FileModel>,
    i1: int,
    i2: int,
)
    requires
        cs.len() == files.len(),
        chunk_ok(blob, d, files),
        0 <= i1 < resolve_model(files, d.hash).len(),
        0 <= i2 < resolve_model(files, d.hash).len(),
        resolve_model(files, d.hash)[i1].0 != resolve_model(files, d.hash)[i2].0,
        forall|k: int|
            0 <= k < resolve_model(files, d.hash).len() && k != i1 && k != i2 ==> (
            #[trigger] resolve_model(files, d.hash)[k]).0 != resolve_model(files, d.hash)[i1].0
                && resolve_model(files, d.hash)[k].0 != resolve_model(files, d.hash)[i2].0,
    ensures
        forall|p: int|
            resolve_model(files, d.hash)[i1].1.offset <= p < resolve_model(
                files,
                d.hash,
            )[i1].1.offset + d.size ==> #[trigger] byte_at(
                apply_ops(cs, chunk_ops(blob, d, files))[resolve_model(files, d.hash)[i1].0],
                p,
            ) == chunk_data(blob, d)[p - resolve_model(files, d.hash)[i1].1.offset],
        forall|p: int|
            resolve_model(files, d.hash)[i2].1.offset <= p < resolve_model(
                files,
                d.hash,
            )[i2].1.offset + d.size ==> #[trigger] byte_at(
                apply_ops(cs, chunk_ops(blob, d, files))[resolve_model(files, d.hash)[i2].0],
                p,
            ) == chunk_data(blob, d)[p - resolve_model(files, d.hash)[i2].1.offset],
{
    lemma_dedup_fanout(cs, blob, d, files, i1);
    lemma_dedup_fanout(cs, blob, d, files, i2);
}

/// Implicit single chunk law: a descriptor whose hash matches a file with an
/// empty chunk list writes the descriptor's bytes over that file from offset
/// 0; if the file held no more than the chunk's size before, its content
/// afterwards is exactly the descriptor's bytes.
pub proof fn lemma_implicit_chunk_extracted(
    cs: Seq<Seq<u8>>,
    blob: Seq<u8>,
    d: ChunkModel,
    files: Seq<FileModel>,
    j: int,
)
    requires
        cs.len() == files.len(),
        chunk_ok(blob, d, files),
        0 <= j < files.len(),
        files[j].chunks.len() == 0,
        files[j].hash == d.hash,
        cs[j].len() <= d.size,
    ensures
        apply_ops(cs, chunk_ops(blob, d, files))[j] == chunk_data(blob, d),
{
    let r = resolve_model(files, d.hash);
    let ops = chunk_ops(blob, d, files);
    let pc = ChunkModel { size: files[j].size, hash: d.hash, offset: 0 };
    crate::resolve::lemma_implicit_single_chunk(files, d.hash, j);
    let i = choose|i: int| 0 <= i < r.len() && r[i] == (j, pc);
    crate::resolve::lemma_empty_chunklist_unique(files, d.hash, j);
    lemma_chunk_ops_valid(blob, d, files);
    lemma_apply_ops_pointwise(cs, ops);
    assert(chunk_data(blob, d).len() == d.size);
    assert(ops[i] == (WriteOp { file: j, off: 0, data: chunk_data(blob, d) }));
    assert forall|k: int| 0 <= k < ops.len() && k != i implies (#[trigger] ops[k]).file != j by {
        assert(ops[k].file == r[k].0);
    }
    lemma_file_end_single(ops, i, j);
    assert(apply_ops(cs, ops)[j].len() == d.size);
    lemma_dedup_fanout(cs, blob, d, files, i);
    assert forall|p: int| 0 <= p < d.size implies apply_ops(cs, ops)[j][p] == chunk_data(
        blob,
        d,
    )[p] by {
        assert(byte_at(apply_ops(cs, ops)[j], p) == chunk_data(blob, d)[p - 0]);
    }
    assert(apply_ops(cs, ops)[j] =~= chunk_data(blob, d));
}

/// Write `data` into a copy of `cur` at offset `off`, growing it with zeroes
/// where no byte was ever written.
pub fn write_copy(cur: &Vec<u8>, off: usize, data: &Vec<u8>) -> (r: Vec<u8>)
    requires
        off + data@.len() <= usize::MAX,
    ensures
        r@ == write_seq(cur@, off as int, data@),
{
    let end: usize = if cur.len() >= off + data.len() {
        cur.len()
    } else {
        off + data.len()
    };
    let mut r: Vec<u8> = Vec::new();
    let mut p: usize = 0;
    while p < end
        invariant
            p <= end,
            end as int == grown_len(cur@.len() as int, off as int, data@.len() as int),
            off + data@.len() <= usize::MAX,
            r@.len() == p,
            forall|q: int| 0 <= q < p ==> r@[q] == write_seq(cur@, off as int, data@)[q],
        decreases end - p,
    {
        if off <= p && p < off + data.len() {
            r.push(data[p - off]);
        } else if p < cur.len() {
            r.push(cur[p]);
        } else {
            r.push(0u8);
        }
        p = p + 1;
    }
    proof {
        assert(r@ =~= write_seq(cur@, off as int, data@));
    }
    r
}

/// Extract one chunk descriptor (bundle-local range) out of the blob and
/// write its bytes to every placement its hash resolves to, in resolution
/// order. Fails without touching anything when the hash places nowhere
/// (fatal resolution failure) or when the descriptor's range runs past the
/// end of the blob (a short read).
pub fn extract_bundle_chunks(
    blob: &Vec<u8>,
    chunk: &Chunk,
    files: &Vec<FileM>,
    contents: &mut Vec<Vec<u8>>,
) -> (res: Result<(), ExtractError>)
    requires
        old(contents)@.len() == files@.len(),
        placements_fit(files_model(files@), chunk@),
    ensures
        final(contents)@.len() == old(contents)@.len(),
        res is Ok <==> chunk_ok(blob@, chunk@, files_model(files@)),
        res is Ok ==> contents_model(final(contents)@) == apply_ops(
            contents_model(old(contents)@),
            chunk_ops(blob@, chunk@, files_model(files@)),
        ),
        res is Err ==> final(contents)@ == old(contents)@,
        res == Err::<(), ExtractError>(ExtractError::Resolution) <==> resolve_model(
            files_model(files@),
            chunk@.hash,
        ).len() == 0,
        res == Err::<(), ExtractError>(ExtractError::ShortRead) <==> (resolve_model(
            files_model(files@),
            chunk@.hash,
        ).len() > 0 && chunk@.offset + chunk@.size > blob@.len()),
{
    let ghost fm = files_model(files@);
    let placements = get_files_chunks_concerned(&chunk.hash, files);
    let ghost r = resolve_model(fm, chunk@.hash);
    if placements.len() == 0 {
        return Err(ExtractError::Resolution);
    }
    let blob_len: u64 = blob.len() as u64;
    if chunk.offset > blob_len || chunk.size > blob_len - chunk.offset {
        return Err(ExtractError::ShortRead);
    }
    let start: usize = chunk.offset as usize;
    let size: usize = chunk.size as usize;
    let data: Vec<u8> = vstd::slice::slice_to_vec(
        vstd::slice::slice_subrange(blob.as_slice(), start, start + size),
    );
    proof {
        assert(data@ == chunk_data(blob@, chunk@));
        lemma_resolve_indexes_in_range(fm, chunk@.hash);
    }
    let ghost ops = chunk_ops(blob@, chunk@, fm);
    let ghost orig = contents_model(contents@);
    let mut t: usize = 0;
    while t < placements.len()
        invariant
            t <= placements.len(),
            contents@.len() == files@.len(),
            fm == files_model(files@),
            r == resolve_model(fm, chunk@.hash),
            placements_model(placements@) == r,
            forall|i: int| 0 <= i < placements@.len() ==> (#[trigger] placements@[i]).0
                < files@.len(),
            placements_fit(fm, chunk@),
            data@ == chunk_data(blob@, chunk@),
            data@.len() == chunk@.size,
            ops == chunk_ops(blob@, chunk@, fm),
            orig.len() == contents@.len(),
            contents_model(contents@) == apply_ops(orig, ops.take(t as int)),
        decreases placements.len() - t,
    {
        let idx: usize = placements[t].0;
        let off64: u64 = placements[t].1.offset;
        proof {
            assert(r[t as int] == (idx as int, placements@[t as int].1@));
            assert(r[t as int].1.offset + chunk@.size <= usize::MAX);
        }
        let off: usize = off64 as usize;
        let ghost before = contents_model(contents@);
        let newc = write_copy(&contents[idx], off, &data);
        contents[idx] = newc;
        proof {
            assert(contents@ == contents@.subrange(0, contents@.len() as int));
            let after = contents_model(contents@);
            assert(ops[t as int] == (WriteOp {
                file: idx as int,
                off: off as int,
                data: data@,
            }));
            assert forall|q: int| 0 <= q < after.len() implies after[q] == apply_op(
                before,
                ops[t as int],
            )[q] by {
                if q == idx as int {
                    assert(after[q] == newc@);
                } else {
                    assert(after[q] == before[q]);
                }
            }
            assert(after =~= apply_op(before, ops[t as int]));
            assert(ops.take(t + 1).drop_last() =~= ops.take(t as int));
            assert(ops.take(t + 1).last() == ops[t as int]);
            assert(after == apply_ops(orig, ops.take(t + 1)));
        }
        t = t + 1;
    }
    proof {
        assert(ops.take(placements@.len() as int) =~= ops);
    }
    Ok(())
}

/// Extract a whole bundle: process its chunk descriptors strictly in order,
/// scatter-writing each one. The first descriptor that cannot be extracted
/// aborts the bundle; descriptors before it have already been written (no
/// rollback — a re-run converges, see the idempotence law).
pub fn extract_bundle(
    blob: &Vec<u8>,
    bundle: &Bundle,
    files: &Vec<FileM>,
    contents: &mut Vec<Vec<u8>>,
) -> (res: Result<(), ExtractError>)
    requires
        old(contents)@.len() == files@.len(),
        forall|i: int|
            0 <= i < bundle@.chunks.len() ==> placements_fit(
                files_model(files@),
                #[trigger] bundle@.chunks[i],
            ),
    ensures
        final(contents)@.len() == old(contents)@.len(),
        res is Ok <==> descs_ok(blob@, bundle@.chunks, files_model(files@)),
        res is Ok ==> contents_model(final(contents)@) == apply_ops(
            contents_model(old(contents)@),
            bundle_ops(blob@, bundle@.chunks, files_model(files@)),
        ),
        res is Err ==> exists|i: int|
            0 <= i < bundle@.chunks.len() && !chunk_ok(
                blob@,
                #[trigger] bundle@.chunks[i],
                files_model(files@),
            ) && (forall|k: int|
                0 <= k < i ==> chunk_ok(blob@, #[trigger] bundle@.chunks[k], files_model(files@)))
                && contents_model(final(contents)@) == apply_ops(
                contents_model(old(contents)@),
                bundle_ops(blob@, bundle@.chunks.take(i), files_model(files@)),
            ) && res == Err::<(), ExtractError>(
                if resolve_model(files_model(files@), bundle@.chunks[i].hash).len() == 0 {
                    ExtractError::Resolution
                } else {
                    ExtractError::ShortRead
                },
            ),
{
    let ghost fm = files_model(files@);
    let ghost descs = bundle@.chunks;
    let ghost orig = contents_model(contents@);
    let mut i: usize = 0;
    while i < bundle.chunks.len()
        invariant
            i <= bundle.chunks.len(),
            contents@.len() == files@.len(),
            fm == files_model(files@),
            descs == bundle@.chunks,
            orig.len() == contents@.len(),
            orig == contents_model(old(contents)@),
            forall|k: int| 0 <= k < descs.len() ==> placements_fit(fm, #[trigger] descs[k]),
            forall|k: int| 0 <= k < i ==> chunk_ok(blob@, #[trigger] descs[k], fm),
            contents_model(contents@) == apply_ops(orig, bundle_ops(blob@, descs.take(i as int), fm)),
        decreases bundle.chunks.len() - i,
    {
        let c = &bundle.chunks[i];
        proof {
            assert(descs[i as int] == c@);
        }
        let ghost before = contents_model(contents@);
        let step = extract_bundle_chunks(blob, c, files, contents);
        proof {
            assert(descs.take(i + 1).drop_last() =~= descs.take(i as int));
            assert(descs.take(i + 1).last() == descs[i as int]);
            assert(bundle_ops(blob@, descs.take(i + 1), fm) == bundle_ops(
                blob@,
                descs.take(i as int),
                fm,
            ) + chunk_ops(blob@, descs[i as int], fm));
        }
        match step {
            Ok(()) => {
                proof {
                    lemma_apply_ops_concat(
                        orig,
                        bundle_ops(blob@, descs.take(i as int), fm),
                        chunk_ops(blob@, descs[i as int], fm),
                    );
                }
            },
            Err(e) => {
                proof {
                    assert(!chunk_ok(blob@, descs[i as int], fm));
                    assert(contents_model(contents@) == apply_ops(
                        orig,
                        bundle_ops(blob@, descs.take(i as int), fm),
                    ));
                }
                return Err(e);
            },
        }
        i = i + 1;
    }
    proof {
        assert(descs.take(bundle.chunks@.len() as int) =~= descs);
    }
    Ok(())
}

} // verus!
