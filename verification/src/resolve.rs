//! Chunk resolution: given a content hash, find every (file, placement) pair
//! of the fragment whose hash matches. A hash may resolve to zero, one or
//! many placements across one or more files; many placements is the dedup
//! fan-out. A file with an empty chunk list counts as one implicit chunk
//! covering the whole file at offset 0.

use vstd::prelude::*;
use crate::models::{files_model, Chunk, ChunkModel, FileM, FileModel};

verus! {

/// The explicit chunks of `chunks` whose hash is `h`, in order.
pub open spec fn matching_chunks(chunks: Seq<ChunkModel>, h: Seq<char>) -> Seq<ChunkModel>
    decreases chunks.len(),
{
    if chunks.len() == 0 {
        Seq::empty()
    } else if chunks.last().hash == h {
        matching_chunks(chunks.drop_last(), h) + seq![chunks.last()]
    } else {
        matching_chunks(chunks.drop_last(), h)
    }
}

/// The placements one file contributes for content hash `h`: the implicit
/// whole-file placement when its chunk list is empty and its own hash
/// matches, otherwise every explicit chunk whose hash is `h`.
pub open spec fn file_placements(f: FileModel, h: Seq<char>) -> Seq<ChunkModel> {
    if f.chunks.len() == 0 {
        if f.hash == h {
            seq![ChunkModel { size: f.size, hash: f.hash, offset: 0 }]
        } else {
            Seq::empty()
        }
    } else {
        matching_chunks(f.chunks, h)
    }
}

/// Every element of `s` paired with the file index `j` it belongs to.
pub open spec fn with_file_index(j: int, s: Seq<ChunkModel>) -> Seq<(int, ChunkModel)> {
    Seq::new(s.len(), |i: int| (j, s[i]))
}

/// All placements of hash `h` over `files`, in file order then chunk order,
/// each paired with the index of its file.
pub open spec fn resolve_model(files: Seq<FileModel>, h: Seq<char>) -> Seq<(int, ChunkModel)>
    decreases files.len(),
{
    if files.len() == 0 {
        Seq::empty()
    } else {
        resolve_model(files.drop_last(), h) + with_file_index(
            files.len() - 1,
            file_placements(files.last(), h),
        )
    }
}

/// The model of an executable resolution result.
pub open spec fn placements_model(r: Seq<(usize, Chunk)>) -> Seq<(int, ChunkModel)> {
    r.map_values(|p: (usize, Chunk)| (p.0 as int, p.1@))
}

/// Every resolved placement names a file index inside `files`.
pub proof fn lemma_resolve_indexes_in_range(files: Seq<FileModel>, h: Seq<char>)
    ensures
        forall|i: int|
            0 <= i < resolve_model(files, h).len() ==> 0 <= #[trigger] resolve_model(files, h)[i].0
                < files.len(),
    decreases files.len(),
{
    if files.len() > 0 {
        lemma_resolve_indexes_in_range(files.drop_last(), h);
        let sub = resolve_model(files.drop_last(), h);
        let tail = with_file_index(files.len() - 1, file_placements(files.last(), h));
        assert forall|i: int| 0 <= i < resolve_model(files, h).len() implies 0 <= #[trigger] resolve_model(
            files,
            h,
        )[i].0 < files.len() by {
            if i < sub.len() {
                assert(resolve_model(files, h)[i] == sub[i]);
            } else {
                assert(resolve_model(files, h)[i] == tail[i - sub.len()]);
            }
        }
    }
}

/// A file with an empty chunk list and a matching hash is resolved as one
/// whole-file placement at offset 0: the implicit single chunk.
pub proof fn lemma_implicit_single_chunk(files: Seq<FileModel>, h: Seq<char>, j: int)
    requires
        0 <= j < files.len(),
        files[j].chunks.len() == 0,
        files[j].hash == h,
    ensures
        resolve_model(files, h).contains(
            (j, ChunkModel { size: files[j].size, hash: h, offset: 0 }),
        ),
    decreases files.len(),
{
    let r = resolve_model(files, h);
    let p = (j, ChunkModel { size: files[j].size, hash: h, offset: 0 });
    if j == files.len() - 1 {
        let tail = with_file_index(j, file_placements(files.last(), h));
        assert(r[r.len() - 1] == tail[0]);
        assert(r[r.len() - 1] == p);
    } else {
        lemma_implicit_single_chunk(files.drop_last(), h, j);
        let sub = resolve_model(files.drop_last(), h);
        assert(files.drop_last()[j] == files[j]);
        let k = choose|k: int| 0 <= k < sub.len() && sub[k] == p;
        assert(r[k] == sub[k]);
    }
}

/// A file with an empty chunk list is resolved to at most one placement, and
/// that placement is the implicit whole-file one.
pub proof fn lemma_empty_chunklist_unique(files: Seq<FileModel>, h: Seq<char>, j: int)
    requires
        0 <= j < files.len(),
        files[j].chunks.len() == 0,
    ensures
        forall|k: int|
            0 <= k < resolve_model(files, h).len() && (#[trigger] resolve_model(files, h)[k]).0
                == j ==> resolve_model(files, h)[k].1 == (ChunkModel {
                size: files[j].size,
                hash: files[j].hash,
                offset: 0,
            }),
        forall|k1: int, k2: int|
            0 <= k1 < resolve_model(files, h).len() && 0 <= k2 < resolve_model(files, h).len()
                && (#[trigger] resolve_model(files, h)[k1]).0 == j && (#[trigger] resolve_model(
                files,
                h,
            )[k2]).0 == j ==> k1 == k2,
    decreases files.len(),
{
    let r = resolve_model(files, h);
    let r0 = resolve_model(files.drop_last(), h);
    let tail = with_file_index(files.len() - 1, file_placements(files.last(), h));
    lemma_resolve_indexes_in_range(files.drop_last(), h);
    if j == files.len() - 1 {
        assert(file_placements(files.last(), h).len() <= 1);
        assert forall|k: int| 0 <= k < r.len() && (#[trigger] r[k]).0 == j implies k >= r0.len()
            && r[k].1 == (ChunkModel { size: files[j].size, hash: files[j].hash, offset: 0 }) by {
            if k < r0.len() {
                assert(r[k] == r0[k]);
            } else {
                assert(r[k] == tail[k - r0.len()]);
            }
        }
    } else {
        assert(files.drop_last()[j] == files[j]);
        lemma_empty_chunklist_unique(files.drop_last(), h, j);
        assert forall|k: int| 0 <= k < r.len() && (#[trigger] r[k]).0 == j implies k < r0.len()
            && r[k].1 == (ChunkModel { size: files[j].size, hash: files[j].hash, offset: 0 }) by {
            if k < r0.len() {
                assert(r[k] == r0[k]);
            } else {
                assert(r[k] == tail[k - r0.len()]);
            }
        }
    }
}

/// Scan all files of the fragment and return every placement whose hash
/// matches, paired with the index of the file it must be written into.
pub fn get_files_chunks_concerned(hash: &String, files: &Vec<FileM>) -> (r: Vec<(usize, Chunk)>)
    ensures
        placements_model(r@) == resolve_model(files_model(files@), hash@),
        forall|i: int| 0 <= i < r@.len() ==> (#[trigger] r@[i]).0 < files@.len(),
{
    let ghost fm = files_model(files@);
    let mut r: Vec<(usize, Chunk)> = Vec::new();
    let mut j: usize = 0;
    while j < files.len()
        invariant
            j <= files.len(),
            fm == files_model(files@),
            placements_model(r@) == resolve_model(fm.take(j as int), hash@),
            forall|i: int| 0 <= i < r@.len() ==> (#[trigger] r@[i]).0 < files@.len(),
        decreases files.len() - j,
    {
        let ghost r_prev = placements_model(r@);
        let file = &files[j];
        proof {
            assert(fm[j as int] == file@);
        }
        if file.chunks.len() == 0 {
            if file.hash.eq(hash) {
                r.push((j, Chunk { size: file.size, hash: file.hash.clone(), offset: 0 }));
                proof {
                    assert(placements_model(r@) =~= r_prev + with_file_index(
                        j as int,
                        file_placements(file@, hash@),
                    ));
                }
            } else {
                proof {
                    assert(placements_model(r@) =~= r_prev + with_file_index(
                        j as int,
                        file_placements(file@, hash@),
                    ));
                }
            }
        } else {
            let mut k: usize = 0;
            while k < file.chunks.len()
                invariant
                    k <= file.chunks.len(),
                    j < files.len(),
                    fm == files_model(files@),
                    file == &files[j as int],
                    fm[j as int] == file@,
                    placements_model(r@) == r_prev + with_file_index(
                        j as int,
                        matching_chunks(file@.chunks.take(k as int), hash@),
                    ),
                    forall|i: int| 0 <= i < r@.len() ==> (#[trigger] r@[i]).0 < files@.len(),
                decreases file.chunks.len() - k,
            {
                let ghost m_old = matching_chunks(file@.chunks.take(k as int), hash@);
                let c = &file.chunks[k];
                proof {
                    assert(file@.chunks[k as int] == c@);
                }
                if c.hash.eq(hash) {
                    let dup = c.duplicate();
                    r.push((j, dup));
                }
                proof {
                    assert(file@.chunks.take(k + 1).drop_last() =~= file@.chunks.take(k as int));
                    assert(file@.chunks.take(k + 1).last() == file@.chunks[k as int]);
                    let m_new = matching_chunks(file@.chunks.take(k + 1), hash@);
                    if c@.hash == hash@ {
                        assert(m_new == m_old + seq![c@]);
                        let lhs = placements_model(r@);
                        let rhs = r_prev + with_file_index(j as int, m_new);
                        assert((r_prev + with_file_index(j as int, m_old)).len() == r_prev.len()
                            + m_old.len());
                        assert(lhs.len() == r@.len());
                        assert(lhs.len() == rhs.len());
                        assert forall|i: int| 0 <= i < lhs.len() implies lhs[i] == rhs[i] by {
                            if i < r_prev.len() {
                                assert(lhs[i] == (r_prev + with_file_index(j as int, m_old))[i]);
                                assert(lhs[i] == r_prev[i]);
                            } else if i < lhs.len() - 1 {
                                assert(lhs[i] == (r_prev + with_file_index(j as int, m_old))[i]);
                                assert(lhs[i] == (j as int, m_old[i - r_prev.len()]));
                                assert(rhs[i] == (j as int, m_new[i - r_prev.len()]));
                                assert(m_new[i - r_prev.len()] == m_old[i - r_prev.len()]);
                            } else {
                                assert(r@[i].0 == j);
                                assert(r@[i].1@ == c@);
                                assert(lhs[i] == (j as int, c@));
                                assert(rhs[i] == (j as int, m_new[m_new.len() - 1]));
                                assert(m_new[m_new.len() - 1] == c@);
                            }
                        }
                        assert(lhs =~= rhs);
                    } else {
                        assert(m_new == m_old);
                        assert(placements_model(r@) =~= r_prev + with_file_index(j as int, m_new));
                    }
                }
                k = k + 1;
            }
            proof {
                assert(file@.chunks.take(file@.chunks.len() as int) =~= file@.chunks);
                assert(placements_model(r@) == r_prev + with_file_index(
                    j as int,
                    file_placements(file@, hash@),
                ));
            }
        }
        proof {
            assert(fm.take(j + 1).drop_last() =~= fm.take(j as int));
            assert(fm.take(j + 1).last() == fm[j as int]);
            assert(resolve_model(fm.take(j + 1), hash@) == resolve_model(fm.take(j as int), hash@)
                + with_file_index(j as int, file_placements(file@, hash@)));
            assert(placements_model(r@) =~= resolve_model(fm.take(j + 1), hash@));
        }
        j = j + 1;
    }
    proof {
        assert(fm.take(files@.len() as int) =~= fm);
    }
    r
}

} // verus!
