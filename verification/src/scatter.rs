//! Scatter-write semantics: the byte-level model of bundle extraction.
//!
//! Destination files are modelled as byte sequences. Writing a chunk at a
//! file-local offset extends the file with zeroes as far as needed (the
//! behaviour of seeking past the end of a file opened without truncation)
//! and overwrites exactly the written range. Extraction of a bundle is a
//! fold of such writes, one per resolved placement per chunk descriptor.

use vstd::prelude::*;
use crate::models::{files_model, Bundle, Chunk, ChunkModel, FileM, FileModel};
use crate::resolve::{
    get_files_chunks_concerned, lemma_resolve_indexes_in_range, placements_model, resolve_model,
};

verus! {

/// Why a bundle cannot be extracted.
#[derive(PartialEq, Eq, Structural, Debug, Clone, Copy)]
pub enum ExtractError {
    /// A chunk descriptor's hash matches no placement in any file of the
    /// fragment: data the manifest promised cannot be placed anywhere.
    Resolution,
    /// A descriptor's byte range does not lie inside the bundle blob, so the
    /// read would come up short.
    ShortRead,
}

/// The byte of `s` at position `p`, reading 0 beyond either end: the value a
/// destination file yields at `p` after sparse extension.
pub open spec fn byte_at(s: Seq<u8>, p: int) -> u8 {
    if 0 <= p < s.len() {
        s[p]
    } else {
        0
    }
}

/// Length of a file of length `len` after a write of `dlen` bytes at `off`.
pub open spec fn grown_len(len: int, off: int, dlen: int) -> int {
    if len >= off + dlen {
        len
    } else {
        off + dlen
    }
}

/// Content after writing `data` at offset `off`: the file grows to at least
/// `off + data.len()` (zero-filled where never written), `data` occupies
/// `[off, off + data.len())`, and every other byte keeps its old value.
pub open spec fn write_seq(c: Seq<u8>, off: int, data: Seq<u8>) -> Seq<u8>
    recommends
        off >= 0,
{
    Seq::new(
        grown_len(c.len() as int, off, data.len() as int) as nat,
        |p: int|
            if off <= p < off + data.len() {
                data[p - off]
            } else {
                byte_at(c, p)
            },
    )
}

/// One pending write: `data` goes to file index `file` at file-local `off`.
pub ghost struct WriteOp {
    pub file: int,
    pub off: int,
    pub data: Seq<u8>,
}

/// All ops stay inside a fragment of `n` files and write at sane offsets.
pub open spec fn valid_ops(ws: Seq<WriteOp>, n: int) -> bool {
    forall|i: int|
        0 <= i < ws.len() ==> 0 <= (#[trigger] ws[i]).file < n && ws[i].off >= 0
}

/// Apply one write to a sequence of file contents.
pub open spec fn apply_op(cs: Seq<Seq<u8>>, w: WriteOp) -> Seq<Seq<u8>> {
    if 0 <= w.file < cs.len() {
        cs.update(w.file, write_seq(cs[w.file], w.off, w.data))
    } else {
        cs
    }
}

/// Apply a list of writes in order.
pub open spec fn apply_ops(cs: Seq<Seq<u8>>, ws: Seq<WriteOp>) -> Seq<Seq<u8>>
    decreases ws.len(),
{
    if ws.len() == 0 {
        cs
    } else {
        apply_op(apply_ops(cs, ws.drop_last()), ws.last())
    }
}

/// `w` writes the byte at position `p` of file `file`.
pub open spec fn op_covers(w: WriteOp, file: int, p: int) -> bool {
    w.file == file && w.off <= p < w.off + w.data.len()
}

/// Some op of `ws` writes byte `p` of file `file`.
pub open spec fn any_covers(ws: Seq<WriteOp>, file: int, p: int) -> bool {
    exists|i: int| 0 <= i < ws.len() && op_covers(#[trigger] ws[i], file, p)
}

/// The byte the last covering op of `ws` leaves at position `p` of `file`.
pub open spec fn last_value(ws: Seq<WriteOp>, file: int, p: int) -> u8
    decreases ws.len(),
{
    if ws.len() == 0 {
        0
    } else if op_covers(ws.last(), file, p) {
        ws.last().data[p - ws.last().off]
    } else {
        last_value(ws.drop_last(), file, p)
    }
}

/// The end of the furthest write of `ws` into `file`.
pub open spec fn file_end(ws: Seq<WriteOp>, file: int) -> int
    decreases ws.len(),
{
    if ws.len() == 0 {
        0
    } else {
        let rest = file_end(ws.drop_last(), file);
        let this = if ws.last().file == file {
            ws.last().off + ws.last().data.len()
        } else {
            0
        };
        if rest >= this {
            rest
        } else {
            this
        }
    }
}

/// Pointwise characterisation of a fold of writes: each file keeps its
/// length unless a write reaches further; a byte written by some op holds
/// the value of the last op covering it; every other byte is unchanged.
pub proof fn lemma_apply_ops_pointwise(cs: Seq<Seq<u8>>, ws: Seq<WriteOp>)
    requires
        valid_ops(ws, cs.len() as int),
    ensures
        apply_ops(cs, ws).len() == cs.len(),
        forall|j: int|
            0 <= j < cs.len() ==> (#[trigger] apply_ops(cs, ws)[j]).len() == grown_len(
                cs[j].len() as int,
                0,
                file_end(ws, j),
            ),
        forall|j: int, p: int|
            0 <= j < cs.len() ==> #[trigger] byte_at(apply_ops(cs, ws)[j], p) == (if any_covers(
                ws,
                j,
                p,
            ) {
                last_value(ws, j, p)
            } else {
                byte_at(cs[j], p)
            }),
    decreases ws.len(),
{
    if ws.len() > 0 {
        let ws0 = ws.drop_last();
        let w = ws.last();
        lemma_apply_ops_pointwise(cs, ws0);
        let prev = apply_ops(cs, ws0);
        let cur = apply_ops(cs, ws);
        assert(cur == apply_op(prev, w));
        assert forall|j: int| 0 <= j < cs.len() implies (#[trigger] cur[j]).len() == grown_len(
            cs[j].len() as int,
            0,
            file_end(ws, j),
        ) by {
            if j == w.file {
                assert(cur[j] == write_seq(prev[j], w.off, w.data));
            } else {
                assert(cur[j] == prev[j]);
                assert(file_end(ws, j) == file_end(ws0, j));
            }
        }
        assert forall|j: int, p: int| 0 <= j < cs.len() implies #[trigger] byte_at(
            cur[j],
            p,
        ) == (if any_covers(ws, j, p) {
            last_value(ws, j, p)
        } else {
            byte_at(cs[j], p)
        }) by {
            if j == w.file && op_covers(w, j, p) {
                assert(cur[j] == write_seq(prev[j], w.off, w.data));
                assert(byte_at(cur[j], p) == w.data[p - w.off]);
                assert(op_covers(ws[ws.len() - 1], j, p));
                assert(any_covers(ws, j, p));
            } else {
                if j == w.file {
                    assert(cur[j] == write_seq(prev[j], w.off, w.data));
                    assert(byte_at(cur[j], p) == byte_at(prev[j], p));
                } else {
                    assert(cur[j] == prev[j]);
                }
                if any_covers(ws0, j, p) {
                    let i = choose|i: int|
                        0 <= i < ws0.len() && op_covers(#[trigger] ws0[i], j, p);
                    assert(op_covers(ws[i], j, p));
                    assert(any_covers(ws, j, p));
                } else if any_covers(ws, j, p) {
                    let i = choose|i: int| 0 <= i < ws.len() && op_covers(#[trigger] ws[i], j, p);
                    assert(i < ws.len() - 1 ==> op_covers(ws0[i], j, p));
                    assert(false);
                }
            }
        }
    }
}

/// Applying the same writes twice leaves what one application produced:
/// re-running an extraction neither corrupts nor duplicates data.
pub proof fn lemma_apply_ops_idempotent(cs: Seq<Seq<u8>>, ws: Seq<WriteOp>)
    requires
        valid_ops(ws, cs.len() as int),
    ensures
        apply_ops(apply_ops(cs, ws), ws) == apply_ops(cs, ws),
{
    let y = apply_ops(cs, ws);
    let z = apply_ops(y, ws);
    lemma_apply_ops_pointwise(cs, ws);
    lemma_apply_ops_pointwise(y, ws);
    assert forall|j: int| 0 <= j < y.len() implies z[j] == y[j] by {
        assert(grown_len(y[j].len() as int, 0, file_end(ws, j)) == y[j].len() as int);
        assert forall|p: int| 0 <= p < y[j].len() implies z[j][p] == y[j][p] by {
            assert(byte_at(z[j], p) == byte_at(y[j], p));
        }
        assert(z[j] =~= y[j]);
    }
    assert(z =~= y);
}

/// A file no op writes into keeps end 0.
pub proof fn lemma_file_end_none(ws: Seq<WriteOp>, file: int)
    requires
        forall|k: int| 0 <= k < ws.len() ==> (#[trigger] ws[k]).file != file,
    ensures
        file_end(ws, file) == 0,
    decreases ws.len(),
{
    if ws.len() > 0 {
        assert(ws[ws.len() - 1].file != file);
        lemma_file_end_none(ws.drop_last(), file);
    }
}

/// A file exactly one op writes into ends where that op ends.
pub proof fn lemma_file_end_single(ws: Seq<WriteOp>, i: int, file: int)
    requires
        0 <= i < ws.len(),
        ws[i].file == file,
        ws[i].off >= 0,
        forall|k: int| 0 <= k < ws.len() && k != i ==> (#[trigger] ws[k]).file != file,
    ensures
        file_end(ws, file) == ws[i].off + ws[i].data.len(),
    decreases ws.len(),
{
    if i == ws.len() - 1 {
        lemma_file_end_none(ws.drop_last(), file);
    } else {
        assert(ws[ws.len() - 1].file != file);
        assert(ws.drop_last()[i] == ws[i]);
        lemma_file_end_single(ws.drop_last(), i, file);
    }
}

/// The byte an op leaves is what the fold leaves, as long as no later op
/// covers the same position of the same file.
pub proof fn lemma_last_writer_wins(ws: Seq<WriteOp>, i: int, file: int, p: int)
    requires
        0 <= i < ws.len(),
        op_covers(ws[i], file, p),
        forall|k: int| i < k < ws.len() ==> !op_covers(#[trigger] ws[k], file, p),
    ensures
        any_covers(ws, file, p),
        last_value(ws, file, p) == ws[i].data[p - ws[i].off],
    decreases ws.len(),
{
    assert(any_covers(ws, file, p));
    if i == ws.len() - 1 {
        assert(op_covers(ws.last(), file, p));
    } else {
        assert(!op_covers(ws.last(), file, p));
        let ws0 = ws.drop_last();
        assert(ws0[i] == ws[i]);
        lemma_last_writer_wins(ws0, i, file, p);
    }
}

} // verus!
