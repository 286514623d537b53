//! Manifest decoding: turn the raw tree the wire-format reader hands over
//! into the validated in-memory model. A fragment must carry a files list
//! and a bundles list, and a bundle must carry its chunk list (each absence
//! is a fatal decode error), but a file may omit its chunk list: that file
//! is the single implicit chunk. Every raw digest is rendered to lowercase
//! hex here, once; raw and hex forms are never compared.

use vstd::prelude::*;
use crate::hex::{hex_of, vec_to_hex_string};
use crate::models::{
    bundles_model, chunks_model, files_model, fragments_model, Bundle, BundleModel, Chunk,
    ChunkModel, FileM, FileModel, Fragment, FragmentModel, Manifest, ManifestModel,
};

verus! {

/// Length in bytes of a raw content digest on the wire.
pub const DIGEST_BYTES: usize = 20;

/// Wire-level chunk as the black-box manifest reader hands it over: the
/// digest still raw bytes, possibly absent.
pub struct RawChunk {
    pub size: u64,
    pub hash: Option<Vec<u8>>,
    pub offset: u64,
}

/// Wire-level file entry; a missing chunk list is tolerated, a missing name
/// or digest is not.
pub struct RawFile {
    pub name: Option<String>,
    pub size: u64,
    pub hash: Option<Vec<u8>>,
    pub chunks: Option<Vec<RawChunk>>,
    pub executable: bool,
    pub symlink: Option<String>,
}

/// Wire-level bundle entry; both digest and chunk list are required.
pub struct RawBundle {
    pub hash: Option<Vec<u8>>,
    pub chunks: Option<Vec<RawChunk>>,
}

/// Wire-level fragment; name, files list and bundles list are all required.
pub struct RawFragment {
    pub name: Option<String>,
    pub files: Option<Vec<RawFile>>,
    pub bundles: Option<Vec<RawBundle>>,
}

/// Wire-level manifest root.
pub struct RawManifest {
    pub fragments: Option<Vec<RawFragment>>,
}

/// Why a manifest cannot be decoded; each case is fatal for the whole
/// operation.
#[derive(PartialEq, Eq, Structural, Debug, Clone, Copy)]
pub enum DecodeError {
    MissingFragments,
    MissingName,
    MissingFiles,
    MissingBundles,
    MissingChunks,
    MissingHash,
    BadHashLength,
}

/// A raw digest decodes to its hex form when present and of digest length.
pub open spec fn decode_hash_spec(h: Option<Vec<u8>>) -> Result<Seq<char>, DecodeError> {
    match h {
        Option::None => Result::Err(DecodeError::MissingHash),
        Option::Some(v) => if v@.len() == DIGEST_BYTES {
            Result::Ok(hex_of(v@))
        } else {
            Result::Err(DecodeError::BadHashLength)
        },
    }
}

/// One raw chunk decodes when its digest does.
pub open spec fn decode_chunk_spec(c: RawChunk) -> Result<ChunkModel, DecodeError> {
    match decode_hash_spec(c.hash) {
        Result::Err(e) => Result::Err(e),
        Result::Ok(h) => Result::Ok(
            ChunkModel { size: c.size as nat, hash: h, offset: c.offset as nat },
        ),
    }
}

/// A raw chunk list decodes element-wise; the first failure decides.
pub open spec fn decode_chunks_spec(cs: Seq<RawChunk>) -> Result<Seq<ChunkModel>, DecodeError>
    decreases cs.len(),
{
    if cs.len() == 0 {
        Result::Ok(Seq::empty())
    } else {
        match decode_chunk_spec(cs[0]) {
            Result::Err(e) => Result::Err(e),
            Result::Ok(c) => match decode_chunks_spec(cs.drop_first()) {
                Result::Err(e) => Result::Err(e),
                Result::Ok(rest) => Result::Ok(seq![c] + rest),
            },
        }
    }
}

/// One raw file decodes when its name and digest are present; an absent
/// chunk list is the implicit single chunk, not an error.
pub open spec fn decode_file_spec(f: RawFile) -> Result<FileModel, DecodeError> {
    match f.name {
        Option::None => Result::Err(DecodeError::MissingName),
        Option::Some(name) => match decode_hash_spec(f.hash) {
            Result::Err(e) => Result::Err(e),
            Result::Ok(h) => {
                let decoded_chunks = match f.chunks {
                    Option::None => Result::Ok(Seq::<ChunkModel>::empty()),
                    Option::Some(cv) => decode_chunks_spec(cv@),
                };
                match decoded_chunks {
                    Result::Err(e) => Result::Err(e),
                    Result::Ok(cs) => Result::Ok(
                        FileModel {
                            name: name@,
                            size: f.size as nat,
                            hash: h,
                            chunks: cs,
                            executable: f.executable,
                            symlink: match f.symlink {
                                Option::None => Seq::empty(),
                                Option::Some(s) => s@,
                            },
                        },
                    ),
                }
            },
        },
    }
}

/// A raw file list decodes element-wise; the first failure decides.
pub open spec fn decode_files_spec(fs: Seq<RawFile>) -> Result<Seq<FileModel>, DecodeError>
    decreases fs.len(),
{
    if fs.len() == 0 {
        Result::Ok(Seq::empty())
    } else {
        match decode_file_spec(fs[0]) {
            Result::Err(e) => Result::Err(e),
            Result::Ok(f) => match decode_files_spec(fs.drop_first()) {
                Result::Err(e) => Result::Err(e),
                Result::Ok(rest) => Result::Ok(seq![f] + rest),
            },
        }
    }
}

/// One raw bundle decodes when its digest and its chunk list are present.
pub open spec fn decode_bundle_spec(b: RawBundle) -> Result<BundleModel, DecodeError> {
    match decode_hash_spec(b.hash) {
        Result::Err(e) => Result::Err(e),
        Result::Ok(h) => match b.chunks {
            Option::None => Result::Err(DecodeError::MissingChunks),
            Option::Some(cv) => match decode_chunks_spec(cv@) {
                Result::Err(e) => Result::Err(e),
                Result::Ok(cs) => Result::Ok(BundleModel { hash: h, chunks: cs }),
            },
        },
    }
}

/// A raw bundle list decodes element-wise; the first failure decides.
pub open spec fn decode_bundles_spec(bs: Seq<RawBundle>) -> Result<Seq<BundleModel>, DecodeError>
    decreases bs.len(),
{
    if bs.len() == 0 {
        Result::Ok(Seq::empty())
    } else {
        match decode_bundle_spec(bs[0]) {
            Result::Err(e) => Result::Err(e),
            Result::Ok(b) => match decode_bundles_spec(bs.drop_first()) {
                Result::Err(e) => Result::Err(e),
                Result::Ok(rest) => Result::Ok(seq![b] + rest),
            },
        }
    }
}

/// One raw fragment decodes when its name, files list and bundles list are
/// all present and their elements decode; files are checked before bundles.
pub open spec fn decode_fragment_spec(f: RawFragment) -> Result<FragmentModel, DecodeError> {
    match f.name {
        Option::None => Result::Err(DecodeError::MissingName),
        Option::Some(name) => match f.files {
            Option::None => Result::Err(DecodeError::MissingFiles),
            Option::Some(fv) => match decode_files_spec(fv@) {
                Result::Err(e) => Result::Err(e),
                Result::Ok(fs) => match f.bundles {
                    Option::None => Result::Err(DecodeError::MissingBundles),
                    Option::Some(bv) => match decode_bundles_spec(bv@) {
                        Result::Err(e) => Result::Err(e),
                        Result::Ok(bs) => Result::Ok(
                            FragmentModel { name: name@, files: fs, bundles: bs },
                        ),
                    },
                },
            },
        },
    }
}

/// A raw fragment list decodes element-wise; the first failure decides.
pub open spec fn decode_fragments_spec(fs: Seq<RawFragment>) -> Result<
    Seq<FragmentModel>,
    DecodeError,
>
    decreases fs.len(),
{
    if fs.len() == 0 {
        Result::Ok(Seq::empty())
    } else {
        match decode_fragment_spec(fs[0]) {
            Result::Err(e) => Result::Err(e),
            Result::Ok(f) => match decode_fragments_spec(fs.drop_first()) {
                Result::Err(e) => Result::Err(e),
                Result::Ok(rest) => Result::Ok(seq![f] + rest),
            },
        }
    }
}

/// The whole manifest decodes when a fragments list is present and every
/// fragment decodes.
pub open spec fn decode_manifest_spec(m: RawManifest) -> Result<ManifestModel, DecodeError> {
    match m.fragments {
        Option::None => Result::Err(DecodeError::MissingFragments),
        Option::Some(fv) => match decode_fragments_spec(fv@) {
            Result::Err(e) => Result::Err(e),
            Result::Ok(fs) => Result::Ok(ManifestModel { fragments: fs }),
        },
    }
}

fn decode_hash(h: &Option<Vec<u8>>) -> (res: Result<String, DecodeError>)
    ensures
        res is Ok <==> decode_hash_spec(*h) is Ok,
        res is Ok ==> res->Ok_0@ == decode_hash_spec(*h)->Ok_0,
        res is Err ==> res->Err_0 == decode_hash_spec(*h)->Err_0,
{
    match h {
        Option::None => Err(DecodeError::MissingHash),
        Option::Some(v) => {
            if v.len() != DIGEST_BYTES {
                Err(DecodeError::BadHashLength)
            } else {
                Ok(vec_to_hex_string(v))
            }
        },
    }
}

fn decode_chunk(c: &RawChunk) -> (res: Result<Chunk, DecodeError>)
    ensures
        res is Ok <==> decode_chunk_spec(*c) is Ok,
        res is Ok ==> res->Ok_0@ == decode_chunk_spec(*c)->Ok_0,
        res is Err ==> res->Err_0 == decode_chunk_spec(*c)->Err_0,
{
    match decode_hash(&c.hash) {
        Err(e) => Err(e),
        Ok(h) => Ok(Chunk { size: c.size, hash: h, offset: c.offset }),
    }
}

fn decode_chunks(v: &Vec<RawChunk>, i: usize) -> (res: Result<Vec<Chunk>, DecodeError>)
    requires
        i <= v@.len(),
    ensures
        res is Ok <==> decode_chunks_spec(v@.subrange(i as int, v@.len() as int)) is Ok,
        res is Ok ==> chunks_model(res->Ok_0@) == decode_chunks_spec(
            v@.subrange(i as int, v@.len() as int),
        )->Ok_0,
        res is Err ==> res->Err_0 == decode_chunks_spec(
            v@.subrange(i as int, v@.len() as int),
        )->Err_0,
    decreases v@.len() - i,
{
    let ghost tail = v@.subrange(i as int, v@.len() as int);
    if i == v.len() {
        proof {
            assert(tail.len() == 0);
        }
        Ok(Vec::new())
    } else {
        proof {
            assert(tail[0] == v@[i as int]);
            assert(tail.drop_first() =~= v@.subrange(i + 1, v@.len() as int));
        }
        match decode_chunk(&v[i]) {
            Err(e) => Err(e),
            Ok(c) => match decode_chunks(v, i + 1) {
                Err(e) => Err(e),
                Ok(mut rest) => {
                    rest.insert(0, c);
                    proof {
                        assert(chunks_model(rest@) =~= seq![c@] + chunks_model(
                            rest@.drop_first(),
                        ));
                    }
                    Ok(rest)
                },
            },
        }
    }
}

fn decode_file(f: &RawFile) -> (res: Result<FileM, DecodeError>)
    ensures
        res is Ok <==> decode_file_spec(*f) is Ok,
        res is Ok ==> res->Ok_0@ == decode_file_spec(*f)->Ok_0,
        res is Err ==> res->Err_0 == decode_file_spec(*f)->Err_0,
{
    let name = match &f.name {
        Option::None => {
            return Err(DecodeError::MissingName);
        },
        Option::Some(n) => n.clone(),
    };
    let hash = match decode_hash(&f.hash) {
        Err(e) => {
            return Err(e);
        },
        Ok(h) => h,
    };
    let chunks = match &f.chunks {
        Option::None => Vec::new(),
        Option::Some(cv) => {
            proof {
                assert(cv@.subrange(0, cv@.len() as int) =~= cv@);
            }
            match decode_chunks(cv, 0) {
                Err(e) => {
                    return Err(e);
                },
                Ok(cs) => cs,
            }
        },
    };
    let symlink = match &f.symlink {
        Option::None => String::new(),
        Option::Some(s) => s.clone(),
    };
    let file = FileM { name, size: f.size, hash, chunks, executable: f.executable, symlink };
    proof {
        assert(file@ =~= decode_file_spec(*f)->Ok_0);
    }
    Ok(file)
}

fn decode_files(v: &Vec<RawFile>, i: usize) -> (res: Result<Vec<FileM>, DecodeError>)
    requires
        i <= v@.len(),
    ensures
        res is Ok <==> decode_files_spec(v@.subrange(i as int, v@.len() as int)) is Ok,
        res is Ok ==> files_model(res->Ok_0@) == decode_files_spec(
            v@.subrange(i as int, v@.len() as int),
        )->Ok_0,
        res is Err ==> res->Err_0 == decode_files_spec(
            v@.subrange(i as int, v@.len() as int),
        )->Err_0,
    decreases v@.len() - i,
{
    let ghost tail = v@.subrange(i as int, v@.len() as int);
    if i == v.len() {
        proof {
            assert(tail.len() == 0);
        }
        Ok(Vec::new())
    } else {
        proof {
            assert(tail[0] == v@[i as int]);
            assert(tail.drop_first() =~= v@.subrange(i + 1, v@.len() as int));
        }
        match decode_file(&v[i]) {
            Err(e) => Err(e),
            Ok(f) => match decode_files(v, i + 1) {
                Err(e) => Err(e),
                Ok(mut rest) => {
                    rest.insert(0, f);
                    proof {
                        assert(files_model(rest@) =~= seq![f@] + files_model(rest@.drop_first()));
                    }
                    Ok(rest)
                },
            },
        }
    }
}

fn decode_bundle(b: &RawBundle) -> (res: Result<Bundle, DecodeError>)
    ensures
        res is Ok <==> decode_bundle_spec(*b) is Ok,
        res is Ok ==> res->Ok_0@ == decode_bundle_spec(*b)->Ok_0,
        res is Err ==> res->Err_0 == decode_bundle_spec(*b)->Err_0,
{
    let hash = match decode_hash(&b.hash) {
        Err(e) => {
            return Err(e);
        },
        Ok(h) => h,
    };
    match &b.chunks {
        Option::None => Err(DecodeError::MissingChunks),
        Option::Some(cv) => {
            proof {
                assert(cv@.subrange(0, cv@.len() as int) =~= cv@);
            }
            match decode_chunks(cv, 0) {
                Err(e) => Err(e),
                Ok(cs) => Ok(Bundle { hash, chunks: cs }),
            }
        },
    }
}

fn decode_bundles(v: &Vec<RawBundle>, i: usize) -> (res: Result<Vec<Bundle>, DecodeError>)
    requires
        i <= v@.len(),
    ensures
        res is Ok <==> decode_bundles_spec(v@.subrange(i as int, v@.len() as int)) is Ok,
        res is Ok ==> bundles_model(res->Ok_0@) == decode_bundles_spec(
            v@.subrange(i as int, v@.len() as int),
        )->Ok_0,
        res is Err ==> res->Err_0 == decode_bundles_spec(
            v@.subrange(i as int, v@.len() as int),
        )->Err_0,
    decreases v@.len() - i,
{
    let ghost tail = v@.subrange(i as int, v@.len() as int);
    if i == v.len() {
        proof {
            assert(tail.len() == 0);
        }
        Ok(Vec::new())
    } else {
        proof {
            assert(tail[0] == v@[i as int]);
            assert(tail.drop_first() =~= v@.subrange(i + 1, v@.len() as int));
        }
        match decode_bundle(&v[i]) {
            Err(e) => Err(e),
            Ok(b) => match decode_bundles(v, i + 1) {
                Err(e) => Err(e),
                Ok(mut rest) => {
                    rest.insert(0, b);
                    proof {
                        assert(bundles_model(rest@) =~= seq![b@] + bundles_model(
                            rest@.drop_first(),
                        ));
                    }
                    Ok(rest)
                },
            },
        }
    }
}

fn decode_fragment(f: &RawFragment) -> (res: Result<Fragment, DecodeError>)
    ensures
        res is Ok <==> decode_fragment_spec(*f) is Ok,
        res is Ok ==> res->Ok_0@ == decode_fragment_spec(*f)->Ok_0,
        res is Err ==> res->Err_0 == decode_fragment_spec(*f)->Err_0,
{
    let name = match &f.name {
        Option::None => {
            return Err(DecodeError::MissingName);
        },
        Option::Some(n) => n.clone(),
    };
    let files = match &f.files {
        Option::None => {
            return Err(DecodeError::MissingFiles);
        },
        Option::Some(fv) => {
            proof {
                assert(fv@.subrange(0, fv@.len() as int) =~= fv@);
            }
            match decode_files(fv, 0) {
                Err(e) => {
                    return Err(e);
                },
                Ok(fs) => fs,
            }
        },
    };
    let bundles = match &f.bundles {
        Option::None => {
            return Err(DecodeError::MissingBundles);
        },
        Option::Some(bv) => {
            proof {
                assert(bv@.subrange(0, bv@.len() as int) =~= bv@);
            }
            match decode_bundles(bv, 0) {
                Err(e) => {
                    return Err(e);
                },
                Ok(bs) => bs,
            }
        },
    };
    Ok(Fragment { name, files, bundles })
}

fn decode_fragments(v: &Vec<RawFragment>, i: usize) -> (res: Result<Vec<Fragment>, DecodeError>)
    requires
        i <= v@.len(),
    ensures
        res is Ok <==> decode_fragments_spec(v@.subrange(i as int, v@.len() as int)) is Ok,
        res is Ok ==> fragments_model(res->Ok_0@) == decode_fragments_spec(
            v@.subrange(i as int, v@.len() as int),
        )->Ok_0,
        res is Err ==> res->Err_0 == decode_fragments_spec(
            v@.subrange(i as int, v@.len() as int),
        )->Err_0,
    decreases v@.len() - i,
{
    let ghost tail = v@.subrange(i as int, v@.len() as int);
    if i == v.len() {
        proof {
            assert(tail.len() == 0);
        }
        Ok(Vec::new())
    } else {
        proof {
            assert(tail[0] == v@[i as int]);
            assert(tail.drop_first() =~= v@.subrange(i + 1, v@.len() as int));
        }
        match decode_fragment(&v[i]) {
            Err(e) => Err(e),
            Ok(f) => match decode_fragments(v, i + 1) {
                Err(e) => Err(e),
                Ok(mut rest) => {
                    rest.insert(0, f);
                    proof {
                        assert(fragments_model(rest@) =~= seq![f@] + fragments_model(
                            rest@.drop_first(),
                        ));
                    }
                    Ok(rest)
                },
            },
        }
    }
}

/// Decode a raw manifest tree into the validated model, or fail with the
/// first decode error in tree order. No network or disk access happens here.
pub fn decode_manifest(raw: &RawManifest) -> (res: Result<Manifest, DecodeError>)
    ensures
        res is Ok <==> decode_manifest_spec(*raw) is Ok,
        res is Ok ==> res->Ok_0@ == decode_manifest_spec(*raw)->Ok_0,
        res is Err ==> res->Err_0 == decode_manifest_spec(*raw)->Err_0,
{
    match &raw.fragments {
        Option::None => Err(DecodeError::MissingFragments),
        Option::Some(fv) => {
            proof {
                assert(fv@.subrange(0, fv@.len() as int) =~= fv@);
            }
            match decode_fragments(fv, 0) {
                Err(e) => Err(e),
                Ok(fs) => Ok(Manifest { fragments: fs }),
            }
        },
    }
}

} // verus!
