//! In-memory model of a decoded manifest: fragments holding files and
//! bundles, both composed of content-addressed chunks. The same
//! `{size, hash, offset}` shape is used in two address spaces: attached to a
//! file, `offset` is a position inside that destination file; attached to a
//! bundle, `offset` is a position inside the downloadable blob. Contracts
//! below always say which space they speak of.

use vstd::prelude::*;

verus! {

/// A content-addressed byte range. `hash` is a lowercase hex digest string;
/// `offset` is file-local or bundle-local depending on the owner.
pub struct Chunk {
    pub size: u64,
    pub hash: String,
    pub offset: u64,
}

/// Mathematical image of a [`Chunk`].
#[verifier::ext_equal]
pub ghost struct ChunkModel {
    pub size: nat,
    pub hash: Seq<char>,
    pub offset: nat,
}

impl View for Chunk {
    type V = ChunkModel;

    open spec fn view(&self) -> ChunkModel {
        ChunkModel { size: self.size as nat, hash: self.hash@, offset: self.offset as nat }
    }
}

/// The chunk models of a chunk sequence, in order.
pub open spec fn chunks_model(s: Seq<Chunk>) -> Seq<ChunkModel> {
    s.map_values(|c: Chunk| c@)
}

/// The file models of a file sequence, in order.
pub open spec fn files_model(s: Seq<FileM>) -> Seq<FileModel> {
    s.map_values(|f: FileM| f@)
}

/// The bundle models of a bundle sequence, in order.
pub open spec fn bundles_model(s: Seq<Bundle>) -> Seq<BundleModel> {
    s.map_values(|b: Bundle| b@)
}

/// The fragment models of a fragment sequence, in order.
pub open spec fn fragments_model(s: Seq<Fragment>) -> Seq<FragmentModel> {
    s.map_values(|f: Fragment| f@)
}

impl Chunk {
    /// Deep copy; `Chunk` owns a `String`, so this is spelled out rather than
    /// derived to keep its meaning visible to the verifier.
    pub fn duplicate(&self) -> (r: Chunk)
        ensures
            r@ == self@,
    {
        Chunk { size: self.size, hash: self.hash.clone(), offset: self.offset }
    }
}

/// One destination file of a fragment. If `chunks` is empty the file is
/// logically a single chunk: hash `hash`, size `size`, file-local offset 0.
pub struct FileM {
    pub name: String,
    pub size: u64,
    pub hash: String,
    pub chunks: Vec<Chunk>,
    pub executable: bool,
    pub symlink: String,
}

/// Mathematical image of a [`FileM`].
#[verifier::ext_equal]
pub ghost struct FileModel {
    pub name: Seq<char>,
    pub size: nat,
    pub hash: Seq<char>,
    pub chunks: Seq<ChunkModel>,
    pub executable: bool,
    pub symlink: Seq<char>,
}

impl View for FileM {
    type V = FileModel;

    open spec fn view(&self) -> FileModel {
        FileModel {
            name: self.name@,
            size: self.size as nat,
            hash: self.hash@,
            chunks: chunks_model(self.chunks@),
            executable: self.executable,
            symlink: self.symlink@,
        }
    }
}

/// One downloadable blob. `hash` both addresses the blob remotely and is the
/// expected digest of its full content; each chunk's `offset` is bundle-local.
pub struct Bundle {
    pub hash: String,
    pub chunks: Vec<Chunk>,
}

/// Mathematical image of a [`Bundle`].
#[verifier::ext_equal]
pub ghost struct BundleModel {
    pub hash: Seq<char>,
    pub chunks: Seq<ChunkModel>,
}

impl View for Bundle {
    type V = BundleModel;

    open spec fn view(&self) -> BundleModel {
        BundleModel { hash: self.hash@, chunks: chunks_model(self.chunks@) }
    }
}

/// A named partition of the tree. A bundle's chunks may satisfy placements in
/// any file of the same fragment.
pub struct Fragment {
    pub name: String,
    pub files: Vec<FileM>,
    pub bundles: Vec<Bundle>,
}

/// Mathematical image of a [`Fragment`].
#[verifier::ext_equal]
pub ghost struct FragmentModel {
    pub name: Seq<char>,
    pub files: Seq<FileModel>,
    pub bundles: Seq<BundleModel>,
}

impl View for Fragment {
    type V = FragmentModel;

    open spec fn view(&self) -> FragmentModel {
        FragmentModel {
            name: self.name@,
            files: files_model(self.files@),
            bundles: bundles_model(self.bundles@),
        }
    }
}

/// One release's full asset tree; immutable once decoded.
pub struct Manifest {
    pub fragments: Vec<Fragment>,
}

/// Mathematical image of a [`Manifest`].
#[verifier::ext_equal]
pub ghost struct ManifestModel {
    pub fragments: Seq<FragmentModel>,
}

impl View for Manifest {
    type V = ManifestModel;

    open spec fn view(&self) -> ManifestModel {
        ManifestModel { fragments: fragments_model(self.fragments@) }
    }
}

/// One game's entry in the version descriptor: release name to concrete
/// version string, per platform. Keys are unique; lookups take the first
/// match, which is the only one on well-formed data.
pub struct GameRoot {
    pub name: String,
    pub order: u16,
    pub game_id: u16,
    pub platforms: Vec<(String, Vec<(String, String)>)>,
}

/// The remote version descriptor: a format version and a table of games.
pub struct CytrusRoot {
    pub name: String,
    pub version: u16,
    pub games: Vec<(String, GameRoot)>,
}

} // verus!
