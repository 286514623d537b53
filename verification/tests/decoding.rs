use cytrus::decode::{
    decode_manifest, DecodeError, RawBundle, RawChunk, RawFile, RawFragment, RawManifest,
};
use cytrus::hex::vec_to_hex_string;
use cytrus::models::{Bundle, Chunk, CytrusRoot, GameRoot};
use cytrus::ranges::get_bytes_ranges;
use cytrus::urls::{bundle_url, cytrus_json_url, file_url, manifest_url};
use cytrus::version::{get_latest_version, VersionError};

fn raw_chunk(size: u64, hash_byte: u8, offset: u64) -> RawChunk {
    RawChunk { size, hash: Some(vec![hash_byte; 20]), offset }
}

fn raw_file(name: &str, size: u64, hash_byte: u8, chunks: Option<Vec<RawChunk>>) -> RawFile {
    RawFile {
        name: Some(name.to_string()),
        size,
        hash: Some(vec![hash_byte; 20]),
        chunks,
        executable: false,
        symlink: None,
    }
}

fn raw_tree() -> RawManifest {
    RawManifest {
        fragments: Some(vec![RawFragment {
            name: Some("data".to_string()),
            files: Some(vec![
                raw_file("a.bin", 20, 0xaa, None),
                raw_file("b.bin", 8, 0xbc, Some(vec![raw_chunk(8, 0xaa, 4)])),
            ]),
            bundles: Some(vec![RawBundle {
                hash: Some(vec![0xbb; 20]),
                chunks: Some(vec![raw_chunk(20, 0xaa, 100)]),
            }]),
        }]),
    }
}

#[test]
fn decode_accepts_a_full_tree_and_normalizes_hashes() {
    let m = decode_manifest(&raw_tree()).unwrap();
    assert_eq!(m.fragments.len(), 1);
    let frag = &m.fragments[0];
    assert_eq!(frag.name, "data");
    assert_eq!(frag.files.len(), 2);
    assert_eq!(frag.files[0].name, "a.bin");
    assert_eq!(frag.files[0].hash, "aa".repeat(20));
    assert_eq!(frag.files[0].hash.len(), 40);
    assert!(frag.files[0].chunks.is_empty());
    assert_eq!(frag.files[0].symlink, "");
    assert_eq!(frag.files[1].chunks.len(), 1);
    assert_eq!(frag.files[1].chunks[0].hash, "aa".repeat(20));
    assert_eq!(frag.files[1].chunks[0].offset, 4);
    assert_eq!(frag.bundles.len(), 1);
    assert_eq!(frag.bundles[0].hash, "bb".repeat(20));
    assert_eq!(frag.bundles[0].chunks[0].offset, 100);
}

#[test]
fn decode_rejects_missing_fragments() {
    let res = decode_manifest(&RawManifest { fragments: None });
    assert_eq!(res.err(), Some(DecodeError::MissingFragments));
}

#[test]
fn decode_rejects_missing_files_list() {
    let mut raw = raw_tree();
    raw.fragments.as_mut().unwrap()[0].files = None;
    assert_eq!(decode_manifest(&raw).err(), Some(DecodeError::MissingFiles));
}

#[test]
fn decode_rejects_missing_bundles_list() {
    let mut raw = raw_tree();
    raw.fragments.as_mut().unwrap()[0].bundles = None;
    assert_eq!(decode_manifest(&raw).err(), Some(DecodeError::MissingBundles));
}

#[test]
fn decode_rejects_missing_bundle_chunks() {
    let mut raw = raw_tree();
    raw.fragments.as_mut().unwrap()[0].bundles.as_mut().unwrap()[0].chunks = None;
    assert_eq!(decode_manifest(&raw).err(), Some(DecodeError::MissingChunks));
}

#[test]
fn decode_tolerates_missing_file_chunks() {
    // The asymmetry is intended: an absent file chunk list is the implicit
    // single chunk, while absent files or bundles lists are fatal.
    let m = decode_manifest(&raw_tree()).unwrap();
    assert!(m.fragments[0].files[0].chunks.is_empty());
}

#[test]
fn decode_rejects_missing_name() {
    let mut raw = raw_tree();
    raw.fragments.as_mut().unwrap()[0].name = None;
    assert_eq!(decode_manifest(&raw).err(), Some(DecodeError::MissingName));
}

#[test]
fn decode_rejects_missing_hash() {
    let mut raw = raw_tree();
    raw.fragments.as_mut().unwrap()[0].files.as_mut().unwrap()[0].hash = None;
    assert_eq!(decode_manifest(&raw).err(), Some(DecodeError::MissingHash));
}

#[test]
fn decode_rejects_wrong_hash_length() {
    let mut raw = raw_tree();
    raw.fragments.as_mut().unwrap()[0].files.as_mut().unwrap()[0].hash = Some(vec![0xaa; 19]);
    assert_eq!(decode_manifest(&raw).err(), Some(DecodeError::BadHashLength));
}

#[test]
fn hex_rendering_is_lowercase_two_digits_per_byte() {
    assert_eq!(vec_to_hex_string(&vec![0x00, 0xab, 0xff]), "00abff");
    assert_eq!(vec_to_hex_string(&vec![]), "");
    assert_eq!(vec_to_hex_string(&vec![0x12, 0x34, 0x56, 0x78, 0x9a]), "123456789a");
}

fn descriptor() -> CytrusRoot {
    CytrusRoot {
        name: "cytrus".to_string(),
        version: 6,
        games: vec![(
            "dofus".to_string(),
            GameRoot {
                name: "Dofus".to_string(),
                order: 1,
                game_id: 1,
                platforms: vec![(
                    "windows".to_string(),
                    vec![("main".to_string(), "2.71.13".to_string())],
                )],
            },
        )],
    }
}

#[test]
fn version_resolution_finds_the_release() {
    let v = get_latest_version(&descriptor(), "dofus", "windows", "main");
    assert_eq!(v.unwrap(), "2.71.13");
}

#[test]
fn version_resolution_rejects_unsupported_format() {
    let mut d = descriptor();
    d.version = 5;
    let v = get_latest_version(&d, "dofus", "windows", "main");
    assert_eq!(v.err(), Some(VersionError::UnsupportedVersion));
}

#[test]
fn version_resolution_reports_each_missing_key() {
    let d = descriptor();
    assert_eq!(
        get_latest_version(&d, "wakfu", "windows", "main").err(),
        Some(VersionError::UnknownGame)
    );
    assert_eq!(
        get_latest_version(&d, "dofus", "linux", "main").err(),
        Some(VersionError::UnknownPlatform)
    );
    assert_eq!(
        get_latest_version(&d, "dofus", "windows", "beta").err(),
        Some(VersionError::UnknownRelease)
    );
}

#[test]
fn urls_follow_the_sharded_layout() {
    let h = "abcdef".to_string() + &"00".repeat(17);
    assert_eq!(
        bundle_url("dofus", &h),
        format!("https://cytrus.cdn.ankama.com/dofus/bundles/ab/{}", h)
    );
    assert_eq!(
        file_url("dofus", &h),
        format!("https://cytrus.cdn.ankama.com/dofus/hashes/ab/{}", h)
    );
    assert_eq!(
        manifest_url("dofus", "2.71.13", "windows", "main"),
        "https://cytrus.cdn.ankama.com/dofus/releases/main/windows/2.71.13.manifest"
    );
    assert_eq!(cytrus_json_url(), "https://cytrus.cdn.ankama.com/cytrus.json");
}

#[test]
fn byte_ranges_name_every_chunk() {
    let h = "aa".repeat(20);
    let bundle = Bundle {
        hash: "bb".repeat(20),
        chunks: vec![
            Chunk { size: 10, hash: h.clone(), offset: 0 },
            Chunk { size: 10, hash: h.clone(), offset: 20 },
        ],
    };
    assert_eq!(get_bytes_ranges(&bundle), "bytes=0-9,20-29");
    let single = Bundle {
        hash: "bb".repeat(20),
        chunks: vec![Chunk { size: 123, hash: h, offset: 456 }],
    };
    assert_eq!(get_bytes_ranges(&single), "bytes=456-578");
}
