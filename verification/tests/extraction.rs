use cytrus::digest::content_is_current;
use cytrus::extract::{extract_bundle, extract_bundle_chunks};
use cytrus::is_up_to_date;
use cytrus::models::{Bundle, Chunk, FileM};
use cytrus::resolve::get_files_chunks_concerned;
use cytrus::scatter::ExtractError;
use cytrus::sync::{bundle_action, file_action, SyncAction};

fn sha1_hex_of(data: &[u8]) -> String {
    sha1_smol::Sha1::from(data).digest().to_string()
}

fn file(name: &str, size: u64, hash: &str, chunks: Vec<Chunk>) -> FileM {
    FileM {
        name: name.to_string(),
        size,
        hash: hash.to_string(),
        chunks,
        executable: false,
        symlink: String::new(),
    }
}

fn chunk(size: u64, hash: &str, offset: u64) -> Chunk {
    Chunk { size, hash: hash.to_string(), offset }
}

#[test]
fn resolver_finds_explicit_and_implicit_placements() {
    let h = "aa".repeat(20);
    let files = vec![
        file("one.bin", 10, &"bb".repeat(20), vec![chunk(4, &h, 6)]),
        file("two.bin", 4, &h, vec![]),
        file("three.bin", 9, &"cc".repeat(20), vec![chunk(4, &"cc".repeat(20), 0)]),
    ];
    let r = get_files_chunks_concerned(&h, &files);
    assert_eq!(r.len(), 2);
    assert_eq!(r[0].0, 0);
    assert_eq!(r[0].1.offset, 6);
    assert_eq!(r[0].1.size, 4);
    assert_eq!(r[1].0, 1);
    assert_eq!(r[1].1.offset, 0);
    assert_eq!(r[1].1.size, 4);
    assert_eq!(r[1].1.hash, h);
}

#[test]
fn dedup_fanout_writes_both_files() {
    // One descriptor, placements in two distinct files: both get the bytes.
    let h = "11".repeat(20);
    let blob: Vec<u8> = (0u8..32).collect();
    let files = vec![
        file("a.bin", 10, &"22".repeat(20), vec![chunk(4, &h, 0)]),
        file("b.bin", 10, &"33".repeat(20), vec![chunk(4, &h, 3)]),
    ];
    let bundle = Bundle { hash: "44".repeat(20), chunks: vec![chunk(4, &h, 2)] };
    let mut contents = vec![Vec::new(), Vec::new()];
    let res = extract_bundle(&blob, &bundle, &files, &mut contents);
    assert!(res.is_ok());
    let data = &blob[2..6];
    assert_eq!(&contents[0][0..4], data);
    assert_eq!(contents[0].len(), 4);
    assert_eq!(&contents[1][3..7], data);
    assert_eq!(&contents[1][0..3], &[0u8, 0, 0]);
}

#[test]
fn implicit_single_chunk_reconstructs_file_hash() {
    // A file with an empty chunk list is satisfied by a descriptor with its
    // hash; afterwards the file's content hash equals the declared hash.
    let payload: Vec<u8> = (100u8..120).collect();
    let h = sha1_hex_of(&payload);
    let mut blob: Vec<u8> = vec![0xeeu8; 5];
    blob.extend_from_slice(&payload);
    let files = vec![file("a.bin", 20, &h, vec![])];
    let bundle = Bundle { hash: "55".repeat(20), chunks: vec![chunk(20, &h, 5)] };
    let mut contents = vec![Vec::new()];
    let res = extract_bundle(&blob, &bundle, &files, &mut contents);
    assert!(res.is_ok());
    assert_eq!(contents[0], payload);
    assert!(content_is_current(&contents[0], &h));
}

#[test]
fn extraction_twice_is_idempotent() {
    let h1 = "66".repeat(20);
    let h2 = "77".repeat(20);
    let blob: Vec<u8> = (0u8..64).collect();
    let files = vec![
        file("a.bin", 16, &"88".repeat(20), vec![chunk(8, &h1, 0), chunk(8, &h2, 8)]),
        file("b.bin", 8, &h2, vec![]),
    ];
    let bundle = Bundle {
        hash: "99".repeat(20),
        chunks: vec![chunk(8, &h1, 10), chunk(8, &h2, 40)],
    };
    let mut once = vec![Vec::new(), Vec::new()];
    assert!(extract_bundle(&blob, &bundle, &files, &mut once).is_ok());
    let mut twice = once.clone();
    assert!(extract_bundle(&blob, &bundle, &files, &mut twice).is_ok());
    assert_eq!(once, twice);
}

#[test]
fn skip_if_current_decisions() {
    let h = "ab".repeat(20);
    let bundle = Bundle { hash: h.clone(), chunks: vec![] };
    assert_eq!(bundle_action(Some(&h), &bundle), SyncAction::Skip);
    let other = "cd".repeat(20);
    assert_eq!(bundle_action(Some(&other), &bundle), SyncAction::Fetch);
    assert_eq!(bundle_action(None, &bundle), SyncAction::Fetch);
    let f = file("a.bin", 1, &h, vec![]);
    assert_eq!(file_action(Some(&h), &f), SyncAction::Skip);
    assert_eq!(file_action(None, &f), SyncAction::Fetch);
    assert!(is_up_to_date(&h, &h));
    assert!(!is_up_to_date(&h, &other));
}

#[test]
fn resolution_failure_is_fatal_and_leaves_contents_untouched() {
    // A descriptor whose hash matches no placement fails the whole bundle.
    let blob: Vec<u8> = (0u8..32).collect();
    let files = vec![file("a.bin", 10, &"22".repeat(20), vec![chunk(4, &"11".repeat(20), 0)])];
    let bundle = Bundle { hash: "44".repeat(20), chunks: vec![chunk(4, &"f0".repeat(20), 2)] };
    let mut contents = vec![vec![9u8, 9, 9]];
    let res = extract_bundle(&blob, &bundle, &files, &mut contents);
    assert_eq!(res, Err(ExtractError::Resolution));
    assert_eq!(contents, vec![vec![9u8, 9, 9]]);
}

#[test]
fn short_read_is_fatal() {
    // A descriptor range past the end of the blob is a fatal short read.
    let h = "11".repeat(20);
    let blob: Vec<u8> = (0u8..8).collect();
    let files = vec![file("a.bin", 4, &h, vec![])];
    let bundle = Bundle { hash: "44".repeat(20), chunks: vec![chunk(4, &h, 6)] };
    let mut contents = vec![Vec::new()];
    let res = extract_bundle(&blob, &bundle, &files, &mut contents);
    assert_eq!(res, Err(ExtractError::ShortRead));
    assert_eq!(contents, vec![Vec::<u8>::new()]);
}

#[test]
fn single_descriptor_error_matches_chunk_level_error() {
    let blob: Vec<u8> = (0u8..8).collect();
    let files = vec![file("a.bin", 4, &"22".repeat(20), vec![])];
    let c = chunk(4, &"f0".repeat(20), 0);
    let mut contents = vec![Vec::new()];
    let res = extract_bundle_chunks(&blob, &c, &files, &mut contents);
    assert_eq!(res, Err(ExtractError::Resolution));
}

#[test]
fn end_to_end_scenario() {
    // Manifest: one fragment, one file {a.bin, size 20, hash H, chunks: []},
    // one bundle whose descriptor {hash H, size 20, offset 100}. A blob of
    // 120 bytes is fetched; extraction reads bytes [100, 120) and writes them
    // to the file at offset 0; the final content hash equals H.
    let blob: Vec<u8> = (0u8..120).map(|b| b.wrapping_mul(7)).collect();
    let payload = blob[100..120].to_vec();
    let h = sha1_hex_of(&payload);
    let bundle_hash = sha1_hex_of(&blob);
    let files = vec![file("a.bin", 20, &h, vec![])];
    let bundle = Bundle { hash: bundle_hash.clone(), chunks: vec![chunk(20, &h, 100)] };

    // The fetched blob carries the bundle's declared hash.
    assert!(content_is_current(&blob, &bundle_hash));
    // First run: nothing local, so the bundle is fetched and extracted.
    assert_eq!(bundle_action(None, &bundle), SyncAction::Fetch);
    let mut contents = vec![Vec::new()];
    assert!(extract_bundle(&blob, &bundle, &files, &mut contents).is_ok());
    assert_eq!(contents[0], payload);
    assert!(content_is_current(&contents[0], &h));
    // A second run sees the local blob's hash and skips the download.
    assert_eq!(bundle_action(Some(&bundle_hash), &bundle), SyncAction::Skip);
}

#[test]
fn content_check_uses_real_digest() {
    // Known SHA-1 vectors: the check fails if hashing returned its input.
    let abc = b"abc".to_vec();
    let h_abc = "a9993e364706816aba3e25717850c26c9cd0d89d".to_string();
    assert!(content_is_current(&abc, &h_abc));
    let empty: Vec<u8> = Vec::new();
    let h_empty = "da39a3ee5e6b4b0d3255bfef95601890afd80709".to_string();
    assert!(content_is_current(&empty, &h_empty));
    assert!(!content_is_current(&abc, &h_empty));
}
